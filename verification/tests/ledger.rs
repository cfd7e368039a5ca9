use db::{Db, HistoricalTrade, LedgerError, BATCH_LIMIT};

fn trade(trade_id: i64, time_milliseconds: i64) -> HistoricalTrade {
    HistoricalTrade {
        trade_id,
        price: format!("0.0{}", trade_id),
        quantity: String::from("0.00160000"),
        quote_quantity: String::from("0.00011042"),
        time_milliseconds,
        is_buyer_maker: trade_id % 2 == 0,
        is_best_match: true,
    }
}

fn trades(ids: &[i64]) -> Vec<HistoricalTrade> {
    ids.iter().map(|id| trade(*id, 1_652_614_000_000 + *id)).collect()
}

fn ids_of(db: &Db) -> Vec<i64> {
    db.get_all_data_cloned().iter().map(|t| t.trade_id).collect()
}

#[test]
fn extends_with_older_batch_then_refuses_overlap() {
    let mut db = Db::new(trades(&[100, 101, 102])).unwrap();
    assert_eq!(db.get_min_trade_id(), 100);
    assert_eq!(db.load_more_data(trades(&[97, 98, 99])), Ok(()));
    assert_eq!(db.get_data_len(), 6);
    assert_eq!(db.get_min_trade_id(), 97);
    assert_eq!(
        db.load_more_data(trades(&[99, 100])),
        Err(LedgerError::IntersectingRangeError { old_min_id: 97, new_batch_id: 99 })
    );
    assert_eq!(db.get_data_len(), 6);
    assert_eq!(ids_of(&db), vec![97, 98, 99, 100, 101, 102]);
}

#[test]
fn new_refuses_an_empty_archive() {
    let built = Db::new(Vec::new());
    assert_eq!(built.unwrap_err(), LedgerError::EmptyArchiveError);
}

#[test]
fn from_refuses_no_trades() {
    let built = Db::from(Vec::new());
    assert_eq!(built.unwrap_err(), LedgerError::EmptyArchiveError);
}

#[test]
fn new_takes_a_single_trade() {
    let db = Db::new(trades(&[7])).unwrap();
    assert_eq!(db.get_data_len(), 1);
    assert_eq!(db.get_min_trade_id(), 7);
    assert_eq!(db.get_max_trade_id(), 7);
    assert_eq!(db.get_data(0).trade_id, 7);
}

#[test]
fn new_sorts_whatever_order_the_archive_holds() {
    let db = Db::new(trades(&[102, 100, 105, 101, 104, 103])).unwrap();
    assert_eq!(ids_of(&db), vec![100, 101, 102, 103, 104, 105]);
    assert_eq!(db.get_min_trade_id(), 100);
    assert_eq!(db.get_max_trade_id(), 105);
}

#[test]
fn new_sorts_a_descending_archive() {
    let db = Db::new(trades(&[5, 4, 3, 2, 1])).unwrap();
    assert_eq!(ids_of(&db), vec![1, 2, 3, 4, 5]);
}

#[test]
fn new_keeps_trades_of_equal_id_in_their_order() {
    let mut first = trade(5, 10);
    first.price = String::from("first");
    let mut second = trade(5, 11);
    second.price = String::from("second");
    let mut third = trade(5, 12);
    third.price = String::from("third");
    let db = Db::new(vec![trade(9, 1), first, trade(1, 2), second, third]).unwrap();
    let held = db.get_all_data_cloned();
    let prices: Vec<&str> = held.iter().map(|t| t.price.as_str()).collect();
    assert_eq!(ids_of(&db), vec![1, 5, 5, 5, 9]);
    assert_eq!(prices[1..4], ["first", "second", "third"]);
}

#[test]
fn from_keeps_the_given_order() {
    let db = Db::from(trades(&[3, 1, 2])).unwrap();
    assert_eq!(ids_of(&db), vec![3, 1, 2]);
    assert_eq!(db.get_min_trade_id(), 3);
    assert_eq!(db.get_max_trade_id(), 2);
}

#[test]
fn accessors_report_the_ends() {
    let db = Db::new(vec![trade(11, 500), trade(10, 400), trade(12, 600)]).unwrap();
    assert_eq!(db.get_data_len(), 3);
    assert_eq!(db.get_min_trade_id(), 10);
    assert_eq!(db.get_max_trade_id(), 12);
    assert_eq!(db.get_min_time_milliseconds(), 400);
}

#[test]
fn get_data_counts_from_the_newest_trade() {
    let db = Db::new(trades(&[100, 101, 102])).unwrap();
    assert_eq!(db.get_data(0).trade_id, 102);
    assert_eq!(db.get_data(1).trade_id, 101);
    assert_eq!(db.get_data(2).trade_id, 100);
}

#[test]
fn get_data_positions_stay_when_the_ledger_grows() {
    let mut db = Db::new(trades(&[100, 101, 102])).unwrap();
    let newest = db.get_data(0).clone();
    let second = db.get_data(1).clone();
    db.load_more_data(trades(&[97, 98, 99])).unwrap();
    assert_eq!(*db.get_data(0), newest);
    assert_eq!(*db.get_data(1), second);
    assert_eq!(db.get_data(3).trade_id, 99);
    assert_eq!(db.get_data(5).trade_id, 97);
}

#[test]
fn get_all_data_cloned_copies_every_field() {
    let given = trades(&[2, 1]);
    let db = Db::new(trades(&[2, 1])).unwrap();
    let copies = db.get_all_data_cloned();
    assert_eq!(copies.len(), 2);
    assert_eq!(copies[0], given[1]);
    assert_eq!(copies[1], given[0]);
    assert_eq!(copies[0].price, "0.01");
    assert_eq!(copies[0].quantity, "0.00160000");
    assert_eq!(copies[0].quote_quantity, "0.00011042");
    assert!(!copies[0].is_buyer_maker);
    assert!(copies[1].is_buyer_maker);
    assert!(copies[0].is_best_match);
}

#[test]
fn decimal_text_is_kept_letter_for_letter() {
    let mut odd = trade(1, 1);
    odd.price = String::from("0.06901500");
    odd.quantity = String::from("1e-3");
    odd.quote_quantity = String::from("000.100");
    let db = Db::new(vec![trade(2, 2), odd]).unwrap();
    let oldest = db.get_data(1);
    assert_eq!(oldest.price, "0.06901500");
    assert_eq!(oldest.quantity, "1e-3");
    assert_eq!(oldest.quote_quantity, "000.100");
}

#[test]
fn batch_limit_is_one_thousand() {
    assert_eq!(BATCH_LIMIT, 1000);
}

#[test]
fn target_from_id_is_a_batch_below_the_oldest_id() {
    let db = Db::new(trades(&[340_327_051, 340_327_052])).unwrap();
    assert_eq!(db.target_from_id(), 340_326_051);
    let low = Db::new(trades(&[5])).unwrap();
    assert_eq!(low.target_from_id(), -995);
    let lowest = Db::new(trades(&[i64::MIN + 1000])).unwrap();
    assert_eq!(lowest.target_from_id(), i64::MIN);
}

#[test]
fn empty_batch_is_refused_and_changes_nothing() {
    let mut db = Db::new(trades(&[100, 101, 102])).unwrap();
    let before = db.get_all_data_cloned();
    assert_eq!(db.load_more_data(Vec::new()), Err(LedgerError::EmptyBatchError));
    assert_eq!(db.get_all_data_cloned(), before);
    assert_eq!(db.get_data_len(), 3);
    assert_eq!(db.get_min_trade_id(), 100);
    assert_eq!(db.get_max_trade_id(), 102);
    assert_eq!(db.get_min_time_milliseconds(), before[0].time_milliseconds);
}

#[test]
fn batch_that_begins_at_the_oldest_id_is_refused() {
    let mut db = Db::new(trades(&[100, 101, 102])).unwrap();
    let before = db.get_all_data_cloned();
    assert_eq!(
        db.load_more_data(trades(&[100])),
        Err(LedgerError::IntersectingRangeError { old_min_id: 100, new_batch_id: 100 })
    );
    assert_eq!(db.get_all_data_cloned(), before);
}

#[test]
fn batch_that_begins_above_the_oldest_id_is_refused() {
    let mut db = Db::new(trades(&[100, 101, 102])).unwrap();
    let before = db.get_all_data_cloned();
    assert_eq!(
        db.load_more_data(trades(&[101, 50])),
        Err(LedgerError::IntersectingRangeError { old_min_id: 100, new_batch_id: 101 })
    );
    assert_eq!(db.get_all_data_cloned(), before);
    assert_eq!(db.get_min_trade_id(), 100);
    assert_eq!(db.get_data_len(), 3);
}

#[test]
fn batch_just_below_the_oldest_id_is_taken() {
    let mut db = Db::new(trades(&[100, 101, 102])).unwrap();
    assert_eq!(db.load_more_data(trades(&[99])), Ok(()));
    assert_eq!(ids_of(&db), vec![99, 100, 101, 102]);
    assert_eq!(db.get_min_time_milliseconds(), 1_652_614_000_099);
}

#[test]
fn batch_is_sorted_before_it_is_put_ahead() {
    let mut db = Db::new(trades(&[100, 101, 102])).unwrap();
    assert_eq!(db.load_more_data(trades(&[95, 99, 97, 96, 98])), Ok(()));
    assert_eq!(ids_of(&db), vec![95, 96, 97, 98, 99, 100, 101, 102]);
    assert_eq!(db.get_min_trade_id(), 95);
    assert_eq!(db.get_max_trade_id(), 102);
}

#[test]
fn only_the_first_trade_of_a_batch_is_held_against_the_ledger() {
    let mut gap = Db::new(trades(&[100, 101])).unwrap();
    assert_eq!(gap.load_more_data(trades(&[90, 91])), Ok(()));
    assert_eq!(ids_of(&gap), vec![90, 91, 100, 101]);

    let mut overlap = Db::new(trades(&[100, 101])).unwrap();
    assert_eq!(overlap.load_more_data(trades(&[97, 98, 150])), Ok(()));
    assert_eq!(ids_of(&overlap), vec![97, 98, 150, 100, 101]);
    assert_eq!(overlap.get_min_trade_id(), 97);
}

#[test]
fn growth_is_the_sum_of_the_batches() {
    let mut db = Db::new(trades(&[5000, 5001, 5002])).unwrap();
    let mut expected_len = db.get_data_len();
    let mut last_min = db.get_min_trade_id();
    for round in 0..4 {
        let from_id = db.target_from_id();
        assert_eq!(from_id, last_min - 1000);
        let size = 1000 - round * 100;
        let batch: Vec<i64> = (from_id..from_id + size).collect();
        assert_eq!(db.load_more_data(trades(&batch)), Ok(()));
        expected_len += batch.len();
        assert_eq!(db.get_data_len(), expected_len);
        assert!(db.get_min_trade_id() < last_min);
        last_min = db.get_min_trade_id();
        assert_eq!(db.get_max_trade_id(), 5002);
    }
    assert_eq!(db.get_data_len(), 3 + 1000 + 900 + 800 + 700);
    assert_eq!(db.get_min_trade_id(), 1000);
}

#[test]
fn reloading_what_a_ledger_holds_gives_the_ledger_back() {
    let mut db = Db::new(trades(&[100, 101, 102])).unwrap();
    db.load_more_data(trades(&[97, 98, 99])).unwrap();
    let mut written = db.get_all_data_cloned();
    written.reverse();
    written.swap(0, 3);
    let reloaded = Db::new(written).unwrap();
    assert_eq!(reloaded.get_all_data_cloned(), db.get_all_data_cloned());
    assert_eq!(reloaded.get_data_len(), db.get_data_len());
    assert_eq!(reloaded.get_min_trade_id(), db.get_min_trade_id());
    assert_eq!(reloaded.get_max_trade_id(), db.get_max_trade_id());
    assert_eq!(reloaded.get_min_time_milliseconds(), db.get_min_time_milliseconds());
}

#[test]
fn loading_twice_gives_the_same_ledger() {
    let first = Db::new(trades(&[3, 1, 2, 2, 5])).unwrap();
    let second = Db::new(trades(&[3, 1, 2, 2, 5])).unwrap();
    assert_eq!(first.get_all_data_cloned(), second.get_all_data_cloned());
    assert_eq!(first.get_data_len(), second.get_data_len());
    assert_eq!(first.get_min_trade_id(), second.get_min_trade_id());
    assert_eq!(first.get_max_trade_id(), second.get_max_trade_id());
    assert_eq!(first.get_min_time_milliseconds(), second.get_min_time_milliseconds());
}

#[test]
fn loaded_ledger_is_ordered_by_id_and_by_time() {
    let db = Db::new(vec![trade(30, 300), trade(10, 100), trade(20, 100), trade(40, 999)])
        .unwrap();
    let held = db.get_all_data_cloned();
    for pair in held.windows(2) {
        assert!(pair[0].trade_id < pair[1].trade_id);
        assert!(pair[0].time_milliseconds <= pair[1].time_milliseconds);
    }
}

#[test]
fn extended_ledger_is_ordered_by_id_and_by_time() {
    let mut db = Db::new(vec![trade(30, 300), trade(40, 400)]).unwrap();
    db.load_more_data(vec![trade(10, 100), trade(20, 200)]).unwrap();
    db.load_more_data(vec![trade(1, 50), trade(9, 100), trade(5, 70)]).unwrap();
    let held = db.get_all_data_cloned();
    assert_eq!(held.len(), 7);
    for pair in held.windows(2) {
        assert!(pair[0].trade_id < pair[1].trade_id);
        assert!(pair[0].time_milliseconds <= pair[1].time_milliseconds);
    }
}
