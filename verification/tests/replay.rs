use db::{Db, HistoricalTrade, ReplayWindow};

fn ledger_of(len: i64) -> Db {
    let records: Vec<HistoricalTrade> = (0..len)
        .map(|id| HistoricalTrade {
            trade_id: id,
            price: String::from("1.5"),
            quantity: String::from("2"),
            quote_quantity: String::from("3"),
            time_milliseconds: id,
            is_buyer_maker: false,
            is_best_match: true,
        })
        .collect();
    Db::new(records).unwrap()
}

#[test]
fn window_of_a_single_trade_is_that_trade() {
    let db = ledger_of(1);
    for _ in 0..50 {
        assert_eq!(db.random_window(), ReplayWindow { start: 0, finish: 0 });
    }
}

#[test]
fn window_lies_within_the_ledger() {
    let db = ledger_of(7);
    for _ in 0..500 {
        let window = db.random_window();
        assert!(window.start <= window.finish);
        assert!(window.finish < db.get_data_len());
        for position in window.start..=window.finish {
            let trade = db.get_data(position);
            assert_eq!(trade.trade_id, 6 - position as i64);
        }
    }
}

#[test]
fn windows_are_drawn_not_fixed() {
    let db = ledger_of(1000);
    let mut starts_off_the_new_end = false;
    let mut finishes_off_the_start = false;
    for _ in 0..200 {
        let window = db.random_window();
        starts_off_the_new_end |= window.start != 0;
        finishes_off_the_start |= window.finish != window.start;
    }
    assert!(starts_off_the_new_end);
    assert!(finishes_off_the_start);
}

#[test]
fn window_between_two_draws_starts_at_the_first() {
    assert_eq!(ReplayWindow::between(2, 5), ReplayWindow { start: 2, finish: 5 });
    assert_eq!(ReplayWindow::between(0, 0), ReplayWindow { start: 0, finish: 0 });
    let window = ReplayWindow::between(7, 3);
    assert_eq!(window.start, 7);
    assert_eq!(window.finish, 3);
}
