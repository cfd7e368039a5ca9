//! What holds of every ledger, stated over the contents of ledgers and
//! batches and proved from the definitions the contracts use.

use vstd::prelude::*;
use crate::ledger::{batch_fits, extended_with, Db};
use crate::order::{
    ascending_by_id, ascending_by_time, canonical_order, distinct_ids, is_rearrangement,
    lemma_ascending_is_canonical, lemma_canonical_order_ends,
    lemma_canonical_order_ignores_given_order, lemma_canonical_order_len,
    lemma_canonical_order_rearranges, lemma_rearrangement_keeps_record_facts,
    lemma_rearrangement_chains, lemma_rearrangement_turns, rearranged_by, times_follow_ids,
};
use crate::trade::TradeView;

verus! {

/// Writing a ledger out and loading it again gives the ledger back. If the
/// trades of a ledger are in ascending order of distinct ids, then loading
/// them, in whatever order they were written, yields those trades in that
/// order, and so the same length and the same oldest and newest trade.
pub proof fn law_reload_restores_ledger(stored: Seq<TradeView>, written: Seq<TradeView>)
    requires
        ascending_by_id(stored),
        distinct_ids(stored),
        is_rearrangement(stored, written),
    ensures
        canonical_order(written) == stored,
{
    lemma_canonical_order_ignores_given_order(stored, written);
    lemma_ascending_is_canonical(stored);
}

/// Loading never adds, drops or changes a trade: a loaded ledger holds the
/// trades of the archive, each as often as the archive does.
pub proof fn law_load_keeps_every_record(records: Seq<TradeView>)
    ensures
        is_rearrangement(records, canonical_order(records)),
        canonical_order(records).len() == records.len(),
{
    lemma_canonical_order_rearranges(records);
    lemma_canonical_order_len(records);
}

/// Whatever the order of a ledger's trades, loading what it wrote, in
/// whatever order it was written, yields the same trades, each as often.
pub proof fn law_reload_keeps_every_record(stored: Seq<TradeView>, written: Seq<TradeView>)
    requires
        is_rearrangement(stored, written),
    ensures
        is_rearrangement(stored, canonical_order(written)),
{
    lemma_canonical_order_rearranges(written);
    lemma_rearrangement_chains(stored, written, canonical_order(written));
}

/// The ends of a loaded ledger are derived from the trades themselves: no
/// trade of the archive has a smaller id than the ledger's oldest trade, and
/// none a larger id than its newest.
pub proof fn law_loaded_ends_are_extremes(records: Seq<TradeView>)
    requires
        records.len() > 0,
    ensures
        forall|j: int|
            0 <= j < records.len() ==> canonical_order(records).first().trade_id
                <= #[trigger] records[j].trade_id,
        forall|j: int|
            0 <= j < records.len() ==> #[trigger] records[j].trade_id <= canonical_order(
                records,
            ).last().trade_id,
{
    lemma_canonical_order_ends(records);
}

/// A loaded ledger is in ascending order of trade id. Where times follow
/// ids among the archive's trades, they do so in the ledger; where the ids
/// are distinct as well, the ledger is in ascending order of time too.
pub proof fn law_load_orders_by_id_and_time(records: Seq<TradeView>)
    ensures
        ascending_by_id(canonical_order(records)),
        times_follow_ids(records) ==> times_follow_ids(canonical_order(records)),
        times_follow_ids(records) && distinct_ids(records) ==> ascending_by_time(
            canonical_order(records),
        ),
{
    lemma_canonical_order_ends(records);
    lemma_canonical_order_rearranges(records);
    lemma_rearrangement_keeps_record_facts(records, canonical_order(records));
}

/// A ledger that has taken in a batch is in ascending order of trade id
/// exactly when it was so before and no trade of the batch has a larger id
/// than the ledger's oldest trade had.
pub proof fn law_extension_orders_by_id(store: Seq<TradeView>, batch: Seq<TradeView>)
    requires
        store.len() > 0,
    ensures
        ascending_by_id(extended_with(store, batch)) <==> ascending_by_id(store) && forall|
            j: int,
        |
            0 <= j < batch.len() ==> #[trigger] batch[j].trade_id <= store.first().trade_id,
{
    let sorted = canonical_order(batch);
    let joined = extended_with(store, batch);
    let n = sorted.len() as int;
    lemma_canonical_order_ends(batch);
    lemma_canonical_order_len(batch);
    if ascending_by_id(joined) {
        assert forall|i: int, j: int| 0 <= i < j < store.len() implies store[i].trade_id
            <= store[j].trade_id by {
            assert(joined[n + i] == store[i] && joined[n + j] == store[j]);
        }
        assert forall|j: int| 0 <= j < batch.len() implies #[trigger] batch[j].trade_id
            <= store.first().trade_id by {
            assert(joined[n - 1] == sorted.last());
            assert(joined[n] == store[0]);
        }
    }
    if ascending_by_id(store) && forall|j: int|
        0 <= j < batch.len() ==> #[trigger] batch[j].trade_id <= store.first().trade_id {
        lemma_canonical_order_rearranges(batch);
        lemma_rearrangement_turns(batch, sorted);
        let (p, q) = choose|p: Seq<int>, q: Seq<int>|
            rearranged_by(sorted, batch, p, q);
        assert forall|i: int, j: int| 0 <= i < j < joined.len() implies joined[i].trade_id
            <= joined[j].trade_id by {
            if j < n {
                assert(joined[i] == sorted[i] && joined[j] == sorted[j]);
            } else if i >= n {
                assert(joined[i] == store[i - n] && joined[j] == store[j - n]);
            } else {
                assert(joined[i] == sorted[i] && joined[j] == store[j - n]);
                assert(p[q[i]] == i);
                assert(batch[q[i]] == sorted[p[q[i]]]);
                assert(batch[q[i]].trade_id <= store.first().trade_id);
                if j > n {
                    assert(store[0].trade_id <= store[j - n].trade_id);
                }
            }
        }
    }
}

/// Where times follow ids among the trades of a ledger and of a batch
/// taken together, they do so in the ledger that has taken in the batch;
/// if that ledger is in ascending order of distinct ids, it is in ascending
/// order of time too.
pub proof fn law_extension_orders_by_time(store: Seq<TradeView>, batch: Seq<TradeView>)
    requires
        times_follow_ids(batch + store),
    ensures
        times_follow_ids(extended_with(store, batch)),
        ascending_by_id(extended_with(store, batch)) && distinct_ids(extended_with(store, batch))
            ==> ascending_by_time(extended_with(store, batch)),
{
    let sorted = canonical_order(batch);
    let given = batch + store;
    let joined = extended_with(store, batch);
    let n = sorted.len() as int;
    lemma_canonical_order_len(batch);
    lemma_canonical_order_rearranges(batch);
    lemma_rearrangement_turns(batch, sorted);
    let (p, q) = choose|p: Seq<int>, q: Seq<int>| rearranged_by(sorted, batch, p, q);
    // Every trade of the joined run stands somewhere in the given one.
    assert forall|i: int| 0 <= i < joined.len() implies exists|k: int|
        0 <= k < given.len() && given[k] == #[trigger] joined[i] by {
        if i < n {
            assert(p[q[i]] == i);
            assert(batch[q[i]] == sorted[p[q[i]]]);
            assert(given[q[i]] == joined[i]);
        } else {
            assert(given[i] == joined[i]);
        }
    }
    assert forall|i: int, j: int|
        0 <= i < joined.len() && 0 <= j < joined.len() && joined[i].trade_id
            < joined[j].trade_id implies joined[i].time_milliseconds
        <= joined[j].time_milliseconds by {
        let a = choose|k: int| 0 <= k < given.len() && given[k] == joined[i];
        let b = choose|k: int| 0 <= k < given.len() && given[k] == joined[j];
        assert(given[a].trade_id < given[b].trade_id);
    }
}

/// A ledger that takes in a batch grows by the batch's length, its oldest
/// trade id becomes strictly smaller, and the trades it held keep their
/// positions counted from the new end.
pub proof fn law_extension_grows_backwards(store: Seq<TradeView>, batch: Seq<TradeView>)
    requires
        store.len() > 0,
        batch_fits(store, batch),
    ensures
        extended_with(store, batch).len() == store.len() + batch.len(),
        extended_with(store, batch).first().trade_id < store.first().trade_id,
        forall|idx: int|
            0 <= idx < store.len() ==> #[trigger] extended_with(
                store,
                batch,
            )[extended_with(store, batch).len() - 1 - idx] == store[store.len() - 1 - idx],
{
    lemma_canonical_order_len(batch);
    lemma_canonical_order_ends(batch);
}

/// Whether a ledger holding `store` takes in every batch of `batches`, one
/// after the other.
pub open spec fn all_batches_fit(store: Seq<TradeView>, batches: Seq<Seq<TradeView>>) -> bool
    decreases batches.len(),
{
    batches.len() == 0 || (batch_fits(store, batches.first()) && all_batches_fit(
        extended_with(store, batches.first()),
        batches.drop_first(),
    ))
}

/// What a ledger holding `store` holds once it has taken in every batch of
/// `batches`, one after the other.
pub open spec fn extended_with_all(store: Seq<TradeView>, batches: Seq<Seq<TradeView>>) -> Seq<
    TradeView,
>
    decreases batches.len(),
{
    if batches.len() == 0 {
        store
    } else {
        extended_with_all(extended_with(store, batches.first()), batches.drop_first())
    }
}

/// The number of trades in all of `batches`.
pub open spec fn total_len(batches: Seq<Seq<TradeView>>) -> nat
    decreases batches.len(),
{
    if batches.len() == 0 {
        0
    } else {
        batches.first().len() + total_len(batches.drop_first())
    }
}

/// A ledger that takes in batch after batch grows by exactly the number of
/// trades in the batches, and its oldest trade id is strictly smaller at the
/// end than at the start unless there was no batch.
pub proof fn law_growth_is_the_sum_of_batches(
    store: Seq<TradeView>,
    batches: Seq<Seq<TradeView>>,
)
    requires
        store.len() > 0,
        all_batches_fit(store, batches),
    ensures
        extended_with_all(store, batches).len() == store.len() + total_len(batches),
        batches.len() > 0 ==> extended_with_all(store, batches).first().trade_id
            < store.first().trade_id,
        batches.len() == 0 ==> extended_with_all(store, batches) == store,
    decreases batches.len(),
{
    if batches.len() > 0 {
        let next = extended_with(store, batches.first());
        law_extension_grows_backwards(store, batches.first());
        law_growth_is_the_sum_of_batches(next, batches.drop_first());
    }
}

/// Two ledgers loaded from the same archive cannot be told apart: they hold
/// the same trades in the same order, so every accessor answers alike.
pub proof fn law_load_is_repeatable(first: Db, second: Db, records: Seq<TradeView>)
    requires
        first@ == canonical_order(records),
        second@ == canonical_order(records),
    ensures
        first@ == second@,
        first@.len() == second@.len(),
        first.wf() ==> first@.first() == second@.first() && first@.last() == second@.last(),
{
}

} // verus!
