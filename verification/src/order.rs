//! The canonical order of a run of trades: ascending by trade id, records
//! with the same id in the order in which they arrived.

use vstd::prelude::*;
use crate::trade::{trade_views, HistoricalTrade, TradeView};

verus! {

/// The trade ids never decrease along `s`.
pub open spec fn ascending_by_id(s: Seq<TradeView>) -> bool {
    forall|i: int, j: int| 0 <= i < j < s.len() ==> s[i].trade_id <= s[j].trade_id
}

/// No two records of `s` share a trade id.
pub open spec fn distinct_ids(s: Seq<TradeView>) -> bool {
    forall|i: int, j: int|
        0 <= i < s.len() && 0 <= j < s.len() && i != j ==> s[i].trade_id != s[j].trade_id
}

/// The times never decrease along `s`.
pub open spec fn ascending_by_time(s: Seq<TradeView>) -> bool {
    forall|i: int, j: int|
        0 <= i < j < s.len() ==> s[i].time_milliseconds <= s[j].time_milliseconds
}

/// Among the records of `s`, a larger trade id never comes with an earlier
/// time. This speaks of the records, not of their positions.
pub open spec fn times_follow_ids(s: Seq<TradeView>) -> bool {
    forall|i: int, j: int|
        0 <= i < s.len() && 0 <= j < s.len() && s[i].trade_id < s[j].trade_id
            ==> s[i].time_milliseconds <= s[j].time_milliseconds
}

/// `p` and `q` renumber the positions `0..n` and undo each other.
pub open spec fn inverse_renumberings(n: nat, p: Seq<int>, q: Seq<int>) -> bool {
    &&& p.len() == n
    &&& q.len() == n
    &&& forall|i: int| 0 <= i < n ==> 0 <= #[trigger] p[i] < n && q[p[i]] == i
    &&& forall|j: int| 0 <= j < n ==> 0 <= #[trigger] q[j] < n && p[q[j]] == j
}

/// `after` holds the records of `before` in another order: position `i` of
/// `after` took the record at position `p[i]` of `before`, and `q` leads back.
pub open spec fn rearranged_by(
    before: Seq<TradeView>,
    after: Seq<TradeView>,
    p: Seq<int>,
    q: Seq<int>,
) -> bool {
    &&& after.len() == before.len()
    &&& inverse_renumberings(before.len(), p, q)
    &&& forall|i: int| 0 <= i < after.len() ==> #[trigger] after[i] == before[p[i]]
}

/// `after` holds exactly the records of `before`, in some order.
pub open spec fn is_rearrangement(before: Seq<TradeView>, after: Seq<TradeView>) -> bool {
    exists|p: Seq<int>, q: Seq<int>| rearranged_by(before, after, p, q)
}

/// `after` is `before` sorted by trade id, and `p` shows that records with
/// the same id kept their relative order.
pub open spec fn sorted_stably_by(
    before: Seq<TradeView>,
    after: Seq<TradeView>,
    p: Seq<int>,
    q: Seq<int>,
) -> bool {
    &&& rearranged_by(before, after, p, q)
    &&& ascending_by_id(after)
    &&& forall|i: int, j: int|
        0 <= i < j < after.len() && after[i].trade_id == after[j].trade_id ==> p[i] < p[j]
}

/// `after` is a stable sort of `before` by trade id: the same records,
/// ascending by id, records of equal id in their order in `before`.
pub open spec fn is_stable_sort_by_id(before: Seq<TradeView>, after: Seq<TradeView>) -> bool {
    exists|p: Seq<int>, q: Seq<int>| sorted_stably_by(before, after, p, q)
}

/// Where a record with trade id `id` goes into the sorted run `r`: behind the
/// last record whose id is not larger.
pub open spec fn insertion_point(r: Seq<TradeView>, id: int) -> int
    decreases r.len(),
{
    if r.len() == 0 || r.last().trade_id <= id {
        r.len() as int
    } else {
        insertion_point(r.drop_last(), id)
    }
}

/// `r` with `x` put in at position `k`.
pub open spec fn with_record_at(r: Seq<TradeView>, k: int, x: TradeView) -> Seq<TradeView> {
    Seq::new(
        r.len() + 1,
        |i: int|
            if i < k {
                r[i]
            } else if i == k {
                x
            } else {
                r[i - 1]
            },
    )
}

/// The canonical order of the records of `s`: each record in turn takes its
/// place among the ones before it.
pub open spec fn canonical_order(s: Seq<TradeView>) -> Seq<TradeView>
    decreases s.len(),
{
    if s.len() == 0 {
        Seq::empty()
    } else {
        let r = canonical_order(s.drop_last());
        with_record_at(r, insertion_point(r, s.last().trade_id), s.last())
    }
}

/// In a sorted run the insertion point parts the ids that are not larger
/// than `id` from the ones that are.
proof fn lemma_insertion_point_parts(r: Seq<TradeView>, id: int)
    requires
        ascending_by_id(r),
    ensures
        0 <= insertion_point(r, id) <= r.len(),
        forall|i: int| 0 <= i < insertion_point(r, id) ==> r[i].trade_id <= id,
        forall|i: int| insertion_point(r, id) <= i < r.len() ==> r[i].trade_id > id,
    decreases r.len(),
{
    if r.len() == 0 || r.last().trade_id <= id {
    } else {
        let front = r.drop_last();
        assert forall|i: int, j: int| 0 <= i < j < front.len() implies front[i].trade_id
            <= front[j].trade_id by {
            assert(front[i] == r[i] && front[j] == r[j]);
        }
        lemma_insertion_point_parts(front, id);
        assert forall|i: int| 0 <= i < insertion_point(r, id) implies r[i].trade_id <= id by {
            assert(front[i] == r[i]);
        }
        assert forall|i: int| insertion_point(r, id) <= i < r.len() implies r[i].trade_id
            > id by {
            if i < front.len() {
                assert(front[i] == r[i]);
            }
        }
    }
}

/// Putting one more record in at its insertion point keeps a stable sort
/// a stable sort.
proof fn lemma_placing_keeps_stable_sort(
    s: Seq<TradeView>,
    r: Seq<TradeView>,
    p: Seq<int>,
    q: Seq<int>,
    x: TradeView,
)
    requires
        sorted_stably_by(s, r, p, q),
    ensures
        is_stable_sort_by_id(
            s.push(x),
            with_record_at(r, insertion_point(r, x.trade_id), x),
        ),
{
    let n = s.len() as int;
    let k = insertion_point(r, x.trade_id);
    lemma_insertion_point_parts(r, x.trade_id);
    let grown = s.push(x);
    let placed = with_record_at(r, k, x);
    let from = Seq::new(
        grown.len(),
        |i: int|
            if i < k {
                p[i]
            } else if i == k {
                n
            } else {
                p[i - 1]
            },
    );
    let back = Seq::new(
        grown.len(),
        |j: int|
            if j == n {
                k
            } else if q[j] < k {
                q[j]
            } else {
                q[j] + 1
            },
    );
    assert forall|i: int| 0 <= i < n + 1 implies 0 <= #[trigger] from[i] < n + 1 && back[from[i]]
        == i by {
        if i < k {
            assert(q[p[i]] == i);
        } else if i > k {
            assert(q[p[i - 1]] == i - 1);
        }
    }
    assert forall|j: int| 0 <= j < n + 1 implies 0 <= #[trigger] back[j] < n + 1 && from[back[j]]
        == j by {
        if j < n {
            assert(p[q[j]] == j);
        }
    }
    assert forall|i: int| 0 <= i < placed.len() implies #[trigger] placed[i] == grown[from[i]] by {
        if i < k {
            assert(r[i] == s[p[i]]);
        } else if i > k {
            assert(r[i - 1] == s[p[i - 1]]);
        }
    }
    assert(rearranged_by(grown, placed, from, back));
    assert(ascending_by_id(placed));
    assert forall|i: int, j: int|
        0 <= i < j < placed.len() && placed[i].trade_id == placed[j].trade_id implies from[i]
        < from[j] by {
        if j == k {
            assert(from[i] == p[i]);
        } else if i == k {
            assert(placed[j] == r[j - 1]);
        } else {
            let i0 = if i < k { i } else { i - 1 };
            let j0 = if j < k { j } else { j - 1 };
            assert(placed[i] == r[i0] && placed[j] == r[j0]);
            assert(from[i] == p[i0] && from[j] == p[j0]);
        }
    }
    assert(sorted_stably_by(grown, placed, from, back));
}

/// The canonical order of a run is its stable sort by trade id.
pub proof fn lemma_canonical_order_sorts(s: Seq<TradeView>)
    ensures
        is_stable_sort_by_id(s, canonical_order(s)),
    decreases s.len(),
{
    if s.len() == 0 {
        let e = Seq::<int>::empty();
        assert(sorted_stably_by(s, canonical_order(s), e, e));
    } else {
        let front = s.drop_last();
        lemma_canonical_order_sorts(front);
        let r = canonical_order(front);
        let (p, q) = choose|p: Seq<int>, q: Seq<int>| sorted_stably_by(front, r, p, q);
        lemma_placing_keeps_stable_sort(front, r, p, q, s.last());
        assert(front.push(s.last()) =~= s);
    }
}

/// Two stable sorts of the same run took every record from the same place.
proof fn lemma_same_source_positions(
    s: Seq<TradeView>,
    a: Seq<TradeView>,
    pa: Seq<int>,
    qa: Seq<int>,
    b: Seq<TradeView>,
    pb: Seq<int>,
    qb: Seq<int>,
    k: int,
)
    requires
        sorted_stably_by(s, a, pa, qa),
        sorted_stably_by(s, b, pb, qb),
        0 <= k <= s.len(),
    ensures
        forall|i: int| 0 <= i < k ==> pa[i] == pb[i],
    decreases k,
{
    if k > 0 {
        lemma_same_source_positions(s, a, pa, qa, b, pb, qb, k - 1);
        let i = k - 1;
        let x = pa[i];
        let y = pb[i];
        if x != y {
            // `b` holds the record from `x` at `j`, and `a` the one from `y` at `l`.
            let j = qb[x];
            let l = qa[y];
            assert(pb[j] == x && pa[l] == y);
            // Neither stands before `i`, where the two sorts agree.
            if j < i {
                assert(pa[j] == x);
                assert(qa[pa[j]] == j && qa[pa[i]] == i);
            }
            if l < i {
                assert(pb[l] == y);
                assert(qb[pb[l]] == l && qb[pb[i]] == i);
            }
            assert(i < j && i < l);
            // So each sort puts one of the two records first: their ids are
            // equal, and each came from before the other.
            assert(b[i] == s[y] && b[j] == s[x]);
            assert(a[i] == s[x] && a[l] == s[y]);
            assert(s[x].trade_id == s[y].trade_id);
            assert(pb[i] < pb[j] && pa[i] < pa[l]);
        }
    }
}

/// A run of trades has only one stable sort by trade id.
pub proof fn lemma_stable_sort_is_unique(s: Seq<TradeView>, a: Seq<TradeView>, b: Seq<TradeView>)
    requires
        is_stable_sort_by_id(s, a),
        is_stable_sort_by_id(s, b),
    ensures
        a == b,
{
    let (pa, qa) = choose|p: Seq<int>, q: Seq<int>| sorted_stably_by(s, a, p, q);
    let (pb, qb) = choose|p: Seq<int>, q: Seq<int>| sorted_stably_by(s, b, p, q);
    lemma_same_source_positions(s, a, pa, qa, b, pb, qb, s.len() as int);
    assert forall|i: int| 0 <= i < a.len() implies a[i] == b[i] by {
        assert(a[i] == s[pa[i]]);
        assert(b[i] == s[pb[i]]);
    }
    assert(a =~= b);
}

/// The canonical order of a run has as many records as the run.
pub proof fn lemma_canonical_order_len(s: Seq<TradeView>)
    ensures
        canonical_order(s).len() == s.len(),
{
    lemma_canonical_order_sorts(s);
}

/// The canonical order is ascending by trade id, and no record of the run
/// has a smaller id than its first record, nor a larger one than its last.
pub proof fn lemma_canonical_order_ends(s: Seq<TradeView>)
    ensures
        ascending_by_id(canonical_order(s)),
        forall|j: int|
            0 <= j < s.len() ==> canonical_order(s).first().trade_id <= #[trigger] s[j].trade_id,
        forall|j: int|
            0 <= j < s.len() ==> #[trigger] s[j].trade_id <= canonical_order(s).last().trade_id,
{
    lemma_canonical_order_sorts(s);
    let r = canonical_order(s);
    let (p, q) = choose|p: Seq<int>, q: Seq<int>| sorted_stably_by(s, r, p, q);
    assert forall|j: int| 0 <= j < s.len() implies r.first().trade_id <= #[trigger] s[j].trade_id
        && s[j].trade_id <= r.last().trade_id by {
        assert(p[q[j]] == j);
        assert(r[q[j]] == s[p[q[j]]]);
    }
}

/// A run that is already ascending by trade id is its own canonical order.
pub proof fn lemma_ascending_is_canonical(s: Seq<TradeView>)
    requires
        ascending_by_id(s),
    ensures
        canonical_order(s) == s,
{
    let id = Seq::new(s.len(), |i: int| i);
    assert(sorted_stably_by(s, s, id, id));
    lemma_canonical_order_sorts(s);
    lemma_stable_sort_is_unique(s, canonical_order(s), s);
}

/// A stable sort only moves records: it holds the records it was given.
pub proof fn lemma_canonical_order_rearranges(s: Seq<TradeView>)
    ensures
        is_rearrangement(s, canonical_order(s)),
{
    lemma_canonical_order_sorts(s);
    let (p, q) = choose|p: Seq<int>, q: Seq<int>| sorted_stably_by(s, canonical_order(s), p, q);
    assert(rearranged_by(s, canonical_order(s), p, q));
}

/// Rearranging a rearrangement is rearranging.
pub proof fn lemma_rearrangement_chains(a: Seq<TradeView>, b: Seq<TradeView>, c: Seq<TradeView>)
    requires
        is_rearrangement(a, b),
        is_rearrangement(b, c),
    ensures
        is_rearrangement(a, c),
{
    let (pa, qa) = choose|p: Seq<int>, q: Seq<int>| rearranged_by(a, b, p, q);
    let (pb, qb) = choose|p: Seq<int>, q: Seq<int>| rearranged_by(b, c, p, q);
    let p = Seq::new(a.len(), |i: int| pa[pb[i]]);
    let q = Seq::new(a.len(), |j: int| qb[qa[j]]);
    assert forall|i: int| 0 <= i < a.len() implies 0 <= #[trigger] p[i] < a.len() && q[p[i]]
        == i by {
        assert(qb[pb[i]] == i);
        assert(qa[pa[pb[i]]] == pb[i]);
    }
    assert forall|j: int| 0 <= j < a.len() implies 0 <= #[trigger] q[j] < a.len() && p[q[j]]
        == j by {
        assert(pa[qa[j]] == j);
        assert(pb[qb[qa[j]]] == qa[j]);
    }
    assert forall|i: int| 0 <= i < c.len() implies #[trigger] c[i] == a[p[i]] by {
        assert(c[i] == b[pb[i]]);
        assert(b[pb[i]] == a[pa[pb[i]]]);
    }
    assert(rearranged_by(a, c, p, q));
}

/// Rearranging can be undone.
pub proof fn lemma_rearrangement_turns(a: Seq<TradeView>, b: Seq<TradeView>)
    requires
        is_rearrangement(a, b),
    ensures
        is_rearrangement(b, a),
{
    let (p, q) = choose|p: Seq<int>, q: Seq<int>| rearranged_by(a, b, p, q);
    assert forall|j: int| 0 <= j < a.len() implies #[trigger] a[j] == b[q[j]] by {
        assert(p[q[j]] == j);
        assert(b[q[j]] == a[p[q[j]]]);
    }
    assert(rearranged_by(b, a, q, p));
}

/// Rearranging neither makes two trade ids equal nor breaks the rule that
/// times follow ids: both speak of the records alone.
pub proof fn lemma_rearrangement_keeps_record_facts(a: Seq<TradeView>, b: Seq<TradeView>)
    requires
        is_rearrangement(a, b),
    ensures
        distinct_ids(a) ==> distinct_ids(b),
        times_follow_ids(a) ==> times_follow_ids(b),
{
    let (p, q) = choose|p: Seq<int>, q: Seq<int>| rearranged_by(a, b, p, q);
    if distinct_ids(a) {
        assert forall|i: int, j: int|
            0 <= i < b.len() && 0 <= j < b.len() && i != j implies b[i].trade_id
            != b[j].trade_id by {
            assert(b[i] == a[p[i]] && b[j] == a[p[j]]);
            assert(q[p[i]] == i && q[p[j]] == j);
        }
    }
    if times_follow_ids(a) {
        assert forall|i: int, j: int|
            0 <= i < b.len() && 0 <= j < b.len() && b[i].trade_id
                < b[j].trade_id implies b[i].time_milliseconds <= b[j].time_milliseconds by {
            assert(b[i] == a[p[i]] && b[j] == a[p[j]]);
        }
    }
}

/// Where no two records share a trade id, the canonical order does not
/// depend on the order in which the records are given.
pub proof fn lemma_canonical_order_ignores_given_order(a: Seq<TradeView>, b: Seq<TradeView>)
    requires
        distinct_ids(a),
        is_rearrangement(a, b),
    ensures
        canonical_order(b) == canonical_order(a),
{
    let c = canonical_order(b);
    lemma_canonical_order_sorts(b);
    lemma_canonical_order_rearranges(b);
    lemma_rearrangement_chains(a, b, c);
    let (p, q) = choose|p: Seq<int>, q: Seq<int>| rearranged_by(a, c, p, q);
    assert forall|i: int, j: int|
        0 <= i < j < c.len() && c[i].trade_id == c[j].trade_id implies p[i] < p[j] by {
        assert(c[i] == a[p[i]] && c[j] == a[p[j]]);
        assert(q[p[i]] == i && q[p[j]] == j);
    }
    assert(sorted_stably_by(a, c, p, q));
    lemma_canonical_order_sorts(a);
    lemma_stable_sort_is_unique(a, c, canonical_order(a));
}

/// `sort_by_key` of std's slices, called with the trade id as the key. std
/// documents it as a stable sort: afterwards the vector holds the same
/// records in ascending order of the key, and records with equal keys are
/// still in the order they had before. The key is an `i64`, whose order is
/// total, so the call does not panic.
#[verifier::external_body]
fn sort_by_key_of_trade_id(trades: &mut Vec<HistoricalTrade>)
    ensures
        is_stable_sort_by_id(trade_views(old(trades)@), trade_views(final(trades)@)),
{
    trades.sort_by_key(|t| t.trade_id);
}

/// Brings `trades` into canonical order.
pub(crate) fn sort_trades(trades: &mut Vec<HistoricalTrade>)
    ensures
        trade_views(final(trades)@) == canonical_order(trade_views(old(trades)@)),
{
    sort_by_key_of_trade_id(trades);
    proof {
        let before = trade_views(old(trades)@);
        lemma_canonical_order_sorts(before);
        lemma_stable_sort_is_unique(before, trade_views(trades@), canonical_order(before));
    }
}

} // verus!
