//! The ledger: the trades of one trading pair, oldest first, growing
//! backwards in time one fetched batch after another.

use vstd::prelude::*;
use crate::error::LedgerError;
use crate::order::{
    ascending_by_id, canonical_order, lemma_canonical_order_ends, lemma_canonical_order_len,
    sort_trades,
};
use crate::trade::{trade_views, HistoricalTrade, TradeView};

verus! {

/// How many trades one request for older data asks for.
pub const BATCH_LIMIT: i64 = 1000;

/// Whether a ledger holding `store` takes in `batch`: the batch holds a
/// trade, and its first trade is older than the oldest trade of the ledger.
pub open spec fn batch_fits(store: Seq<TradeView>, batch: Seq<TradeView>) -> bool {
    batch.len() > 0 && batch.first().trade_id < store.first().trade_id
}

/// What a ledger holding `store` holds once it has taken in `batch`: the
/// batch in canonical order, then what was there before.
pub open spec fn extended_with(store: Seq<TradeView>, batch: Seq<TradeView>) -> Seq<TradeView> {
    canonical_order(batch) + store
}

/// The views of two runs of trades laid end to end.
pub proof fn lemma_trade_views_concat(a: Seq<HistoricalTrade>, b: Seq<HistoricalTrade>)
    ensures
        trade_views(a + b) == trade_views(a) + trade_views(b),
{
    assert(trade_views(a + b) =~= trade_views(a) + trade_views(b));
}

/// A ledger of historical trades. A well-formed ledger holds at least one
/// trade; the constructors build no other, and no method makes one.
#[derive(Debug)]
pub struct Db {
    data: Vec<HistoricalTrade>,
}

impl View for Db {
    type V = Seq<TradeView>;

    /// The trades of the ledger, in the order in which it stores them.
    closed spec fn view(&self) -> Seq<TradeView> {
        trade_views(self.data@)
    }
}

impl Db {
    /// A ledger is well formed when it holds a trade.
    pub open spec fn wf(&self) -> bool {
        self@.len() > 0
    }

    /// Builds a ledger from the trades of an archive, in whatever order the
    /// archive holds them. An archive without a trade is refused.
    pub fn new(records: Vec<HistoricalTrade>) -> (built: Result<Db, LedgerError>)
        ensures
            match built {
                Ok(db) => {
                    &&& records@.len() > 0
                    &&& db.wf()
                    &&& db@ == canonical_order(trade_views(records@))
                    &&& db@.len() == records@.len()
                    &&& ascending_by_id(db@)
                },
                Err(e) => records@.len() == 0 && e == LedgerError::EmptyArchiveError,
            },
    {
        if records.len() == 0 {
            return Err(LedgerError::EmptyArchiveError);
        }
        let mut data = records;
        sort_trades(&mut data);
        proof {
            lemma_canonical_order_len(trade_views(records@));
            lemma_canonical_order_ends(trade_views(records@));
        }
        Ok(Db { data })
    }

    /// Wraps trades that are already in the order in which a ledger stores
    /// them. No trade at all is refused.
    pub fn from(data: Vec<HistoricalTrade>) -> (built: Result<Db, LedgerError>)
        ensures
            match built {
                Ok(db) => data@.len() > 0 && db.wf() && db@ == trade_views(data@),
                Err(e) => data@.len() == 0 && e == LedgerError::EmptyArchiveError,
            },
    {
        if data.len() == 0 {
            return Err(LedgerError::EmptyArchiveError);
        }
        Ok(Db { data })
    }

    /// The number of trades in the ledger.
    pub fn get_data_len(&self) -> (len: usize)
        ensures
            len == self@.len(),
    {
        self.data.len()
    }

    /// The trade id at the old end of the ledger.
    pub fn get_min_trade_id(&self) -> (id: i64)
        requires
            self.wf(),
        ensures
            id == self@.first().trade_id,
    {
        self.data[0].trade_id
    }

    /// The trade id at the new end of the ledger.
    pub fn get_max_trade_id(&self) -> (id: i64)
        requires
            self.wf(),
        ensures
            id == self@.last().trade_id,
    {
        self.data[self.data.len() - 1].trade_id
    }

    /// The time of the trade at the old end of the ledger.
    pub fn get_min_time_milliseconds(&self) -> (time: i64)
        requires
            self.wf(),
        ensures
            time == self@.first().time_milliseconds,
    {
        self.data[0].time_milliseconds
    }

    /// The trade at position `idx` counted from the new end: position 0 is
    /// the newest trade, and larger positions are older trades.
    pub fn get_data(&self, idx: usize) -> (trade: &HistoricalTrade)
        requires
            idx < self@.len(),
        ensures
            trade@ == self@[self@.len() - 1 - idx],
    {
        &self.data[self.data.len() - idx - 1]
    }

    /// A copy of every trade, oldest first.
    pub fn get_all_data_cloned(&self) -> (copies: Vec<HistoricalTrade>)
        ensures
            trade_views(copies@) == self@,
    {
        let mut copies: Vec<HistoricalTrade> = Vec::new();
        let mut i: usize = 0;
        while i < self.data.len()
            invariant
                i <= self.data@.len(),
                copies@ == self.data@.subrange(0, i as int),
            decreases self.data@.len() - i,
        {
            copies.push(self.data[i].clone());
            i += 1;
        }
        assert(copies@ =~= self.data@);
        copies
    }

    /// The trade id from which the next request for older data starts:
    /// `BATCH_LIMIT` below the oldest id of the ledger.
    pub fn target_from_id(&self) -> (from_id: i64)
        requires
            self.wf(),
            self@.first().trade_id - BATCH_LIMIT >= i64::MIN,
        ensures
            from_id == self@.first().trade_id - BATCH_LIMIT,
    {
        self.data[0].trade_id - BATCH_LIMIT
    }

    /// Takes in a fetched batch of older trades. The batch must hold a
    /// trade, and its first trade must be older than the oldest trade of the
    /// ledger; otherwise the ledger stays as it was. A batch that is taken
    /// in is brought into canonical order and put ahead of the old trades.
    ///
    /// Only the first trade of the batch is held against the ledger. A gap
    /// between the batch and the ledger goes unnoticed, and so does a later
    /// trade of the batch that is not older than the ledger's oldest.
    pub fn load_more_data(&mut self, new_data: Vec<HistoricalTrade>) -> (done: Result<
        (),
        LedgerError,
    >)
        requires
            old(self).wf(),
        ensures
            final(self).wf(),
            match done {
                Ok(()) => {
                    &&& batch_fits(old(self)@, trade_views(new_data@))
                    &&& final(self)@ == extended_with(old(self)@, trade_views(new_data@))
                    &&& final(self)@.len() == old(self)@.len() + new_data@.len()
                    &&& final(self)@.first().trade_id < old(self)@.first().trade_id
                    &&& final(self)@.last() == old(self)@.last()
                },
                Err(e) => {
                    &&& !batch_fits(old(self)@, trade_views(new_data@))
                    &&& final(self)@ == old(self)@
                    &&& match e {
                        LedgerError::EmptyBatchError => new_data@.len() == 0,
                        LedgerError::IntersectingRangeError { old_min_id, new_batch_id } => {
                            &&& new_data@.len() > 0
                            &&& old_min_id == old(self)@.first().trade_id
                            &&& new_batch_id == new_data@.first().trade_id
                        },
                        LedgerError::EmptyArchiveError => false,
                    }
                },
            },
    {
        if new_data.len() == 0 {
            return Err(LedgerError::EmptyBatchError);
        }
        let old_min_id = self.data[0].trade_id;
        let new_batch_id = new_data[0].trade_id;
        if new_batch_id >= old_min_id {
            return Err(LedgerError::IntersectingRangeError { old_min_id, new_batch_id });
        }
        let mut batch = new_data;
        sort_trades(&mut batch);
        proof {
            lemma_canonical_order_len(trade_views(new_data@));
            lemma_canonical_order_ends(trade_views(new_data@));
            lemma_trade_views_concat(batch@, self.data@);
        }
        batch.append(&mut self.data);
        self.data = batch;
        Ok(())
    }
}

} // verus!
