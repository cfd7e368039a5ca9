//! One executed trade and its mathematical content.

use vstd::prelude::*;

verus! {

/// What a trade holds, as plain mathematical values.
#[verifier::ext_equal]
pub struct TradeView {
    pub trade_id: int,
    pub price: Seq<char>,
    pub quantity: Seq<char>,
    pub quote_quantity: Seq<char>,
    pub time_milliseconds: int,
    pub is_buyer_maker: bool,
    pub is_best_match: bool,
}

/// One historical trade. The decimal amounts are kept as the exact text
/// in which they arrived, so that storing and reloading never rounds them.
#[derive(Debug, PartialEq, Eq)]
pub struct HistoricalTrade {
    pub trade_id: i64,
    pub price: String,
    pub quantity: String,
    pub quote_quantity: String,
    pub time_milliseconds: i64,
    pub is_buyer_maker: bool,
    pub is_best_match: bool,
}

impl View for HistoricalTrade {
    type V = TradeView;

    open spec fn view(&self) -> TradeView {
        TradeView {
            trade_id: self.trade_id as int,
            price: self.price@,
            quantity: self.quantity@,
            quote_quantity: self.quote_quantity@,
            time_milliseconds: self.time_milliseconds as int,
            is_buyer_maker: self.is_buyer_maker,
            is_best_match: self.is_best_match,
        }
    }
}

impl Clone for HistoricalTrade {
    fn clone(&self) -> (copy: Self)
        ensures
            copy == *self,
    {
        HistoricalTrade {
            trade_id: self.trade_id,
            price: self.price.clone(),
            quantity: self.quantity.clone(),
            quote_quantity: self.quote_quantity.clone(),
            time_milliseconds: self.time_milliseconds,
            is_buyer_maker: self.is_buyer_maker,
            is_best_match: self.is_best_match,
        }
    }
}

/// The contents of a run of trades, record by record.
pub open spec fn trade_views(trades: Seq<HistoricalTrade>) -> Seq<TradeView> {
    trades.map_values(|t: HistoricalTrade| t@)
}

} // verus!
