//! An append-only ledger of historical exchange trades.
//!
//! A ledger holds the trades of one trading pair, oldest first, and grows
//! backwards in time: every batch that it takes in is put ahead of the trades
//! it holds. Loading an archive brings the trades into ascending order of
//! their trade ids, whatever order the archive holds them in.
//!
//! `trade` has the record, `order` the canonical order and what is proved of
//! it, `ledger` the ledger itself, `replay` the choice of a stretch to replay,
//! and `laws` what holds of every ledger.

pub mod error;
pub mod laws;
pub mod ledger;
pub mod order;
pub mod replay;
pub mod trade;

pub use crate::error::LedgerError;
pub use crate::ledger::{Db, BATCH_LIMIT};
pub use crate::replay::ReplayWindow;
pub use crate::trade::HistoricalTrade;
