//! Choosing the stretch of a ledger that a replay walks through.

use vstd::prelude::*;
use rand::Rng;
use crate::ledger::Db;

verus! {

/// A stretch of positions of a ledger, counted from its new end as
/// `Db::get_data` counts them: a replay visits `start`, `start + 1`, and so
/// on, and stops before `finish`.
#[derive(Clone, Copy, Debug, PartialEq, Eq, Structural)]
pub struct ReplayWindow {
    pub start: usize,
    pub finish: usize,
}

impl ReplayWindow {
    /// The window lies within a ledger of `len` trades: both ends are
    /// positions of the ledger, and the window does not run backwards.
    pub open spec fn within(&self, len: nat) -> bool {
        self.start <= self.finish < len
    }
}

/// `Rng::gen_range` of rand, called on the generator of `rand::thread_rng`
/// with the half-open range from `low` to `high`. rand panics on an empty
/// range, which `requires` leaves out, and returns a number of the range.
/// Which number it returns is left open: it is drawn at random.
#[verifier::external_body]
fn random_in_range(low: usize, high: usize) -> (drawn: usize)
    requires
        low < high,
    ensures
        low <= drawn < high,
{
    rand::thread_rng().gen_range(low..high)
}

impl Db {
    /// Draws a window at random: the start among all positions of the
    /// ledger, the finish among the positions from the start on. Every
    /// position from the start up to the finish can be handed to `get_data`.
    pub fn random_window(&self) -> (window: ReplayWindow)
        requires
            self.wf(),
        ensures
            window.within(self@.len()),
    {
        let len = self.get_data_len();
        let start = random_in_range(0, len);
        let finish = random_in_range(start, len);
        ReplayWindow::between(start, finish)
    }
}

impl ReplayWindow {
    /// The window that two drawn positions span, whatever was drawn: it
    /// starts at the first and finishes at the second. Where the first is a
    /// position of a ledger and the second a position not before it, the
    /// window lies within that ledger.
    pub fn between(first_draw: usize, second_draw: usize) -> (window: ReplayWindow)
        ensures
            window == (ReplayWindow { start: first_draw, finish: second_draw }),
            forall|len: nat| first_draw <= second_draw < len ==> window.within(len),
    {
        ReplayWindow { start: first_draw, finish: second_draw }
    }
}

} // verus!
