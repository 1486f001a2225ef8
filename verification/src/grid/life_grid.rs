//! The reduced grid interface.

use vstd::prelude::*;

verus! {

/// Point reads, point writes and neighbor counts over a grid of cells,
/// for callers that do not need generation stepping.
pub trait LifeGrid {
    fn is_live(&self, x: i64, y: i64) -> bool;

    fn set_live(&mut self, x: i64, y: i64);

    fn count_live_neighbors(&self, x: i64, y: i64) -> u8;
}

} // verus!
