use vstd::prelude::*;

verus! {

/// Why a map could not be made.
#[derive(Clone, Copy, Debug, PartialEq, Eq, Structural)]
pub enum MapError {
    /// The grid is narrower than one column or lower than two rows, or the
    /// start lies off its top row.
    InvalidConfig,
    /// A tile of a walk lies outside the grid.
    OutOfGrid,
    /// The walk did not reach the bottom row with the moves it was given.
    WalkUnfinished,
}

} // verus!
