//! What a square of the board or of a piece can hold, and display colours.
use vstd::prelude::*;

verus! {

/// The state of one square of the board or of a piece's local matrix.
#[derive(Clone, Copy, Debug, PartialEq, Eq, Structural)]
pub enum Cell {
    /// Nothing there.
    Empty,
    /// Part of the piece in flight.
    Moving,
    /// Settled for good.
    Full,
    /// The permanent frame of the board.
    Block,
    /// Part of a completed row that is about to be removed.
    Fading,
}

/// Display colours of pieces and of fading rows.
#[derive(Clone, Copy, Debug, PartialEq, Eq, Structural)]
pub enum PieceColor {
    Gray,
    Yellow,
    Blue,
    Brown,
    SkyBlue,
    Purple,
    Green,
    Red,
    Maroon,
}

} // verus!
