use vstd::prelude::*;

use crate::piece::Piece;

verus! {

/// One occupied slot of the well, named by its colour.
#[derive(Debug, Clone, Copy, PartialEq, Eq, Structural)]
pub enum Cell {
    Black,
    White,
    Red,
    Orange,
    Yellow,
    Green,
    Cyan,
    Blue,
    Purple,
    Gray,
}

/// The colour a piece kind takes when it is written onto the board.
pub open spec fn piece_color(p: Piece) -> Cell {
    match p {
        Piece::I => Cell::Cyan,
        Piece::O => Cell::Yellow,
        Piece::T => Cell::Purple,
        Piece::L => Cell::Blue,
        Piece::J => Cell::Orange,
        Piece::S => Cell::Green,
        Piece::Z => Cell::Red,
    }
}

impl From<Piece> for Cell {
    fn from(p: Piece) -> (r: Cell) {
        match p {
            Piece::I => Cell::Cyan,
            Piece::O => Cell::Yellow,
            Piece::T => Cell::Purple,
            Piece::L => Cell::Blue,
            Piece::J => Cell::Orange,
            Piece::S => Cell::Green,
            Piece::Z => Cell::Red,
        }
    }
}

impl vstd::std_specs::convert::FromSpecImpl<Piece> for Cell {
    open spec fn obeys_from_spec() -> bool {
        true
    }

    open spec fn from_spec(p: Piece) -> Cell {
        piece_color(p)
    }
}

} // verus!
