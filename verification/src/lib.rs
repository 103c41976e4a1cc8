#![verifier::loop_isolation(false)]

pub mod board;
pub mod game;
pub mod tgm3master;
pub mod cell;
pub mod piece;

pub use board::Board;
pub use cell::Cell;
pub use game::{DasState, Game};
pub use piece::{FallingPiece, Piece, PieceState, Rotation};
pub use tgm3master::{Roll, Status, TGM3Event, TGM3Master, TGM3Sound};

use vstd::prelude::*;

verus! {

/// The one failure the core can report: a piece cell written outside the
/// board.
#[derive(Debug, Clone, Copy, PartialEq, Eq, Structural)]
pub enum TetrisError {
    OutOfRange,
}

impl TetrisError {
    pub fn describe(&self) -> &'static str {
        "Out of range"
    }
}

/// One frame's snapshot of the player's buttons.
#[derive(Debug, Clone, Copy, PartialEq, Eq, Structural)]
pub struct Input {
    pub left: bool,
    pub right: bool,
    pub hard_drop: bool,
    pub soft_drop: bool,
    pub cw: bool,
    pub ccw: bool,
    pub hold: bool,
}

impl Input {
    /// The all-released snapshot, as a specification value.
    pub open spec fn released_spec() -> Input {
        Input {
            left: false,
            right: false,
            hard_drop: false,
            soft_drop: false,
            cw: false,
            ccw: false,
            hold: false,
        }
    }

    /// The all-released snapshot.
    pub fn released() -> (r: Input)
        ensures
            r == (Input {
                left: false,
                right: false,
                hard_drop: false,
                soft_drop: false,
                cw: false,
                ccw: false,
                hold: false,
            }),
    {
        Input {
            left: false,
            right: false,
            hard_drop: false,
            soft_drop: false,
            cw: false,
            ccw: false,
            hold: false,
        }
    }
}

impl Default for Input {
    fn default() -> (r: Input)
        ensures
            r == (Input {
                left: false,
                right: false,
                hard_drop: false,
                soft_drop: false,
                cw: false,
                ccw: false,
                hold: false,
            }),
    {
        Input::released()
    }
}

/// Identifiers of the sounds the engine asks its collaborator to play.
#[derive(Debug, Clone, Copy, PartialEq, Eq, Hash, Structural)]
pub enum Sound {
    Bottom,
    Hold,
    Lock,
    Erase,
    Fall,
    PieceI,
    PieceO,
    PieceT,
    PieceL,
    PieceJ,
    PieceS,
    PieceZ,
    RankUp,
}

/// Outbound structured events, drained by the collaborator each frame.
#[derive(Debug, Clone, PartialEq, Eq, Hash)]
pub enum TetrisEvent {
    LineCleared(usize),
    LineShrinked(Vec<usize>),
    PieceSpawned(Piece),
    PieceLocked(FallingPiece),
}

} // verus!
