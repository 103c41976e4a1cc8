use vstd::prelude::*;

use crate::board::Board;
use crate::cell::Cell;

verus! {

// ---------------------------------------------------------------------------
// Rotation
// ---------------------------------------------------------------------------

/// Orientation of a piece; `cw`/`ccw` step through the four-element cycle.
#[derive(Debug, Clone, Copy, PartialEq, Eq, Hash, Structural)]
pub enum Rotation {
    North,
    East,
    South,
    West,
}

pub open spec fn rot_cw(r: Rotation) -> Rotation {
    match r {
        Rotation::North => Rotation::East,
        Rotation::East => Rotation::South,
        Rotation::South => Rotation::West,
        Rotation::West => Rotation::North,
    }
}

pub open spec fn rot_ccw(r: Rotation) -> Rotation {
    match r {
        Rotation::North => Rotation::West,
        Rotation::East => Rotation::North,
        Rotation::South => Rotation::East,
        Rotation::West => Rotation::South,
    }
}

impl Rotation {
    pub fn cw(&mut self)
        ensures
            *final(self) == rot_cw(*old(self)),
    {
        match *self {
            Rotation::North => *self = Rotation::East,
            Rotation::East => *self = Rotation::South,
            Rotation::South => *self = Rotation::West,
            Rotation::West => *self = Rotation::North,
        }
    }

    pub fn ccw(&mut self)
        ensures
            *final(self) == rot_ccw(*old(self)),
    {
        match *self {
            Rotation::North => *self = Rotation::West,
            Rotation::East => *self = Rotation::North,
            Rotation::South => *self = Rotation::East,
            Rotation::West => *self = Rotation::South,
        }
    }
}

// ---------------------------------------------------------------------------
// Piece kinds and their geometry
// ---------------------------------------------------------------------------

/// The seven tetromino kinds.
#[derive(Debug, Clone, Copy, PartialEq, Eq, Hash, Structural)]
pub enum Piece {
    I,
    O,
    T,
    L,
    J,
    S,
    Z,
}

/// The four "stand" offsets of a kind, with the pivot at (0, 0) and the
/// second coordinate growing upward.
pub open spec fn piece_stand(p: Piece) -> Seq<(int, int)> {
    match p {
        Piece::I => seq![(-1int, 0int), (0int, 0int), (1int, 0int), (2int, 0int)],
        Piece::O => seq![(0int, 0int), (1int, 0int), (0int, 1int), (1int, 1int)],
        Piece::T => seq![(-1int, 0int), (0int, 0int), (1int, 0int), (0int, 1int)],
        Piece::L => seq![(-1int, 0int), (0int, 0int), (1int, 0int), (1int, 1int)],
        Piece::J => seq![(-1int, 0int), (0int, 0int), (1int, 0int), (-1int, 1int)],
        Piece::S => seq![(-1int, 0int), (0int, 0int), (0int, 1int), (1int, 1int)],
        Piece::Z => seq![(-1int, 1int), (0int, 1int), (0int, 0int), (1int, 0int)],
    }
}

/// Apply the rotation matrix of `r` to a stand offset.
pub open spec fn rotate_offset(r: Rotation, c: (int, int)) -> (int, int) {
    match r {
        Rotation::North => (c.0, c.1),
        Rotation::East => (c.1, -c.0),
        Rotation::South => (-c.0, -c.1),
        Rotation::West => (-c.1, c.0),
    }
}

impl Piece {
    pub fn get_cells(&self) -> (r: Vec<(i16, i16)>)
        ensures
            r@.len() == 4,
            forall|i: int|
                0 <= i < 4 ==> (#[trigger] r@[i]).0 == piece_stand(*self)[i].0 && r@[i].1
                    == piece_stand(*self)[i].1,
    {
        match *self {
            Piece::I => vec![(-1i16, 0i16), (0i16, 0i16), (1i16, 0i16), (2i16, 0i16)],
            Piece::O => vec![(0i16, 0i16), (1i16, 0i16), (0i16, 1i16), (1i16, 1i16)],
            Piece::T => vec![(-1i16, 0i16), (0i16, 0i16), (1i16, 0i16), (0i16, 1i16)],
            Piece::L => vec![(-1i16, 0i16), (0i16, 0i16), (1i16, 0i16), (1i16, 1i16)],
            Piece::J => vec![(-1i16, 0i16), (0i16, 0i16), (1i16, 0i16), (-1i16, 1i16)],
            Piece::S => vec![(-1i16, 0i16), (0i16, 0i16), (0i16, 1i16), (1i16, 1i16)],
            Piece::Z => vec![(-1i16, 1i16), (0i16, 1i16), (0i16, 0i16), (1i16, 0i16)],
        }
    }
}

// ---------------------------------------------------------------------------
// PieceState: a kind together with an orientation
// ---------------------------------------------------------------------------

/// A kind together with an orientation.
#[derive(Debug, Clone, Copy, PartialEq, Eq, Hash, Structural)]
pub struct PieceState {
    pub kind: Piece,
    pub rotation: Rotation,
}

/// The four cell offsets of a state: the stand offsets run through the
/// rotation matrix.
pub open spec fn piece_cells(s: PieceState) -> Seq<(int, int)> {
    piece_stand(s.kind).map(|i: int, c: (int, int)| rotate_offset(s.rotation, c))
}

/// Where a kind first appears at the top of the well.
pub open spec fn initial_position_spec(p: Piece) -> (usize, usize) {
    match p {
        Piece::I => (4usize, 20usize),
        _ => (4usize, 21usize),
    }
}

/// The five kick candidates attached to a state, in the order they are tried.
pub open spec fn kicks_of(s: PieceState) -> Seq<(int, int)> {
    match (s.kind, s.rotation) {
        (Piece::O, Rotation::North) => seq![(0int, 0int), (0int, 0int), (0int, 0int), (0int, 0int), (0int, 0int)],
        (Piece::O, Rotation::East) => seq![(0int, 1int), (0int, 1int), (0int, 1int), (0int, 1int), (0int, 1int)],
        (Piece::O, Rotation::South) => seq![(-1int, 1int), (-1int, 1int), (-1int, 1int), (-1int, 1int), (-1int, 1int)],
        (Piece::O, Rotation::West) => seq![(-1int, 0int), (-1int, 0int), (-1int, 0int), (-1int, 0int), (-1int, 0int)],
        (Piece::I, Rotation::North) => seq![(0int, 0int), (-1int, 0int), (2int, 0int), (-1int, 0int), (2int, 0int)],
        (Piece::I, Rotation::East) => seq![(-1int, 0int), (0int, 0int), (0int, 0int), (0int, 1int), (0int, 2int)],
        (Piece::I, Rotation::South) => seq![(-1int, -1int), (1int, -1int), (-2int, -1int), (1int, 0int), (-2int, 0int)],
        (Piece::I, Rotation::West) => seq![(0int, -1int), (0int, -1int), (0int, -1int), (0int, 1int), (0int, -2int)],
        (_, Rotation::North) => seq![(0int, 0int), (0int, 0int), (0int, 0int), (0int, 0int), (0int, 0int)],
        (_, Rotation::East) => seq![(0int, 0int), (1int, 0int), (1int, 1int), (0int, -2int), (1int, -2int)],
        (_, Rotation::South) => seq![(0int, 0int), (0int, 0int), (0int, 0int), (0int, 0int), (0int, 0int)],
        (_, Rotation::West) => seq![(0int, 0int), (-1int, 0int), (-1int, 1int), (0int, -2int), (-1int, -2int)],
    }
}

/// The deltas tried for a rotation from `from` to `to`: the difference of the
/// two states' kick candidates, entry by entry.
pub open spec fn kick_deltas(from: PieceState, to: PieceState) -> Seq<(int, int)> {
    Seq::new(5, |i: int| (kicks_of(from)[i].0 - kicks_of(to)[i].0, kicks_of(from)[i].1 - kicks_of(to)[i].1))
}

impl PieceState {
    pub fn from_piece(piece: Piece) -> (r: Self)
        ensures
            r == (PieceState { kind: piece, rotation: Rotation::North }),
    {
        Self { kind: piece, rotation: Rotation::North }
    }

    pub fn get_cells(&self) -> (r: Vec<(i16, i16)>)
        ensures
            r@.len() == 4,
            forall|i: int|
                0 <= i < 4 ==> (#[trigger] r@[i]).0 == piece_cells(*self)[i].0 && r@[i].1
                    == piece_cells(*self)[i].1,
    {
        let stand = self.kind.get_cells();
        let mut rotated: Vec<(i16, i16)> = Vec::new();
        let mut idx: usize = 0;
        while idx < stand.len()
            invariant
                stand@.len() == 4,
                forall|i: int|
                    0 <= i < 4 ==> (#[trigger] stand@[i]).0 == piece_stand(self.kind)[i].0
                        && stand@[i].1 == piece_stand(self.kind)[i].1,
                idx <= 4,
                rotated@.len() == idx,
                forall|i: int|
                    0 <= i < idx ==> (#[trigger] rotated@[i]).0 == piece_cells(*self)[i].0
                        && rotated@[i].1 == piece_cells(*self)[i].1,
            decreases 4 - idx,
        {
            let c = stand[idx];
            proof {
                lemma_stand_bounds(self.kind);
            }
            let r: (i16, i16) = match self.rotation {
                Rotation::North => (c.0, c.1),
                Rotation::East => (c.1, -c.0),
                Rotation::South => (-c.0, -c.1),
                Rotation::West => (-c.1, c.0),
            };
            rotated.push(r);
            idx = idx + 1;
        }
        rotated
    }

    pub fn get_kind(&self) -> (r: Piece)
        ensures
            r == self.kind,
    {
        self.kind
    }

    pub fn get_initial_position(&self) -> (r: (usize, usize))
        ensures
            r == initial_position_spec(self.kind),
    {
        match self.kind {
            Piece::I => (4, 20),
            _ => (4, 21),
        }
    }

    pub fn cw(&mut self)
        ensures
            *final(self) == (PieceState { rotation: rot_cw(old(self).rotation), ..*old(self) }),
    {
        self.rotation.cw()
    }

    pub fn ccw(&mut self)
        ensures
            *final(self) == (PieceState { rotation: rot_ccw(old(self).rotation), ..*old(self) }),
    {
        self.rotation.ccw()
    }

    pub fn kicks(&self) -> (r: [(i32, i32); 5])
        ensures
            forall|i: int|
                0 <= i < 5 ==> (#[trigger] r@[i]).0 == kicks_of(*self)[i].0 && r@[i].1
                    == kicks_of(*self)[i].1,
    {
        match (self.kind, self.rotation) {
            (Piece::O, Rotation::North) => [(0, 0), (0, 0), (0, 0), (0, 0), (0, 0)],
            (Piece::O, Rotation::East) => [(0, 1), (0, 1), (0, 1), (0, 1), (0, 1)],
            (Piece::O, Rotation::South) => [(-1, 1), (-1, 1), (-1, 1), (-1, 1), (-1, 1)],
            (Piece::O, Rotation::West) => [(-1, 0), (-1, 0), (-1, 0), (-1, 0), (-1, 0)],
            (Piece::I, Rotation::North) => [(0, 0), (-1, 0), (2, 0), (-1, 0), (2, 0)],
            (Piece::I, Rotation::East) => [(-1, 0), (0, 0), (0, 0), (0, 1), (0, 2)],
            (Piece::I, Rotation::South) => [(-1, -1), (1, -1), (-2, -1), (1, 0), (-2, 0)],
            (Piece::I, Rotation::West) => [(0, -1), (0, -1), (0, -1), (0, 1), (0, -2)],
            (_, Rotation::North) => [(0, 0), (0, 0), (0, 0), (0, 0), (0, 0)],
            (_, Rotation::East) => [(0, 0), (1, 0), (1, 1), (0, -2), (1, -2)],
            (_, Rotation::South) => [(0, 0), (0, 0), (0, 0), (0, 0), (0, 0)],
            (_, Rotation::West) => [(0, 0), (-1, 0), (-1, 1), (0, -2), (-1, -2)],
        }
    }
}

// ---------------------------------------------------------------------------
// Facts about the geometry
// ---------------------------------------------------------------------------

/// Every stand offset lies within two cells of the pivot.
pub proof fn lemma_stand_bounds(p: Piece)
    ensures
        piece_stand(p).len() == 4,
        forall|i: int|
            0 <= i < 4 ==> -2 <= (#[trigger] piece_stand(p)[i]).0 <= 2 && -2 <= piece_stand(
                p,
            )[i].1 <= 2,
{
    match p {
        Piece::I => {},
        Piece::O => {},
        Piece::T => {},
        Piece::L => {},
        Piece::J => {},
        Piece::S => {},
        Piece::Z => {},
    }
}

/// Every rotated cell offset lies within two cells of the pivot.
pub proof fn lemma_cells_bounds(s: PieceState)
    ensures
        piece_cells(s).len() == 4,
        forall|i: int|
            0 <= i < 4 ==> -2 <= (#[trigger] piece_cells(s)[i]).0 <= 2 && -2 <= piece_cells(
                s,
            )[i].1 <= 2,
{
    lemma_stand_bounds(s.kind);
    assert forall|i: int| 0 <= i < 4 implies -2 <= (#[trigger] piece_cells(s)[i]).0 <= 2 && -2
        <= piece_cells(s)[i].1 <= 2 by {
        assert(piece_cells(s)[i] == rotate_offset(s.rotation, piece_stand(s.kind)[i]));
    }
}

/// The index at which a kind's stand holds the pivot offset (0, 0).
pub open spec fn origin_index(p: Piece) -> int {
    match p {
        Piece::I => 1,
        Piece::O => 0,
        Piece::T => 1,
        Piece::L => 1,
        Piece::J => 1,
        Piece::S => 1,
        Piece::Z => 2,
    }
}

/// Every state covers its own pivot: one of the four cells is (0, 0).
pub proof fn lemma_cells_origin(s: PieceState)
    ensures
        0 <= origin_index(s.kind) < 4,
        piece_cells(s)[origin_index(s.kind)] == (0int, 0int),
{
    let k = origin_index(s.kind);
    assert(piece_stand(s.kind)[k] == (0int, 0int)) by {
        match s.kind {
            Piece::I => {},
            Piece::O => {},
            Piece::T => {},
            Piece::L => {},
            Piece::J => {},
            Piece::S => {},
            Piece::Z => {},
        }
    }
    assert(piece_cells(s)[k] == rotate_offset(s.rotation, piece_stand(s.kind)[k]));
}

// ---------------------------------------------------------------------------
// The falling piece
// ---------------------------------------------------------------------------

/// The piece in flight: its state, its pivot position on the board
/// (column, row; rows grow downward), and the deepest row it has rested on,
/// which gates the "bottom" sound to downward transitions.
#[derive(Debug, Clone, Copy, PartialEq, Eq, Hash)]
pub struct FallingPiece {
    pub piece_state: PieceState,
    pub piece_position: (usize, usize),
    pub previous_lock_y: usize,
}

/// The board slot (column, row) covered by cell `i` of a state whose pivot
/// sits at (x, y). The geometry's upward second coordinate is negated into
/// rows.
pub open spec fn abs_cell(s: PieceState, x: int, y: int, i: int) -> (int, int) {
    (x + piece_cells(s)[i].0, y - piece_cells(s)[i].1)
}

/// Whether the slot (col, row) is inside the 10-column, 40-row grid.
pub open spec fn slot_in_grid(col: int, row: int) -> bool {
    0 <= col < 10 && 0 <= row < 40
}

/// Whether cell `i` of the state at (x, y) maps outside the grid or onto an
/// occupied slot of `g`.
pub open spec fn piece_cell_blocked(
    g: Seq<Seq<Option<Cell>>>,
    s: PieceState,
    x: int,
    y: int,
    i: int,
) -> bool {
    !slot_in_grid(abs_cell(s, x, y, i).0, abs_cell(s, x, y, i).1) || g[abs_cell(
        s,
        x,
        y,
        i,
    ).1][abs_cell(s, x, y, i).0] is Some
}

/// Whether the state at (x, y) collides with `g`: some cell out of the grid
/// or on an occupied slot.
pub open spec fn collides(g: Seq<Seq<Option<Cell>>>, s: PieceState, x: int, y: int) -> bool {
    exists|i: int| 0 <= i < 4 && #[trigger] piece_cell_blocked(g, s, x, y, i)
}

/// Whether every cell of the state at (x, y) lies inside the grid.
#[verifier::opaque]
pub open spec fn piece_in_grid(s: PieceState, x: int, y: int) -> bool {
    forall|i: int|
        0 <= i < 4 ==> slot_in_grid(
            (#[trigger] abs_cell(s, x, y, i)).0,
            abs_cell(s, x, y, i).1,
        )
}

/// A pivot well inside the grid keeps every cell of any state inside it.
pub proof fn lemma_spawn_in_grid(s: PieceState, x: int, y: int)
    requires
        2 <= x <= 7,
        2 <= y <= 37,
    ensures
        piece_in_grid(s, x, y),
{
    reveal(piece_in_grid);
    lemma_cells_bounds(s);
    assert forall|i: int| 0 <= i < 4 implies slot_in_grid(
        (#[trigger] abs_cell(s, x, y, i)).0,
        abs_cell(s, x, y, i).1,
    ) by {
        assert(-2 <= piece_cells(s)[i].0 <= 2);
        assert(-2 <= piece_cells(s)[i].1 <= 2);
    }
}

/// A position free of collisions has every cell inside the grid.
pub proof fn lemma_no_collision_in_grid(
    g: Seq<Seq<Option<Cell>>>,
    s: PieceState,
    x: int,
    y: int,
)
    requires
        !collides(g, s, x, y),
    ensures
        piece_in_grid(s, x, y),
{
    reveal(piece_in_grid);
    assert forall|i: int| 0 <= i < 4 implies slot_in_grid(
        (#[trigger] abs_cell(s, x, y, i)).0,
        abs_cell(s, x, y, i).1,
    ) by {
        assert(!piece_cell_blocked(g, s, x, y, i));
    }
}

/// A non-colliding position keeps the pivot itself on the board.
pub proof fn lemma_no_collision_pivot_in_grid(
    g: Seq<Seq<Option<Cell>>>,
    s: PieceState,
    x: int,
    y: int,
)
    requires
        !collides(g, s, x, y),
    ensures
        0 <= x < 10,
        0 <= y < 40,
{
    lemma_cells_origin(s);
    let k = origin_index(s.kind);
    assert(!piece_cell_blocked(g, s, x, y, k));
    assert(abs_cell(s, x, y, k) == (x, y));
}

impl FallingPiece {
    /// The pivot lies on the board; all reachable falling pieces satisfy it.
    pub open spec fn pos_ok(&self) -> bool {
        self.piece_position.0 <= 9 && self.piece_position.1 <= 39
    }

    pub fn from_piece_state(piece_state: PieceState) -> (r: Self)
        ensures
            r == (FallingPiece {
                piece_state,
                piece_position: initial_position_spec(piece_state.kind),
                previous_lock_y: 0,
            }),
            r.pos_ok(),
    {
        let piece_position = piece_state.get_initial_position();
        Self { piece_state, piece_position, previous_lock_y: 0 }
    }

    pub fn check_shift_collision(&self, board: &Board, x: i32, y: i32) -> (r: bool)
        requires
            board.grid_wf(),
            self.pos_ok(),
        ensures
            r == collides(
                board.grid(),
                self.piece_state,
                self.piece_position.0 + x,
                self.piece_position.1 + y,
            ),
    {
        let tx: i64 = self.piece_position.0 as i64 + x as i64;
        let ty: i64 = self.piece_position.1 as i64 + y as i64;
        board.collision_at(self.piece_state, tx, ty)
    }

    /// Move the pivot by (x, y) if the target position is free; report
    /// whether the move happened.
    pub fn shift(&mut self, board: &Board, x: i32, y: i32) -> (r: bool)
        requires
            board.grid_wf(),
            old(self).pos_ok(),
        ensures
            r == !collides(
                board.grid(),
                old(self).piece_state,
                old(self).piece_position.0 + x,
                old(self).piece_position.1 + y,
            ),
            r ==> *final(self) == (FallingPiece {
                piece_position: (
                    (old(self).piece_position.0 + x) as usize,
                    (old(self).piece_position.1 + y) as usize,
                ),
                ..*old(self)
            }),
            !r ==> *final(self) == *old(self),
            final(self).pos_ok(),
            r ==> !collides(
                board.grid(),
                final(self).piece_state,
                final(self).piece_position.0 as int,
                final(self).piece_position.1 as int,
            ),
    {
        if self.check_shift_collision(board, x, y) {
            false
        } else {
            let tx: i64 = self.piece_position.0 as i64 + x as i64;
            let ty: i64 = self.piece_position.1 as i64 + y as i64;
            proof {
                lemma_no_collision_pivot_in_grid(
                    board.grid(),
                    self.piece_state,
                    self.piece_position.0 + x,
                    self.piece_position.1 + y,
                );
            }
            self.piece_position = (tx as usize, ty as usize);
            true
        }
    }

    /// Try the clockwise rotation: the five kick deltas in order, committing
    /// to the first that does not collide, or leaving the piece unchanged.
    pub fn cw(&mut self, board: &Board) -> (r: bool)
        requires
            board.grid_wf(),
            old(self).pos_ok(),
        ensures
            rotation_outcome(
                board.grid(),
                *old(self),
                (PieceState { rotation: rot_cw(old(self).piece_state.rotation), ..old(self).piece_state }),
                *final(self),
                r,
            ),
            final(self).pos_ok(),
            r ==> !collides(
                board.grid(),
                final(self).piece_state,
                final(self).piece_position.0 as int,
                final(self).piece_position.1 as int,
            ),
    {
        let target = PieceState { kind: self.piece_state.kind, rotation: rot_cw_exec(self.piece_state.rotation) };
        self.try_rotation(board, target)
    }

    /// Try the counter-clockwise rotation, with the same kick resolution.
    pub fn ccw(&mut self, board: &Board) -> (r: bool)
        requires
            board.grid_wf(),
            old(self).pos_ok(),
        ensures
            rotation_outcome(
                board.grid(),
                *old(self),
                (PieceState { rotation: rot_ccw(old(self).piece_state.rotation), ..old(self).piece_state }),
                *final(self),
                r,
            ),
            final(self).pos_ok(),
            r ==> !collides(
                board.grid(),
                final(self).piece_state,
                final(self).piece_position.0 as int,
                final(self).piece_position.1 as int,
            ),
    {
        let target = PieceState { kind: self.piece_state.kind, rotation: rot_ccw_exec(self.piece_state.rotation) };
        self.try_rotation(board, target)
    }

    fn try_rotation(&mut self, board: &Board, target: PieceState) -> (r: bool)
        requires
            board.grid_wf(),
            old(self).pos_ok(),
            target.kind == old(self).piece_state.kind,
        ensures
            rotation_outcome(board.grid(), *old(self), target, *final(self), r),
            final(self).pos_ok(),
            r ==> !collides(
                board.grid(),
                final(self).piece_state,
                final(self).piece_position.0 as int,
                final(self).piece_position.1 as int,
            ),
    {
        let initial_offsets = self.piece_state.kicks();
        let target_offsets = target.kicks();
        let g = Ghost(board.grid());
        let pre = Ghost(*self);
        proof {
            lemma_kicks_bounds(pre@.piece_state);
            lemma_kicks_bounds(target);
        }
        let mut k: usize = 0;
        while k < 5
            invariant
                board.grid_wf(),
                g@ == board.grid(),
                *self == pre@,
                self.pos_ok(),
                target.kind == pre@.piece_state.kind,
                k <= 5,
                forall|i: int|
                    0 <= i < 5 ==> (#[trigger] initial_offsets@[i]).0 == kicks_of(
                        pre@.piece_state,
                    )[i].0 && initial_offsets@[i].1 == kicks_of(pre@.piece_state)[i].1,
                forall|i: int|
                    0 <= i < 5 ==> (#[trigger] target_offsets@[i]).0 == kicks_of(target)[i].0
                        && target_offsets@[i].1 == kicks_of(target)[i].1,
                forall|i: int|
                    0 <= i < 5 ==> -2 <= (#[trigger] kicks_of(pre@.piece_state)[i]).0 <= 2 && -2
                        <= kicks_of(pre@.piece_state)[i].1 <= 2,
                forall|i: int|
                    0 <= i < 5 ==> -2 <= (#[trigger] kicks_of(target)[i]).0 <= 2 && -2 <= kicks_of(
                        target,
                    )[i].1 <= 2,
                forall|j: int| 0 <= j < k ==> #[trigger] kick_collides(g@, pre@, target, j),
            decreases 5 - k,
        {
            let dx: i32 = initial_offsets[k].0 - target_offsets[k].0;
            let dy: i32 = initial_offsets[k].1 - target_offsets[k].1;
            let tx: i64 = self.piece_position.0 as i64 + dx as i64;
            let ty: i64 = self.piece_position.1 as i64 + dy as i64;
            proof {
                assert(dx == kick_deltas(pre@.piece_state, target)[k as int].0);
                assert(dy == kick_deltas(pre@.piece_state, target)[k as int].1);
            }
            if !board.collision_at(target, tx, ty) {
                proof {
                    lemma_no_collision_pivot_in_grid(
                        g@,
                        target,
                        self.piece_position.0 + dx,
                        self.piece_position.1 + dy,
                    );
                    assert(!kick_collides(g@, pre@, target, k as int));
                    assert(first_fitting_kick(g@, pre@, target, k as int) == k);
                    lemma_first_fitting_kick_skip(g@, pre@, target, k as int);
                    let d = kick_deltas(pre@.piece_state, target)[k as int];
                    assert(tx == pre@.piece_position.0 + d.0);
                    assert(ty == pre@.piece_position.1 + d.1);
                    assert(0 <= tx <= 9 && 0 <= ty <= 39);
                    assert(tx as usize == (pre@.piece_position.0 + d.0) as usize);
                    assert(ty as usize == (pre@.piece_position.1 + d.1) as usize);
                }
                self.piece_state = target;
                self.piece_position = (tx as usize, ty as usize);
                return true;
            }
            proof {
                assert(kick_collides(g@, pre@, target, k as int));
            }
            k = k + 1;
        }
        proof {
            assert(first_fitting_kick(g@, pre@, target, 5) == 5);
            lemma_first_fitting_kick_skip(g@, pre@, target, 5);
        }
        false
    }
}

fn rot_cw_exec(r: Rotation) -> (res: Rotation)
    ensures
        res == rot_cw(r),
{
    match r {
        Rotation::North => Rotation::East,
        Rotation::East => Rotation::South,
        Rotation::South => Rotation::West,
        Rotation::West => Rotation::North,
    }
}

fn rot_ccw_exec(r: Rotation) -> (res: Rotation)
    ensures
        res == rot_ccw(r),
{
    match r {
        Rotation::North => Rotation::West,
        Rotation::East => Rotation::North,
        Rotation::South => Rotation::East,
        Rotation::West => Rotation::South,
    }
}

/// Whether the target state collides when the `j`-th kick delta is applied
/// to the pivot of `pre`.
pub open spec fn kick_collides(
    g: Seq<Seq<Option<Cell>>>,
    pre: FallingPiece,
    target: PieceState,
    j: int,
) -> bool {
    collides(
        g,
        target,
        pre.piece_position.0 + kick_deltas(pre.piece_state, target)[j].0,
        pre.piece_position.1 + kick_deltas(pre.piece_state, target)[j].1,
    )
}

/// Index of the first kick delta, from `k` on, that the target state fits
/// at; 5 when none of the remaining candidates fits.
pub open spec fn first_fitting_kick(
    g: Seq<Seq<Option<Cell>>>,
    pre: FallingPiece,
    target: PieceState,
    k: int,
) -> int
    decreases 5 - k,
{
    if k >= 5 {
        5
    } else if !kick_collides(g, pre, target, k) {
        k
    } else {
        first_fitting_kick(g, pre, target, k + 1)
    }
}

/// Searching from 0 equals searching from `k` when every earlier candidate
/// collides.
pub proof fn lemma_first_fitting_kick_skip(
    g: Seq<Seq<Option<Cell>>>,
    pre: FallingPiece,
    target: PieceState,
    k: int,
)
    requires
        0 <= k <= 5,
        forall|j: int| 0 <= j < k ==> #[trigger] kick_collides(g, pre, target, j),
    ensures
        first_fitting_kick(g, pre, target, 0) == first_fitting_kick(g, pre, target, k),
    decreases k,
{
    if k > 0 {
        lemma_first_fitting_kick_skip(g, pre, target, k - 1);
        assert(kick_collides(g, pre, target, k - 1));
        assert(first_fitting_kick(g, pre, target, k - 1) == first_fitting_kick(g, pre, target, k));
    }
}

/// Every kick candidate lies within two cells of the pivot.
pub proof fn lemma_kicks_bounds(s: PieceState)
    ensures
        kicks_of(s).len() == 5,
        forall|i: int|
            0 <= i < 5 ==> -2 <= (#[trigger] kicks_of(s)[i]).0 <= 2 && -2 <= kicks_of(s)[i].1 <= 2,
{
    match (s.kind, s.rotation) {
        (Piece::O, Rotation::North) => {},
        (Piece::O, Rotation::East) => {},
        (Piece::O, Rotation::South) => {},
        (Piece::O, Rotation::West) => {},
        (Piece::I, Rotation::North) => {},
        (Piece::I, Rotation::East) => {},
        (Piece::I, Rotation::South) => {},
        (Piece::I, Rotation::West) => {},
        (_, Rotation::North) => {},
        (_, Rotation::East) => {},
        (_, Rotation::South) => {},
        (_, Rotation::West) => {},
    }
}

/// Whether some kick candidate lets the rotation toward `target` commit.
pub open spec fn rotation_succeeds(
    g: Seq<Seq<Option<Cell>>>,
    pre: FallingPiece,
    target: PieceState,
) -> bool {
    first_fitting_kick(g, pre, target, 0) < 5
}

/// What an attempted rotation leaves behind: the target orientation with the
/// first fitting kick delta applied to the pivot, or the piece unchanged
/// when all five candidates collide.
pub open spec fn rotation_result(
    g: Seq<Seq<Option<Cell>>>,
    pre: FallingPiece,
    target: PieceState,
) -> FallingPiece {
    let j = first_fitting_kick(g, pre, target, 0);
    if j < 5 {
        let d = kick_deltas(pre.piece_state, target)[j];
        FallingPiece {
            piece_state: target,
            piece_position: (
                (pre.piece_position.0 + d.0) as usize,
                (pre.piece_position.1 + d.1) as usize,
            ),
            ..pre
        }
    } else {
        pre
    }
}

/// The relation a rotation attempt satisfies: the report tells whether a
/// kick fitted, and the piece afterwards is exactly `rotation_result`.
pub open spec fn rotation_outcome(
    g: Seq<Seq<Option<Cell>>>,
    pre: FallingPiece,
    target: PieceState,
    post: FallingPiece,
    ok: bool,
) -> bool {
    ok == rotation_succeeds(g, pre, target) && post == rotation_result(g, pre, target)
}


/// Law: for every kind and rotation, the four rotated cells are four
/// distinct points.
pub proof fn lemma_cells_distinct(s: PieceState)
    ensures
        piece_cells(s).len() == 4,
        forall|i: int, j: int|
            0 <= i < j < 4 ==> #[trigger] piece_cells(s)[i] != #[trigger] piece_cells(s)[j],
{
    assert forall|i: int, j: int|
        0 <= i < j < 4 implies #[trigger] piece_cells(s)[i] != #[trigger] piece_cells(s)[j] by {
        let a = piece_stand(s.kind)[i];
        let b = piece_stand(s.kind)[j];
        assert(a != b) by {
            match s.kind {
                Piece::I => {},
                Piece::O => {},
                Piece::T => {},
                Piece::L => {},
                Piece::J => {},
                Piece::S => {},
                Piece::Z => {},
            }
        }
        assert(piece_cells(s)[i] == rotate_offset(s.rotation, a));
        assert(piece_cells(s)[j] == rotate_offset(s.rotation, b));
        match s.rotation {
            Rotation::North => {},
            Rotation::East => {},
            Rotation::South => {},
            Rotation::West => {},
        }
    }
}

/// Law: a clockwise rotation followed by a counter-clockwise one (from a
/// position where both commit on their first, unshifted kick candidate)
/// returns the piece to exactly the state and position it began in.
pub proof fn lemma_rotation_round_trip(g: Seq<Seq<Option<Cell>>>, cur: FallingPiece)
    requires
        ({
            let t1 = PieceState { rotation: rot_cw(cur.piece_state.rotation), ..cur.piece_state };
            &&& rotation_succeeds(g, cur, t1)
            &&& kick_deltas(cur.piece_state, t1)[first_fitting_kick(g, cur, t1, 0)] == (0int, 0int)
        }),
        ({
            let t1 = PieceState { rotation: rot_cw(cur.piece_state.rotation), ..cur.piece_state };
            let mid = rotation_result(g, cur, t1);
            let t2 = PieceState { rotation: rot_ccw(mid.piece_state.rotation), ..mid.piece_state };
            &&& rotation_succeeds(g, mid, t2)
            &&& kick_deltas(mid.piece_state, t2)[first_fitting_kick(g, mid, t2, 0)] == (0int, 0int)
        }),
    ensures
        ({
            let t1 = PieceState { rotation: rot_cw(cur.piece_state.rotation), ..cur.piece_state };
            let mid = rotation_result(g, cur, t1);
            let t2 = PieceState { rotation: rot_ccw(mid.piece_state.rotation), ..mid.piece_state };
            rotation_result(g, mid, t2) == cur
        }),
{
    let t1 = PieceState { rotation: rot_cw(cur.piece_state.rotation), ..cur.piece_state };
    let mid = rotation_result(g, cur, t1);
    let t2 = PieceState { rotation: rot_ccw(mid.piece_state.rotation), ..mid.piece_state };
    match cur.piece_state.rotation {
        Rotation::North => {},
        Rotation::East => {},
        Rotation::South => {},
        Rotation::West => {},
    }
    assert(t2 == cur.piece_state);
    assert(mid.piece_position == cur.piece_position);
    assert(rotation_result(g, mid, t2) == cur);
}

} // verus!
