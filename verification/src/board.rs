use vstd::prelude::*;

use rand::SeedableRng;
use rand::seq::SliceRandom;

use crate::cell::{piece_color, Cell};
use crate::piece::{
    abs_cell, collides, piece_cell_blocked, piece_cells, piece_in_grid, slot_in_grid,
    lemma_cells_bounds, FallingPiece, Piece, PieceState,
};
use crate::TetrisError;

verus! {

#[verifier::external_type_specification]
#[verifier::external_body]
pub struct ExStdRng(rand::rngs::StdRng);

/// Relies on rand::SeedableRng::seed_from_u64: builds a generator whose
/// stream is a function of the seed alone.
#[verifier::external_body]
fn rng_from_seed(seed: u64) -> rand::rngs::StdRng {
    rand::rngs::StdRng::seed_from_u64(seed)
}

/// Relies on rand::seq::SliceRandom::shuffle: an in-place permutation of the
/// slice (Fisher-Yates swaps), so the multiset of entries and the length are
/// unchanged, whatever order comes out.
#[verifier::external_body]
fn shuffle_pieces(rng: &mut rand::rngs::StdRng, v: &mut Vec<Piece>)
    ensures
        final(v)@.to_multiset() == old(v)@.to_multiset(),
        final(v)@.len() == old(v)@.len(),
{
    v.as_mut_slice().shuffle(rng);
}

/// An empty board row: ten unoccupied slots.
pub open spec fn empty_row() -> Seq<Option<Cell>> {
    Seq::new(10, |i: int| None)
}

/// The empty 40-row grid.
pub open spec fn empty_grid() -> Seq<Seq<Option<Cell>>> {
    Seq::new(40, |i: int| empty_row())
}

/// Whether every slot of the row is occupied.
pub open spec fn row_full(row: Seq<Option<Cell>>) -> bool {
    forall|j: int| 0 <= j < row.len() ==> (#[trigger] row[j]) is Some
}

/// Whether every slot of the row is free.
pub open spec fn row_empty(row: Seq<Option<Cell>>) -> bool {
    forall|j: int| 0 <= j < row.len() ==> (#[trigger] row[j]) is None
}

/// The seven kinds in their declaration order.
pub open spec fn all_kinds() -> Seq<Piece> {
    seq![Piece::I, Piece::O, Piece::T, Piece::L, Piece::J, Piece::S, Piece::Z]
}

/// A bag holding each of the seven kinds exactly once, in some order.
pub open spec fn is_full_bag(s: Seq<Piece>) -> bool {
    s.len() == 7 && s.to_multiset() == all_kinds().to_multiset()
}

pub proof fn lemma_all_kinds_full()
    ensures
        is_full_bag(all_kinds()),
{
}

/// The grid after the four cells of `piece` have been written in the kind's
/// colour, the first `n` of them; writes outside the grid are skipped here,
/// but `set_piece` stops at the first such cell.
pub open spec fn place_prefix(g: Seq<Seq<Option<Cell>>>, piece: FallingPiece, n: int) -> Seq<
    Seq<Option<Cell>>,
>
    decreases n,
{
    if n <= 0 {
        g
    } else {
        let g1 = place_prefix(g, piece, n - 1);
        let c = abs_cell(
            piece.piece_state,
            piece.piece_position.0 as int,
            piece.piece_position.1 as int,
            n - 1,
        );
        if slot_in_grid(c.0, c.1) {
            g1.update(c.1, g1[c.1].update(c.0, Some(piece_color(piece.piece_state.kind))))
        } else {
            g1
        }
    }
}

/// Index of the first of the piece's four cells that falls outside the grid,
/// searching from `k`; 4 when all the rest are inside.
pub open spec fn first_oob_cell(piece: FallingPiece, k: int) -> int
    decreases 4 - k,
{
    if k >= 4 {
        4
    } else {
        let c = abs_cell(
            piece.piece_state,
            piece.piece_position.0 as int,
            piece.piece_position.1 as int,
            k,
        );
        if !slot_in_grid(c.0, c.1) {
            k
        } else {
            first_oob_cell(piece, k + 1)
        }
    }
}

/// The 10-column, 40-row well with its upcoming pieces: the visible region
/// is rows 20 to 39, rows 0 to 19 are the hidden buffer above it. The next
/// queue always shows seven kinds; the bag refills with a shuffled
/// permutation of all seven when it drains.
#[derive(Debug)]
pub struct Board {
    pub cells: Vec<Vec<Option<Cell>>>,
    pub next_pieces: Vec<Piece>,
    pub bag: Vec<Piece>,
    pub hold_piece: Option<Piece>,
    pub rng: rand::rngs::StdRng,
}

impl Board {
    /// The grid as a sequence of rows of optional cells.
    pub open spec fn grid(&self) -> Seq<Seq<Option<Cell>>> {
        self.cells@.map(|i: int, row: Vec<Option<Cell>>| row@)
    }

    /// The grid keeps its 40-by-10 shape at all times.
    pub open spec fn grid_wf(&self) -> bool {
        &&& self.grid().len() == 40
    &&& forall|i: int| 0 <= i < 40 ==> (#[trigger] self.grid()[i]).len() == 10
    }

    /// Full well-formedness: the grid shape, a never-empty bag, and a
    /// next queue of exactly seven kinds.
    pub open spec fn wf(&self) -> bool {
        &&& self.grid_wf()
        &&& self.bag@.len() >= 1
        &&& self.next_pieces@.len() == 7
    }

    /// A fresh board: empty grid, no hold, a shuffled bag and a shuffled
    /// next queue, each a permutation of the seven kinds, drawn from the
    /// given seed.
    pub fn new(seed: u64) -> (r: Board)
        ensures
            r.wf(),
            r.grid() =~= empty_grid(),
            r.hold_piece is None,
            is_full_bag(r.bag@),
            is_full_bag(r.next_pieces@),
    {
        let cells = make_empty_cells();
        let mut rng = rng_from_seed(seed);
        let mut bag = make_all_kinds();
        shuffle_pieces(&mut rng, &mut bag);
        let mut next_pieces = copy_pieces(&bag);
        shuffle_pieces(&mut rng, &mut next_pieces);
        proof {
            assert(all_kinds().len() == 7);
        }
        Board { cells, next_pieces, bag, hold_piece: None, rng }
    }

    /// Write the four cells of `piece` in its kind's colour. Cells are
    /// written in order until one lies outside the grid, which stops the
    /// write and reports OutOfRange.
    pub fn set_piece(&mut self, piece: &FallingPiece) -> (r: Result<(), TetrisError>)
        requires
            old(self).grid_wf(),
            piece.pos_ok(),
        ensures
            r is Ok <==> piece_in_grid(
                piece.piece_state,
                piece.piece_position.0 as int,
                piece.piece_position.1 as int,
            ),
            final(self).grid() == place_prefix(old(self).grid(), *piece, first_oob_cell(*piece, 0)),
            r is Ok ==> final(self).grid() == place_prefix(old(self).grid(), *piece, 4),
            final(self).grid_wf(),
            final(self).next_pieces == old(self).next_pieces,
            final(self).bag == old(self).bag,
            final(self).hold_piece == old(self).hold_piece,
    {
        proof {
            reveal(piece_in_grid);
        }
        let g0 = Ghost(self.grid());
        let (x, y) = piece.piece_position;
        let rel = piece.piece_state.get_cells();
        let color = piece.piece_state.get_kind().into();
        let mut i: usize = 0;
        while i < 4
            invariant
                old(self).grid_wf(),
                piece.pos_ok(),
                g0@ == old(self).grid(),
                x == piece.piece_position.0,
                y == piece.piece_position.1,
                rel@.len() == 4,
                forall|j: int|
                    0 <= j < 4 ==> (#[trigger] rel@[j]).0 == piece_cells(piece.piece_state)[j].0
                        && rel@[j].1 == piece_cells(piece.piece_state)[j].1,
                color == piece_color(piece.piece_state.kind),
                i <= 4,
                forall|j: int|
                    0 <= j < i ==> slot_in_grid(
                        (#[trigger] abs_cell(
                            piece.piece_state,
                            piece.piece_position.0 as int,
                            piece.piece_position.1 as int,
                            j,
                        )).0,
                        abs_cell(
                            piece.piece_state,
                            piece.piece_position.0 as int,
                            piece.piece_position.1 as int,
                            j,
                        ).1,
                    ),
                self.grid() == place_prefix(g0@, *piece, i as int),
                self.grid_wf(),
                self.next_pieces == old(self).next_pieces,
                self.bag == old(self).bag,
                self.hold_piece == old(self).hold_piece,
            decreases 4 - i,
        {
            let rel_c = rel[i];
            let col: i64 = x as i64 + rel_c.0 as i64;
            let row: i64 = y as i64 - rel_c.1 as i64;
            proof {
                assert(col == abs_cell(piece.piece_state, x as int, y as int, i as int).0);
                assert(row == abs_cell(piece.piece_state, x as int, y as int, i as int).1);
            }
            if 0 <= col && col < 10 && 0 <= row && row < 40 {
                let rowi: usize = row as usize;
                let coli: usize = col as usize;
                let gprev = Ghost(self.grid());
                proof {
                    assert(self.cells@.len() == 40);
                    assert(self.grid()[rowi as int] == self.cells@[rowi as int]@);
                    assert(self.cells@[rowi as int]@.len() == 10);
                }
                self.cells[rowi][coli] = Some(color);
                proof {
                    let pc = abs_cell(piece.piece_state, x as int, y as int, i as int);
                    assert(self.cells@[rowi as int]@ == gprev@[rowi as int].update(
                        coli as int,
                        Some(color),
                    ));
                    assert(self.grid() =~= gprev@.update(
                        pc.1,
                        gprev@[pc.1].update(pc.0, Some(color)),
                    ));
                }
            } else {
                proof {
                    assert(first_oob_cell(*piece, i as int) == i);
                    lemma_first_oob_prefix(*piece, i as int);
                    assert(!slot_in_grid(
                        abs_cell(piece.piece_state, x as int, y as int, i as int).0,
                        abs_cell(piece.piece_state, x as int, y as int, i as int).1,
                    ));
                    assert(!piece_in_grid(
                        piece.piece_state,
                        piece.piece_position.0 as int,
                        piece.piece_position.1 as int,
                    ));
                }
                return Err(TetrisError::OutOfRange);
            }
            i = i + 1;
        }
        proof {
            lemma_first_oob_prefix(*piece, 4);
            assert(first_oob_cell(*piece, 0) == 4);
        }
        Ok(())
    }

    /// Whether the state with its pivot at (x, y) overlaps an occupied slot
    /// or leaves the grid.
    pub fn collision_at(&self, state: PieceState, x: i64, y: i64) -> (r: bool)
        requires
            self.grid_wf(),
            -0x1_0000_0000 <= x <= 0x1_0000_0000,
            -0x1_0000_0000 <= y <= 0x1_0000_0000,
        ensures
            r == collides(self.grid(), state, x as int, y as int),
    {
        proof {
            lemma_cells_bounds(state);
        }
        if x < -2 || x > 11 || y < -2 || y > 41 {
            proof {
                assert(piece_cell_blocked(self.grid(), state, x as int, y as int, 0));
            }
            return true;
        }
        let rel = state.get_cells();
        let mut i: usize = 0;
        while i < 4
            invariant
                self.grid_wf(),
                -2 <= x <= 11,
                -2 <= y <= 41,
                rel@.len() == 4,
                forall|j: int|
                    0 <= j < 4 ==> (#[trigger] rel@[j]).0 == piece_cells(state)[j].0 && rel@[j].1
                        == piece_cells(state)[j].1,
                i <= 4,
                forall|j: int|
                    0 <= j < i ==> !#[trigger] piece_cell_blocked(
                        self.grid(),
                        state,
                        x as int,
                        y as int,
                        j,
                    ),
            decreases 4 - i,
        {
            let rel_c = rel[i];
            proof {
                lemma_cells_bounds(state);
            }
            let col: i64 = x + rel_c.0 as i64;
            let row: i64 = y - rel_c.1 as i64;
            if col < 0 || col >= 10 || row < 0 || row >= 40 {
                proof {
                    assert(piece_cell_blocked(self.grid(), state, x as int, y as int, i as int));
                }
                return true;
            }
            proof {
                assert(self.cells@.len() == 40);
                assert(self.grid()[row as int] == self.cells@[row as int]@);
                assert(self.cells@[row as int]@.len() == 10);
                assert(col == abs_cell(state, x as int, y as int, i as int).0);
                assert(row == abs_cell(state, x as int, y as int, i as int).1);
            }
            if self.cells[row as usize][col as usize].is_some() {
                proof {
                    assert(piece_cell_blocked(self.grid(), state, x as int, y as int, i as int));
                }
                return true;
            }
            proof {
                assert(!piece_cell_blocked(self.grid(), state, x as int, y as int, i as int));
            }
            i = i + 1;
        }
        false
    }

    /// The pivot-indexed check: out-of-range pivots always collide.
    pub fn check_collision(&self, piece: PieceState, x: usize, y: usize) -> (r: bool)
        requires
            self.grid_wf(),
        ensures
            r == collides(self.grid(), piece, x as int, y as int),
    {
        proof {
            lemma_cells_bounds(piece);
        }
        if x > 11 || y > 41 {
            proof {
                assert(piece_cell_blocked(self.grid(), piece, x as int, y as int, 0));
            }
            return true;
        }
        self.collision_at(piece, x as i64, y as i64)
    }

    /// Take the head of the next queue, refill the queue from the bag, and
    /// refill the bag with a fresh shuffled seven when it drains.
    pub fn pop_next(&mut self) -> (r: Piece)
        requires
            old(self).wf(),
        ensures
            r == old(self).next_pieces@[0],
            final(self).next_pieces@ == old(self).next_pieces@.subrange(1, 7).push(
                old(self).bag@[0],
            ),
            old(self).bag@.len() > 1 ==> final(self).bag@ == old(self).bag@.subrange(
                1,
                old(self).bag@.len() as int,
            ),
            old(self).bag@.len() == 1 ==> is_full_bag(final(self).bag@),
            final(self).cells == old(self).cells,
            final(self).hold_piece == old(self).hold_piece,
            final(self).wf(),
    {
        let next = self.next_pieces.remove(0);
        let b0 = self.bag.remove(0);
        self.next_pieces.push(b0);
        proof {
            assert(self.next_pieces@ =~= old(self).next_pieces@.subrange(1, 7).push(
                old(self).bag@[0],
            ));
            assert(self.bag@ =~= old(self).bag@.subrange(1, old(self).bag@.len() as int));
        }
        if self.bag.len() == 0 {
            let mut bag = make_all_kinds();
            shuffle_pieces(&mut self.rng, &mut bag);
            self.bag = bag;
            proof {
                assert(all_kinds().len() == 7);
            }
        }
        next
    }

    /// Empty every fully occupied row in place (no shifting) and report how
    /// many there were; None when no row was full.
    pub fn line_clear(&mut self) -> (r: Option<usize>)
        requires
            old(self).grid_wf(),
        ensures
            final(self).grid() =~= old(self).grid().map(
                |i: int, row: Seq<Option<Cell>>| if row_full(row) {
                    empty_row()
                } else {
                    row
                },
            ),
            ({
                let n = old(self).grid().filter(|row: Seq<Option<Cell>>| row_full(row)).len();
                r == (if n > 0 {
                    Some(n as usize)
                } else {
                    None::<usize>
                })
            }),
            final(self).grid_wf(),
            final(self).next_pieces == old(self).next_pieces,
            final(self).bag == old(self).bag,
            final(self).hold_piece == old(self).hold_piece,
    {
        let g0 = Ghost(self.grid());
        let mut cleared: usize = 0;
        let mut y: usize = 0;
        while y < 40
            invariant
                old(self).grid_wf(),
                g0@ == old(self).grid(),
                y <= 40,
                self.grid().len() == 40,
                self.grid_wf(),
                cleared == g0@.subrange(0, y as int).filter(
                    |row: Seq<Option<Cell>>| row_full(row),
                ).len(),
                forall|i: int|
                    0 <= i < y ==> (#[trigger] self.grid()[i]) == (if row_full(g0@[i]) {
                        empty_row()
                    } else {
                        g0@[i]
                    }),
                forall|i: int| y <= i < 40 ==> (#[trigger] self.grid()[i]) == g0@[i],
                self.next_pieces == old(self).next_pieces,
                self.bag == old(self).bag,
                self.hold_piece == old(self).hold_piece,
            decreases 40 - y,
        {
            proof {
                reveal_with_fuel(Seq::<_>::filter, 2);
                assert(self.cells@.len() == 40);
                assert(g0@.subrange(0, y as int + 1).drop_last() =~= g0@.subrange(0, y as int));
                assert(g0@.subrange(0, y as int + 1).last() == g0@[y as int]);
                lemma_filter_len_le(
                    g0@.subrange(0, y as int),
                    |row: Seq<Option<Cell>>| row_full(row),
                );
                assert(self.grid()[y as int] == self.cells@[y as int]@);
                assert(self.grid()[y as int] == g0@[y as int]);
            }
            if row_is_full(&self.cells[y]) {
                let empty = make_empty_row();
                let gprev = Ghost(self.grid());
                self.cells[y] = empty;
                cleared = cleared + 1;
                proof {
                    assert(self.cells@[y as int]@ =~= empty_row());
                    assert(self.grid() =~= gprev@.update(y as int, empty_row()));
                }
            }
            y = y + 1;
        }
        proof {
            reveal_with_fuel(Seq::<_>::filter, 2);
            assert(g0@.subrange(0, 40) =~= g0@);
            assert(self.grid() =~= g0@.map(
                |i: int, row: Seq<Option<Cell>>| if row_full(row) {
                    empty_row()
                } else {
                    row
                },
            ));
        }
        if cleared != 0 {
            Some(cleared)
        } else {
            None
        }
    }

    /// Remove every empty row and put that many empty rows back on top, so
    /// the non-empty rows keep their order and slide to the bottom. Returns
    /// the removed rows' indices in increasing order.
    pub fn line_shrink(&mut self) -> (r: Vec<usize>)
        requires
            old(self).grid_wf(),
        ensures
            r@.map(|i: int, v: usize| v as int) == empty_row_indices(old(self).grid(), 0),
            final(self).grid() =~= Seq::new(r@.len() as nat, |i: int| empty_row()) + old(
                self,
            ).grid().filter(|row: Seq<Option<Cell>>| !row_empty(row)),
            final(self).grid_wf(),
            final(self).next_pieces == old(self).next_pieces,
            final(self).bag == old(self).bag,
            final(self).hold_piece == old(self).hold_piece,
    {
        let g0 = Ghost(self.grid());
        let mut lines: Vec<usize> = Vec::new();
        let mut kept: Vec<Vec<Option<Cell>>> = Vec::new();
        let mut y: usize = 0;
        while y < 40
            invariant
                self.grid_wf(),
                g0@ == self.grid(),
                y <= 40,
                lines@.map(|i: int, v: usize| v as int) =~= empty_row_indices_upto(
                    g0@,
                    0,
                    y as int,
                ),
                kept@.map(|i: int, row: Vec<Option<Cell>>| row@) =~= g0@.subrange(
                    0,
                    y as int,
                ).filter(|row: Seq<Option<Cell>>| !row_empty(row)),
                lines@.len() + kept@.len() == y,
                forall|i: int| 0 <= i < kept@.len() ==> (#[trigger] kept@[i])@.len() == 10,
            decreases 40 - y,
        {
            proof {
                reveal_with_fuel(Seq::<_>::filter, 2);
                assert(self.cells@.len() == 40);
                assert(g0@.subrange(0, y as int + 1).drop_last() =~= g0@.subrange(0, y as int));
                assert(g0@.subrange(0, y as int + 1).last() == g0@[y as int]);
                lemma_empty_row_indices_upto_step(g0@, y as int);
                assert(self.grid()[y as int] == self.cells@[y as int]@);
            }
            if row_is_empty(&self.cells[y]) {
                lines.push(y);
                proof {
                    assert(lines@.map(|i: int, v: usize| v as int) =~= empty_row_indices_upto(
                        g0@,
                        0,
                        y as int + 1,
                    ));
                }
            } else {
                let row = copy_row(&self.cells[y]);
                kept.push(row);
                proof {
                    assert(kept@.map(|i: int, row: Vec<Option<Cell>>| row@) =~= g0@.subrange(
                        0,
                        y as int + 1,
                    ).filter(|row: Seq<Option<Cell>>| !row_empty(row)));
                }
            }
            y = y + 1;
        }
        proof {
            assert(g0@.subrange(0, 40) =~= g0@);
            lemma_empty_row_indices_upto_all(g0@);
        }
        let n = lines.len();
        let mut cells: Vec<Vec<Option<Cell>>> = Vec::new();
        let mut k: usize = 0;
        while k < n
            invariant
                k <= n,
                cells@.len() == k,
                forall|i: int| 0 <= i < k ==> (#[trigger] cells@[i])@ =~= empty_row(),
            decreases n - k,
        {
            let empty = make_empty_row();
            cells.push(empty);
            k = k + 1;
        }
        let mut j: usize = 0;
        let kept_len = kept.len();
        while j < kept_len
            invariant
                j <= kept_len,
                kept_len == kept@.len(),
                n == lines@.len(),
                n + kept_len == 40,
                cells@.len() == n + j,
                forall|i: int| 0 <= i < n ==> (#[trigger] cells@[i])@ =~= empty_row(),
                forall|i: int| 0 <= i < j ==> cells@[n + i]@ == (#[trigger] kept@[i])@,
                forall|i: int| 0 <= i < kept@.len() ==> (#[trigger] kept@[i])@.len() == 10,
            decreases kept_len - j,
        {
            let row = copy_row(&kept[j]);
            cells.push(row);
            j = j + 1;
        }
        self.cells = cells;
        proof {
            let p = |row: Seq<Option<Cell>>| !row_empty(row);
            let fil = g0@.filter(p);
            assert(g0@.subrange(0, 40) =~= g0@);
            assert(kept@.map(|i: int, row: Vec<Option<Cell>>| row@) =~= fil);
            assert(fil.len() == kept@.len());
            let fin = Seq::new(lines@.len() as nat, |i: int| empty_row()) + fil;
            assert(self.grid().len() == 40);
            assert(fin.len() == 40);
            assert forall|i: int| 0 <= i < 40 implies #[trigger] self.grid()[i] == fin[i] by {
                assert(self.grid()[i] == self.cells@[i]@);
                if i < n {
                    assert(self.cells@[i]@ =~= empty_row());
                } else {
                    assert(self.cells@[i]@ == kept@[i - n]@);
                    assert(fil[i - n] == kept@.map(|t: int, row: Vec<Option<Cell>>| row@)[i - n]);
                }
            }
            assert(self.grid() =~= fin);
            assert forall|i: int| 0 <= i < 40 implies (#[trigger] self.grid()[i]).len() == 10 by {
                if i < n {
                    assert(self.grid()[i] == fin[i]);
                    assert(fin[i] =~= empty_row());
                } else {
                    assert(self.grid()[i] == kept@[i - n]@);
                }
            }
        }
        lines
    }

    /// Put `piece` into the hold slot, handing back the prior occupant.
    pub fn swap_hold_piece(&mut self, piece: Piece) -> (r: Option<Piece>)
        ensures
            r == old(self).hold_piece,
            *final(self) == (Board { hold_piece: Some(piece), ..*old(self) }),
    {
        let original = self.hold_piece;
        self.hold_piece = Some(piece);
        original
    }
}

/// Relies on the Clone derive of rand::rngs::StdRng: a generator with the
/// same state; nothing further is assumed of it.
pub assume_specification[ <rand::rngs::StdRng as Clone>::clone ](
    r: &rand::rngs::StdRng,
) -> rand::rngs::StdRng;

impl Board {
    /// An equal copy of the board; the two generators share their state and
    /// then advance independently.
    pub fn snapshot(&self) -> (r: Board)
        ensures
            r.grid() == self.grid(),
            r.next_pieces@ == self.next_pieces@,
            r.bag@ == self.bag@,
            r.hold_piece == self.hold_piece,
    {
        let mut cells: Vec<Vec<Option<Cell>>> = Vec::new();
        let mut i: usize = 0;
        let len = self.cells.len();
        while i < len
            invariant
                len == self.cells@.len(),
                i <= len,
                cells@.len() == i,
                forall|j: int| 0 <= j < i ==> (#[trigger] cells@[j])@ == self.cells@[j]@,
            decreases len - i,
        {
            let row = copy_row(&self.cells[i]);
            cells.push(row);
            i = i + 1;
        }
        let r = Board {
            cells,
            next_pieces: copy_pieces(&self.next_pieces),
            bag: copy_pieces(&self.bag),
            hold_piece: self.hold_piece,
            rng: self.rng.clone(),
        };
        proof {
            assert(r.grid() =~= self.grid());
        }
        r
    }
}

/// A 40-row grid of empty rows.
pub fn make_empty_cells() -> (r: Vec<Vec<Option<Cell>>>)
    ensures
        r@.map(|i: int, row: Vec<Option<Cell>>| row@) =~= empty_grid(),
        r@.len() == 40,
{
    let mut cells: Vec<Vec<Option<Cell>>> = Vec::new();
    let mut i: usize = 0;
    while i < 40
        invariant
            i <= 40,
            cells@.len() == i,
            forall|j: int| 0 <= j < i ==> (#[trigger] cells@[j])@ =~= empty_row(),
        decreases 40 - i,
    {
        let row = make_empty_row();
        cells.push(row);
        i = i + 1;
    }
    proof {
        let m = cells@.map(|i: int, row: Vec<Option<Cell>>| row@);
        assert forall|j: int| 0 <= j < 40 implies #[trigger] m[j] == empty_grid()[j] by {
            assert(cells@[j]@ =~= empty_row());
        }
        assert(m =~= empty_grid());
    }
    cells
}

fn make_empty_row() -> (r: Vec<Option<Cell>>)
    ensures
        r@ =~= empty_row(),
{
    let mut row: Vec<Option<Cell>> = Vec::new();
    let mut i: usize = 0;
    while i < 10
        invariant
            i <= 10,
            row@.len() == i,
            forall|j: int| 0 <= j < i ==> (#[trigger] row@[j]) is None,
        decreases 10 - i,
    {
        row.push(None);
        i = i + 1;
    }
    row
}

fn make_all_kinds() -> (r: Vec<Piece>)
    ensures
        r@ == all_kinds(),
{
    let mut v: Vec<Piece> = Vec::new();
    v.push(Piece::I);
    v.push(Piece::O);
    v.push(Piece::T);
    v.push(Piece::L);
    v.push(Piece::J);
    v.push(Piece::S);
    v.push(Piece::Z);
    proof {
        assert(v@ =~= all_kinds());
    }
    v
}

fn copy_pieces(v: &Vec<Piece>) -> (r: Vec<Piece>)
    ensures
        r@ == v@,
{
    let mut out: Vec<Piece> = Vec::new();
    let mut i: usize = 0;
    while i < v.len()
        invariant
            i <= v@.len(),
            out@ =~= v@.subrange(0, i as int),
        decreases v@.len() - i,
    {
        out.push(v[i]);
        proof {
            assert(out@ =~= v@.subrange(0, i as int + 1));
        }
        i = i + 1;
    }
    proof {
        assert(out@ =~= v@);
    }
    out
}

/// An exact copy of a row.
pub fn copy_row(v: &Vec<Option<Cell>>) -> (r: Vec<Option<Cell>>)
    ensures
        r@ == v@,
{
    let mut out: Vec<Option<Cell>> = Vec::new();
    let mut i: usize = 0;
    while i < v.len()
        invariant
            i <= v@.len(),
            out@ =~= v@.subrange(0, i as int),
        decreases v@.len() - i,
    {
        out.push(v[i]);
        proof {
            assert(out@ =~= v@.subrange(0, i as int + 1));
        }
        i = i + 1;
    }
    proof {
        assert(out@ =~= v@);
    }
    out
}

/// Whether every slot of the row is occupied.
pub fn row_is_full(row: &Vec<Option<Cell>>) -> (r: bool)
    ensures
        r == row_full(row@),
{
    let mut i: usize = 0;
    while i < row.len()
        invariant
            i <= row@.len(),
            forall|j: int| 0 <= j < i ==> (#[trigger] row@[j]) is Some,
        decreases row@.len() - i,
    {
        if row[i].is_none() {
            return false;
        }
        i = i + 1;
    }
    true
}

/// Whether every slot of the row is free.
pub fn row_is_empty(row: &Vec<Option<Cell>>) -> (r: bool)
    ensures
        r == row_empty(row@),
{
    let mut i: usize = 0;
    while i < row.len()
        invariant
            i <= row@.len(),
            forall|j: int| 0 <= j < i ==> (#[trigger] row@[j]) is None,
        decreases row@.len() - i,
    {
        if row[i].is_some() {
            return false;
        }
        i = i + 1;
    }
    true
}

/// The indices in [from, 40) of the empty rows of `g`, in increasing order.
pub open spec fn empty_row_indices(g: Seq<Seq<Option<Cell>>>, from: int) -> Seq<int> {
    empty_row_indices_upto(g, from, g.len() as int)
}

/// The indices in [from, upto) of the empty rows of `g`, in increasing
/// order.
pub open spec fn empty_row_indices_upto(g: Seq<Seq<Option<Cell>>>, from: int, upto: int) -> Seq<
    int,
>
    decreases upto - from,
{
    if from >= upto {
        Seq::empty()
    } else {
        let rest = empty_row_indices_upto(g, from + 1, upto);
        if row_empty(g[from]) {
            seq![from] + rest
        } else {
            rest
        }
    }
}

proof fn lemma_empty_row_indices_upto_step(g: Seq<Seq<Option<Cell>>>, y: int)
    requires
        0 <= y,
    ensures
        forall|from: int|
            0 <= from <= y ==> #[trigger] empty_row_indices_upto(g, from, y + 1)
                == empty_row_indices_upto(g, from, y) + (if row_empty(g[y]) {
                seq![y]
            } else {
                Seq::<int>::empty()
            }),
    decreases y,
{
    assert forall|from: int| 0 <= from <= y implies #[trigger] empty_row_indices_upto(g, from, y + 1)
        == empty_row_indices_upto(g, from, y) + (if row_empty(g[y]) {
        seq![y]
    } else {
        Seq::<int>::empty()
    }) by {
        lemma_empty_row_indices_step_one(g, from, y);
    }
}

proof fn lemma_empty_row_indices_step_one(g: Seq<Seq<Option<Cell>>>, from: int, y: int)
    requires
        0 <= from <= y,
    ensures
        empty_row_indices_upto(g, from, y + 1) == empty_row_indices_upto(g, from, y) + (
        if row_empty(g[y]) {
            seq![y]
        } else {
            Seq::<int>::empty()
        }),
    decreases y - from,
{
    if from == y {
        assert(empty_row_indices_upto(g, from, y) =~= Seq::<int>::empty());
        assert(empty_row_indices_upto(g, y + 1, y + 1) =~= Seq::<int>::empty());
        if row_empty(g[y]) {
            assert(empty_row_indices_upto(g, from, y + 1) =~= seq![y]);
            assert(empty_row_indices_upto(g, from, y) + seq![y] =~= seq![y]);
        } else {
            assert(empty_row_indices_upto(g, from, y + 1) =~= Seq::<int>::empty());
            assert(empty_row_indices_upto(g, from, y) + Seq::<int>::empty() =~= Seq::<
                int,
            >::empty());
        }
    } else {
        lemma_empty_row_indices_step_one(g, from + 1, y);
        if row_empty(g[from]) {
            assert(empty_row_indices_upto(g, from, y + 1) == seq![from] + empty_row_indices_upto(
                g,
                from + 1,
                y + 1,
            ));
            assert(seq![from] + (empty_row_indices_upto(g, from + 1, y) + (if row_empty(g[y]) {
                seq![y]
            } else {
                Seq::<int>::empty()
            })) =~= (seq![from] + empty_row_indices_upto(g, from + 1, y)) + (if row_empty(g[y]) {
                seq![y]
            } else {
                Seq::<int>::empty()
            }));
        } else {
            assert(empty_row_indices_upto(g, from, y + 1) == empty_row_indices_upto(
                g,
                from + 1,
                y + 1,
            ));
        }
    }
}

proof fn lemma_empty_row_indices_upto_all(g: Seq<Seq<Option<Cell>>>)
    requires
        g.len() == 40,
    ensures
        empty_row_indices(g, 0) == empty_row_indices_upto(g, 0, 40),
{
}

/// A filtered sequence is never longer than the one it came from.
proof fn lemma_filter_len_le<A>(s: Seq<A>, p: spec_fn(A) -> bool)
    ensures
        s.filter(p).len() <= s.len(),
    decreases s.len(),
{
    reveal_with_fuel(Seq::filter, 2);
    if s.len() > 0 {
        lemma_filter_len_le(s.drop_last(), p);
    }
}

proof fn lemma_first_oob_prefix(piece: FallingPiece, k: int)
    requires
        0 <= k <= 4,
        forall|j: int|
            0 <= j < k ==> slot_in_grid(
                (#[trigger] abs_cell(
                    piece.piece_state,
                    piece.piece_position.0 as int,
                    piece.piece_position.1 as int,
                    j,
                )).0,
                abs_cell(
                    piece.piece_state,
                    piece.piece_position.0 as int,
                    piece.piece_position.1 as int,
                    j,
                ).1,
            ),
    ensures
        first_oob_cell(piece, 0) == first_oob_cell(piece, k),
    decreases k,
{
    if k > 0 {
        lemma_first_oob_prefix(piece, k - 1);
        assert(first_oob_cell(piece, k - 1) == first_oob_cell(piece, k));
    }
}



/// A filter over a sequence none of whose entries satisfy it is empty.
proof fn lemma_filter_all_false<A>(s: Seq<A>, p: spec_fn(A) -> bool)
    requires
        forall|i: int| 0 <= i < s.len() ==> !p(#[trigger] s[i]),
    ensures
        s.filter(p) == Seq::<A>::empty(),
    decreases s.len(),
{
    reveal(Seq::filter);
    if s.len() > 0 {
        assert(!p(s.last()));
        lemma_filter_all_false(s.drop_last(), p);
    }
}

/// A filter over a sequence all of whose entries satisfy it changes
/// nothing.
proof fn lemma_filter_all_true<A>(s: Seq<A>, p: spec_fn(A) -> bool)
    requires
        forall|i: int| 0 <= i < s.len() ==> p(#[trigger] s[i]),
    ensures
        s.filter(p) == s,
    decreases s.len(),
{
    reveal(Seq::filter);
    if s.len() > 0 {
        assert(p(s.last()));
        lemma_filter_all_true(s.drop_last(), p);
        assert(s.filter(p) =~= s);
    }
}

/// Law: collapsing the empty rows preserves the sequence of non-empty
/// rows exactly - nothing is lost, reordered or changed but the empty
/// rows' position.
pub proof fn lemma_shrink_preserves_rows(g: Seq<Seq<Option<Cell>>>)
    ensures
        (Seq::new(empty_row_indices(g, 0).len(), |i: int| empty_row()) + g.filter(
            |row: Seq<Option<Cell>>| !row_empty(row),
        )).filter(|row: Seq<Option<Cell>>| !row_empty(row)) == g.filter(
            |row: Seq<Option<Cell>>| !row_empty(row),
        ),
{
    let p = |row: Seq<Option<Cell>>| !row_empty(row);
    let empties = Seq::new(empty_row_indices(g, 0).len(), |i: int| empty_row());
    let kept = g.filter(p);
    Seq::filter_distributes_over_add(empties, kept, p);
    assert forall|i: int| 0 <= i < empties.len() implies !p(#[trigger] empties[i]) by {
        assert(empties[i] == empty_row());
        assert(row_empty(empty_row()));
    }
    lemma_filter_all_false(empties, p);
    assert forall|i: int| 0 <= i < kept.len() implies p(#[trigger] kept[i]) by {
        g.lemma_filter_pred(p, i);
    }
    lemma_filter_all_true(kept, p);
    assert(Seq::<Seq<Option<Cell>>>::empty() + kept =~= kept);
}

} // verus!
