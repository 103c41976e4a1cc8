use vstd::prelude::*;

use crate::board::{
    all_kinds, empty_grid, empty_row, empty_row_indices, is_full_bag, make_empty_cells,
    place_prefix, row_empty, row_full, Board,
};
use crate::piece::{
    collides, initial_position_spec, piece_in_grid, rot_ccw, rot_cw, rotation_result,
    rotation_succeeds, slot_in_grid, FallingPiece, Piece, PieceState, Rotation,
};
use crate::cell::Cell;
use crate::{Input, Sound, TetrisEvent};

verus! {

/// Direction the auto-shift machinery is currently latched to.
#[derive(Debug, Clone, Copy, PartialEq, Eq, Structural)]
pub enum DasState {
    Left,
    Right,
    Neutral,
}

impl Default for DasState {
    fn default() -> (r: Self)
        ensures
            r == DasState::Left,
    {
        DasState::Left
    }
}

/// The abstract shape of an outbound event: the rows of a collapse appear as
/// a sequence of integers.
pub ghost enum EventV {
    LineCleared(int),
    LineShrinked(Seq<int>),
    PieceSpawned(Piece),
    PieceLocked(FallingPiece),
}

/// The abstract view of a TetrisEvent.
pub open spec fn ev_view(e: TetrisEvent) -> EventV {
    match e {
        TetrisEvent::LineCleared(n) => EventV::LineCleared(n as int),
        TetrisEvent::LineShrinked(v) => EventV::LineShrinked(
            v@.map(|i: int, u: usize| u as int),
        ),
        TetrisEvent::PieceSpawned(p) => EventV::PieceSpawned(p),
        TetrisEvent::PieceLocked(f) => EventV::PieceLocked(f),
    }
}

pub open spec fn opt_int(o: Option<usize>) -> Option<int> {
    match o {
        Some(v) => Some(v as int),
        None => None,
    }
}

/// The whole per-frame state of the base mode, over mathematical types.
#[verifier::ext_equal]
pub ghost struct GameView {
    pub grid: Seq<Seq<Option<Cell>>>,
    pub next: Seq<Piece>,
    pub bag: Seq<Piece>,
    pub hold: Option<Piece>,
    pub current: Option<FallingPiece>,
    pub locked: Option<FallingPiece>,
    pub gravity: int,
    pub shift_down_counter: int,
    pub lock_delay: int,
    pub lock_counter: int,
    pub input: Input,
    pub previous_input: Input,
    pub rotate_used: bool,
    pub sounds: Seq<Sound>,
    pub events: Seq<EventV>,
    pub das: int,
    pub das_counter: int,
    pub das_state: DasState,
    pub are: int,
    pub line_are: int,
    pub are_counter: Option<int>,
    pub line_clear_lock: int,
    pub line_clear_lock_timer: Option<int>,
    pub hold_used: bool,
}

/// Gravity is measured in 256ths of a cell per frame; one cell per frame is
/// 256. This cap (65536 cells per frame) is far above every table value and
/// keeps the fractional accumulator within machine range.
pub const GRAVITY_UNIT: u32 = 256;

pub const GRAVITY_MAX: u32 = 0x0100_0000;

/// x + 1, stopping at the largest machine integer.
pub open spec fn sat_inc(x: int) -> int {
    if x + 1 <= usize::MAX {
        x + 1
    } else {
        x
    }
}

fn sat_inc_usize(x: usize) -> (r: usize)
    ensures
        r as int == sat_inc(x as int),
{
    if x < usize::MAX {
        x + 1
    } else {
        x
    }
}

/// The announcement sound of a kind.
pub open spec fn spawn_sound(p: Piece) -> Sound {
    match p {
        Piece::I => Sound::PieceI,
        Piece::O => Sound::PieceO,
        Piece::T => Sound::PieceT,
        Piece::L => Sound::PieceL,
        Piece::J => Sound::PieceJ,
        Piece::S => Sound::PieceS,
        Piece::Z => Sound::PieceZ,
    }
}

/// The grid after every full row has been emptied in place.
pub open spec fn cleared_grid(g: Seq<Seq<Option<Cell>>>) -> Seq<Seq<Option<Cell>>> {
    g.map(
        |i: int, row: Seq<Option<Cell>>| if row_full(row) {
            empty_row()
        } else {
            row
        },
    )
}

/// How many rows of the grid are fully occupied.
pub open spec fn num_full_rows(g: Seq<Seq<Option<Cell>>>) -> int {
    g.filter(|row: Seq<Option<Cell>>| row_full(row)).len() as int
}

/// The grid after the empty rows have been removed and put back on top.
pub open spec fn shrunk_grid(g: Seq<Seq<Option<Cell>>>) -> Seq<Seq<Option<Cell>>> {
    Seq::new(empty_row_indices(g, 0).len(), |i: int| empty_row()) + g.filter(
        |row: Seq<Option<Cell>>| !row_empty(row),
    )
}

/// The grid after the four cells of `piece` have been written; total only
/// when the piece lies inside the grid.
pub open spec fn place_piece(g: Seq<Seq<Option<Cell>>>, piece: FallingPiece) -> Seq<
    Seq<Option<Cell>>,
> {
    place_prefix(g, piece, 4)
}

/// Piece the falling piece becomes when its pivot moves to (x, y).
pub open spec fn at_position(cur: FallingPiece, x: int, y: int) -> FallingPiece {
    FallingPiece { piece_position: (x as usize, y as usize), ..cur }
}

/// The row the pivot reaches by falling at most `n` single steps, stopping
/// above the first collision.
#[verifier::opaque]
pub open spec fn descend(
    g: Seq<Seq<Option<Cell>>>,
    s: PieceState,
    x: int,
    y: int,
    n: int,
) -> int
    decreases n,
{
    if n <= 0 {
        y
    } else if collides(g, s, x, y + 1) {
        y
    } else {
        descend(g, s, x, y + 1, n - 1)
    }
}

/// The smallest downward offset in [0, 20) at which the piece collides; 20
/// when none does.
pub open spec fn first_colliding_offset(
    g: Seq<Seq<Option<Cell>>>,
    cur: FallingPiece,
    k: int,
) -> int
    decreases 20 - k,
{
    if k >= 20 {
        20
    } else if collides(
        g,
        cur.piece_state,
        cur.piece_position.0 as int,
        cur.piece_position.1 + k,
    ) {
        k
    } else {
        first_colliding_offset(g, cur, k + 1)
    }
}

/// Let the piece fall one row at a time, at most `n` rows, stopping above
/// the first collision.
fn step_down(cur: &mut FallingPiece, board: &Board, n: u32)
    requires
        board.grid_wf(),
        old(cur).pos_ok(),
        piece_in_grid(
            old(cur).piece_state,
            old(cur).piece_position.0 as int,
            old(cur).piece_position.1 as int,
        ),
    ensures
        final(cur).piece_state == old(cur).piece_state,
        final(cur).previous_lock_y == old(cur).previous_lock_y,
        final(cur).piece_position.0 == old(cur).piece_position.0,
        final(cur).pos_ok(),
        piece_in_grid(
            final(cur).piece_state,
            final(cur).piece_position.0 as int,
            final(cur).piece_position.1 as int,
        ),
        final(cur).piece_position.1 == descend(
            board.grid(),
            old(cur).piece_state,
            old(cur).piece_position.0 as int,
            old(cur).piece_position.1 as int,
            n as int,
        ),
{
    let ghost st = cur.piece_state;
    let ghost x0 = cur.piece_position.0 as int;
    let ghost y0 = cur.piece_position.1 as int;
    let ghost nn = n as int;
    proof {
        reveal(descend);
    }
    let mut i: u32 = 0;
    let mut moved = true;
    while i < n && moved
        invariant
            i <= n,
            cur.piece_state == st,
            cur.previous_lock_y == old(cur).previous_lock_y,
            cur.piece_position.0 == x0,
            cur.pos_ok(),
            piece_in_grid(st, x0, cur.piece_position.1 as int),
            moved ==> descend(board.grid(), st, x0, y0, nn) == descend(
                board.grid(),
                st,
                x0,
                cur.piece_position.1 as int,
                nn - i,
            ),
            !moved ==> cur.piece_position.1 == descend(board.grid(), st, x0, y0, nn),
        decreases n - i + (if moved { 1int } else { 0int }),
    {
        proof {
            reveal(descend);
        }
        moved = cur.shift(board, 0, 1);
        if moved {
            proof {
                crate::piece::lemma_no_collision_in_grid(
                    board.grid(),
                    cur.piece_state,
                    cur.piece_position.0 as int,
                    cur.piece_position.1 as int,
                );
            }
            i = i + 1;
        } else {
            proof {
                assert(descend(
                    board.grid(),
                    st,
                    x0,
                    cur.piece_position.1 as int,
                    nn - i,
                ) == cur.piece_position.1);
            }
        }
    }
}

/// Whether the piece, moved down by `j`, is free of collisions.
pub open spec fn drop_free(g: Seq<Seq<Option<Cell>>>, cur: FallingPiece, j: int) -> bool {
    !collides(g, cur.piece_state, cur.piece_position.0 as int, cur.piece_position.1 + j)
}

/// Searching for the drop distance from 0 equals searching from `k` when no
/// earlier offset collides.
pub proof fn lemma_first_drop_skip(g: Seq<Seq<Option<Cell>>>, cur: FallingPiece, k: int)
    requires
        0 <= k <= 20,
        forall|j: int| 0 <= j < k ==> #[trigger] drop_free(g, cur, j),
    ensures
        first_colliding_offset(g, cur, 0) == first_colliding_offset(g, cur, k),
    decreases k,
{
    if k > 0 {
        lemma_first_drop_skip(g, cur, k - 1);
        assert(drop_free(g, cur, k - 1));
        assert(first_colliding_offset(g, cur, k - 1) == first_colliding_offset(g, cur, k));
    }
}

// ---------------------------------------------------------------------------
// The tick, phase by phase, as functions over the view
// ---------------------------------------------------------------------------

/// Step 1: the one-frame lock flag is cleared.
#[verifier::opaque]
pub open spec fn phase_clear_locked(g: GameView) -> GameView {
    GameView { locked: None, ..g }
}

/// What popping the next queue does to the queues; `refill` stands for the
/// shuffled bag that replaces a drained one.
pub open spec fn popped_next(next: Seq<Piece>, bag: Seq<Piece>, refill: Seq<Piece>) -> (
    Seq<Piece>,
    Seq<Piece>,
) {
    let next1 = next.subrange(1, next.len() as int).push(bag[0]);
    let bag1 = bag.subrange(1, bag.len() as int);
    if bag1.len() == 0 {
        (next1, refill)
    } else {
        (next1, bag1)
    }
}

/// The line-clear pause counting down: on expiry the Fall sound, the
/// collapse, and its event.
#[verifier::opaque]
pub open spec fn collapse_step(g: GameView) -> GameView {
    match g.line_clear_lock_timer {
        Some(t) => {
            if t <= 1 {
                GameView {
                    sounds: g.sounds.push(Sound::Fall),
                    line_clear_lock_timer: None,
                    grid: shrunk_grid(g.grid),
                    events: g.events.push(EventV::LineShrinked(empty_row_indices(g.grid, 0))),
                    ..g
                }
            } else {
                GameView { line_clear_lock_timer: Some(t - 1), ..g }
            }
        },
        None => g,
    }
}

/// The entry delay counting down: on expiry the next piece spawns.
#[verifier::opaque]
pub open spec fn are_step(g: GameView, refill: Seq<Piece>) -> GameView {
    match g.are_counter {
        Some(c) => {
            if c <= 1 {
                spawned_view(g, refill)
            } else {
                GameView { are_counter: Some(c - 1), ..g }
            }
        },
        None => g,
    }
}

/// Step 2: with no piece in flight, run the line-clear pause, or else the
/// entry delay, spawning when the latter expires.
#[verifier::opaque]
pub open spec fn phase_delays(g: GameView, refill: Seq<Piece>) -> GameView {
    if g.current is None {
        if g.line_clear_lock_timer is Some {
            collapse_step(g)
        } else {
            are_step(g, refill)
        }
    } else {
        g
    }
}

/// What a spawn leaves behind: the head of the next queue in flight at its
/// spawn slot, the queues advanced, and the event and sound appended.
#[verifier::opaque]
pub open spec fn spawned_view(g: GameView, refill: Seq<Piece>) -> GameView {
    let picked = g.next[0];
    let queues = popped_next(g.next, g.bag, refill);
    GameView {
        next: queues.0,
        bag: queues.1,
        current: Some(
            FallingPiece {
                piece_state: PieceState { kind: picked, rotation: Rotation::North },
                piece_position: initial_position_spec(picked),
                previous_lock_y: 0,
            },
        ),
        shift_down_counter: 0,
        events: g.events.push(EventV::PieceSpawned(picked)),
        sounds: g.sounds.push(spawn_sound(queues.0[0])),
        hold_used: false,
        are_counter: None,
        ..g
    }
}

/// Step 3: the hold swap, gated by the one-per-spawn flag.
#[verifier::opaque]
pub open spec fn phase_hold(g: GameView, refill: Seq<Piece>) -> GameView {
    if !g.hold_used && g.input.hold && g.current is Some {
        let cur = g.current->Some_0;
        let sound = spawn_sound(g.next[0]);
        let taken = match g.hold {
            Some(h) => h,
            None => g.next[0],
        };
        let queues = match g.hold {
            Some(h) => (g.next, g.bag),
            None => popped_next(g.next, g.bag, refill),
        };
        GameView {
            hold: Some(cur.piece_state.kind),
            next: queues.0,
            bag: queues.1,
            current: Some(
                FallingPiece {
                    piece_state: PieceState { kind: taken, rotation: Rotation::North },
                    piece_position: crate::piece::initial_position_spec(taken),
                    previous_lock_y: 0,
                },
            ),
            sounds: g.sounds.push(sound).push(Sound::Hold),
            rotate_used: false,
            hold_used: true,
            shift_down_counter: 0,
            lock_counter: 0,
            ..g
        }
    } else {
        g
    }
}

/// Step 4: one rotation per key press, with kick resolution; a success
/// resets the lock counter, and releasing both keys unlatches the flag.
#[verifier::opaque]
pub open spec fn phase_rotate(g: GameView) -> GameView {
    let g1 = if g.current is Some {
        let cur = g.current->Some_0;
        if g.input.cw && !g.rotate_used {
            let target = PieceState { rotation: rot_cw(cur.piece_state.rotation), ..cur.piece_state };
            GameView {
                current: Some(rotation_result(g.grid, cur, target)),
                lock_counter: if rotation_succeeds(g.grid, cur, target) {
                    0
                } else {
                    g.lock_counter
                },
                rotate_used: true,
                ..g
            }
        } else if g.input.ccw && !g.rotate_used {
            let target = PieceState { rotation: rot_ccw(cur.piece_state.rotation), ..cur.piece_state };
            GameView {
                current: Some(rotation_result(g.grid, cur, target)),
                lock_counter: if rotation_succeeds(g.grid, cur, target) {
                    0
                } else {
                    g.lock_counter
                },
                rotate_used: true,
                ..g
            }
        } else {
            g
        }
    } else {
        g
    };
    if (g.previous_input.cw && !g.input.cw) || (g.previous_input.ccw && !g.input.ccw) {
        GameView { rotate_used: false, ..g1 }
    } else {
        g1
    }
}

/// Step 5: a rising edge of hard drop drops the piece to rest just above
/// the first collision within twenty rows and locks it there at once.
#[verifier::opaque]
pub open spec fn phase_hard_drop(g: GameView) -> GameView {
    if !g.previous_input.hard_drop && g.input.hard_drop && g.current is Some {
        let cur = g.current->Some_0;
        let sounds1 = g.sounds.push(Sound::Bottom);
        let i = first_colliding_offset(g.grid, cur, 0);
        if i < 20 {
            let cur1 = if !collides(
                g.grid,
                cur.piece_state,
                cur.piece_position.0 as int,
                cur.piece_position.1 + i - 1,
            ) {
                at_position(cur, cur.piece_position.0 as int, cur.piece_position.1 + i - 1)
            } else {
                cur
            };
            GameView {
                sounds: sounds1,
                grid: place_piece(g.grid, cur1),
                events: g.events.push(EventV::PieceLocked(cur1)),
                locked: Some(cur1),
                current: None,
                lock_counter: 0,
                are_counter: Some(g.are),
                ..g
            }
        } else {
            GameView { sounds: sounds1, ..g }
        }
    } else {
        g
    }
}

/// What locking the piece in place leaves behind: its cells written to the
/// grid, the event and sound emitted, and the entry delay armed.
#[verifier::opaque]
pub open spec fn lock_view(g: GameView, cur: FallingPiece) -> GameView {
    GameView {
        grid: place_piece(g.grid, cur),
        events: g.events.push(EventV::PieceLocked(cur)),
        current: None,
        locked: Some(cur),
        rotate_used: false,
        are_counter: Some(g.are),
        lock_counter: 0,
        sounds: g.sounds.push(Sound::Lock),
        ..g
    }
}

/// The fall itself: the fractional accumulator advances (soft drop forces a
/// whole cell only while gravity is below one), and on overflow the piece
/// falls by the accrued cells, teleporting if the target is free and
/// stepping down to rest otherwise.
#[verifier::opaque]
pub open spec fn descend_step(g: GameView, cur: FallingPiece) -> GameView {
    let x = cur.piece_position.0 as int;
    let y = cur.piece_position.1 as int;
    let add = if g.input.soft_drop && g.gravity < 256 {
        256
    } else {
        g.gravity
    };
    let c1 = g.shift_down_counter + add;
    if c1 >= 256 {
        let n = c1 / 256;
        let y1 = if !collides(g.grid, cur.piece_state, x, y + n) {
            y + n
        } else {
            descend(g.grid, cur.piece_state, x, y, n)
        };
        GameView { current: Some(at_position(cur, x, y1)), shift_down_counter: 0, ..g }
    } else {
        GameView { current: Some(cur), shift_down_counter: c1, ..g }
    }
}

/// Step 6: gravity. A grounded piece counts toward lock delay and locks
/// when it expires; otherwise the accumulator advances and the piece falls
/// by the whole cells accrued, stopping above a collision.
#[verifier::opaque]
pub open spec fn phase_gravity(g: GameView) -> GameView {
    match g.current {
        None => g,
        Some(cur) => {
            let x = cur.piece_position.0 as int;
            let y = cur.piece_position.1 as int;
            let grounded = collides(g.grid, cur.piece_state, x, y + 1);
            let sounds1 = if grounded && y > cur.previous_lock_y {
                g.sounds.push(Sound::Bottom)
            } else {
                g.sounds
            };
            let cur1 = if grounded {
                FallingPiece { previous_lock_y: cur.piece_position.1, ..cur }
            } else {
                cur
            };
            let lc1 = if grounded {
                sat_inc(g.lock_counter)
            } else {
                g.lock_counter
            };
            let g1 = GameView { sounds: sounds1, lock_counter: lc1, ..g };
            if grounded && lc1 >= g.lock_delay {
                lock_view(g1, cur1)
            } else {
                descend_step(g1, cur1)
            }
        },
    }
}

/// The lock case of the gravity phase, spelled out for the implementation.
proof fn lemma_phase_gravity_lock(pre: GameView, mid: GameView, cur0: FallingPiece, cur1: FallingPiece)
    requires
        pre.current == Some(cur0),
        collides(
            pre.grid,
            cur0.piece_state,
            cur0.piece_position.0 as int,
            cur0.piece_position.1 + 1,
        ),
        cur1 == (FallingPiece { previous_lock_y: cur0.piece_position.1, ..cur0 }),
        mid == (GameView {
            sounds: if cur0.piece_position.1 > cur0.previous_lock_y {
                pre.sounds.push(Sound::Bottom)
            } else {
                pre.sounds
            },
            lock_counter: sat_inc(pre.lock_counter),
            ..pre
        }),
        sat_inc(pre.lock_counter) >= pre.lock_delay,
    ensures
        phase_gravity(pre) == lock_view(mid, cur1),
{
    reveal(phase_gravity);
    reveal(lock_view);
    assert(phase_gravity(pre) =~= lock_view(mid, cur1));
}

/// The falling case of the gravity phase, spelled out for the
/// implementation.
proof fn lemma_phase_gravity_descend(pre: GameView, mid: GameView, cur0: FallingPiece, cur1: FallingPiece)
    requires
        pre.current == Some(cur0),
        ({
            let grounded = collides(
                pre.grid,
                cur0.piece_state,
                cur0.piece_position.0 as int,
                cur0.piece_position.1 + 1,
            );
            &&& (grounded ==> sat_inc(pre.lock_counter) < pre.lock_delay)
            &&& cur1 == (if grounded {
                FallingPiece { previous_lock_y: cur0.piece_position.1, ..cur0 }
            } else {
                cur0
            })
            &&& mid == (GameView {
                sounds: if grounded && cur0.piece_position.1 > cur0.previous_lock_y {
                    pre.sounds.push(Sound::Bottom)
                } else {
                    pre.sounds
                },
                lock_counter: if grounded {
                    sat_inc(pre.lock_counter)
                } else {
                    pre.lock_counter
                },
                ..pre
            })
        }),
    ensures
        phase_gravity(pre) == descend_step(mid, cur1),
{
    reveal(phase_gravity);
    reveal(descend_step);
    assert(phase_gravity(pre) =~= descend_step(mid, cur1));
}

/// The fall, spelled out field by field for the implementation.
proof fn lemma_descend_step_intro(pre: GameView, post: GameView, cur0: FallingPiece)
    requires
        post.grid == pre.grid,
        post.next == pre.next,
        post.bag == pre.bag,
        post.hold == pre.hold,
        post.locked == pre.locked,
        post.gravity == pre.gravity,
        post.lock_delay == pre.lock_delay,
        post.lock_counter == pre.lock_counter,
        post.input == pre.input,
        post.previous_input == pre.previous_input,
        post.rotate_used == pre.rotate_used,
        post.sounds == pre.sounds,
        post.events == pre.events,
        post.das == pre.das,
        post.das_counter == pre.das_counter,
        post.das_state == pre.das_state,
        post.are == pre.are,
        post.line_are == pre.line_are,
        post.are_counter == pre.are_counter,
        post.line_clear_lock == pre.line_clear_lock,
        post.line_clear_lock_timer == pre.line_clear_lock_timer,
        post.hold_used == pre.hold_used,
        ({
            let add = if pre.input.soft_drop && pre.gravity < 256 {
                256int
            } else {
                pre.gravity
            };
            let c1 = pre.shift_down_counter + add;
            if c1 >= 256 {
                let x = cur0.piece_position.0 as int;
                let y = cur0.piece_position.1 as int;
                let n = c1 / 256;
                let y1 = if !collides(pre.grid, cur0.piece_state, x, y + n) {
                    y + n
                } else {
                    descend(pre.grid, cur0.piece_state, x, y, n)
                };
                post.shift_down_counter == 0 && post.current == Some(at_position(cur0, x, y1))
            } else {
                post.shift_down_counter == c1 && post.current == Some(cur0)
            }
        }),
    ensures
        post == descend_step(pre, cur0),
{
    reveal(descend_step);
    assert(post =~= descend_step(pre, cur0));
}

/// One sideways step of the piece, when it fits; a success resets the lock
/// counter.
#[verifier::opaque]
pub open spec fn side_shift(g: GameView, dx: int) -> GameView {
    match g.current {
        None => g,
        Some(cur) => {
            let x = cur.piece_position.0 as int;
            let y = cur.piece_position.1 as int;
            if !collides(g.grid, cur.piece_state, x + dx, y) {
                GameView { current: Some(at_position(cur, x + dx, y)), lock_counter: 0, ..g }
            } else {
                g
            }
        },
    }
}

/// One direction of the auto-shift machinery: the first frame of a
/// direction shifts once; holding it charges the counter, and past the
/// threshold every frame shifts again.
#[verifier::opaque]
pub open spec fn das_direction_step(g: GameView, dx: int, dir: DasState, held: bool) -> GameView {
    let g1 = if g.das_state != dir {
        GameView { das_state: dir, das_counter: 0, ..g }
    } else {
        g
    };
    let g2 = if g1.das_counter == 0 {
        side_shift(GameView { das_counter: 1, ..g1 }, dx)
    } else {
        g1
    };
    if held {
        let g3 = GameView { das_counter: sat_inc(g2.das_counter), ..g2 };
        if g3.das_counter >= g3.das {
            side_shift(g3, dx)
        } else {
            g3
        }
    } else {
        g2
    }
}

/// The direction step, spelled out for the implementation.
proof fn lemma_das_direction_intro(
    pre: GameView,
    post: GameView,
    dx: int,
    dir: DasState,
    held: bool,
    ga: GameView,
    gb: GameView,
)
    requires
        ga == (if pre.das_state != dir {
            GameView { das_state: dir, das_counter: 0, ..pre }
        } else {
            pre
        }),
        gb == (if ga.das_counter == 0 {
            side_shift(GameView { das_counter: 1, ..ga }, dx)
        } else {
            ga
        }),
        post == (if held {
            let g3 = GameView { das_counter: sat_inc(gb.das_counter), ..gb };
            if g3.das_counter >= g3.das {
                side_shift(g3, dx)
            } else {
                g3
            }
        } else {
            gb
        }),
    ensures
        post == das_direction_step(pre, dx, dir, held),
{
    reveal(das_direction_step);
}

/// Step 7: delayed auto-shift, right taking priority over left; releasing
/// both keys unlatches the machinery.
#[verifier::opaque]
pub open spec fn phase_shift(g: GameView) -> GameView {
    let g4 = if g.input.right {
        das_direction_step(g, 1, DasState::Right, g.input.right == g.previous_input.right)
    } else if g.input.left {
        das_direction_step(g, -1, DasState::Left, g.input.left == g.previous_input.left)
    } else {
        g
    };
    if !g.input.left && !g.input.right {
        GameView { das_state: DasState::Neutral, das_counter: 0, ..g4 }
    } else {
        g4
    }
}

/// Step 8: every full row empties in place, with the pause and entry delay
/// rearmed; the collapse itself waits for the pause to elapse.
#[verifier::opaque]
pub open spec fn phase_line_clear(g: GameView) -> GameView {
    let n = num_full_rows(g.grid);
    if n > 0 {
        GameView {
            grid: cleared_grid(g.grid),
            events: g.events.push(EventV::LineCleared(n)),
            sounds: g.sounds.push(Sound::Erase),
            line_clear_lock_timer: Some(g.line_clear_lock),
            are_counter: Some(g.line_are),
            ..g
        }
    } else {
        g
    }
}

/// Step 9: the frame's input becomes the previous input.
#[verifier::opaque]
pub open spec fn phase_latch_input(g: GameView) -> GameView {
    GameView { previous_input: g.input, ..g }
}

/// One whole tick: the nine steps in order. `refill_delays` and
/// `refill_hold` stand for the shuffled bags drawn if the bag drains during
/// the spawn of step 2 or the hold of step 3.
pub open spec fn game_step(
    pre: GameView,
    refill_delays: Seq<Piece>,
    refill_hold: Seq<Piece>,
) -> GameView {
    phase_latch_input(
        phase_line_clear(
            phase_shift(
                phase_gravity(
                    phase_hard_drop(
                        phase_rotate(
                            phase_hold(
                                phase_delays(phase_clear_locked(pre), refill_delays),
                                refill_hold,
                            ),
                        ),
                    ),
                ),
            ),
        ),
    )
}

/// The base mode: the board plus the whole per-frame state machine. One
/// call of `update` is one frame.
#[derive(Debug)]
pub struct Game {
    pub board: Board,
    pub current_piece: Option<FallingPiece>,
    pub locked_piece: Option<FallingPiece>,
    pub gravity: u32,
    pub shift_down_counter: u32,
    pub lock_delay: usize,
    pub lock_counter: usize,
    pub input: Input,
    pub previous_input: Input,
    pub rotate_used: bool,
    pub sound_queue: Vec<Sound>,
    pub event_queue: Vec<TetrisEvent>,
    pub das: usize,
    pub das_counter: usize,
    pub das_state: DasState,
    pub are: usize,
    pub line_are: usize,
    pub are_counter: Option<usize>,
    pub line_clear_lock: usize,
    pub line_clear_lock_timer: Option<usize>,
    pub hold_used: bool,
}

impl View for Game {
    type V = GameView;

    open spec fn view(&self) -> GameView {
        GameView {
            grid: self.board.grid(),
            next: self.board.next_pieces@,
            bag: self.board.bag@,
            hold: self.board.hold_piece,
            current: self.current_piece,
            locked: self.locked_piece,
            gravity: self.gravity as int,
            shift_down_counter: self.shift_down_counter as int,
            lock_delay: self.lock_delay as int,
            lock_counter: self.lock_counter as int,
            input: self.input,
            previous_input: self.previous_input,
            rotate_used: self.rotate_used,
            sounds: self.sound_queue@,
            events: self.event_queue@.map(|i: int, e: TetrisEvent| ev_view(e)),
            das: self.das as int,
            das_counter: self.das_counter as int,
            das_state: self.das_state,
            are: self.are as int,
            line_are: self.line_are as int,
            are_counter: opt_int(self.are_counter),
            line_clear_lock: self.line_clear_lock as int,
            line_clear_lock_timer: opt_int(self.line_clear_lock_timer),
            hold_used: self.hold_used,
        }
    }
}

impl Game {
    /// The state every reachable Game satisfies: a well-formed board,
    /// bounded gravity and accumulator, and a piece that lies on the board.
    pub open spec fn wf(&self) -> bool {
        &&& self.board.wf()
        &&& self.gravity <= GRAVITY_MAX
        &&& self.shift_down_counter < GRAVITY_UNIT
        &&& (match self.current_piece {
            Some(c) => c.pos_ok() && piece_in_grid(
                c.piece_state,
                c.piece_position.0 as int,
                c.piece_position.1 as int,
            ),
            None => true,
        })
    }

    /// A game with the default free-play settings, its first piece already
    /// in flight.
    pub fn new(seed: u64) -> (r: Game)
        ensures
            r.wf(),
            r.started_state(5120, 10, 6, 8, 18, 6),
    {
        Game::from_settings(5120, 10, 6, 8, 18, 6, seed)
    }

    /// A game with the given timing settings; gravity is in 256ths of a
    /// cell per frame.
    pub fn from_settings(
        gravity: u32,
        are: usize,
        line_are: usize,
        das: usize,
        lock_delay: usize,
        line_clear_delay: usize,
        seed: u64,
    ) -> (r: Game)
        requires
            gravity <= GRAVITY_MAX,
        ensures
            r.wf(),
            r.started_state(
                gravity as int,
                are as int,
                line_are as int,
                das as int,
                lock_delay as int,
                line_clear_delay as int,
            ),
    {
        let mut board = Board::new(seed);
        let next = board.pop_next();
        let current_piece = FallingPiece::from_piece_state(PieceState::from_piece(next));
        proof {
            crate::piece::lemma_spawn_in_grid(
                current_piece.piece_state,
                current_piece.piece_position.0 as int,
                current_piece.piece_position.1 as int,
            );
        }
        let r = Game {
            board,
            current_piece: Some(current_piece),
            locked_piece: None,
            gravity,
            shift_down_counter: 0,
            lock_delay,
            lock_counter: 0,
            input: Input::released(),
            previous_input: Input::released(),
            rotate_used: false,
            sound_queue: Vec::new(),
            event_queue: Vec::new(),
            das,
            das_counter: 0,
            das_state: DasState::Left,
            are,
            line_are,
            are_counter: None,
            line_clear_lock: line_clear_delay,
            line_clear_lock_timer: None,
            hold_used: false,
        };
        proof {
            assert(r@.events =~= Seq::<EventV>::empty());
            assert(r@.sounds =~= Seq::<Sound>::empty());
        }
        r
    }

    /// What a freshly constructed game looks like: empty well, no hold, a
    /// just-spawned piece in its stand orientation at its spawn slot, all
    /// counters at rest, and the given settings in force.
    pub open spec fn started_state(
        &self,
        gravity: int,
        are: int,
        line_are: int,
        das: int,
        lock_delay: int,
        line_clear_delay: int,
    ) -> bool {
        &&& self@.grid == empty_grid()
        &&& self@.hold is None
        &&& self@.locked is None
        &&& self@.current is Some
        &&& (self@.current->Some_0.piece_state.rotation == Rotation::North)
        &&& (self@.current->Some_0.piece_position == initial_position_spec(
            self@.current->Some_0.piece_state.kind,
        ))
        &&& (self@.current->Some_0.previous_lock_y == 0)
        &&& self@.next.len() == 7
        &&& self@.bag.len() == 6
        &&& self@.gravity == gravity
        &&& self@.are == are
        &&& self@.line_are == line_are
        &&& self@.das == das
        &&& self@.lock_delay == lock_delay
        &&& self@.line_clear_lock == line_clear_delay
        &&& self@.shift_down_counter == 0
        &&& self@.lock_counter == 0
        &&& self@.das_counter == 0
        &&& self@.are_counter is None
        &&& self@.line_clear_lock_timer is None
        &&& self@.sounds == Seq::<Sound>::empty()
        &&& self@.events == Seq::<EventV>::empty()
        &&& !self@.rotate_used
        &&& !self@.hold_used
        &&& self@.input == Input::released_spec()
        &&& self@.previous_input == Input::released_spec()
    }

    pub fn set_gravity(&mut self, gravity: u32)
        requires
            gravity <= GRAVITY_MAX,
        ensures
            *final(self) == (Game { gravity, ..*old(self) }),
    {
        self.gravity = gravity;
    }

    pub fn set_are(&mut self, are: usize)
        ensures
            *final(self) == (Game { are, ..*old(self) }),
    {
        self.are = are;
    }

    pub fn set_line_are(&mut self, line_are: usize)
        ensures
            *final(self) == (Game { line_are, ..*old(self) }),
    {
        self.line_are = line_are;
    }

    pub fn set_das(&mut self, das: usize)
        ensures
            *final(self) == (Game { das, ..*old(self) }),
    {
        self.das = das;
    }

    pub fn set_lock_delay(&mut self, lock_delay: usize)
        ensures
            *final(self) == (Game { lock_delay, ..*old(self) }),
    {
        self.lock_delay = lock_delay;
    }

    pub fn set_line_clear_delay(&mut self, line_clear_delay: usize)
        ensures
            *final(self) == (Game { line_clear_lock: line_clear_delay, ..*old(self) }),
    {
        self.line_clear_lock = line_clear_delay;
    }

    /// Zero out every cell of the well; everything else stays.
    pub fn clear_board(&mut self)
        requires
            old(self).wf(),
        ensures
            final(self)@ == (GameView { grid: empty_grid(), ..old(self)@ }),
            final(self).wf(),
    {
        let cells = make_empty_cells();
        self.board.cells = cells;
        proof {
            assert(self@ =~= (GameView { grid: empty_grid(), ..old(self)@ }));
        }
    }

    fn get_next_sound(&self) -> (r: Sound)
        requires
            self.board.next_pieces@.len() > 0,
        ensures
            r == spawn_sound(self.board.next_pieces@[0]),
    {
        match self.board.next_pieces[0] {
            Piece::I => Sound::PieceI,
            Piece::O => Sound::PieceO,
            Piece::T => Sound::PieceT,
            Piece::L => Sound::PieceL,
            Piece::J => Sound::PieceJ,
            Piece::S => Sound::PieceS,
            Piece::Z => Sound::PieceZ,
        }
    }
}


impl Game {
    /// Steps 1 and 2: clear the one-frame lock flag; with no piece in
    /// flight, run the collapse pause or the entry delay, spawning when the
    /// latter expires.
    fn tick_delays(&mut self)
        requires
            old(self).wf(),
        ensures
            final(self).wf(),
            exists|r: Seq<Piece>|
                is_full_bag(r) && final(self)@ == phase_delays(
                    phase_clear_locked(old(self)@),
                    r,
                ),
    {
        let ghost pre = self@;
        if self.locked_piece.is_some() {
            self.locked_piece = None;
        }
        let ghost g1 = phase_clear_locked(pre);
        proof {
            reveal(phase_clear_locked);
            reveal(phase_delays);
            assert(self@ =~= g1);
            crate::board::lemma_all_kinds_full();
        }
        if self.current_piece.is_none() {
            if self.line_clear_lock_timer.is_some() {
                self.run_collapse_timer();
                proof {
                    assert(self@ == phase_delays(g1, all_kinds()));
                }
            } else {
                self.run_are_timer();
                proof {
                    let w = choose|r: Seq<Piece>| is_full_bag(r) && self@ == are_step(g1, r);
                    assert(self@ == phase_delays(g1, w));
                }
            }
        } else {
            proof {
                assert(self@ == phase_delays(g1, all_kinds()));
            }
        }
    }

    /// The countdown of the line-clear pause.
    fn run_collapse_timer(&mut self)
        requires
            old(self).wf(),
            old(self).line_clear_lock_timer is Some,
        ensures
            final(self).wf(),
            final(self)@ == collapse_step(old(self)@),
    {
        proof {
            reveal(collapse_step);
        }
        if let Some(t) = self.line_clear_lock_timer {
            if t <= 1 {
                self.collapse_cleared_lines();
                proof {
                    assert(self@ =~= collapse_step(old(self)@));
                }
            } else {
                self.line_clear_lock_timer = Some(t - 1);
                proof {
                    assert(self@ =~= collapse_step(old(self)@));
                }
            }
        }
    }

    /// The countdown of the entry delay.
    fn run_are_timer(&mut self)
        requires
            old(self).wf(),
            old(self).line_clear_lock_timer is None,
        ensures
            final(self).wf(),
            exists|r: Seq<Piece>|
                is_full_bag(r) && final(self)@ == are_step(old(self)@, r),
    {
        let ghost pre = self@;
        proof {
            reveal(are_step);
            crate::board::lemma_all_kinds_full();
        }
        if let Some(c) = self.are_counter {
            if c <= 1 {
                self.spawn_from_next();
                proof {
                    let w = choose|r: Seq<Piece>|
                        is_full_bag(r) && self@ == spawned_view(pre, r);
                    assert(self@ == are_step(pre, w));
                }
            } else {
                self.are_counter = Some(c - 1);
                proof {
                    assert(self@ =~= are_step(pre, all_kinds()));
                }
            }
        } else {
            proof {
                assert(self@ =~= are_step(pre, all_kinds()));
            }
        }
    }

    /// The expiry of the line-clear pause: the Fall sound, the collapse of
    /// the emptied rows, and the LineShrinked event.
    fn collapse_cleared_lines(&mut self)
        requires
            old(self).wf(),
        ensures
            final(self).wf(),
            final(self)@ == (GameView {
                sounds: old(self)@.sounds.push(Sound::Fall),
                line_clear_lock_timer: None,
                grid: shrunk_grid(old(self)@.grid),
                events: old(self)@.events.push(
                    EventV::LineShrinked(empty_row_indices(old(self)@.grid, 0)),
                ),
                ..old(self)@
            }),
    {
        self.sound_queue.push(Sound::Fall);
        self.line_clear_lock_timer = None;
        let shrinked = self.board.line_shrink();
        self.event_queue.push(TetrisEvent::LineShrinked(shrinked));
        proof {
            assert(self@.events =~= old(self)@.events.push(
                EventV::LineShrinked(empty_row_indices(old(self)@.grid, 0)),
            ));
            assert(self@.grid =~= shrunk_grid(old(self)@.grid));
            assert(self@.sounds =~= old(self)@.sounds.push(Sound::Fall));
            assert(self@ =~= (GameView {
                sounds: old(self)@.sounds.push(Sound::Fall),
                line_clear_lock_timer: None,
                grid: shrunk_grid(old(self)@.grid),
                events: old(self)@.events.push(
                    EventV::LineShrinked(empty_row_indices(old(self)@.grid, 0)),
                ),
                ..old(self)@
            }));
        }
    }

    /// The expiry of the entry delay: the head of the next queue becomes the
    /// piece in flight, announced by the event and by the sound of the kind
    /// now shown as next.
    fn spawn_from_next(&mut self)
        requires
            old(self).wf(),
        ensures
            final(self).wf(),
            exists|r: Seq<Piece>|
                is_full_bag(r) && final(self)@ == spawned_view(old(self)@, r),
    {
        let ghost pre = self@;
        let popped = self.board.pop_next();
        let next_piece = PieceState::from_piece(popped);
        self.current_piece = Some(FallingPiece::from_piece_state(next_piece));
        self.shift_down_counter = 0;
        self.event_queue.push(TetrisEvent::PieceSpawned(next_piece.get_kind()));
        let sound = self.get_next_sound();
        self.sound_queue.push(sound);
        self.hold_used = false;
        self.are_counter = None;
        proof {
            reveal(spawned_view);
            crate::board::lemma_all_kinds_full();
            crate::piece::lemma_spawn_in_grid(
                (PieceState { kind: popped, rotation: Rotation::North }),
                initial_position_spec(popped).0 as int,
                initial_position_spec(popped).1 as int,
            );
            let w = if pre.bag.len() == 1 {
                self.board.bag@
            } else {
                all_kinds()
            };
            assert(is_full_bag(w));
            let target = spawned_view(pre, w);
            assert(self@.events =~= target.events);
            assert(self@.sounds =~= target.sounds);
            assert(self@.next =~= target.next);
            assert(self@.bag =~= target.bag);
            assert(self@ =~= target);
        }
    }

    /// Step 3: the hold swap.
    #[verifier::rlimit(100)]
    fn handle_hold(&mut self)
        requires
            old(self).wf(),
        ensures
            final(self).wf(),
            exists|r: Seq<Piece>|
                is_full_bag(r) && final(self)@ == phase_hold(old(self)@, r),
    {
        let ghost pre = self@;
        proof {
            reveal(phase_hold);
            crate::board::lemma_all_kinds_full();
        }
        if !self.hold_used && self.input.hold {
            let sound = self.get_next_sound();
            if let Some(cur0) = self.current_piece {
                let swapped = self.board.swap_hold_piece(cur0.piece_state.get_kind());
                let new_piece = if let Some(swapped_kind) = swapped {
                    FallingPiece::from_piece_state(PieceState::from_piece(swapped_kind))
                } else {
                    let popped = self.board.pop_next();
                    FallingPiece::from_piece_state(PieceState::from_piece(popped))
                };
                self.sound_queue.push(sound);
                self.current_piece = Some(new_piece);
                self.rotate_used = false;
                self.hold_used = true;
                self.shift_down_counter = 0;
                self.lock_counter = 0;
                self.sound_queue.push(Sound::Hold);
                proof {
                    crate::piece::lemma_spawn_in_grid(
                        new_piece.piece_state,
                        new_piece.piece_position.0 as int,
                        new_piece.piece_position.1 as int,
                    );
                    let w = if pre.hold is None && pre.bag.len() == 1 {
                        self.board.bag@
                    } else {
                        all_kinds()
                    };
                    assert(is_full_bag(w));
                    let target = phase_hold(pre, w);
                    assert(self@.sounds =~= target.sounds);
                    assert(self@.next =~= target.next);
                    assert(self@.bag =~= target.bag);
                    assert(self@.events =~= target.events);
                    assert(self@ =~= target);
                }
            } else {
                proof {
                    assert(self@ =~= phase_hold(pre, all_kinds()));
                }
            }
        } else {
            proof {
                assert(self@ =~= phase_hold(pre, all_kinds()));
            }
        }
    }

    /// Step 4: one rotation per key press, with kick resolution.
    #[verifier::rlimit(100)]
    fn handle_rotate(&mut self)
        requires
            old(self).wf(),
        ensures
            final(self).wf(),
            final(self)@ == phase_rotate(old(self)@),
    {
        let ghost pre = self@;
        proof {
            reveal(phase_rotate);
        }
        if let Some(cur0) = self.current_piece {
            let mut cur = cur0;
            if self.input.cw && !self.rotate_used {
                let ok = cur.cw(&self.board);
                if ok {
                    self.lock_counter = 0;
                }
                self.rotate_used = true;
                self.current_piece = Some(cur);
                proof {
                    if ok {
                        crate::piece::lemma_no_collision_in_grid(
                            pre.grid,
                            cur.piece_state,
                            cur.piece_position.0 as int,
                            cur.piece_position.1 as int,
                        );
                    }
                }
            } else if self.input.ccw && !self.rotate_used {
                let ok = cur.ccw(&self.board);
                if ok {
                    self.lock_counter = 0;
                }
                self.rotate_used = true;
                self.current_piece = Some(cur);
                proof {
                    if ok {
                        crate::piece::lemma_no_collision_in_grid(
                            pre.grid,
                            cur.piece_state,
                            cur.piece_position.0 as int,
                            cur.piece_position.1 as int,
                        );
                    }
                }
            }
        }
        if self.previous_input.cw && !self.input.cw || self.previous_input.ccw && !self.input.ccw {
            self.rotate_used = false;
        }
        proof {
            assert(self@ =~= phase_rotate(pre));
        }
    }

    /// Step 5: the hard drop, on a rising edge of its key.
    #[verifier::rlimit(100)]
    fn handle_hard_drop(&mut self)
        requires
            old(self).wf(),
        ensures
            final(self).wf(),
            final(self)@ == phase_hard_drop(old(self)@),
    {
        let ghost pre = self@;
        proof {
            reveal(phase_hard_drop);
        }
        if !self.previous_input.hard_drop && self.input.hard_drop {
            if let Some(cur0) = self.current_piece {
                let mut cur = cur0;
                self.sound_queue.push(Sound::Bottom);
                let mut i: usize = 0;
                while i < 20 && !cur.check_shift_collision(&self.board, 0, i as i32)
                    invariant
                        i <= 20,
                        forall|j: int| 0 <= j < i ==> #[trigger] drop_free(pre.grid, cur, j),
                    decreases 20 - i,
                {
                    proof {
                        assert(drop_free(pre.grid, cur, i as int));
                    }
                    i = i + 1;
                }
                proof {
                    lemma_first_drop_skip(pre.grid, cur, i as int);
                    if i < 20 {
                        assert(first_colliding_offset(pre.grid, cur, 0) == i);
                    } else {
                        assert(first_colliding_offset(pre.grid, cur, 0) == 20);
                    }
                }
                if i < 20 {
                    let moved = cur.shift(&self.board, 0, i as i32 - 1);
                    proof {
                        if moved {
                            crate::piece::lemma_no_collision_in_grid(
                                pre.grid,
                                cur.piece_state,
                                cur.piece_position.0 as int,
                                cur.piece_position.1 as int,
                            );
                        }
                    }
                    let res = self.board.set_piece(&cur);
                    proof {
                        assert(res is Ok);
                    }
                    self.event_queue.push(TetrisEvent::PieceLocked(cur));
                    self.locked_piece = Some(cur);
                    self.current_piece = None;
                    self.lock_counter = 0;
                    self.are_counter = Some(self.are);
                    proof {
                        assert(self@.events =~= pre.events.push(EventV::PieceLocked(cur)));
                        assert(self@ =~= phase_hard_drop(pre));
                    }
                } else {
                    proof {
                        assert(self@ =~= phase_hard_drop(pre));
                    }
                }
            } else {
                proof {
                    assert(self@ =~= phase_hard_drop(pre));
                }
            }
        } else {
            proof {
                assert(self@ =~= phase_hard_drop(pre));
            }
        }
    }

    /// Step 6: gravity, lock delay and the lock itself.
    fn apply_gravity(&mut self)
        requires
            old(self).wf(),
        ensures
            final(self).wf(),
            final(self)@ == phase_gravity(old(self)@),
    {
        let ghost pre = self@;
        if let Some(cur0) = self.current_piece {
            let mut cur = cur0;
            let grounded = cur.check_shift_collision(&self.board, 0, 1);
            if grounded {
                if cur.piece_position.1 > cur.previous_lock_y {
                    self.sound_queue.push(Sound::Bottom);
                }
                cur.previous_lock_y = cur.piece_position.1;
                self.lock_counter = sat_inc_usize(self.lock_counter);
                if self.lock_counter >= self.lock_delay {
                    let ghost mid = self@;
                    proof {
                        assert(mid =~= (GameView {
                            sounds: if cur0.piece_position.1 > cur0.previous_lock_y {
                                pre.sounds.push(Sound::Bottom)
                            } else {
                                pre.sounds
                            },
                            lock_counter: sat_inc(pre.lock_counter),
                            ..pre
                        }));
                    }
                    self.lock_fallen(cur);
                    proof {
                        lemma_phase_gravity_lock(pre, mid, cur0, cur);
                    }
                    return;
                }
            }
            let ghost mid = self@;
            proof {
                assert(mid =~= (GameView {
                    sounds: if grounded && cur0.piece_position.1 > cur0.previous_lock_y {
                        pre.sounds.push(Sound::Bottom)
                    } else {
                        pre.sounds
                    },
                    lock_counter: if grounded {
                        sat_inc(pre.lock_counter)
                    } else {
                        pre.lock_counter
                    },
                    ..pre
                }));
            }
            self.gravity_descend(cur);
            proof {
                lemma_phase_gravity_descend(pre, mid, cur0, cur);
            }
        } else {
            proof {
                reveal(phase_gravity);
                assert(self@ =~= phase_gravity(pre));
            }
        }
    }

    /// Lock the grounded piece where it stands.
    fn lock_fallen(&mut self, cur: FallingPiece)
        requires
            old(self).wf(),
            cur.pos_ok(),
            piece_in_grid(
                cur.piece_state,
                cur.piece_position.0 as int,
                cur.piece_position.1 as int,
            ),
        ensures
            final(self).wf(),
            final(self)@ == lock_view(old(self)@, cur),
    {
        let res = self.board.set_piece(&cur);
        proof {
            assert(res is Ok);
        }
        self.event_queue.push(TetrisEvent::PieceLocked(cur));
        self.current_piece = None;
        self.locked_piece = Some(cur);
        self.rotate_used = false;
        self.are_counter = Some(self.are);
        self.lock_counter = 0;
        self.sound_queue.push(Sound::Lock);
        proof {
            reveal(lock_view);
            let target = lock_view(old(self)@, cur);
            assert(self@.events =~= target.events);
            assert(self@.sounds =~= target.sounds);
            assert(self@ =~= target);
        }
    }

    /// Advance the fractional accumulator and let the piece fall by the
    /// whole cells accrued.
    fn gravity_descend(&mut self, cur0: FallingPiece)
        requires
            old(self).wf(),
            cur0.pos_ok(),
            piece_in_grid(
                cur0.piece_state,
                cur0.piece_position.0 as int,
                cur0.piece_position.1 as int,
            ),
        ensures
            final(self).wf(),
            final(self)@ == descend_step(old(self)@, cur0),
    {
        let ghost pre = self@;
        let mut cur = cur0;
        self.shift_down_counter = self.shift_down_counter + (
        if self.input.soft_drop && self.gravity < GRAVITY_UNIT {
            GRAVITY_UNIT
        } else {
            self.gravity
        });
        if self.shift_down_counter >= GRAVITY_UNIT {
            let fall_size = self.shift_down_counter / GRAVITY_UNIT;
            self.shift_down_counter = 0;
            let ghost st = cur.piece_state;
            let ghost x0 = cur.piece_position.0 as int;
            let ghost y0 = cur.piece_position.1 as int;
            let ghost nn = fall_size as int;
            if cur.shift(&self.board, 0, fall_size as i32) {
                proof {
                    crate::piece::lemma_no_collision_in_grid(
                        pre.grid,
                        cur.piece_state,
                        cur.piece_position.0 as int,
                        cur.piece_position.1 as int,
                    );
                }
            } else {
                step_down(&mut cur, &self.board, fall_size);
            }
            self.current_piece = Some(cur);
            proof {
                lemma_descend_step_intro(pre, self@, cur0);
            }
        } else {
            self.current_piece = Some(cur);
            proof {
                lemma_descend_step_intro(pre, self@, cur0);
            }
        }
    }
}

impl Game {
    /// One sideways step of the piece in flight.
    fn shift_once(&mut self, dx: i32)
        requires
            old(self).wf(),
            -1 <= dx <= 1,
        ensures
            final(self).wf(),
            final(self)@ == side_shift(old(self)@, dx as int),
            final(self).input == old(self).input,
            final(self).previous_input == old(self).previous_input,
            final(self).das == old(self).das,
            final(self).das_counter == old(self).das_counter,
            final(self).das_state == old(self).das_state,
    {
        let ghost pre = self@;
        proof {
            reveal(side_shift);
        }
        if let Some(cur0) = self.current_piece {
            let mut cur = cur0;
            let moved = cur.shift(&self.board, dx, 0);
            if moved {
                self.lock_counter = 0;
                proof {
                    crate::piece::lemma_no_collision_in_grid(
                        pre.grid,
                        cur.piece_state,
                        cur.piece_position.0 as int,
                        cur.piece_position.1 as int,
                    );
                }
            }
            self.current_piece = Some(cur);
            proof {
                assert(self@ =~= side_shift(pre, dx as int));
            }
        } else {
            proof {
                assert(self@ =~= side_shift(pre, dx as int));
            }
        }
    }

    /// One direction of the auto-shift machinery.
    #[verifier::rlimit(100)]
    fn das_move(&mut self, dx: i32, dir: DasState, held: bool)
        requires
            old(self).wf(),
            -1 <= dx <= 1,
        ensures
            final(self).wf(),
            final(self)@ == das_direction_step(old(self)@, dx as int, dir, held),
            final(self).input == old(self).input,
            final(self).previous_input == old(self).previous_input,
    {
        let ghost pre = self@;
        if self.das_state != dir {
            self.das_state = dir;
            self.das_counter = 0;
        }
        let ghost ga = self@;
        proof {
            if pre.das_state != dir {
                assert(ga == (GameView { das_state: dir, das_counter: 0, ..pre }));
            } else {
                assert(ga == pre);
            }
        }
        if self.das_counter == 0 {
            self.das_counter = 1;
            self.shift_once(dx);
            proof {
                assert(self@ == side_shift((GameView { das_counter: 1, ..ga }), dx as int));
            }
        }
        let ghost gb = self@;
        proof {
            assert(gb == (if ga.das_counter == 0 {
                side_shift((GameView { das_counter: 1, ..ga }), dx as int)
            } else {
                ga
            }));
        }
        if held {
            self.das_counter = sat_inc_usize(self.das_counter);
            let ghost gc = self@;
            proof {
                assert(gc == (GameView { das_counter: sat_inc(gb.das_counter), ..gb }));
            }
            if self.das_counter >= self.das {
                self.shift_once(dx);
                proof {
                    assert(self@ == side_shift(gc, dx as int));
                }
            }
        }
        proof {
            lemma_das_direction_intro(pre, self@, dx as int, dir, held, ga, gb);
        }
    }

        /// Step 7: delayed auto-shift, right taking priority over left.
    fn handle_shift(&mut self)
        requires
            old(self).wf(),
        ensures
            final(self).wf(),
            final(self)@ == phase_shift(old(self)@),
    {
        let ghost pre = self@;
        proof {
            reveal(phase_shift);
        }
        if self.input.right {
            let held = self.input.right == self.previous_input.right;
            self.das_move(1, DasState::Right, held);
            proof {
                assert(self@ == phase_shift(pre));
            }
        } else if self.input.left {
            let held = self.input.left == self.previous_input.left;
            self.das_move(-1, DasState::Left, held);
            proof {
                assert(self@ == phase_shift(pre));
            }
        } else {
            self.das_state = DasState::Neutral;
            self.das_counter = 0;
            proof {
                assert(self@ =~= (GameView {
                    das_state: DasState::Neutral,
                    das_counter: 0,
                    ..pre
                }));
                assert(self@ == phase_shift(pre));
            }
        }
    }

    /// Step 8: empty every full row in place and arm the collapse pause.
    fn apply_line_clear(&mut self)
        requires
            old(self).wf(),
        ensures
            final(self).wf(),
            final(self)@ == phase_line_clear(old(self)@),
    {
        let ghost pre = self@;
        proof {
            reveal(phase_line_clear);
        }
        if let Some(lines) = self.board.line_clear() {
            self.event_queue.push(TetrisEvent::LineCleared(lines));
            self.sound_queue.push(Sound::Erase);
            self.line_clear_lock_timer = Some(self.line_clear_lock);
            self.are_counter = Some(self.line_are);
            proof {
                let target = phase_line_clear(pre);
                assert(self@.events =~= target.events);
                assert(self@.grid == target.grid);
                assert(self@ =~= target);
            }
        } else {
            proof {
                assert forall|i: int| 0 <= i < 40 implies #[trigger] self@.grid[i]
                    == pre.grid[i] by {
                    if row_full(pre.grid[i]) {
                        pre.grid.lemma_filter_contains(
                            |row: Seq<Option<Cell>>| row_full(row),
                            i,
                        );
                    }
                    assert(self@.grid[i] == cleared_grid(pre.grid)[i]);
                }
                assert(self@.grid =~= pre.grid);
                assert(self@ =~= phase_line_clear(pre));
            }
        }
    }

    /// One frame of the engine: the nine steps of the tick in their fixed
    /// order. The two existential bags stand for the shuffles drawn if the
    /// bag drains while a piece is taken during spawn or hold.
    pub fn update(&mut self)
        requires
            old(self).wf(),
        ensures
            final(self).wf(),
            exists|r1: Seq<Piece>, r2: Seq<Piece>|
                is_full_bag(r1) && is_full_bag(r2) && final(self)@ == game_step(
                    old(self)@,
                    r1,
                    r2,
                ),
    {
        let ghost pre = self@;
        self.tick_delays();
        let ghost g2 = self@;
        let ghost w1 = choose|r: Seq<Piece>|
            is_full_bag(r) && g2 == phase_delays(phase_clear_locked(pre), r);
        self.handle_hold();
        let ghost g3 = self@;
        let ghost w2 = choose|r: Seq<Piece>| is_full_bag(r) && g3 == phase_hold(g2, r);
        self.handle_rotate();
        self.handle_hard_drop();
        self.apply_gravity();
        self.handle_shift();
        let ghost g7 = self@;
        self.apply_line_clear();
        let ghost g8 = self@;
        self.previous_input = self.input;
        proof {
            reveal(phase_latch_input);
            assert(self@ =~= phase_latch_input(g8));
            assert(self@ == game_step(pre, w1, w2));
        }
    }

    /// A copy of the board for the renderer: grid, queues and hold.
    pub fn get_board(&self) -> (r: Board)
        ensures
            r.grid() == self.board.grid(),
            r.next_pieces@ == self.board.next_pieces@,
            r.bag@ == self.board.bag@,
            r.hold_piece == self.board.hold_piece,
    {
        self.board.snapshot()
    }

    pub fn get_current_piece(&self) -> (r: Option<FallingPiece>)
        ensures
            r == self.current_piece,
    {
        self.current_piece
    }

    pub fn get_locked_piece(&self) -> (r: Option<FallingPiece>)
        ensures
            r == self.locked_piece,
    {
        self.locked_piece
    }

    pub fn get_hold(&self) -> (r: Option<Piece>)
        ensures
            r == self.board.hold_piece,
    {
        self.board.hold_piece
    }

    pub fn get_next(&self) -> (r: Piece)
        requires
            self.board.next_pieces@.len() >= 1,
        ensures
            r == self.board.next_pieces@[0],
    {
        self.board.next_pieces[0]
    }

    pub fn get_next_next(&self) -> (r: Piece)
        requires
            self.board.next_pieces@.len() >= 2,
        ensures
            r == self.board.next_pieces@[1],
    {
        self.board.next_pieces[1]
    }

    pub fn get_next_next_next(&self) -> (r: Piece)
        requires
            self.board.next_pieces@.len() >= 3,
        ensures
            r == self.board.next_pieces@[2],
    {
        self.board.next_pieces[2]
    }

    /// The sound queue, handed out for draining.
    pub fn get_sound_queue(&mut self) -> (r: &mut Vec<Sound>)
        ensures
            *r == old(self).sound_queue,
            *final(self) == (Game { sound_queue: *final(r), ..*old(self) }),
    {
        &mut self.sound_queue
    }

    /// The event queue, handed out for draining.
    pub fn get_event_queue(&mut self) -> (r: &mut Vec<TetrisEvent>)
        ensures
            *r == old(self).event_queue,
            *final(self) == (Game { event_queue: *final(r), ..*old(self) }),
    {
        &mut self.event_queue
    }

    /// Latch the input snapshot the next tick will see.
    pub fn set_input(&mut self, input: Input)
        ensures
            *final(self) == (Game { input, ..*old(self) }),
    {
        self.input = input;
    }
}


impl Game {
    /// Append a sound for the collaborator to play.
    pub fn push_sound(&mut self, s: Sound)
        ensures
            *final(self) == (Game { sound_queue: final(self).sound_queue, ..*old(self) }),
            final(self).sound_queue@ == old(self).sound_queue@.push(s),
            final(self)@ == (GameView { sounds: old(self)@.sounds.push(s), ..old(self)@ }),
            old(self).wf() ==> final(self).wf(),
    {
        self.sound_queue.push(s);
        proof {
            assert(self@ =~= (GameView { sounds: old(self)@.sounds.push(s), ..old(self)@ }));
        }
    }
}


/// Law: a hard drop fires only on a rising edge - while the key stays
/// held from the previous frame, the hard-drop step does nothing at all.
pub proof fn lemma_hard_drop_needs_edge(g: GameView)
    requires
        g.previous_input.hard_drop,
    ensures
        phase_hard_drop(g) == g,
{
    reveal(phase_hard_drop);
}

/// Law: on a rising edge, when a collision lies within the twenty-row
/// search, the hard drop locks the piece exactly once: the piece leaves
/// flight and exactly one lock event is appended.
pub proof fn lemma_hard_drop_locks_once(g: GameView)
    requires
        !g.previous_input.hard_drop,
        g.input.hard_drop,
        g.current is Some,
        first_colliding_offset(g.grid, g.current->Some_0, 0) < 20,
    ensures
        phase_hard_drop(g).current is None,
        phase_hard_drop(g).locked is Some,
        phase_hard_drop(g).events == g.events.push(
            EventV::PieceLocked(phase_hard_drop(g).locked->Some_0),
        ),
{
    reveal(phase_hard_drop);
}

/// No phase before the final latch touches the frame's input.
proof fn lemma_phases_keep_input(g: GameView, r1: Seq<Piece>, r2: Seq<Piece>)
    ensures
        phase_clear_locked(g).input == g.input,
        phase_delays(g, r1).input == g.input,
        phase_hold(g, r2).input == g.input,
        phase_rotate(g).input == g.input,
        phase_hard_drop(g).input == g.input,
        phase_gravity(g).input == g.input,
        phase_shift(g).input == g.input,
        phase_line_clear(g).input == g.input,
{
    reveal(phase_clear_locked);
    reveal(phase_delays);
    reveal(collapse_step);
    reveal(are_step);
    reveal(spawned_view);
    reveal(phase_hold);
    reveal(phase_rotate);
    reveal(phase_hard_drop);
    reveal(phase_gravity);
    reveal(descend_step);
    reveal(lock_view);
    reveal(phase_shift);
    reveal(das_direction_step);
    reveal(side_shift);
    reveal(phase_line_clear);
}

/// Law: every tick latches the frame's input as the previous input, so a
/// key still held at the next tick presents no rising edge there.
pub proof fn lemma_step_latches_input(pre: GameView, r1: Seq<Piece>, r2: Seq<Piece>)
    ensures
        game_step(pre, r1, r2).previous_input == pre.input,
{
    let g1 = phase_clear_locked(pre);
    let g2 = phase_delays(g1, r1);
    let g3 = phase_hold(g2, r2);
    let g4 = phase_rotate(g3);
    let g5 = phase_hard_drop(g4);
    let g6 = phase_gravity(g5);
    let g7 = phase_shift(g6);
    let g8 = phase_line_clear(g7);
    lemma_phases_keep_input(pre, r1, r2);
    lemma_phases_keep_input(g1, r1, r2);
    lemma_phases_keep_input(g2, r1, r2);
    lemma_phases_keep_input(g3, r1, r2);
    lemma_phases_keep_input(g4, r1, r2);
    lemma_phases_keep_input(g5, r1, r2);
    lemma_phases_keep_input(g6, r1, r2);
    lemma_phases_keep_input(g7, r1, r2);
    reveal(phase_latch_input);
}

/// The flight/lock exclusion: a set lock flag means no piece in flight.
pub open spec fn lock_exclusive(g: GameView) -> bool {
    g.locked is Some ==> g.current is None
}

proof fn lemma_delays_keeps_unlocked(g: GameView, r: Seq<Piece>)
    requires
        g.locked is None,
    ensures
        phase_delays(g, r).locked is None,
{
    reveal(phase_delays);
    reveal(collapse_step);
    reveal(are_step);
    reveal(spawned_view);
}

proof fn lemma_hold_keeps_unlocked(g: GameView, r: Seq<Piece>)
    requires
        g.locked is None,
    ensures
        phase_hold(g, r).locked is None,
{
    reveal(phase_hold);
}

proof fn lemma_rotate_keeps_unlocked(g: GameView)
    requires
        g.locked is None,
    ensures
        phase_rotate(g).locked is None,
{
    reveal(phase_rotate);
}

proof fn lemma_hard_drop_exclusive(g: GameView)
    requires
        g.locked is None,
    ensures
        lock_exclusive(phase_hard_drop(g)),
{
    reveal(phase_hard_drop);
}

proof fn lemma_gravity_exclusive(g: GameView)
    requires
        lock_exclusive(g),
    ensures
        lock_exclusive(phase_gravity(g)),
{
    reveal(phase_gravity);
    reveal(descend_step);
    reveal(lock_view);
}

proof fn lemma_shift_exclusive(g: GameView)
    requires
        lock_exclusive(g),
    ensures
        lock_exclusive(phase_shift(g)),
{
    reveal(phase_shift);
    reveal(das_direction_step);
    reveal(side_shift);
}

proof fn lemma_line_clear_exclusive(g: GameView)
    requires
        lock_exclusive(g),
    ensures
        lock_exclusive(phase_line_clear(g)),
{
    reveal(phase_line_clear);
}

/// Law: after any whole tick, the piece in flight and the one-frame lock
/// flag are never both present: a lock always takes the piece out of
/// flight, and the flag is cleared at the top of the next tick.
pub proof fn lemma_step_lock_exclusive(pre: GameView, r1: Seq<Piece>, r2: Seq<Piece>)
    ensures
        lock_exclusive(game_step(pre, r1, r2)),
{
    let g1 = phase_clear_locked(pre);
    let g2 = phase_delays(g1, r1);
    let g3 = phase_hold(g2, r2);
    let g4 = phase_rotate(g3);
    let g5 = phase_hard_drop(g4);
    let g6 = phase_gravity(g5);
    let g7 = phase_shift(g6);
    let g8 = phase_line_clear(g7);
    reveal(phase_clear_locked);
    lemma_delays_keeps_unlocked(g1, r1);
    lemma_hold_keeps_unlocked(g2, r2);
    lemma_rotate_keeps_unlocked(g3);
    lemma_hard_drop_exclusive(g4);
    lemma_gravity_exclusive(g5);
    lemma_shift_exclusive(g6);
    lemma_line_clear_exclusive(g7);
    reveal(phase_latch_input);
}

} // verus!
