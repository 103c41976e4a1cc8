use vstd::prelude::*;

use crate::board::Board;
use crate::cell::Cell;
use crate::game::{
    ev_view, game_step, EventV, Game, GameView, GRAVITY_MAX,
};
use crate::board::is_full_bag;
use crate::piece::{FallingPiece, Piece};
use crate::{Input, Sound, TetrisEvent};

verus! {

/// Where the Master mode stands: play, the pause after clearing level 999,
/// the credit roll, and the end of the roll.
#[derive(Debug, Clone, Copy, PartialEq, Eq, Structural)]
pub enum Status {
    Game,
    Clear,
    Roll(Roll),
    End,
}

/// The two flavours of the credit roll.
#[derive(Debug, Clone, Copy, PartialEq, Eq, Structural)]
pub enum Roll {
    Normal,
    Invisible,
}

/// Master-only outbound events.
#[derive(Debug, Clone, Copy, PartialEq, Eq, Structural)]
pub enum TGM3Event {
    StatusChange(Status),
    GotCool,
    GotRegret,
}

/// Master-only sounds.
#[derive(Debug, Clone, Copy, PartialEq, Eq, Hash, Structural)]
pub enum TGM3Sound {
    Cool,
    GameClear,
}

/// Frames per second: section times are measured in frames of the 60 Hz
/// tick.
pub const FRAMES_PER_SECOND: usize = 60;

// ---------------------------------------------------------------------------
// The speed tables: every timing parameter is a function of the speed level.
// ---------------------------------------------------------------------------

/// Entry delay by speed level, in frames.
pub open spec fn are_of(s: int) -> int {
    if s <= 699 {
        27
    } else if s <= 799 {
        18
    } else if s <= 999 {
        14
    } else if s <= 1099 {
        8
    } else if s <= 1199 {
        7
    } else {
        6
    }
}

/// Entry delay after a line clear by speed level, in frames.
pub open spec fn line_are_of(s: int) -> int {
    if s <= 599 {
        27
    } else if s <= 699 {
        18
    } else if s <= 799 {
        14
    } else if s <= 1099 {
        8
    } else if s <= 1199 {
        7
    } else {
        6
    }
}

/// Auto-shift threshold by speed level, in frames.
pub open spec fn das_of(s: int) -> int {
    if s <= 499 {
        15
    } else if s <= 899 {
        9
    } else {
        6
    }
}

/// Pause between clear and collapse by speed level, in frames.
pub open spec fn line_clear_delay_of(s: int) -> int {
    if s <= 499 {
        40
    } else if s <= 599 {
        25
    } else if s <= 699 {
        16
    } else if s <= 799 {
        12
    } else if s <= 1099 {
        6
    } else if s <= 1199 {
        5
    } else {
        4
    }
}

/// Lock delay by speed level, in frames.
pub open spec fn lock_delay_of(s: int) -> int {
    if s <= 899 {
        30
    } else if s <= 1099 {
        17
    } else {
        15
    }
}

/// Gravity by speed level, in 256ths of a cell per frame.
pub open spec fn gravity_of(s: int) -> int {
    if s <= 29 {
        4
    } else if s <= 34 {
        6
    } else if s <= 39 {
        8
    } else if s <= 49 {
        10
    } else if s <= 59 {
        12
    } else if s <= 69 {
        16
    } else if s <= 79 {
        32
    } else if s <= 89 {
        48
    } else if s <= 99 {
        64
    } else if s <= 119 {
        80
    } else if s <= 139 {
        96
    } else if s <= 159 {
        112
    } else if s <= 169 {
        128
    } else if s <= 199 {
        144
    } else if s <= 219 {
        4
    } else if s <= 229 {
        32
    } else if s <= 232 {
        64
    } else if s <= 235 {
        96
    } else if s <= 238 {
        128
    } else if s <= 242 {
        160
    } else if s <= 246 {
        192
    } else if s <= 250 {
        224
    } else if s <= 299 {
        256
    } else if s <= 329 {
        512
    } else if s <= 359 {
        768
    } else if s <= 399 {
        1024
    } else if s <= 419 {
        1280
    } else if s <= 449 {
        1024
    } else if s <= 499 {
        768
    } else {
        5120
    }
}

/// The cool border of a section, in frames: the set value for the section,
/// lowered to two seconds above the previous section's cool line time when
/// that is faster.
pub open spec fn cool_border_of(rank: int, prev: Option<usize>) -> int {
    let set: int = if rank <= 1 {
        52int * 60
    } else if rank <= 2 {
        49int * 60
    } else if rank <= 4 {
        45int * 60
    } else if rank <= 6 {
        42int * 60
    } else {
        38int * 60
    };
    if rank > 0 {
        match prev {
            Some(p) => {
                if p + 120 < set {
                    p + 120
                } else {
                    set
                }
            },
            None => set,
        }
    } else {
        set
    }
}

/// The regret border of a section, in frames.
pub open spec fn regret_border_of(rank: int) -> int {
    if rank == 0 {
        90int * 60
    } else if rank <= 2 {
        75int * 60
    } else if rank == 3 {
        68int * 60
    } else if rank <= 5 {
        60int * 60
    } else {
        50int * 60
    }
}

/// The grade-point award for clearing `n` lines at grade `g`.
pub open spec fn grade_point_bonus_of(g: int, n: int) -> int {
    let row: Seq<int> = if g == 0 {
        seq![10int, 20, 40, 50]
    } else if g <= 2 {
        seq![10int, 20, 30, 40]
    } else if g == 3 {
        seq![10int, 15, 30, 40]
    } else if g == 4 {
        seq![10int, 15, 20, 40]
    } else if g == 5 {
        seq![5int, 15, 20, 30]
    } else if g == 6 {
        seq![5int, 10, 20, 30]
    } else if g <= 9 {
        seq![5int, 10, 15, 30]
    } else {
        seq![2int, 12, 13, 30]
    };
    row[n - 1]
}

/// Points a clear of `n` lines earns during the normal roll.
pub open spec fn roll_points_of(n: int) -> int {
    seq![4int, 8, 12, 26][n - 1]
}

/// Points a clear of `n` lines earns during the invisible roll.
pub open spec fn mroll_points_of(n: int) -> int {
    seq![10int, 20, 30, 100][n - 1]
}

/// The rank a grade index maps to in the aggregate grade.
pub open spec fn grade_to_rank_of(g: int) -> int {
    seq![
        0int,
        1,
        2,
        3,
        4,
        5,
        5,
        6,
        6,
        7,
        7,
        7,
        8,
        8,
        8,
        9,
        9,
        9,
        10,
        11,
        12,
        12,
        12,
        13,
        13,
        14,
        14,
        15,
        15,
        16,
        16,
        17,
    ][g]
}

/// x + y, stopping at the largest machine integer.
pub open spec fn sat_add_spec(x: int, y: int) -> int {
    if x + y <= usize::MAX {
        x + y
    } else {
        usize::MAX as int
    }
}

fn sat_add(x: usize, y: usize) -> (r: usize)
    ensures
        r as int == sat_add_spec(x as int, y as int),
{
    if x <= usize::MAX - y {
        x + y
    } else {
        usize::MAX
    }
}

/// The sum of the recorded section times.
#[verifier::opaque]
pub open spec fn section_sum(s: Seq<Option<usize>>) -> int
    decreases s.len(),
{
    if s.len() == 0 {
        0
    } else {
        section_sum(s.drop_last()) + (match s.last() {
            Some(t) => t as int,
            None => 0,
        })
    }
}


/// The Master overlay's own state, over mathematical types; `inner_sounds`
/// is the wrapped game's sound queue, which the rank-up jingle lands in.
#[verifier::ext_equal]
pub ghost struct MView {
    pub level: int,
    pub speed_level: int,
    pub grade_points: int,
    pub grade: int,
    pub roll_points: int,
    pub frames: int,
    pub section_times: Seq<Option<usize>>,
    pub cool_times: Seq<Option<usize>>,
    pub cools: Seq<Option<bool>>,
    pub regrets: Seq<Option<bool>>,
    pub status: Status,
    pub start_roll_timer: Option<usize>,
    pub roll_timer: Option<usize>,
    pub events: Seq<TGM3Event>,
    pub sounds: Seq<TGM3Sound>,
    pub opacity: Seq<Seq<Option<usize>>>,
    pub inner_sounds: Seq<Sound>,
}

/// Frames spent in the current section: the clock minus the closed
/// sections' recorded times.
#[verifier::opaque]
pub open spec fn cst_of(m: MView) -> int {
    if section_sum(m.section_times) <= m.frames {
        m.frames - section_sum(m.section_times)
    } else {
        0
    }
}

/// Closing a section: record its time, raise the regret flag when the time
/// exceeds the border, and either end the game at level 999 or award the
/// pending cool bonus and ring the rank-up jingle.
#[verifier::opaque]
pub open spec fn rank_up_spec(m: MView) -> MView {
    let st = cst_of(m);
    if m.level == 999 {
        let regret = regret_border_of(8) < st;
        MView {
            status: Status::Clear,
            events: if regret {
                m.events.push(TGM3Event::StatusChange(Status::Clear)).push(TGM3Event::GotRegret)
            } else {
                m.events.push(TGM3Event::StatusChange(Status::Clear))
            },
            sounds: m.sounds.push(TGM3Sound::GameClear),
            section_times: m.section_times.update(8, Some(st as usize)),
            regrets: m.regrets.update(8, Some(regret)),
            ..m
        }
    } else {
        if m.level >= 100 {
            let pr = m.level / 100 - 1;
            let regret = regret_border_of(pr) < st;
            MView {
                section_times: m.section_times.update(pr, Some(st as usize)),
                regrets: m.regrets.update(pr, Some(regret)),
                speed_level: if !regret && m.cools[pr] == Some(true) {
                    sat_add_spec(m.speed_level, 100)
                } else {
                    m.speed_level
                },
                inner_sounds: m.inner_sounds.push(Sound::RankUp),
                ..m
            }
        } else {
            MView { inner_sounds: m.inner_sounds.push(Sound::RankUp), ..m }
        }
    }
}

/// A level award of `up`. Without a line clear the award is withheld at a
/// hundreds boundary and near the top; the cool line and the cool itself
/// are judged at 70 and 80 of each section; a line clear across a boundary
/// (or past 998) clamps to 999 and closes the section.
#[verifier::opaque]
pub open spec fn level_up_spec(m: MView, up: int, line_clear: bool) -> MView {
    let rank = m.level / 100;
    let prev = m.level;
    let m1 = if line_clear || ((prev + up) % 100 > prev % 100 && prev + up < 998) {
        MView { level: prev + up, speed_level: sat_add_spec(m.speed_level, up), ..m }
    } else {
        m
    };
    let m2 = if m1.level % 100 >= 70 && rank < 9 && m1.cool_times[rank] is None {
        MView { cool_times: m1.cool_times.update(rank, Some(cst_of(m1) as usize)), ..m1 }
    } else {
        m1
    };
    let m3 = if m2.level % 100 >= 80 && rank < 9 && m2.cools[rank] is None {
        match m2.cool_times[rank] {
            Some(ct) => {
                let prev_time = if rank > 0 {
                    m2.cool_times[rank - 1]
                } else {
                    None
                };
                let cool = cool_border_of(rank, prev_time) > ct;
                MView {
                    cools: m2.cools.update(rank, Some(cool)),
                    events: if cool {
                        m2.events.push(TGM3Event::GotCool)
                    } else {
                        m2.events
                    },
                    sounds: if cool {
                        m2.sounds.push(TGM3Sound::Cool)
                    } else {
                        m2.sounds
                    },
                    ..m2
                }
            },
            None => m2,
        }
    } else {
        m2
    };
    if line_clear && (prev % 100 > m3.level % 100 || m3.level > 998) {
        let m3c = if m3.level > 999 {
            MView { level: 999, ..m3 }
        } else {
            m3
        };
        rank_up_spec(m3c)
    } else {
        m3
    }
}

/// A line clear during play: grade points are awarded with the level
/// multiplier, the grade steps up at 100 points, and the level rises by
/// the clear's worth (1, 2, 4 or 6).
#[verifier::opaque]
pub open spec fn line_clear_spec(m: MView, n: int) -> MView {
    let gp = sat_add_spec(m.grade_points, grade_point_bonus_of(m.grade, n) * (m.level / 250 + 1));
    let m1 = if m.grade < 31 && gp >= 100 {
        MView { grade_points: 0, grade: m.grade + 1, ..m }
    } else {
        MView { grade_points: gp, ..m }
    };
    let up: int = if n == 3 {
        4
    } else if n == 4 {
        6
    } else {
        n
    };
    level_up_spec(m1, up, true)
}

/// One inner event's effect on the overlay during play.
pub open spec fn event_effect(m: MView, e: EventV) -> MView {
    match e {
        EventV::LineCleared(n) => if 1 <= n <= 4 {
            line_clear_spec(m, n)
        } else {
            m
        },
        EventV::PieceSpawned(p) => level_up_spec(m, 1, false),
        _ => m,
    }
}

/// Folding the wrapped game's event queue, front to back, into the overlay.
pub open spec fn process_events(m: MView, evs: Seq<EventV>, k: int) -> MView
    decreases evs.len() - k,
{
    if k < 0 || k >= evs.len() {
        m
    } else {
        process_events(event_effect(m, evs[k]), evs, k + 1)
    }
}

/// The inner game with the speed tables for `speed` pushed into it.
pub open spec fn with_settings(g: GameView, speed: int) -> GameView {
    GameView {
        gravity: gravity_of(speed),
        are: are_of(speed),
        line_are: line_are_of(speed),
        das: das_of(speed),
        lock_delay: lock_delay_of(speed),
        line_clear_lock: line_clear_delay_of(speed),
        ..g
    }
}

/// An opacity row with no timers.
pub open spec fn empty_timer_row() -> Seq<Option<usize>> {
    Seq::new(10, |i: int| None)
}

/// One frame of opacity decay: a timer over an empty board slot is
/// dropped; a running one counts down.
pub open spec fn decayed_opacity(
    op: Seq<Seq<Option<usize>>>,
    g: Seq<Seq<Option<Cell>>>,
) -> Seq<Seq<Option<usize>>> {
    Seq::new(
        40,
        |y: int|
            Seq::new(
                10,
                |x: int|
                    if g[y][x] is None {
                        None
                    } else {
                        match op[y][x] {
                            Some(t) => if t > 0 {
                                Some((t - 1) as usize)
                            } else {
                                Some(t)
                            },
                            None => None,
                        }
                    },
            ),
    )
}

/// The opacity grid with the first `k` cells of a just-locked piece stamped
/// to `time`; cells outside the grid are skipped.
pub open spec fn stamp_prefix(
    op: Seq<Seq<Option<usize>>>,
    piece: FallingPiece,
    time: usize,
    k: int,
) -> Seq<Seq<Option<usize>>>
    decreases k,
{
    if k <= 0 {
        op
    } else {
        let op1 = stamp_prefix(op, piece, time, k - 1);
        let c = crate::piece::abs_cell(
            piece.piece_state,
            piece.piece_position.0 as int,
            piece.piece_position.1 as int,
            k - 1,
        );
        if crate::piece::slot_in_grid(c.0, c.1) {
            op1.update(c.1, op1[c.1].update(c.0, Some(time)))
        } else {
            op1
        }
    }
}

/// The rows of `op` whose indices are not in `lines`, in order.
pub open spec fn drop_rows(
    op: Seq<Seq<Option<usize>>>,
    lines: Seq<int>,
    i: int,
) -> Seq<Seq<Option<usize>>>
    decreases op.len() - i,
{
    if i < 0 || i >= op.len() {
        Seq::empty()
    } else {
        let rest = drop_rows(op, lines, i + 1);
        if lines.contains(i) {
            rest
        } else {
            seq![op[i]] + rest
        }
    }
}

/// The opacity grid mirroring a collapse: the listed rows leave, and empty
/// timer rows fill the grid back to forty from the top.
pub open spec fn shrunk_opacity(
    op: Seq<Seq<Option<usize>>>,
    lines: Seq<int>,
) -> Seq<Seq<Option<usize>>> {
    let kept = drop_rows(op, lines, 0);
    Seq::new((40 - kept.len()) as nat, |i: int| empty_timer_row()) + kept
}

/// One inner event's effect on the overlay during the roll.
pub open spec fn roll_event_effect(m: MView, e: EventV, roll: Roll) -> MView {
    match e {
        EventV::LineCleared(n) => if 1 <= n <= 4 {
            MView {
                roll_points: sat_add_spec(
                    m.roll_points,
                    match roll {
                        Roll::Normal => roll_points_of(n),
                        Roll::Invisible => mroll_points_of(n),
                    },
                ),
                ..m
            }
        } else {
            m
        },
        EventV::PieceLocked(p) => (MView {
            opacity: stamp_prefix(
                m.opacity,
                p,
                match roll {
                    Roll::Normal => 300,
                    Roll::Invisible => 4,
                },
                4,
            ),
            ..m
        }),
        EventV::LineShrinked(lines) => (MView { opacity: shrunk_opacity(m.opacity, lines), ..m }),
        _ => m,
    }
}

/// Folding the wrapped game's event queue during the roll.
pub open spec fn process_roll_events(m: MView, evs: Seq<EventV>, k: int, roll: Roll) -> MView
    decreases evs.len() - k,
{
    if k < 0 || k >= evs.len() {
        m
    } else {
        process_roll_events(roll_event_effect(m, evs[k], roll), evs, k + 1, roll)
    }
}


/// Whether every section's cool flag is set.
pub open spec fn all_cool(s: Seq<Option<bool>>) -> bool {
    forall|i: int| 0 <= i < s.len() ==> s[i] == Some(true)
}

/// How many entries of `s` hold a raised flag.
pub open spec fn count_flags(s: Seq<Option<bool>>) -> int
    decreases s.len(),
{
    if s.len() == 0 {
        0
    } else {
        count_flags(s.drop_last()) + (if s.last() == Some(true) {
            1int
        } else {
            0int
        })
    }
}

/// The aggregate grade: cools count up, each hundred roll points counts
/// one, the grade maps through its rank table, and regrets count down,
/// never below zero.
pub open spec fn aggregate_grade_of(m: MView) -> int {
    let pos = count_flags(m.cools) + m.roll_points / 100 + grade_to_rank_of(m.grade);
    let neg = count_flags(m.regrets);
    if pos >= neg {
        pos - neg
    } else {
        0
    }
}

/// The Master mode: the base game driven by the level-dependent speed
/// tables, with grades, section timing, cools and regrets, and the credit
/// roll. Time is counted in frames of the 60 Hz tick.
#[derive(Debug)]
pub struct TGM3Master {
    pub inner: Game,
    pub level: usize,
    pub speed_level: usize,
    pub grade_points: usize,
    pub grade: usize,
    pub roll_points: usize,
    pub frames: usize,
    pub section_times: Vec<Option<usize>>,
    pub cool_line_section_times: Vec<Option<usize>>,
    pub cools: Vec<Option<bool>>,
    pub regrets: Vec<Option<bool>>,
    pub status: Status,
    pub start_roll_timer: Option<usize>,
    pub roll_timer: Option<usize>,
    pub tgm3_events: Vec<TGM3Event>,
    pub tgm3_sounds: Vec<TGM3Sound>,
    pub opacity_timers: Vec<Vec<Option<usize>>>,
}

impl View for TGM3Master {
    type V = MView;

    open spec fn view(&self) -> MView {
        MView {
            level: self.level as int,
            speed_level: self.speed_level as int,
            grade_points: self.grade_points as int,
            grade: self.grade as int,
            roll_points: self.roll_points as int,
            frames: self.frames as int,
            section_times: self.section_times@,
            cool_times: self.cool_line_section_times@,
            cools: self.cools@,
            regrets: self.regrets@,
            status: self.status,
            start_roll_timer: self.start_roll_timer,
            roll_timer: self.roll_timer,
            events: self.tgm3_events@,
            sounds: self.tgm3_sounds@,
            opacity: self.opacity_timers@.map(|i: int, row: Vec<Option<usize>>| row@),
            inner_sounds: self.inner.sound_queue@,
        }
    }
}

impl TGM3Master {
    /// What every reachable Master state satisfies.
    pub open spec fn wf(&self) -> bool {
        &&& self.inner.wf()
        &&& self.level <= 999
        &&& self.grade <= 31
        &&& self.section_times@.len() == 9
        &&& self.cool_line_section_times@.len() == 9
        &&& self.cools@.len() == 9
        &&& self.regrets@.len() == 9
        &&& self@.opacity.len() == 40
        &&& (forall|i: int| 0 <= i < 40 ==> (#[trigger] self@.opacity[i]).len() == 10)
    }

    /// A fresh Master game at level 0, its speed tables already pushed into
    /// the wrapped game.
    pub fn new(seed: u64) -> (r: TGM3Master)
        ensures
            r.wf(),
            r@.level == 0,
            r@.speed_level == 0,
            r@.grade == 0,
            r@.grade_points == 0,
            r@.roll_points == 0,
            r@.frames == 0,
            r@.status == Status::Game,
            r@.events == Seq::<TGM3Event>::empty(),
            r@.sounds == Seq::<TGM3Sound>::empty(),
            forall|i: int| 0 <= i < 9 ==> r@.section_times[i] is None,
            forall|i: int| 0 <= i < 9 ==> r@.cool_times[i] is None,
            forall|i: int| 0 <= i < 9 ==> r@.cools[i] is None,
            forall|i: int| 0 <= i < 9 ==> r@.regrets[i] is None,
            r.inner@.gravity == gravity_of(0),
            r.inner@.are == are_of(0),
            r.inner@.line_are == line_are_of(0),
            r.inner@.das == das_of(0),
            r.inner@.lock_delay == lock_delay_of(0),
            r.inner@.line_clear_lock == line_clear_delay_of(0),
    {
        let inner = Game::new(seed);
        let mut section_times: Vec<Option<usize>> = Vec::new();
        let mut cool_line_section_times: Vec<Option<usize>> = Vec::new();
        let mut cools: Vec<Option<bool>> = Vec::new();
        let mut regrets: Vec<Option<bool>> = Vec::new();
        let mut i: usize = 0;
        while i < 9
            invariant
                i <= 9,
                section_times@.len() == i,
                cool_line_section_times@.len() == i,
                cools@.len() == i,
                regrets@.len() == i,
                forall|j: int| 0 <= j < i ==> section_times@[j] is None,
                forall|j: int| 0 <= j < i ==> cool_line_section_times@[j] is None,
                forall|j: int| 0 <= j < i ==> cools@[j] is None,
                forall|j: int| 0 <= j < i ==> regrets@[j] is None,
            decreases 9 - i,
        {
            section_times.push(None);
            cool_line_section_times.push(None);
            cools.push(None);
            regrets.push(None);
            i = i + 1;
        }
        let opacity_timers = make_empty_timers();
        let mut me = TGM3Master {
            inner,
            level: 0,
            speed_level: 0,
            grade_points: 0,
            grade: 0,
            roll_points: 0,
            frames: 0,
            section_times,
            cool_line_section_times,
            cools,
            regrets,
            status: Status::Game,
            start_roll_timer: None,
            roll_timer: None,
            tgm3_events: Vec::new(),
            tgm3_sounds: Vec::new(),
            opacity_timers,
        };
        me.sync_settings();
        me
    }

    pub fn get_level(&self) -> (r: usize)
        ensures
            r == self.level,
    {
        self.level
    }

    pub fn get_status(&self) -> (r: Status)
        ensures
            r == self.status,
    {
        self.status
    }

    /// Start play at a chosen level, as a practice or replay would; the
    /// speed level follows.
    pub fn set_level(&mut self, level: usize)
        requires
            old(self).wf(),
            level <= 999,
        ensures
            final(self).wf(),
            *final(self) == (TGM3Master { level, speed_level: level, ..*old(self) }),
    {
        self.level = level;
        self.speed_level = level;
    }

    /// The Master-only event queue, handed out for draining.
    pub fn get_tgm3events(&mut self) -> (r: &mut Vec<TGM3Event>)
        ensures
            *r == old(self).tgm3_events,
            *final(self) == (TGM3Master { tgm3_events: *final(r), ..*old(self) }),
    {
        &mut self.tgm3_events
    }

    /// The Master-only sound queue, handed out for draining.
    pub fn get_tgm3sounds(&mut self) -> (r: &mut Vec<TGM3Sound>)
        ensures
            *r == old(self).tgm3_sounds,
            *final(self) == (TGM3Master { tgm3_sounds: *final(r), ..*old(self) }),
    {
        &mut self.tgm3_sounds
    }

    /// A copy of the per-cell opacity timers.
    pub fn get_opacity_timers(&self) -> (r: Vec<Vec<Option<usize>>>)
        ensures
            r@.map(|i: int, row: Vec<Option<usize>>| row@) == self@.opacity,
    {
        let mut out: Vec<Vec<Option<usize>>> = Vec::new();
        let mut y: usize = 0;
        let n = self.opacity_timers.len();
        while y < n
            invariant
                n == self.opacity_timers@.len(),
                y <= n,
                out@.len() == y,
                forall|i: int| 0 <= i < y ==> (#[trigger] out@[i])@ == self.opacity_timers@[i]@,
            decreases n - y,
        {
            let row = copy_timer_row(&self.opacity_timers[y]);
            out.push(row);
            y = y + 1;
        }
        proof {
            assert(out@.map(|i: int, row: Vec<Option<usize>>| row@) =~= self@.opacity);
        }
        out
    }

    /// The final display grade.
    pub fn get_aggregate_grade(&self) -> (r: usize)
        requires
            self.wf(),
        ensures
            r == aggregate_grade_of(self@),
    {
        let cools_n = count_raised(&self.cools);
        let regrets_n = count_raised(&self.regrets);
        let rank = grade_to_rank(self.grade);
        let pos = cools_n + self.roll_points / 100 + rank;
        if pos >= regrets_n {
            pos - regrets_n
        } else {
            0
        }
    }

    fn get_are(&self) -> (r: usize)
        ensures
            r == are_of(self.speed_level as int),
    {
        if self.speed_level <= 699 {
            27
        } else if self.speed_level <= 799 {
            18
        } else if self.speed_level <= 999 {
            14
        } else if self.speed_level <= 1099 {
            8
        } else if self.speed_level <= 1199 {
            7
        } else {
            6
        }
    }

    fn get_line_are(&self) -> (r: usize)
        ensures
            r == line_are_of(self.speed_level as int),
    {
        if self.speed_level <= 599 {
            27
        } else if self.speed_level <= 699 {
            18
        } else if self.speed_level <= 799 {
            14
        } else if self.speed_level <= 1099 {
            8
        } else if self.speed_level <= 1199 {
            7
        } else {
            6
        }
    }

    fn get_das(&self) -> (r: usize)
        ensures
            r == das_of(self.speed_level as int),
    {
        if self.speed_level <= 499 {
            15
        } else if self.speed_level <= 899 {
            9
        } else {
            6
        }
    }

    fn get_line_clear_delay(&self) -> (r: usize)
        ensures
            r == line_clear_delay_of(self.speed_level as int),
    {
        if self.speed_level <= 499 {
            40
        } else if self.speed_level <= 599 {
            25
        } else if self.speed_level <= 699 {
            16
        } else if self.speed_level <= 799 {
            12
        } else if self.speed_level <= 1099 {
            6
        } else if self.speed_level <= 1199 {
            5
        } else {
            4
        }
    }

    fn get_lock_delay(&self) -> (r: usize)
        ensures
            r == lock_delay_of(self.speed_level as int),
    {
        if self.speed_level <= 899 {
            30
        } else if self.speed_level <= 1099 {
            17
        } else {
            15
        }
    }

    fn get_gravity(&self) -> (r: u32)
        ensures
            r == gravity_of(self.speed_level as int),
            r <= GRAVITY_MAX,
    {
        if self.speed_level <= 29 {
            4
        } else if self.speed_level <= 34 {
            6
        } else if self.speed_level <= 39 {
            8
        } else if self.speed_level <= 49 {
            10
        } else if self.speed_level <= 59 {
            12
        } else if self.speed_level <= 69 {
            16
        } else if self.speed_level <= 79 {
            32
        } else if self.speed_level <= 89 {
            48
        } else if self.speed_level <= 99 {
            64
        } else if self.speed_level <= 119 {
            80
        } else if self.speed_level <= 139 {
            96
        } else if self.speed_level <= 159 {
            112
        } else if self.speed_level <= 169 {
            128
        } else if self.speed_level <= 199 {
            144
        } else if self.speed_level <= 219 {
            4
        } else if self.speed_level <= 229 {
            32
        } else if self.speed_level <= 232 {
            64
        } else if self.speed_level <= 235 {
            96
        } else if self.speed_level <= 238 {
            128
        } else if self.speed_level <= 242 {
            160
        } else if self.speed_level <= 246 {
            192
        } else if self.speed_level <= 250 {
            224
        } else if self.speed_level <= 299 {
            256
        } else if self.speed_level <= 329 {
            512
        } else if self.speed_level <= 359 {
            768
        } else if self.speed_level <= 399 {
            1024
        } else if self.speed_level <= 419 {
            1280
        } else if self.speed_level <= 449 {
            1024
        } else if self.speed_level <= 499 {
            768
        } else {
            5120
        }
    }

    /// Push the speed tables for the current speed level into the wrapped
    /// game.
    fn sync_settings(&mut self)
        requires
            old(self).wf(),
        ensures
            final(self).wf(),
            final(self).inner@ == with_settings(old(self).inner@, old(self).speed_level as int),
            *final(self) == (TGM3Master { inner: final(self).inner, ..*old(self) }),
    {
        let g = self.get_gravity();
        self.inner.set_gravity(g);
        let a = self.get_are();
        self.inner.set_are(a);
        let la = self.get_line_are();
        self.inner.set_line_are(la);
        let d = self.get_das();
        self.inner.set_das(d);
        let ld = self.get_lock_delay();
        self.inner.set_lock_delay(ld);
        let lcd = self.get_line_clear_delay();
        self.inner.set_line_clear_delay(lcd);
        proof {
            assert(self.inner@ =~= with_settings(old(self).inner@, old(self).speed_level as int));
        }
    }
}

fn copy_timer_row(v: &Vec<Option<usize>>) -> (r: Vec<Option<usize>>)
    ensures
        r@ == v@,
{
    let mut out: Vec<Option<usize>> = Vec::new();
    let mut i: usize = 0;
    while i < v.len()
        invariant
            i <= v@.len(),
            out@ =~= v@.subrange(0, i as int),
        decreases v@.len() - i,
    {
        out.push(v[i]);
        proof {
            assert(out@ =~= v@.subrange(0, i as int + 1));
        }
        i = i + 1;
    }
    proof {
        assert(out@ =~= v@);
    }
    out
}

/// A 40-by-10 grid with no timers set.
fn make_empty_timers() -> (r: Vec<Vec<Option<usize>>>)
    ensures
        r@.len() == 40,
        forall|i: int| 0 <= i < 40 ==> (#[trigger] r@[i])@ =~= empty_timer_row(),
        r@.map(|i: int, row: Vec<Option<usize>>| row@) =~= Seq::new(
            40,
            |i: int| empty_timer_row(),
        ),
{
    let mut out: Vec<Vec<Option<usize>>> = Vec::new();
    let mut y: usize = 0;
    while y < 40
        invariant
            y <= 40,
            out@.len() == y,
            forall|i: int| 0 <= i < y ==> (#[trigger] out@[i])@ =~= empty_timer_row(),
        decreases 40 - y,
    {
        let mut row: Vec<Option<usize>> = Vec::new();
        let mut x: usize = 0;
        while x < 10
            invariant
                x <= 10,
                row@.len() == x,
                forall|j: int| 0 <= j < x ==> (#[trigger] row@[j]) is None,
            decreases 10 - x,
        {
            row.push(None);
            x = x + 1;
        }
        out.push(row);
        y = y + 1;
    }
    proof {
        let m = out@.map(|i: int, row: Vec<Option<usize>>| row@);
        assert forall|j: int| 0 <= j < 40 implies #[trigger] m[j] == Seq::new(
            40,
            |i: int| empty_timer_row(),
        )[j] by {
            assert(out@[j]@ =~= empty_timer_row());
        }
        assert(m =~= Seq::new(40, |i: int| empty_timer_row()));
    }
    out
}

/// How many entries of the flag array are raised.
fn count_raised(v: &Vec<Option<bool>>) -> (r: usize)
    ensures
        r == count_flags(v@),
        r <= v@.len(),
{
    let mut n: usize = 0;
    let mut i: usize = 0;
    while i < v.len()
        invariant
            i <= v@.len(),
            n == count_flags(v@.subrange(0, i as int)),
            n <= i,
        decreases v@.len() - i,
    {
        proof {
            assert(v@.subrange(0, i as int + 1).drop_last() =~= v@.subrange(0, i as int));
            assert(v@.subrange(0, i as int + 1).last() == v@[i as int]);
        }
        if let Some(b) = v[i] {
            if b {
                n = n + 1;
            }
        }
        i = i + 1;
    }
    proof {
        assert(v@.subrange(0, v@.len() as int) =~= v@);
    }
    n
}

/// The grade-to-rank table.
fn grade_to_rank(g: usize) -> (r: usize)
    requires
        g <= 31,
    ensures
        r == grade_to_rank_of(g as int),
        r <= 17,
{
    if g == 0 {
        0
    } else if g == 1 {
        1
    } else if g == 2 {
        2
    } else if g == 3 {
        3
    } else if g == 4 {
        4
    } else if g <= 6 {
        5
    } else if g <= 8 {
        6
    } else if g <= 11 {
        7
    } else if g <= 14 {
        8
    } else if g <= 17 {
        9
    } else if g == 18 {
        10
    } else if g == 19 {
        11
    } else if g <= 22 {
        12
    } else if g <= 24 {
        13
    } else if g <= 26 {
        14
    } else if g <= 28 {
        15
    } else if g <= 30 {
        16
    } else {
        17
    }
}



/// The section close, spelled out for the implementation.
proof fn lemma_rank_up_intro(pre: MView, post: MView, st: int)
    requires
        st == cst_of(pre),
        post == (if pre.level == 999 {
            let regret = regret_border_of(8) < st;
            MView {
                status: Status::Clear,
                events: if regret {
                    pre.events.push(TGM3Event::StatusChange(Status::Clear)).push(
                        TGM3Event::GotRegret,
                    )
                } else {
                    pre.events.push(TGM3Event::StatusChange(Status::Clear))
                },
                sounds: pre.sounds.push(TGM3Sound::GameClear),
                section_times: pre.section_times.update(8, Some(st as usize)),
                regrets: pre.regrets.update(8, Some(regret)),
                ..pre
            }
        } else if pre.level >= 100 {
            let pr = pre.level / 100 - 1;
            let regret = regret_border_of(pr) < st;
            MView {
                section_times: pre.section_times.update(pr, Some(st as usize)),
                regrets: pre.regrets.update(pr, Some(regret)),
                speed_level: if !regret && pre.cools[pr] == Some(true) {
                    sat_add_spec(pre.speed_level, 100)
                } else {
                    pre.speed_level
                },
                inner_sounds: pre.inner_sounds.push(Sound::RankUp),
                ..pre
            }
        } else {
            MView { inner_sounds: pre.inner_sounds.push(Sound::RankUp), ..pre }
        }),
    ensures
        post == rank_up_spec(pre),
{
    reveal(rank_up_spec);
}

impl TGM3Master {
    /// Total of the recorded section times, in frames.
    fn section_time_total(&self) -> (r: usize)
        requires
            self.wf(),
        ensures
            r as int == sat_cap(section_sum(self.section_times@)),
    {
        proof {
            reveal(section_sum);
        }
        let mut total: usize = 0;
        let mut i: usize = 0;
        while i < self.section_times.len()
            invariant
                self.wf(),
                i <= 9,
                total as int == sat_cap(section_sum(self.section_times@.subrange(0, i as int))),
            decreases 9 - i,
        {
            proof {
                reveal(section_sum);
                assert(self.section_times@.subrange(0, i as int + 1).drop_last()
                    =~= self.section_times@.subrange(0, i as int));
                assert(self.section_times@.subrange(0, i as int + 1).last()
                    == self.section_times@[i as int]);
            }
            if let Some(t) = self.section_times[i] {
                total = sat_add(total, t);
            }
            i = i + 1;
        }
        proof {
            assert(self.section_times@.subrange(0, 9) =~= self.section_times@);
        }
        total
    }

    /// Frames spent in the current section.
    fn current_section_time(&self) -> (r: usize)
        requires
            self.wf(),
        ensures
            r as int == cst_of(self@),
    {
        proof {
            reveal(cst_of);
            lemma_section_sum_nonneg(self.section_times@);
        }
        let total = self.section_time_total();
        if total <= self.frames {
            self.frames - total
        } else {
            0
        }
    }

    /// Whether every section earned its cool.
    fn is_all_cool(&self) -> (r: bool)
        requires
            self.wf(),
        ensures
            r == all_cool(self@.cools),
    {
        let mut i: usize = 0;
        while i < self.cools.len()
            invariant
                self.wf(),
                i <= 9,
                forall|j: int| 0 <= j < i ==> self.cools@[j] == Some(true),
            decreases 9 - i,
        {
            let ok = match self.cools[i] {
                Some(b) => b,
                None => false,
            };
            if !ok {
                return false;
            }
            i = i + 1;
        }
        true
    }

    /// Close the section that just ended.
    fn rank_up(&mut self)
        requires
            old(self).wf(),
        ensures
            final(self).wf(),
            final(self)@ == rank_up_spec(old(self)@),
            final(self).inner == (Game {
                sound_queue: final(self).inner.sound_queue,
                ..old(self).inner
            }),
    {
        let ghost pre = self@;
        if self.level == 999 {
            self.rank_up_final();
            proof {
                lemma_rank_up_intro(pre, self@, cst_of(pre));
            }
        } else {
            self.rank_up_section();
            proof {
                lemma_rank_up_intro(pre, self@, cst_of(pre));
            }
        }
    }

    /// The close of the last section, at level 999: the game is cleared.
    #[verifier::rlimit(100)]
    fn rank_up_final(&mut self)
        requires
            old(self).wf(),
            old(self).level == 999,
        ensures
            final(self).wf(),
            final(self)@ == ({
                let pre = old(self)@;
                let st = cst_of(pre);
                let regret = regret_border_of(8) < st;
                MView {
                    status: Status::Clear,
                    events: if regret {
                        pre.events.push(TGM3Event::StatusChange(Status::Clear)).push(
                            TGM3Event::GotRegret,
                        )
                    } else {
                        pre.events.push(TGM3Event::StatusChange(Status::Clear))
                    },
                    sounds: pre.sounds.push(TGM3Sound::GameClear),
                    section_times: pre.section_times.update(8, Some(st as usize)),
                    regrets: pre.regrets.update(8, Some(regret)),
                    ..pre
                }
            }),
            final(self).inner == old(self).inner,
    {
        let section_time = self.current_section_time();
        self.status = Status::Clear;
        self.tgm3_events.push(TGM3Event::StatusChange(Status::Clear));
        self.tgm3_sounds.push(TGM3Sound::GameClear);
        self.section_times.set(8, Some(section_time));
        let border = regret_border(8);
        let regret = border < section_time;
        self.regrets.set(8, Some(regret));
        if regret {
            self.tgm3_events.push(TGM3Event::GotRegret);
        }
    }

    /// The close of an ordinary section: record, judge the regret, award
    /// the pending cool, ring the jingle.
    #[verifier::rlimit(100)]
    fn rank_up_section(&mut self)
        requires
            old(self).wf(),
            old(self).level != 999,
        ensures
            final(self).wf(),
            final(self)@ == ({
                let pre = old(self)@;
                let st = cst_of(pre);
                if pre.level >= 100 {
                    let pr = pre.level / 100 - 1;
                    let regret = regret_border_of(pr) < st;
                    MView {
                        section_times: pre.section_times.update(pr, Some(st as usize)),
                        regrets: pre.regrets.update(pr, Some(regret)),
                        speed_level: if !regret && pre.cools[pr] == Some(true) {
                            sat_add_spec(pre.speed_level, 100)
                        } else {
                            pre.speed_level
                        },
                        inner_sounds: pre.inner_sounds.push(Sound::RankUp),
                        ..pre
                    }
                } else {
                    MView { inner_sounds: pre.inner_sounds.push(Sound::RankUp), ..pre }
                }
            }),
            final(self).inner == (Game {
                sound_queue: final(self).inner.sound_queue,
                ..old(self).inner
            }),
    {
        let section_time = self.current_section_time();
        if self.level >= 100 {
            let prev_rank = self.level / 100 - 1;
            self.section_times.set(prev_rank, Some(section_time));
            let border = regret_border(prev_rank);
            let regret = border < section_time;
            self.regrets.set(prev_rank, Some(regret));
            if !regret {
                if let Some(cool) = self.cools[prev_rank] {
                    if cool {
                        self.speed_level = sat_add(self.speed_level, 100);
                    }
                }
            }
            self.inner.push_sound(Sound::RankUp);
        } else {
            self.inner.push_sound(Sound::RankUp);
        }
    }

    /// Award `up` levels; see `level_up_spec` for the gating, the cool
    /// line, the cool itself, and the section close.
    fn level_up(&mut self, up: usize, line_clear: bool)
        requires
            old(self).wf(),
            up <= 6,
        ensures
            final(self).wf(),
            final(self)@ == level_up_spec(old(self)@, up as int, line_clear),
            final(self).inner == (Game {
                sound_queue: final(self).inner.sound_queue,
                ..old(self).inner
            }),
    {
        let ghost pre = self@;
        proof {
            reveal(level_up_spec);
        }
        let rank = self.level / 100;
        let prev = self.level;
        if line_clear || ((prev + up) % 100 > prev % 100 && prev + up < 998) {
            self.level = prev + up;
            self.speed_level = sat_add(self.speed_level, up);
        }
        let ghost m1 = self@;
        if self.level % 100 >= 70 && rank < 9 && self.cool_line_section_times[rank].is_none() {
            let cst = self.current_section_time();
            self.cool_line_section_times.set(rank, Some(cst));
        }
        let ghost m2 = self@;
        proof {
            assert(m2 == (if m1.level % 100 >= 70 && rank < 9 && m1.cool_times[rank as int] is None {
                MView { cool_times: m1.cool_times.update(rank as int, Some(cst_of(m1) as usize)), ..m1 }
            } else {
                m1
            }));
        }
        if self.level % 100 >= 80 && rank < 9 && self.cools[rank].is_none() {
            if let Some(current_cool_section_time) = self.cool_line_section_times[rank] {
                let prev_time = if rank > 0 {
                    self.cool_line_section_times[rank - 1]
                } else {
                    None
                };
                let border = cool_border(rank, prev_time);
                let cool = border > current_cool_section_time;
                self.cools.set(rank, Some(cool));
                if cool {
                    self.tgm3_events.push(TGM3Event::GotCool);
                    self.tgm3_sounds.push(TGM3Sound::Cool);
                }
            }
        }
        let ghost m3 = self@;
        if line_clear && (prev % 100 > self.level % 100 || self.level > 998) {
            if self.level > 999 {
                self.level = 999;
            }
            self.rank_up();
            proof {
                assert(self@ == level_up_spec(pre, up as int, line_clear));
            }
        } else {
            proof {
                assert(self@ == level_up_spec(pre, up as int, line_clear));
            }
        }
    }

    /// A line clear of `n` rows during play: grade points, the grade, and
    /// the level award.
    pub fn game_line_clear(&mut self, n: usize)
        requires
            old(self).wf(),
            1 <= n <= 4,
        ensures
            final(self).wf(),
            final(self)@ == line_clear_spec(old(self)@, n as int),
            final(self).inner == (Game {
                sound_queue: final(self).inner.sound_queue,
                ..old(self).inner
            }),
    {
        let ghost pre = self@;
        proof {
            reveal(line_clear_spec);
        }
        let bonus = self.get_grade_point_bonus(n);
        let mult = self.level / 250 + 1;
        proof {
            assert(bonus * mult <= 200) by (nonlinear_arith)
                requires
                    bonus <= 50,
                    mult <= 4,
            ;
        }
        self.grade_points = sat_add(self.grade_points, bonus * mult);
        if self.grade < 31 && self.grade_points >= 100 {
            self.grade_points = 0;
            self.grade = self.grade + 1;
        }
        let up: usize = match n {
            3 => 4,
            4 => 6,
            _ => n,
        };
        self.level_up(up, true);
        proof {
            assert(self@ == line_clear_spec(pre, n as int));
        }
    }

    fn get_grade_point_bonus(&self, n: usize) -> (r: usize)
        requires
            self.grade <= 31,
            1 <= n <= 4,
        ensures
            r == grade_point_bonus_of(self.grade as int, n as int),
            r <= 50,
    {
        let g = self.grade;
        if g == 0 {
            [10usize, 20, 40, 50][n - 1]
        } else if g <= 2 {
            [10usize, 20, 30, 40][n - 1]
        } else if g == 3 {
            [10usize, 15, 30, 40][n - 1]
        } else if g == 4 {
            [10usize, 15, 20, 40][n - 1]
        } else if g == 5 {
            [5usize, 15, 20, 30][n - 1]
        } else if g == 6 {
            [5usize, 10, 20, 30][n - 1]
        } else if g <= 9 {
            [5usize, 10, 15, 30][n - 1]
        } else {
            [2usize, 12, 13, 30][n - 1]
        }
    }
}

/// The regret border of a section, in frames.
fn regret_border(rank: usize) -> (r: usize)
    ensures
        r == regret_border_of(rank as int),
{
    if rank == 0 {
        90 * 60
    } else if rank <= 2 {
        75 * 60
    } else if rank == 3 {
        68 * 60
    } else if rank <= 5 {
        60 * 60
    } else {
        50 * 60
    }
}

/// The cool border of a section, in frames.
fn cool_border(rank: usize, prev: Option<usize>) -> (r: usize)
    ensures
        r == cool_border_of(rank as int, prev),
{
    let set: usize = if rank <= 1 {
        52 * 60
    } else if rank <= 2 {
        49 * 60
    } else if rank <= 4 {
        45 * 60
    } else if rank <= 6 {
        42 * 60
    } else {
        38 * 60
    };
    if rank > 0 {
        if let Some(p) = prev {
            if p <= usize::MAX - 120 && p + 120 < set {
                return p + 120;
            }
        }
    }
    set
}

/// Seconds of section time never exceed the machine range; the sum is read
/// through this cap.
pub open spec fn sat_cap(x: int) -> int {
    if x <= usize::MAX {
        x
    } else {
        usize::MAX as int
    }
}

proof fn lemma_section_sum_nonneg(s: Seq<Option<usize>>)
    ensures
        section_sum(s) >= 0,
    decreases s.len(),
{
    reveal(section_sum);
    if s.len() > 0 {
        lemma_section_sum_nonneg(s.drop_last());
    }
}


impl TGM3Master {
    /// One play-state frame: the wrapped game ticks, its fresh events feed
    /// the level and grade logic, and the speed tables are pushed back in.
    fn game_update(&mut self)
        requires
            old(self).wf(),
        ensures
            final(self).wf(),
            exists|r1: Seq<Piece>, r2: Seq<Piece>|
                is_full_bag(r1) && is_full_bag(r2) && ({
                    let gv = game_step(old(self).inner@, r1, r2);
                    let m1 = process_events(
                        (MView { inner_sounds: gv.sounds, ..old(self)@ }),
                        gv.events,
                        0,
                    );
                    &&& final(self)@ == m1
                    &&& final(self).inner@ == with_settings(
                        (GameView { sounds: m1.inner_sounds, ..gv }),
                        m1.speed_level,
                    )
                }),
    {
        let ghost pre_inner = self.inner@;
        let ghost pre_m = self@;
        self.inner.update();
        let ghost gv = self.inner@;
        let ghost inner1 = self.inner;
        let ghost m0 = self@;
        proof {
            assert(m0 == (MView { inner_sounds: gv.sounds, ..pre_m }));
        }
        let n = self.inner.event_queue.len();
        let ghost evs = gv.events;
        let mut i: usize = 0;
        while i < n
            invariant
                self.wf(),
                n == self.inner.event_queue@.len(),
                i <= n,
                self.inner == (Game { sound_queue: self.inner.sound_queue, ..inner1 }),
                evs == gv.events,
                evs.len() == n,
                forall|k: int|
                    0 <= k < n ==> evs[k] == ev_view(#[trigger] self.inner.event_queue@[k]),
                process_events(m0, evs, 0) == process_events(self@, evs, i as int),
            decreases n - i,
        {
            let mut is_clear = false;
            let mut cleared: usize = 0;
            let mut is_spawn = false;
            match &self.inner.event_queue[i] {
                TetrisEvent::LineCleared(nl) => {
                    is_clear = true;
                    cleared = *nl;
                },
                TetrisEvent::PieceSpawned(_) => {
                    is_spawn = true;
                },
                _ => {},
            }
            let ghost mi = self@;
            if is_clear {
                if 1 <= cleared && cleared <= 4 {
                    self.game_line_clear(cleared);
                }
            } else if is_spawn {
                self.level_up(1, false);
            }
            proof {
                assert(self@ == event_effect(mi, evs[i as int]));
                assert(process_events(mi, evs, i as int) == process_events(
                    self@,
                    evs,
                    i as int + 1,
                ));
            }
            i = i + 1;
        }
        let ghost m1 = self@;
        proof {
            assert(process_events(m1, evs, n as int) == m1);
            assert(m1 == process_events(m0, evs, 0));
            assert(self.inner@ == (GameView { sounds: m1.inner_sounds, ..gv }));
        }
        self.sync_settings();
    }

    /// One frame of opacity decay against the wrapped game's grid.
    fn decay_opacity(&mut self)
        requires
            old(self).wf(),
        ensures
            final(self).wf(),
            final(self)@ == (MView {
                opacity: decayed_opacity(old(self)@.opacity, old(self).inner@.grid),
                ..old(self)@
            }),
            final(self).inner == old(self).inner,
    {
        let ghost op0 = self@.opacity;
        let ghost g = self.inner@.grid;
        let mut out: Vec<Vec<Option<usize>>> = Vec::new();
        let mut y: usize = 0;
        while y < 40
            invariant
                self.wf(),
                self == old(self),
                op0 == self@.opacity,
                g == self.inner@.grid,
                y <= 40,
                out@.len() == y,
                forall|i: int|
                    0 <= i < y ==> (#[trigger] out@[i])@ == decayed_opacity(op0, g)[i],
            decreases 40 - y,
        {
            let mut row: Vec<Option<usize>> = Vec::new();
            let mut x: usize = 0;
            while x < 10
                invariant
                    self.wf(),
                    self == old(self),
                    op0 == self@.opacity,
                    g == self.inner@.grid,
                    y < 40,
                    x <= 10,
                    row@.len() == x,
                    forall|j: int|
                        0 <= j < x ==> (#[trigger] row@[j]) == decayed_opacity(op0, g)[y as int][j],
            decreases 10 - x,
            {
                proof {
                    assert(self.inner.board.cells@.len() == 40);
                    assert(g[y as int] == self.inner.board.cells@[y as int]@);
                    assert(self.inner.board.cells@[y as int]@.len() == 10);
                    assert(op0[y as int] == self.opacity_timers@[y as int]@);
                }
                let cell_filled = self.inner.board.cells[y][x].is_some();
                let t0 = self.opacity_timers[y][x];
                let nv: Option<usize> = if !cell_filled {
                    None
                } else {
                    match t0 {
                        Some(t) => if t > 0 {
                            Some(t - 1)
                        } else {
                            Some(t)
                        },
                        None => None,
                    }
                };
                row.push(nv);
                x = x + 1;
            }
            proof {
                assert(row@ =~= decayed_opacity(op0, g)[y as int]);
            }
            out.push(row);
            y = y + 1;
        }
        self.opacity_timers = out;
        proof {
            assert(self@.opacity =~= decayed_opacity(op0, g));
            assert(self@ =~= (MView { opacity: decayed_opacity(op0, g), ..old(self)@ }));
        }
    }

    /// Stamp the four cells of a just-locked piece with an opacity timer.
    fn set_opacity_timer(&mut self, piece: &FallingPiece, time: usize)
        requires
            old(self).wf(),
        ensures
            final(self).wf(),
            final(self)@ == (MView {
                opacity: stamp_prefix(old(self)@.opacity, *piece, time, 4),
                ..old(self)@
            }),
            final(self).inner == old(self).inner,
    {
        let ghost op0 = self@.opacity;
        let (x, y) = piece.piece_position;
        let rel = piece.piece_state.get_cells();
        if x > 11 || y > 41 {
            proof {
                crate::piece::lemma_cells_bounds(piece.piece_state);
                lemma_stamp_outside(op0, *piece, time, 4);
                assert(self@ =~= (MView {
                    opacity: stamp_prefix(op0, *piece, time, 4),
                    ..old(self)@
                }));
            }
            return;
        }
        let mut i: usize = 0;
        while i < 4
            invariant
                self.wf(),
                old(self).wf(),
                x == piece.piece_position.0,
                y == piece.piece_position.1,
                x <= 11,
                y <= 41,
                rel@.len() == 4,
                forall|j: int|
                    0 <= j < 4 ==> (#[trigger] rel@[j]).0 == crate::piece::piece_cells(
                        piece.piece_state,
                    )[j].0 && rel@[j].1 == crate::piece::piece_cells(piece.piece_state)[j].1,
                i <= 4,
                self@ == (MView { opacity: stamp_prefix(op0, *piece, time, i as int), ..old(self)@ }),
                self.inner == old(self).inner,
            decreases 4 - i,
        {
            let rel_c = rel[i];
            let col: i64 = x as i64 + rel_c.0 as i64;
            let row: i64 = y as i64 - rel_c.1 as i64;
            proof {
                assert(col == crate::piece::abs_cell(
                    piece.piece_state,
                    x as int,
                    y as int,
                    i as int,
                ).0);
                assert(row == crate::piece::abs_cell(
                    piece.piece_state,
                    x as int,
                    y as int,
                    i as int,
                ).1);
            }
            if 0 <= col && col < 10 && 0 <= row && row < 40 {
                let rowi: usize = row as usize;
                let coli: usize = col as usize;
                let ghost opprev = self@.opacity;
                proof {
                    assert(self.opacity_timers@.len() == 40);
                    assert(self@.opacity[rowi as int] == self.opacity_timers@[rowi as int]@);
                    assert(self.opacity_timers@[rowi as int]@.len() == 10);
                }
                self.opacity_timers[rowi][coli] = Some(time);
                proof {
                    assert(self@.opacity =~= opprev.update(
                        row as int,
                        opprev[row as int].update(col as int, Some(time)),
                    ));
                    assert(self@ =~= (MView {
                        opacity: stamp_prefix(op0, *piece, time, i as int + 1),
                        ..old(self)@
                    }));
                }
            }
            i = i + 1;
        }
    }

    /// Mirror a collapse on the opacity grid: the listed rows leave, empty
    /// timer rows refill it to forty from the top.
    fn shrink_opacity(&mut self, lines: &Vec<usize>)
        requires
            old(self).wf(),
        ensures
            final(self).wf(),
            final(self)@ == (MView {
                opacity: shrunk_opacity(
                    old(self)@.opacity,
                    lines@.map(|i: int, v: usize| v as int),
                ),
                ..old(self)@
            }),
            final(self).inner == old(self).inner,
    {
        let ghost op0 = self@.opacity;
        let ghost ls = lines@.map(|i: int, v: usize| v as int);
        let mut kept: Vec<Vec<Option<usize>>> = Vec::new();
        let mut y: usize = 0;
        while y < 40
            invariant
                self.wf(),
                self == old(self),
                op0 == self@.opacity,
                ls == lines@.map(|i: int, v: usize| v as int),
                y <= 40,
                kept@.map(|i: int, row: Vec<Option<usize>>| row@) =~= drop_rows_upto(
                    op0,
                    ls,
                    0,
                    y as int,
                ),
                kept@.len() <= y,
                forall|i: int| 0 <= i < kept@.len() ==> (#[trigger] kept@[i])@.len() == 10,
            decreases 40 - y,
        {
            proof {
                lemma_drop_rows_upto_step(op0, ls, y as int);
                assert(op0[y as int] == self.opacity_timers@[y as int]@);
            }
            if !contains_index(lines, y) {
                let row = copy_timer_row(&self.opacity_timers[y]);
                kept.push(row);
                proof {
                    assert(kept@.map(|i: int, row: Vec<Option<usize>>| row@) =~= drop_rows_upto(
                        op0,
                        ls,
                        0,
                        y as int + 1,
                    ));
                }
            } else {
                proof {
                    assert(kept@.map(|i: int, row: Vec<Option<usize>>| row@) =~= drop_rows_upto(
                        op0,
                        ls,
                        0,
                        y as int + 1,
                    ));
                }
            }
            y = y + 1;
        }
        proof {
            lemma_drop_rows_upto_full(op0, ls);
        }
        let kept_len = kept.len();
        let mut out: Vec<Vec<Option<usize>>> = Vec::new();
        let mut k: usize = 0;
        let empties = 40 - kept_len;
        while k < empties
            invariant
                k <= empties,
                out@.len() == k,
                forall|i: int| 0 <= i < k ==> (#[trigger] out@[i])@ =~= empty_timer_row(),
            decreases empties - k,
        {
            let mut row: Vec<Option<usize>> = Vec::new();
            let mut xx: usize = 0;
            while xx < 10
                invariant
                    xx <= 10,
                    row@.len() == xx,
                    forall|j: int| 0 <= j < xx ==> (#[trigger] row@[j]) is None,
                decreases 10 - xx,
            {
                row.push(None);
                xx = xx + 1;
            }
            out.push(row);
            k = k + 1;
        }
        let mut j: usize = 0;
        while j < kept_len
            invariant
                j <= kept_len,
                kept_len == kept@.len(),
                kept_len <= 40,
                out@.len() == 40 - kept_len + j,
                forall|i: int|
                    0 <= i < 40 - kept_len ==> (#[trigger] out@[i])@ =~= empty_timer_row(),
                forall|i: int|
                    0 <= i < j ==> out@[40 - kept_len + i]@ == (#[trigger] kept@[i])@,
                forall|i: int| 0 <= i < kept@.len() ==> (#[trigger] kept@[i])@.len() == 10,
            decreases kept_len - j,
        {
            let row = copy_timer_row(&kept[j]);
            out.push(row);
            j = j + 1;
        }
        self.opacity_timers = out;
        proof {
            let fin = shrunk_opacity(op0, ls);
            let keptv = drop_rows(op0, ls, 0);
            assert(kept@.map(|i: int, row: Vec<Option<usize>>| row@) == keptv);
            assert(keptv.len() == kept_len);
            assert(self@.opacity.len() == 40);
            assert forall|i: int| 0 <= i < 40 implies #[trigger] self@.opacity[i] == fin[i] by {
                assert(self@.opacity[i] == self.opacity_timers@[i]@);
                if i < 40 - kept_len {
                    assert(self.opacity_timers@[i]@ =~= empty_timer_row());
                } else {
                    assert(self.opacity_timers@[i]@ == kept@[i - (40 - kept_len) as int]@);
                    assert(keptv[i - (40 - kept_len) as int] == kept@.map(
                        |t: int, row: Vec<Option<usize>>| row@,
                    )[i - (40 - kept_len) as int]);
                }
            }
            assert(self@.opacity =~= fin);
            assert(self@ =~= (MView { opacity: fin, ..old(self)@ }));
        }
    }
}

/// `drop_rows` restricted to indices below `upto`.
pub open spec fn drop_rows_upto(
    op: Seq<Seq<Option<usize>>>,
    lines: Seq<int>,
    i: int,
    upto: int,
) -> Seq<Seq<Option<usize>>>
    decreases upto - i,
{
    if i < 0 || i >= upto {
        Seq::empty()
    } else {
        let rest = drop_rows_upto(op, lines, i + 1, upto);
        if lines.contains(i) {
            rest
        } else {
            seq![op[i]] + rest
        }
    }
}

proof fn lemma_drop_rows_upto_step(op: Seq<Seq<Option<usize>>>, lines: Seq<int>, y: int)
    requires
        0 <= y,
    ensures
        forall|from: int|
            0 <= from <= y ==> #[trigger] drop_rows_upto(op, lines, from, y + 1)
                == drop_rows_upto(op, lines, from, y) + (if lines.contains(y) {
                Seq::<Seq<Option<usize>>>::empty()
            } else {
                seq![op[y]]
            }),
    decreases y,
{
    assert forall|from: int| 0 <= from <= y implies #[trigger] drop_rows_upto(op, lines, from, y + 1)
        == drop_rows_upto(op, lines, from, y) + (if lines.contains(y) {
        Seq::<Seq<Option<usize>>>::empty()
    } else {
        seq![op[y]]
    }) by {
        lemma_drop_rows_upto_step_one(op, lines, from, y);
    }
}

proof fn lemma_drop_rows_upto_step_one(
    op: Seq<Seq<Option<usize>>>,
    lines: Seq<int>,
    from: int,
    y: int,
)
    requires
        0 <= from <= y,
    ensures
        drop_rows_upto(op, lines, from, y + 1) == drop_rows_upto(op, lines, from, y) + (
        if lines.contains(y) {
            Seq::<Seq<Option<usize>>>::empty()
        } else {
            seq![op[y]]
        }),
    decreases y - from,
{
    if from == y {
        assert(drop_rows_upto(op, lines, from, y) =~= Seq::<Seq<Option<usize>>>::empty());
        assert(drop_rows_upto(op, lines, y + 1, y + 1) =~= Seq::<Seq<Option<usize>>>::empty());
        if lines.contains(y) {
            assert(drop_rows_upto(op, lines, from, y + 1) =~= Seq::<Seq<Option<usize>>>::empty());
            assert(drop_rows_upto(op, lines, from, y) + Seq::<Seq<Option<usize>>>::empty() =~= Seq::<
                Seq<Option<usize>>,
            >::empty());
        } else {
            assert(drop_rows_upto(op, lines, from, y + 1) =~= seq![op[y]]);
            assert(drop_rows_upto(op, lines, from, y) + seq![op[y]] =~= seq![op[y]]);
        }
    } else {
        lemma_drop_rows_upto_step_one(op, lines, from + 1, y);
        if lines.contains(from) {
        } else {
            assert(seq![op[from]] + (drop_rows_upto(op, lines, from + 1, y) + (if lines.contains(y) {
                Seq::<Seq<Option<usize>>>::empty()
            } else {
                seq![op[y]]
            })) =~= (seq![op[from]] + drop_rows_upto(op, lines, from + 1, y)) + (if lines.contains(
                y,
            ) {
                Seq::<Seq<Option<usize>>>::empty()
            } else {
                seq![op[y]]
            }));
        }
    }
}

proof fn lemma_drop_rows_upto_full(op: Seq<Seq<Option<usize>>>, lines: Seq<int>)
    requires
        op.len() == 40,
    ensures
        drop_rows(op, lines, 0) == drop_rows_upto(op, lines, 0, 40),
        drop_rows_upto(op, lines, 0, 40).len() <= 40,
{
    lemma_drop_rows_eq(op, lines, 0);
    lemma_drop_rows_upto_len(op, lines, 0, 40);
}

proof fn lemma_drop_rows_eq(op: Seq<Seq<Option<usize>>>, lines: Seq<int>, i: int)
    requires
        op.len() == 40,
    ensures
        drop_rows(op, lines, i) == drop_rows_upto(op, lines, i, 40),
    decreases 40 - i,
{
    if 0 <= i < 40 {
        lemma_drop_rows_eq(op, lines, i + 1);
    }
}

proof fn lemma_drop_rows_upto_len(op: Seq<Seq<Option<usize>>>, lines: Seq<int>, i: int, upto: int)
    ensures
        drop_rows_upto(op, lines, i, upto).len() <= (if upto >= i {
            upto - i
        } else {
            0
        }),
    decreases upto - i,
{
    if 0 <= i < upto {
        lemma_drop_rows_upto_len(op, lines, i + 1, upto);
    }
}

/// Stamping a piece whose pivot lies far outside leaves the grid unchanged.
proof fn lemma_stamp_outside(op: Seq<Seq<Option<usize>>>, piece: FallingPiece, time: usize, k: int)
    requires
        0 <= k <= 4,
        piece.piece_position.0 > 11 || piece.piece_position.1 > 41,
    ensures
        stamp_prefix(op, piece, time, k) == op,
    decreases k,
{
    if k > 0 {
        lemma_stamp_outside(op, piece, time, k - 1);
        crate::piece::lemma_cells_bounds(piece.piece_state);
        assert(!crate::piece::slot_in_grid(
            crate::piece::abs_cell(
                piece.piece_state,
                piece.piece_position.0 as int,
                piece.piece_position.1 as int,
                k - 1,
            ).0,
            crate::piece::abs_cell(
                piece.piece_state,
                piece.piece_position.0 as int,
                piece.piece_position.1 as int,
                k - 1,
            ).1,
        ));
    }
}

/// Whether the ascending index list holds `y`.
fn contains_index(v: &Vec<usize>, y: usize) -> (r: bool)
    ensures
        r == v@.map(|i: int, u: usize| u as int).contains(y as int),
{
    let mut i: usize = 0;
    while i < v.len()
        invariant
            i <= v@.len(),
            forall|j: int| 0 <= j < i ==> (#[trigger] v@[j]) as int != y as int,
            forall|j: int|
                0 <= j < i ==> v@.map(|t: int, u: usize| u as int)[#[trigger] (j + 0)] != y
                    as int,
        decreases v@.len() - i,
    {
        if v[i] == y {
            proof {
                assert(v@.map(|t: int, u: usize| u as int)[i as int] == y as int);
            }
            return true;
        }
        i = i + 1;
    }
    proof {
        let m = v@.map(|t: int, u: usize| u as int);
        assert forall|j: int| 0 <= j < v@.len() implies #[trigger] m[j] != y as int by {
            assert(v@[j] as int != y as int);
        }
        assert(!m.contains(y as int));
    }
    false
}

/// A copy of the collapse's row list.
fn copy_usize_vec(v: &Vec<usize>) -> (r: Vec<usize>)
    ensures
        r@ == v@,
{
    let mut out: Vec<usize> = Vec::new();
    let mut i: usize = 0;
    while i < v.len()
        invariant
            i <= v@.len(),
            out@ =~= v@.subrange(0, i as int),
        decreases v@.len() - i,
    {
        out.push(v[i]);
        proof {
            assert(out@ =~= v@.subrange(0, i as int + 1));
        }
        i = i + 1;
    }
    proof {
        assert(out@ =~= v@);
    }
    out
}


impl TGM3Master {
    /// A line clear during the roll earns roll points only.
    fn roll_line_clear(&mut self, n: usize, roll: Roll)
        requires
            old(self).wf(),
            1 <= n <= 4,
        ensures
            final(self).wf(),
            final(self)@ == (MView {
                roll_points: sat_add_spec(
                    old(self).roll_points as int,
                    match roll {
                        Roll::Normal => roll_points_of(n as int),
                        Roll::Invisible => mroll_points_of(n as int),
                    },
                ),
                ..old(self)@
            }),
            final(self).inner == old(self).inner,
    {
        let pts: usize = match roll {
            Roll::Normal => [4usize, 8, 12, 26][n - 1],
            Roll::Invisible => [10usize, 20, 30, 100][n - 1],
        };
        self.roll_points = sat_add(self.roll_points, pts);
    }

    /// One roll frame: the wrapped game ticks, timers decay against its
    /// grid, and its fresh events stamp, score or shift the timers. Grade
    /// and grade points are untouched throughout.
    fn roll_update(&mut self, roll: Roll)
        requires
            old(self).wf(),
        ensures
            final(self).wf(),
            exists|r1: Seq<Piece>, r2: Seq<Piece>|
                is_full_bag(r1) && is_full_bag(r2) && ({
                    let gv = game_step(old(self).inner@, r1, r2);
                    let md = MView {
                        opacity: decayed_opacity(old(self)@.opacity, gv.grid),
                        inner_sounds: gv.sounds,
                        ..old(self)@
                    };
                    let m1 = process_roll_events(md, gv.events, 0, roll);
                    &&& final(self)@ == m1
                    &&& final(self).inner@ == gv
                }),
            final(self).grade == old(self).grade,
            final(self).grade_points == old(self).grade_points,
            final(self).level == old(self).level,
    {
        let ghost pre_inner = self.inner@;
        let ghost pre_m = self@;
        self.inner.update();
        let ghost gv = self.inner@;
        let ghost inner1 = self.inner;
        self.decay_opacity();
        let ghost md = self@;
        proof {
            assert(md == (MView {
                opacity: decayed_opacity(pre_m.opacity, gv.grid),
                inner_sounds: gv.sounds,
                ..pre_m
            }));
        }
        let n = self.inner.event_queue.len();
        let ghost evs = gv.events;
        let mut i: usize = 0;
        while i < n
            invariant
                self.wf(),
                n == self.inner.event_queue@.len(),
                i <= n,
                self.inner == inner1,
                evs == gv.events,
                evs.len() == n,
                forall|k: int|
                    0 <= k < n ==> evs[k] == ev_view(#[trigger] self.inner.event_queue@[k]),
                process_roll_events(md, evs, 0, roll) == process_roll_events(
                    self@,
                    evs,
                    i as int,
                    roll,
                ),
                self.grade == old(self).grade,
                self.grade_points == old(self).grade_points,
                self.level == old(self).level,
            decreases n - i,
        {
            let mut is_clear = false;
            let mut cleared: usize = 0;
            let mut locked: Option<FallingPiece> = None;
            let mut shrinked: Option<Vec<usize>> = None;
            match &self.inner.event_queue[i] {
                TetrisEvent::LineCleared(nl) => {
                    is_clear = true;
                    cleared = *nl;
                },
                TetrisEvent::PieceLocked(p) => {
                    locked = Some(*p);
                },
                TetrisEvent::LineShrinked(v) => {
                    shrinked = Some(copy_usize_vec(v));
                },
                _ => {},
            }
            let ghost mi = self@;
            if is_clear {
                if 1 <= cleared && cleared <= 4 {
                    self.roll_line_clear(cleared, roll);
                }
            } else if let Some(p) = locked {
                let time: usize = match roll {
                    Roll::Normal => 300,
                    Roll::Invisible => 4,
                };
                self.set_opacity_timer(&p, time);
            } else if let Some(v) = shrinked {
                self.shrink_opacity(&v);
            }
            proof {
                assert(self@ == roll_event_effect(mi, evs[i as int], roll));
                assert(process_roll_events(mi, evs, i as int, roll) == process_roll_events(
                    self@,
                    evs,
                    i as int + 1,
                    roll,
                ));
            }
            i = i + 1;
        }
        proof {
            assert(process_roll_events(self@, evs, n as int, roll) == self@);
        }
    }

    /// One frame of the Master mode: the clock ticks and the status machine
    /// runs its arm - play, the pause before the roll, the roll itself, or
    /// nothing at the end.
    pub fn update(&mut self)
        requires
            old(self).wf(),
        ensures
            final(self).wf(),
            master_update_rel(old(self)@, old(self).inner@, final(self)@, final(self).inner@),
    {
        let ghost pre_m0 = self@;
        self.frames = sat_add(self.frames, 1);
        let ghost m0 = self@;
        proof {
            reveal(master_update_rel);
            assert(m0 == (MView { frames: sat_add_spec(pre_m0.frames, 1), ..pre_m0 }));
        }
        match self.status {
            Status::Game => {
                self.game_update();
            },
            Status::Clear => {
                if self.start_roll_timer.is_none() {
                    self.start_roll_timer = Some(150);
                }
                if let Some(timer) = self.start_roll_timer {
                    if timer == 0 {
                        self.inner.clear_board();
                        let all = self.is_all_cool();
                        self.status = Status::Roll(
                            if all {
                                Roll::Invisible
                            } else {
                                Roll::Normal
                            },
                        );
                    } else {
                        self.start_roll_timer = Some(timer - 1);
                    }
                }
            },
            Status::Roll(roll) => {
                self.roll_update(roll);
                if self.roll_timer.is_none() {
                    self.roll_timer = Some(3238);
                }
                if let Some(timer) = self.roll_timer {
                    if timer == 0 {
                        self.status = Status::End;
                        return;
                    }
                    self.roll_timer = Some(timer - 1);
                }
            },
            Status::End => {},
        }
    }

    // The capability set a collaborator drives the mode through, forwarded
    // to the wrapped game.

    pub fn get_board(&self) -> (r: Board)
        ensures
            r.grid() == self.inner.board.grid(),
            r.next_pieces@ == self.inner.board.next_pieces@,
            r.bag@ == self.inner.board.bag@,
            r.hold_piece == self.inner.board.hold_piece,
    {
        self.inner.get_board()
    }

    pub fn get_current_piece(&self) -> (r: Option<FallingPiece>)
        ensures
            r == self.inner.current_piece,
    {
        self.inner.get_current_piece()
    }

    pub fn get_locked_piece(&self) -> (r: Option<FallingPiece>)
        ensures
            r == self.inner.locked_piece,
    {
        self.inner.get_locked_piece()
    }

    pub fn get_hold(&self) -> (r: Option<Piece>)
        ensures
            r == self.inner.board.hold_piece,
    {
        self.inner.get_hold()
    }

    pub fn get_next(&self) -> (r: Piece)
        requires
            self.wf(),
        ensures
            r == self.inner.board.next_pieces@[0],
    {
        self.inner.get_next()
    }

    pub fn get_next_next(&self) -> (r: Piece)
        requires
            self.wf(),
        ensures
            r == self.inner.board.next_pieces@[1],
    {
        self.inner.get_next_next()
    }

    pub fn get_next_next_next(&self) -> (r: Piece)
        requires
            self.wf(),
        ensures
            r == self.inner.board.next_pieces@[2],
    {
        self.inner.get_next_next_next()
    }

    /// The wrapped game's sound queue, handed out for draining.
    pub fn get_sound_queue(&mut self) -> (r: &mut Vec<Sound>)
        ensures
            *r == old(self).inner.sound_queue,
            *final(self) == (TGM3Master { inner: final(self).inner, ..*old(self) }),
            final(self).inner == (Game { sound_queue: *final(r), ..old(self).inner }),
    {
        self.inner.get_sound_queue()
    }

    /// The wrapped game's event queue, handed out for draining.
    pub fn get_event_queue(&mut self) -> (r: &mut Vec<TetrisEvent>)
        ensures
            *r == old(self).inner.event_queue,
            *final(self) == (TGM3Master { inner: final(self).inner, ..*old(self) }),
            final(self).inner == (Game { event_queue: *final(r), ..old(self).inner }),
    {
        self.inner.get_event_queue()
    }

    pub fn set_input(&mut self, input: Input)
        ensures
            *final(self) == (TGM3Master { inner: final(self).inner, ..*old(self) }),
            final(self).inner == (Game { input, ..old(self).inner }),
    {
        self.inner.set_input(input)
    }
}

/// What one Master frame does, by status: play folds the wrapped game's
/// events into the overlay and re-arms the speed tables; Clear counts its
/// one-shot timer down to the board wipe and the roll; the roll scores and
/// fades; End rests. The clock always ticks.
#[verifier::opaque]
pub open spec fn master_update_rel(
    pre: MView,
    pre_inner: GameView,
    post: MView,
    post_inner: GameView,
) -> bool {
    let m0 = MView { frames: sat_add_spec(pre.frames, 1), ..pre };
    match pre.status {
        Status::Game => exists|r1: Seq<Piece>, r2: Seq<Piece>|
            is_full_bag(r1) && is_full_bag(r2) && ({
                let gv = game_step(pre_inner, r1, r2);
                let m1 = process_events(
                    (MView { inner_sounds: gv.sounds, ..m0 }),
                    gv.events,
                    0,
                );
                &&& post == m1
                &&& post_inner == with_settings(
                    (GameView { sounds: m1.inner_sounds, ..gv }),
                    m1.speed_level,
                )
            }),
        Status::Clear => {
            match m0.start_roll_timer {
                None => post == (MView { start_roll_timer: Some(149usize), ..m0 }) && post_inner
                    == pre_inner,
                Some(t) => {
                    if t == 0 {
                        post == (MView {
                            status: Status::Roll(
                                if all_cool(m0.cools) {
                                    Roll::Invisible
                                } else {
                                    Roll::Normal
                                },
                            ),
                            ..m0
                        }) && post_inner == (GameView {
                            grid: crate::board::empty_grid(),
                            ..pre_inner
                        })
                    } else {
                        post == (MView { start_roll_timer: Some((t - 1) as usize), ..m0 })
                            && post_inner == pre_inner
                    }
                },
            }
        },
        Status::Roll(roll) => exists|r1: Seq<Piece>, r2: Seq<Piece>|
            is_full_bag(r1) && is_full_bag(r2) && ({
                let gv = game_step(pre_inner, r1, r2);
                let md = MView {
                    opacity: decayed_opacity(m0.opacity, gv.grid),
                    inner_sounds: gv.sounds,
                    ..m0
                };
                let m1 = process_roll_events(md, gv.events, 0, roll);
                &&& post_inner == gv
                &&& (match m1.roll_timer {
                    None => post == (MView { roll_timer: Some(3237usize), ..m1 }),
                    Some(t) => {
                        if t == 0 {
                            post == (MView { status: Status::End, ..m1 })
                        } else {
                            post == (MView { roll_timer: Some((t - 1) as usize), ..m1 })
                        }
                    },
                })
            }),
        Status::End => post == m0 && post_inner == pre_inner,
    }
}


/// Law: a line clear of `n` rows raises the level by n for singles and
/// doubles, four for a triple and six for a tetris, clamped at 999.
pub proof fn lemma_line_clear_levels(m: MView, n: int)
    requires
        1 <= n <= 4,
        0 <= m.level <= 999,
    ensures
        ({
            let up: int = if n == 3 {
                4
            } else if n == 4 {
                6
            } else {
                n
            };
            line_clear_spec(m, n).level == if m.level + up <= 999 {
                m.level + up
            } else {
                999
            }
        }),
{
    reveal(line_clear_spec);
    reveal(level_up_spec);
    reveal(rank_up_spec);
}

/// Law: during the roll, line clears touch the roll points alone - the
/// grade, the grade points and the level never move.
pub proof fn lemma_roll_keeps_grade(m: MView, evs: Seq<EventV>, k: int, roll: Roll)
    ensures
        process_roll_events(m, evs, k, roll).grade == m.grade,
        process_roll_events(m, evs, k, roll).grade_points == m.grade_points,
        process_roll_events(m, evs, k, roll).level == m.level,
    decreases evs.len() - k,
{
    if 0 <= k < evs.len() {
        lemma_roll_keeps_grade(roll_event_effect(m, evs[k], roll), evs, k + 1, roll);
    }
}

} // verus!
