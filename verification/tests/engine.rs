use tetris::{Board, Cell, FallingPiece, Game, Input, Piece, PieceState, Rotation, Sound, TetrisEvent};

fn game_with_first(kind: Piece, gravity: u32, are: usize, line_are: usize, das: usize, lock_delay: usize, lcd: usize) -> Game {
    let mut seed = 0u64;
    loop {
        let g = Game::from_settings(gravity, are, line_are, das, lock_delay, lcd, seed);
        if g.get_current_piece().unwrap().piece_state.kind == kind {
            return g;
        }
        seed += 1;
    }
}

fn input_with(f: impl Fn(&mut Input)) -> Input {
    let mut i = Input::released();
    f(&mut i);
    i
}

#[test]
fn board_shape_and_queues() {
    let b = Board::new(7);
    assert_eq!(b.cells.len(), 40);
    for row in &b.cells {
        assert_eq!(row.len(), 10);
    }
    assert_eq!(b.next_pieces.len(), 7);
    assert_eq!(b.bag.len(), 7);
    // the bag is a permutation of the seven kinds
    let mut seen = [false; 7];
    for p in &b.bag {
        seen[*p as usize] = true;
    }
    assert!(seen.iter().all(|s| *s));
}

#[test]
fn queues_keep_shape_over_many_frames() {
    let mut g = Game::new(3);
    for t in 0..400 {
        g.set_input(input_with(|i| {
            i.left = t % 3 == 0;
            i.cw = t % 5 == 0;
            i.soft_drop = true;
        }));
        g.update();
        let b = g.get_board();
        assert_eq!(b.cells.len(), 40);
        assert_eq!(b.next_pieces.len(), 7);
        assert!(!b.bag.is_empty());
    }
}

#[test]
fn rotated_cells_are_four_distinct_points() {
    for kind in [Piece::I, Piece::O, Piece::T, Piece::L, Piece::J, Piece::S, Piece::Z] {
        for rot in [Rotation::North, Rotation::East, Rotation::South, Rotation::West] {
            let s = PieceState { kind, rotation: rot };
            let cells = s.get_cells();
            assert_eq!(cells.len(), 4);
            for i in 0..4 {
                for j in (i + 1)..4 {
                    assert_ne!(cells[i], cells[j]);
                }
            }
        }
    }
}

#[test]
fn t_cells_east() {
    let s = PieceState { kind: Piece::T, rotation: Rotation::East };
    let cells = s.get_cells();
    assert_eq!(cells, vec![(0, 1), (0, 0), (0, -1), (1, 0)]);
}

#[test]
fn rotation_reverts_when_every_kick_collides() {
    let mut b = Board::new(1);
    for y in 0..40 {
        for x in 0..10 {
            b.cells[y][x] = Some(Cell::Gray);
        }
    }
    let mut fp = FallingPiece {
        piece_state: PieceState { kind: Piece::T, rotation: Rotation::North },
        piece_position: (4, 21),
        previous_lock_y: 0,
    };
    let before = fp;
    assert!(!fp.cw(&b));
    assert_eq!(fp, before);
}

#[test]
fn cw_then_ccw_round_trip_without_kick() {
    let b = Board::new(2);
    let mut fp = FallingPiece {
        piece_state: PieceState { kind: Piece::T, rotation: Rotation::North },
        piece_position: (4, 21),
        previous_lock_y: 0,
    };
    let before = fp;
    assert!(fp.cw(&b));
    assert_eq!(fp.piece_position, (4, 21));
    assert!(fp.ccw(&b));
    assert_eq!(fp, before);
}

#[test]
fn i_rotation_at_the_right_wall_kicks() {
    let b = Board::new(2);
    let mut fp = FallingPiece {
        piece_state: PieceState { kind: Piece::I, rotation: Rotation::East },
        piece_position: (9, 25),
        previous_lock_y: 0,
    };
    // vertical I hugging the right wall still rotates: a kick moves the
    // pivot off the wall
    assert!(fp.cw(&b));
    assert_eq!(fp.piece_state.rotation, Rotation::South);
    assert_eq!(fp.piece_position, (8, 26));
}

#[test]
fn spawned_t_rotates_on_frame_zero_without_kick() {
    let mut g = game_with_first(Piece::T, 4, 10, 6, 8, 18, 6);
    g.set_input(input_with(|i| i.cw = true));
    g.update();
    let cur = g.get_current_piece().unwrap();
    assert_eq!(cur.piece_state.rotation, Rotation::East);
    assert_eq!(cur.piece_position, (4, 21));
}

#[test]
fn i_piece_sinks_on_gravity_schedule() {
    // gravity 4/256: one row every 64 frames; row 38 is reached exactly
    // when 18 whole cells have accrued
    let mut g = game_with_first(Piece::I, 4, 10, 6, 8, 18, 6);
    assert_eq!(g.get_current_piece().unwrap().piece_position, (4, 20));
    for _ in 0..1151 {
        g.update();
    }
    assert_eq!(g.get_current_piece().unwrap().piece_position.1, 37);
    g.update();
    assert_eq!(g.get_current_piece().unwrap().piece_position.1, 38);
}

#[test]
fn hard_drop_locks_once_and_needs_an_edge() {
    let mut g = game_with_first(Piece::T, 4, 30, 30, 8, 18, 6);
    g.set_input(input_with(|i| i.hard_drop = true));
    g.update();
    let locks: Vec<_> = g
        .get_event_queue()
        .iter()
        .filter(|e| matches!(e, TetrisEvent::PieceLocked(_)))
        .collect();
    assert_eq!(locks.len(), 1);
    assert!(g.get_current_piece().is_none());
    // the one-frame lock flag is set now and cleared at the next tick
    assert!(g.get_locked_piece().is_some());
    g.update();
    assert!(g.get_locked_piece().is_none());
    // key still held: no second lock, no new piece consumed
    for _ in 0..9 {
        g.update();
    }
    let locks: Vec<_> = g
        .get_event_queue()
        .iter()
        .filter(|e| matches!(e, TetrisEvent::PieceLocked(_)))
        .collect();
    assert_eq!(locks.len(), 1);
}

#[test]
fn blocked_spawn_is_grounded_and_locks_within_lock_delay() {
    let mut g = game_with_first(Piece::T, 4, 30, 30, 8, 18, 6);
    // nine cells: a fully occupied row would itself clear as a line
    for x in 0..9 {
        g.board.cells[22][x] = Some(Cell::Gray);
    }
    for _ in 0..18 {
        assert!(g.get_current_piece().is_some());
        g.set_input(Input::released());
        g.update();
    }
    assert!(g.get_current_piece().is_none());
    let lock = g
        .get_event_queue()
        .iter()
        .find_map(|e| match e {
            TetrisEvent::PieceLocked(p) => Some(*p),
            _ => None,
        })
        .unwrap();
    assert_eq!(lock.piece_position.1, 21);
}

#[test]
fn line_clear_spans_hidden_and_visible_rows() {
    let mut b = Board::new(5);
    for x in 0..10 {
        b.cells[20][x] = Some(Cell::Red);
        b.cells[21][x] = Some(Cell::Blue);
    }
    b.cells[39][0] = Some(Cell::Gray);
    assert_eq!(b.line_clear(), Some(2));
    assert!(b.cells[20][0].is_none());
    assert!(b.cells[21][5].is_none());
    assert!(b.cells[39][0].is_some());
}

#[test]
fn shrink_preserves_nonempty_rows() {
    let mut b = Board::new(5);
    b.cells[30][3] = Some(Cell::Red);
    b.cells[35][7] = Some(Cell::Green);
    let lines = b.line_shrink();
    assert_eq!(lines.len(), 38);
    assert_eq!(b.cells.len(), 40);
    assert_eq!(b.cells[38][3], Some(Cell::Red));
    assert_eq!(b.cells[39][7], Some(Cell::Green));
}

#[test]
fn vertical_i_at_wall_completes_the_bottom_row() {
    // nine stacked cells across the bottom row, the leftmost column open; a
    // vertical I dropped down that column completes and clears the row
    let mut g = game_with_first(Piece::I, 4, 30, 30, 1, 18, 6);
    for x in 1..10 {
        g.board.cells[39][x] = Some(Cell::Gray);
    }
    g.set_input(input_with(|i| i.cw = true));
    g.update();
    assert_eq!(g.get_current_piece().unwrap().piece_state.rotation, Rotation::East);
    for _ in 0..8 {
        g.set_input(input_with(|i| i.left = true));
        g.update();
    }
    assert_eq!(g.get_current_piece().unwrap().piece_position.0, 0);
    g.set_input(input_with(|i| i.hard_drop = true));
    g.update();
    let events = g.get_event_queue().clone();
    let lock = events
        .iter()
        .find_map(|e| match e {
            TetrisEvent::PieceLocked(p) => Some(*p),
            _ => None,
        })
        .unwrap();
    assert_eq!(lock.piece_position.0, 0);
    assert!(events.contains(&TetrisEvent::LineCleared(1)));
}

#[test]
fn double_clear_runs_the_full_delay_pipeline() {
    let mut g = game_with_first(Piece::O, 4, 10, 6, 8, 18, 6);
    for x in 0..10 {
        if x != 4 && x != 5 {
            g.board.cells[38][x] = Some(Cell::Gray);
            g.board.cells[39][x] = Some(Cell::Gray);
        }
    }
    g.set_input(input_with(|i| i.hard_drop = true));
    g.update();
    let events = g.get_event_queue().clone();
    assert!(events.contains(&TetrisEvent::LineCleared(2)));
    assert!(g.get_sound_queue().contains(&Sound::Erase));
    g.get_event_queue().clear();
    g.get_sound_queue().clear();
    g.set_input(Input::released());
    // the collapse lands when the line-clear pause has elapsed
    for _ in 0..6 {
        assert!(g.get_event_queue().is_empty());
        g.update();
    }
    let events = g.get_event_queue().clone();
    // the collapse lists every empty row; the two cleared ones are among
    // them
    let shrinked = events
        .iter()
        .find_map(|e| match e {
            TetrisEvent::LineShrinked(rows) => Some(rows.clone()),
            _ => None,
        })
        .unwrap();
    assert!(shrinked.contains(&38));
    assert!(shrinked.contains(&39));
    assert!(g.get_sound_queue().contains(&Sound::Fall));
    g.get_event_queue().clear();
    g.get_sound_queue().clear();
    // and the next piece spawns when the entry delay has elapsed
    for _ in 0..6 {
        assert!(g.get_current_piece().is_none());
        g.update();
    }
    assert!(g.get_current_piece().is_some());
}
