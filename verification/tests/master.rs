use tetris::{Roll, Status, TGM3Event, TGM3Master, TGM3Sound};

#[test]
fn fresh_master_uses_the_level_zero_tables() {
    let m = TGM3Master::new(11);
    assert_eq!(m.get_level(), 0);
    assert!(matches!(m.get_status(), Status::Game));
    assert_eq!(m.inner.gravity, 4);
    assert_eq!(m.inner.are, 27);
    assert_eq!(m.inner.line_are, 27);
    assert_eq!(m.inner.das, 15);
    assert_eq!(m.inner.lock_delay, 30);
    assert_eq!(m.inner.line_clear_lock, 40);
}

#[test]
fn level_awards_follow_the_clear_size() {
    let mut m = TGM3Master::new(1);
    m.set_level(10);
    m.game_line_clear(1);
    assert_eq!(m.get_level(), 11);
    m.game_line_clear(2);
    assert_eq!(m.get_level(), 13);
    m.game_line_clear(3);
    assert_eq!(m.get_level(), 17);
    m.game_line_clear(4);
    assert_eq!(m.get_level(), 23);
}

#[test]
fn grade_points_use_the_level_multiplier() {
    let mut m = TGM3Master::new(1);
    m.set_level(500);
    // at grade 0 a triple is worth 40, and level 500 gives multiplier 3
    m.game_line_clear(3);
    assert_eq!(m.grade, 1);
    assert_eq!(m.grade_points, 0);
}

#[test]
fn cool_line_and_cool_are_judged_at_seventy_and_eighty() {
    let mut m = TGM3Master::new(1);
    m.set_level(69);
    m.game_line_clear(2);
    assert_eq!(m.get_level(), 71);
    assert!(m.cool_line_section_times[0].is_some());
    m.set_level(79);
    m.game_line_clear(3);
    assert_eq!(m.get_level(), 83);
    assert_eq!(m.cools[0], Some(true));
    assert!(m.tgm3_events.contains(&TGM3Event::GotCool));
    assert!(m.tgm3_sounds.contains(&TGM3Sound::Cool));
}

#[test]
fn tetris_at_the_top_clears_the_game_and_rolls_to_the_end() {
    let mut m = TGM3Master::new(1);
    m.set_level(995);
    m.game_line_clear(4);
    assert_eq!(m.get_level(), 999);
    assert!(matches!(m.get_status(), Status::Clear));
    assert!(m.tgm3_events.contains(&TGM3Event::StatusChange(Status::Clear)));
    assert!(m.tgm3_sounds.contains(&TGM3Sound::GameClear));
    assert!(m.section_times[8].is_some());
    assert_eq!(m.regrets[8], Some(false));
    // the one-shot pause runs down, the board empties, the roll begins
    for _ in 0..151 {
        m.get_event_queue().clear();
        m.get_sound_queue().clear();
        m.update();
    }
    assert!(matches!(m.get_status(), Status::Roll(Roll::Normal)));
    let board = m.get_board();
    for row in &board.cells {
        for c in row {
            assert!(c.is_none());
        }
    }
    // the roll runs its fixed length and ends; grade logic stays frozen
    let grade_before = m.grade;
    let points_before = m.grade_points;
    for _ in 0..3239 {
        m.get_event_queue().clear();
        m.get_sound_queue().clear();
        m.update();
    }
    assert!(matches!(m.get_status(), Status::End));
    assert_eq!(m.grade, grade_before);
    assert_eq!(m.grade_points, points_before);
}

#[test]
fn speed_level_outruns_the_level_on_a_cool() {
    let mut m = TGM3Master::new(1);
    m.set_level(69);
    m.game_line_clear(2);
    m.set_level(79);
    m.game_line_clear(3);
    assert_eq!(m.cools[0], Some(true));
    m.set_level(97);
    m.game_line_clear(3);
    assert_eq!(m.get_level(), 101);
    // the section closed without a regret, so the earned cool adds a
    // hundred speed levels on top of the award
    assert_eq!(m.speed_level, 97 + 4 + 100);
    assert!(m.speed_level > m.get_level());
}

#[test]
fn aggregate_grade_combines_cools_roll_points_and_regrets() {
    let mut m = TGM3Master::new(1);
    m.grade = 31;
    m.roll_points = 250;
    m.cools[0] = Some(true);
    m.cools[1] = Some(true);
    m.cools[2] = Some(false);
    m.regrets[0] = Some(true);
    // 2 cools + 2 hundreds of roll points + rank 17 for grade 31, one back
    assert_eq!(m.get_aggregate_grade(), 2 + 2 + 17 - 1);
}

#[test]
fn master_frame_advances_the_wrapped_game() {
    let mut m = TGM3Master::new(9);
    let before = m.get_current_piece().unwrap();
    for _ in 0..64 {
        m.get_event_queue().clear();
        m.get_sound_queue().clear();
        m.update();
    }
    let after = m.get_current_piece().unwrap();
    assert_eq!(after.piece_state, before.piece_state);
    assert_eq!(after.piece_position.1, before.piece_position.1 + 1);
}
