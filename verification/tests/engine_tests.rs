use sokoban::direction::Direction;
use sokoban::game::{Game, MoveOutcome};
use sokoban::level::{Cell, SokobanError};

fn rows(strs: &[&str]) -> Vec<String> {
    strs.iter().map(|s| s.to_string()).collect()
}

fn loaded(strs: &[&str]) -> Game {
    let mut g = Game::new();
    g.load_level(rows(strs)).unwrap();
    g
}

#[test]
fn load_level_scans_player_and_boxes() {
    let g = loaded(&["#######", "#~....#", "#.$...#", "#.@...#", "#######"]);
    assert_eq!(g.player_pos, (3, 2));
    assert_eq!(g.boxes_total, 1);
    assert_eq!(g.boxes_on_target, 0);
    assert_eq!(g.moves, 0);
    assert_eq!(g.level.width * g.level.height, g.level.data.len());
}

#[test]
fn load_level_counts_boxes_on_target() {
    let g = loaded(&["#####", "#@$*#", "#.~.#", "#####"]);
    assert_eq!(g.boxes_total, 2);
    assert_eq!(g.boxes_on_target, 1);
}

#[test]
fn load_level_rejects_ragged_rows_and_keeps_the_old_level() {
    let mut g = loaded(&["###", "#@#", "###"]);
    let r = g.load_level(rows(&["####", "#@#", "####"]));
    assert_eq!(r, Err(SokobanError::MalformedLevel));
    // the previous level is intact
    assert_eq!(g.player_pos, (1, 1));
    assert_eq!(g.level.width, 3);
    assert_eq!(g.level.height, 3);
}

#[test]
fn load_level_rejects_a_level_without_a_player() {
    let mut g = Game::new();
    let r = g.load_level(rows(&["###", "#.#", "###"]));
    assert_eq!(r, Err(SokobanError::PlayerNotFound));
}

#[test]
fn load_level_rejects_zero_rows_for_want_of_a_player() {
    let mut g = Game::new();
    assert_eq!(g.load_level(Vec::new()), Err(SokobanError::PlayerNotFound));
}

#[test]
fn plain_step_moves_the_player() {
    // the far-off box keeps the level uncompleted throughout
    let mut g = loaded(&["######", "#@.~$#", "######"]);
    let out = g.make_move(Direction::Right);
    assert_eq!(out, MoveOutcome { moved: true, level_complete: false });
    assert_eq!(g.player_pos, (1, 2));
    assert_eq!(g.level.get_cell((1, 2)), Some(Cell::Player));
    assert_eq!(g.level.get_cell((1, 1)), Some(Cell::Floor));
    assert_eq!(g.moves, 1);
    // stepping onto a target marks the player accordingly
    let out = g.make_move(Direction::Right);
    assert_eq!(out, MoveOutcome { moved: true, level_complete: false });
    assert_eq!(g.level.get_cell((1, 3)), Some(Cell::PlayerOnTarget));
    assert_eq!(g.level.get_cell((1, 2)), Some(Cell::Floor));
    // and stepping off it restores the bare target
    let out = g.make_move(Direction::Left);
    assert!(out.moved);
    assert_eq!(g.level.get_cell((1, 3)), Some(Cell::Target));
    assert_eq!(g.level.get_cell((1, 2)), Some(Cell::Player));
    assert_eq!(g.moves, 3);
}

#[test]
fn scenario_push_onto_floor() {
    // the player below the box pushes it one cell up, onto plain floor
    let mut g = loaded(&["#######", "#~....#", "#.$...#", "#.@...#", "#######"]);
    assert_eq!(g.player_pos, (3, 2));
    assert_eq!(g.boxes_total, 1);
    assert_eq!(g.boxes_on_target, 0);
    let out = g.make_move(Direction::Up);
    assert_eq!(out, MoveOutcome { moved: true, level_complete: false });
    assert_eq!(g.level.get_cell((1, 2)), Some(Cell::Box));
    assert_eq!(g.level.get_cell((2, 2)), Some(Cell::Player));
    assert_eq!(g.level.get_cell((3, 2)), Some(Cell::Floor));
    assert_eq!(g.player_pos, (2, 2));
    assert_eq!(g.boxes_on_target, 0);
    assert_eq!(g.moves, 1);
}

#[test]
fn scenario_blocked_push_is_a_noop() {
    // continuing: the box ahead now has a wall behind it, so pushing again
    // changes nothing
    let mut g = loaded(&["#######", "#~....#", "#.$...#", "#.@...#", "#######"]);
    g.make_move(Direction::Up);
    let snapshot_level = g.level.clone();
    let snapshot_pos = g.player_pos;
    let out = g.make_move(Direction::Up);
    assert_eq!(out, MoveOutcome { moved: false, level_complete: false });
    assert_eq!(g.level, snapshot_level);
    assert_eq!(g.player_pos, snapshot_pos);
    assert_eq!(g.boxes_total, 1);
    assert_eq!(g.boxes_on_target, 0);
    assert_eq!(g.moves, 1);
}

#[test]
fn wall_move_is_byte_for_byte_noop() {
    let mut g = loaded(&["#####", "#.@~#", "#.$.#", "#####"]);
    let snapshot_level = g.level.clone();
    let snapshot_pos = g.player_pos;
    let snapshot_counts = (g.boxes_total, g.boxes_on_target);
    let snapshot_moves = g.moves;
    let out = g.make_move(Direction::Up);
    assert_eq!(out, MoveOutcome { moved: false, level_complete: false });
    assert_eq!(g.level, snapshot_level);
    assert_eq!(g.player_pos, snapshot_pos);
    assert_eq!((g.boxes_total, g.boxes_on_target), snapshot_counts);
    assert_eq!(g.moves, snapshot_moves);
}

#[test]
fn background_blocks_like_a_wall() {
    let mut g = loaded(&[",,,,", ",@.,", ",,,,"]);
    let out = g.make_move(Direction::Up);
    assert!(!out.moved);
    let out = g.make_move(Direction::Left);
    assert!(!out.moved);
    let out = g.make_move(Direction::Right);
    assert!(out.moved);
    assert_eq!(g.moves, 1);
}

#[test]
fn moving_off_the_grid_is_a_silent_noop() {
    let mut g = loaded(&["@.", ".."]);
    let out = g.make_move(Direction::Up);
    assert_eq!(out, MoveOutcome { moved: false, level_complete: false });
    let out = g.make_move(Direction::Left);
    assert_eq!(out, MoveOutcome { moved: false, level_complete: false });
    assert_eq!(g.player_pos, (0, 0));
    assert_eq!(g.moves, 0);
}

#[test]
fn push_onto_target_wins_on_that_exact_move() {
    let mut g = loaded(&["#####", "#~$@#", "#####"]);
    assert_eq!(g.boxes_total, 1);
    assert_eq!(g.boxes_on_target, 0);
    assert!(!g.check_win());
    let out = g.make_move(Direction::Left);
    assert_eq!(out, MoveOutcome { moved: true, level_complete: true });
    assert_eq!(g.boxes_on_target, 1);
    assert_eq!(g.boxes_total, 1);
    assert!(g.check_win());
    assert_eq!(g.level.get_cell((1, 1)), Some(Cell::BoxOnTarget));
    assert_eq!(g.level.get_cell((1, 2)), Some(Cell::Player));
}

#[test]
fn plain_steps_do_not_signal_completion_early() {
    let mut g = loaded(&["######", "#~.$@#", "######"]);
    // walking without reaching the box never signals completion
    let out = g.make_move(Direction::Right);
    assert!(!out.moved);
    assert!(!out.level_complete);
    let out = g.make_move(Direction::Left);
    assert!(out.moved);
    assert!(!out.level_complete);
}

#[test]
fn push_off_a_target_decrements_the_counter() {
    let mut g = loaded(&["#####", "#@*.#", "#####"]);
    assert_eq!(g.boxes_total, 1);
    assert_eq!(g.boxes_on_target, 1);
    let out = g.make_move(Direction::Right);
    assert!(out.moved);
    assert!(!out.level_complete);
    assert_eq!(g.boxes_on_target, 0);
    assert_eq!(g.level.get_cell((1, 2)), Some(Cell::PlayerOnTarget));
    assert_eq!(g.level.get_cell((1, 3)), Some(Cell::Box));
}

#[test]
fn push_from_target_to_target_keeps_the_counter() {
    let mut g = loaded(&["#####", "#@*~#", "#####"]);
    assert_eq!(g.boxes_on_target, 1);
    let out = g.make_move(Direction::Right);
    assert!(out.moved);
    // leaving one target and entering another nets to no change
    assert_eq!(g.boxes_on_target, 1);
    assert!(out.level_complete);
    assert_eq!(g.level.get_cell((1, 3)), Some(Cell::BoxOnTarget));
    assert_eq!(g.level.get_cell((1, 2)), Some(Cell::PlayerOnTarget));
}

#[test]
fn push_round_trip_restores_box_and_counters() {
    // push the box onto the target, walk around it, push it back off:
    // box cell and both counters return to their original values
    let mut g = loaded(&["#####", "#...#", "#.~.#", "#.$.#", "#.@.#", "#####"]);
    assert_eq!(g.boxes_total, 1);
    assert_eq!(g.boxes_on_target, 0);
    let out = g.make_move(Direction::Up);
    assert_eq!(out, MoveOutcome { moved: true, level_complete: true });
    assert_eq!(g.boxes_on_target, 1);
    assert_eq!(g.level.get_cell((2, 2)), Some(Cell::BoxOnTarget));
    // walk around the box to its far side
    assert!(g.make_move(Direction::Left).moved);
    assert!(g.make_move(Direction::Up).moved);
    assert!(g.make_move(Direction::Up).moved);
    assert!(g.make_move(Direction::Right).moved);
    assert_eq!(g.player_pos, (1, 2));
    // push it back
    let out = g.make_move(Direction::Down);
    assert!(out.moved);
    assert!(!out.level_complete);
    assert_eq!(g.level.get_cell((3, 2)), Some(Cell::Box));
    assert_eq!(g.level.get_cell((2, 2)), Some(Cell::PlayerOnTarget));
    assert_eq!(g.boxes_total, 1);
    assert_eq!(g.boxes_on_target, 0);
    assert_eq!(g.moves, 6);
}

#[test]
fn counters_stay_in_range_over_a_whole_playthrough() {
    let mut g = loaded(&["######", "#~~..#", "#$$..#", "#@...#", "######"]);
    let script = [
        Direction::Up,
        Direction::Right,
        Direction::Up,
        Direction::Left,
        Direction::Down,
        Direction::Left,
        Direction::Up,
    ];
    for d in script {
        g.make_move(d);
        assert!(g.boxes_on_target <= g.boxes_total);
        assert_eq!(g.boxes_total, 2);
    }
}

#[test]
fn zero_box_level_is_trivially_won() {
    let mut g = loaded(&["###", "#@#", "#.#", "###"]);
    assert_eq!(g.boxes_total, 0);
    assert!(g.check_win());
    let out = g.make_move(Direction::Down);
    assert!(out.moved);
    assert!(out.level_complete);
}

#[test]
fn a_box_blocks_another_box() {
    let mut g = loaded(&["######", "#@$$.#", "######"]);
    let out = g.make_move(Direction::Right);
    assert_eq!(out, MoveOutcome { moved: false, level_complete: false });
    assert_eq!(g.player_pos, (1, 1));
    assert_eq!(g.moves, 0);
}
