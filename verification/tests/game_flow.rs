//! The game aggregate: timing, movement, hold, lock resolution, leveling,
//! the bonus-choice flow, and the revive relic.

use jelly_blocks::bidule::{Bidule, BiduleType, BlockColor, Point};
use jelly_blocks::bonuses::{ActiveBonus, Bonus, BonusType, PERMANENT_DURATION_MICROS};
use jelly_blocks::game::{
    gravity_interval_exec, Game, GameState, InputSnapshot, GRAVITY_BASE_MICROS,
    GRAVITY_MIN_MICROS,
};
use jelly_blocks::grid::Cell;
use jelly_blocks::GRID_WIDTH;

fn playing_game() -> Game {
    let mut g = Game::new();
    g.state = GameState::Playing;
    g
}

fn fill_cell(g: &mut Game, x: usize, y: usize, color: BlockColor) {
    g.grid.cells[y][x] = Some(Cell {
        color,
        bubble_seed: 0,
    });
}

#[test]
fn new_game_starts_at_the_menu_with_a_full_queue() {
    let g = Game::new();
    assert_eq!(g.state, GameState::Start);
    assert_eq!(g.score, 0);
    assert_eq!(g.level, 1);
    assert_eq!(g.lines_cleared_total, 0);
    assert_eq!(g.next_pieces.len(), 3);
    assert!(g.hold_piece.is_none());
    assert!(g.can_hold);
    for p in &g.next_pieces {
        assert_eq!(p.pos, Point { x: 3, y: 0 });
        assert_eq!(p.rotation_state, 0);
    }
}

#[test]
fn confirming_the_first_menu_entry_starts_playing() {
    let mut g = Game::new();
    let mut input = InputSnapshot::none();
    input.confirm_pressed = true;
    let out = g.update(&input, 1000);
    assert!(out.is_none());
    assert_eq!(g.state, GameState::Playing);
}

#[test]
fn menu_navigation_wraps() {
    let mut g = Game::new();
    let mut down = InputSnapshot::none();
    down.menu_down_pressed = true;
    g.update(&down, 1000);
    assert_eq!(g.menu_selection, 1);
    g.update(&down, 1000);
    g.update(&down, 1000);
    assert_eq!(g.menu_selection, 0);
    let mut up = InputSnapshot::none();
    up.menu_up_pressed = true;
    g.update(&up, 1000);
    assert_eq!(g.menu_selection, 2);
}

#[test]
fn a_direction_change_moves_immediately() {
    let mut g = playing_game();
    let x0 = g.current_piece.pos.x;
    let mut left = InputSnapshot::none();
    left.left_held = true;
    g.update(&left, 1000);
    assert_eq!(g.current_piece.pos.x, x0 - 1);
    // the same held direction does not move again before the delay expires
    g.update(&left, 1000);
    assert_eq!(g.current_piece.pos.x, x0 - 1);
}

#[test]
fn held_direction_repeats_after_the_delay() {
    let mut g = playing_game();
    g.current_piece = Bidule::new(BiduleType::I);
    let x0 = g.current_piece.pos.x;
    let mut left = InputSnapshot::none();
    left.left_held = true;
    g.update(&left, 1000); // immediate step on the direction change
    assert_eq!(g.current_piece.pos.x, x0 - 1);
    g.update(&left, 200_000); // passes the 170 ms delay and one repeat
    assert_eq!(g.current_piece.pos.x, x0 - 2);
    g.update(&left, 60_000); // another auto-repeat step (repeat rate 50 ms)
    assert_eq!(g.current_piece.pos.x, x0 - 3);
}

#[test]
fn a_blocked_move_is_reverted() {
    let mut g = playing_game();
    g.current_piece = Bidule::new(BiduleType::I); // leftmost cell at column 3
    assert!(g.try_move_horizontal(-1));
    assert!(g.try_move_horizontal(-1));
    assert!(g.try_move_horizontal(-1));
    let pos = g.current_piece.pos;
    assert_eq!(pos.x, 0);
    assert!(!g.try_move_horizontal(-1));
    assert_eq!(g.current_piece.pos, pos);
}

#[test]
fn gravity_moves_the_piece_down_when_the_interval_expires() {
    let mut g = playing_game();
    let y0 = g.current_piece.pos.y;
    let input = InputSnapshot::none();
    let out = g.update(&input, 900_000); // level 1 interval is 800 ms
    assert!(out.is_none());
    assert_eq!(g.current_piece.pos.y, y0 + 1);
    // a short frame accumulates without moving
    let mut g2 = playing_game();
    g2.update(&input, 100_000);
    assert_eq!(g2.current_piece.pos.y, y0);
}

#[test]
fn soft_drop_uses_the_fast_interval() {
    let mut g = playing_game();
    let y0 = g.current_piece.pos.y;
    let mut input = InputSnapshot::none();
    input.soft_drop_held = true;
    g.update(&input, 60_000); // above the 50 ms soft-drop interval
    assert_eq!(g.current_piece.pos.y, y0 + 1);
}

#[test]
fn gravity_interval_shrinks_geometrically_and_clamps() {
    assert_eq!(gravity_interval_exec(1, 0, 0), GRAVITY_BASE_MICROS);
    assert_eq!(gravity_interval_exec(2, 0, 0), 680_000);
    assert_eq!(gravity_interval_exec(3, 0, 0), 578_000);
    assert_eq!(gravity_interval_exec(1000, 0, 0), GRAVITY_MIN_MICROS);
}

#[test]
fn slow_relics_stretch_the_interval_multiplicatively() {
    assert_eq!(gravity_interval_exec(1, 1, 0), 880_000);
    assert_eq!(gravity_interval_exec(1, 2, 0), 968_000);
    assert_eq!(gravity_interval_exec(1, 0, 1), 1_600_000);
    assert_eq!(gravity_interval_exec(1, 1, 1), 1_760_000);
}

#[test]
fn ghost_position_is_the_lowest_free_row() {
    let g = playing_game();
    let ghost = g.get_ghost_position();
    assert_eq!(ghost.x, g.current_piece.pos.x);
    // every fresh piece reaches the floor of the empty field; its deepest
    // offset row determines the resting position
    let max_off_y = g.current_piece.positions.iter().map(|p| p.y).max().unwrap();
    assert_eq!(ghost.y, 19 - max_off_y);
}

#[test]
fn hard_drop_locks_at_the_ghost_row() {
    let mut g = playing_game();
    // force a known piece so the landing cells are predictable
    g.current_piece = Bidule::new(BiduleType::O);
    let out = g.hard_drop();
    assert!(out.cleared_rows.is_empty());
    assert!(!out.game_over);
    assert!(g.grid.cells[19][4].is_some());
    assert!(g.grid.cells[19][5].is_some());
    assert!(g.grid.cells[18][4].is_some());
    assert!(g.can_hold);
    assert_eq!(g.next_pieces.len(), 3);
}

#[test]
fn holding_swaps_with_the_queue_and_works_once_per_piece() {
    // P7 scenario: holding with an empty slot swaps the current piece out and
    // draws from the queue; a second hold before any lock has no effect.
    let mut g = playing_game();
    let current_kind = g.current_piece.kind;
    let queued = g.next_pieces[0].kind;
    assert!(g.try_hold());
    assert_eq!(g.hold_piece.as_ref().unwrap().kind, current_kind);
    assert_eq!(g.current_piece.kind, queued);
    assert_eq!(g.next_pieces.len(), 3);
    assert!(!g.can_hold);
    let held_now = g.hold_piece.as_ref().unwrap().kind;
    let current_now = g.current_piece.kind;
    assert!(!g.try_hold());
    assert_eq!(g.hold_piece.as_ref().unwrap().kind, held_now);
    assert_eq!(g.current_piece.kind, current_now);
}

#[test]
fn holding_with_a_full_slot_swaps_the_two_pieces() {
    let mut g = playing_game();
    g.hold_piece = Some(Bidule::new(BiduleType::L));
    let current_kind = g.current_piece.kind;
    assert!(g.try_hold());
    assert_eq!(g.current_piece.kind, BiduleType::L);
    assert_eq!(g.hold_piece.as_ref().unwrap().kind, current_kind);
    assert_eq!(g.current_piece.pos, Point { x: 3, y: 0 });
}

#[test]
fn completing_a_tenth_line_levels_up_into_the_bonus_choice() {
    // P8 scenario: the total reaching a multiple of 10 raises the level by
    // exactly one and transitions to the bonus choice.
    let mut g = playing_game();
    g.lines_cleared_total = 9;
    g.level = 1; // level_for(9) == 1
    for x in 0..6 {
        fill_cell(&mut g, x, 19, BlockColor::Green);
    }
    let mut piece = Bidule::new(BiduleType::I);
    piece.pos = Point { x: 6, y: 18 }; // completes row 19 with columns 6..=9
    g.current_piece = piece;
    let out = g.lock_and_spawn();
    assert_eq!(out.cleared_rows, vec![19usize]);
    assert!(out.leveled_up);
    assert_eq!(g.lines_cleared_total, 10);
    assert_eq!(g.level, 2);
    assert_eq!(g.state, GameState::ChooseBonus);
    assert_eq!(g.bonus_options.len(), 3);
    // one cleared row at level 1 without relics awards 100 points
    assert_eq!(g.score, 100);
}

#[test]
fn scoring_table_scales_with_level_and_pickaxe() {
    let mut g = playing_game();
    g.lines_cleared_total = 20;
    g.level = 3;
    g.active_bonuses = vec![ActiveBonus {
        kind: BonusType::GoldenPickaxe,
        timer: PERMANENT_DURATION_MICROS,
    }];
    for y in 16..20 {
        for x in 0..6 {
            fill_cell(&mut g, x, y, BlockColor::Blue);
        }
    }
    let mut piece = Bidule::new(BiduleType::O);
    piece.pos = Point { x: 5, y: 14 };
    g.current_piece = piece;
    // nothing clears: the award is zero whatever the multipliers
    let out = g.lock_and_spawn();
    assert!(out.cleared_rows.is_empty());
    assert_eq!(g.score, 0);
}

#[test]
fn four_cleared_rows_award_the_full_table_entry() {
    let mut g = playing_game();
    for y in 16..20 {
        for x in 0..GRID_WIDTH - 4 {
            fill_cell(&mut g, x, y, BlockColor::Blue);
        }
        for x in GRID_WIDTH - 2..GRID_WIDTH {
            fill_cell(&mut g, x, y, BlockColor::Blue);
        }
    }
    // the I piece stands vertically after one rotation, filling column 6
    let mut piece = Bidule::new(BiduleType::I);
    piece.rotate(); // vertical line in local column 2
    piece.pos = Point { x: 4, y: 16 };
    g.current_piece = piece;
    for y in 16..20 {
        fill_cell(&mut g, 7, y, BlockColor::Blue);
    }
    let out = g.lock_and_spawn();
    assert_eq!(out.cleared_rows, vec![16usize, 17, 18, 19]);
    assert_eq!(g.score, 800);
    assert_eq!(g.lines_cleared_total, 4);
}

#[test]
fn spawn_collision_with_a_revive_relic_clears_the_grid() {
    // P9 scenario: a blocked spawn with an active revive relic clears the
    // grid, consumes exactly one relic instance, and keeps the game playing.
    let mut g = playing_game();
    g.active_bonuses = vec![ActiveBonus {
        kind: BonusType::LifeInsurance,
        timer: PERMANENT_DURATION_MICROS,
    }];
    for y in 0..4 {
        for x in 3..7 {
            fill_cell(&mut g, x, y, BlockColor::Red);
        }
    }
    let mut piece = Bidule::new(BiduleType::O);
    piece.pos = Point { x: 0, y: 17 };
    g.current_piece = piece;
    let out = g.lock_and_spawn();
    assert!(out.revived);
    assert!(!out.game_over);
    assert_eq!(g.state, GameState::Playing);
    assert!(g.active_bonuses.is_empty());
    for y in 0..20 {
        for x in 0..GRID_WIDTH {
            assert!(g.grid.cells[y][x].is_none());
        }
    }
}

#[test]
fn spawn_collision_without_the_relic_ends_the_game() {
    let mut g = playing_game();
    for y in 0..4 {
        for x in 3..7 {
            fill_cell(&mut g, x, y, BlockColor::Red);
        }
    }
    let mut piece = Bidule::new(BiduleType::O);
    piece.pos = Point { x: 0, y: 17 };
    g.current_piece = piece;
    let out = g.lock_and_spawn();
    assert!(out.game_over);
    assert!(!out.revived);
    assert_eq!(g.state, GameState::GameOver);
    // the blocking cells are still there
    assert!(g.grid.cells[0][3].is_some());
}

#[test]
fn lock_reports_adjacency_hints() {
    let mut g = playing_game();
    // a same-colored block right beside the landing spot of an O piece
    fill_cell(&mut g, 3, 19, BlockColor::Yellow);
    fill_cell(&mut g, 6, 19, BlockColor::Red);
    let mut piece = Bidule::new(BiduleType::O); // yellow, covers (4..=5, 18..=19)
    piece.pos = Point { x: 3, y: 18 };
    g.current_piece = piece;
    let out = g.lock_and_spawn();
    assert!(out.same_color_contact);
    assert!(out.diff_color_contact);
}

#[test]
fn choosing_a_relic_bonus_stacks_it() {
    let mut g = playing_game();
    g.state = GameState::ChooseBonus;
    g.bonus_options = Bonus::get_all();
    g.bonus_selection_idx = 0;
    let mut right = InputSnapshot::none();
    right.menu_right_pressed = true;
    g.update(&right, 1000);
    assert_eq!(g.bonus_selection_idx, 1);
    let mut down = InputSnapshot::none();
    down.menu_down_pressed = true;
    g.update(&down, 1000);
    assert_eq!(g.bonus_selection_idx, 4);
    // select the anchor relic (index 6) and confirm
    g.bonus_selection_idx = 6;
    let mut confirm = InputSnapshot::none();
    confirm.confirm_pressed = true;
    g.update(&confirm, 1000);
    assert_eq!(g.state, GameState::Playing);
    assert_eq!(g.active_bonuses.len(), 1);
    assert_eq!(g.active_bonuses[0].kind, BonusType::TimeAnchor);
}

#[test]
fn choosing_a_piece_bonus_queues_the_special_piece() {
    let mut g = playing_game();
    g.state = GameState::ChooseBonus;
    g.bonus_options = Bonus::get_all();
    g.bonus_selection_idx = 0; // the explosive piece
    let mut confirm = InputSnapshot::none();
    confirm.confirm_pressed = true;
    g.update(&confirm, 1000);
    assert_eq!(g.state, GameState::Playing);
    assert_eq!(g.next_pieces.len(), 4);
    assert_eq!(g.next_pieces[0].kind, BiduleType::Bomb);
}

#[test]
fn restart_from_game_over_returns_to_the_menu() {
    let mut g = playing_game();
    g.state = GameState::GameOver;
    let input = InputSnapshot::none();
    g.update(&input, 1000);
    assert_eq!(g.state, GameState::GameOver);
    let mut restart = InputSnapshot::none();
    restart.restart_pressed = true;
    g.update(&restart, 1000);
    assert_eq!(g.state, GameState::Start);
    assert_eq!(g.score, 0);
    assert_eq!(g.level, 1);
}

#[test]
fn lock_delay_forces_a_lock_after_the_grace_period() {
    let mut g = playing_game();
    g.current_piece = Bidule::new(BiduleType::O);
    g.current_piece.pos = Point { x: 3, y: 18 }; // resting on the floor
    let input = InputSnapshot::none();
    // the grace period is 500 ms; two 300 ms frames exceed it
    let first = g.update(&input, 300_000);
    assert!(first.is_none());
    let second = g.update(&input, 300_000);
    assert!(second.is_some());
    assert!(g.grid.cells[19][4].is_some());
}

#[test]
fn wall_kick_rejection_leaves_the_piece_unchanged() {
    let mut g = playing_game();
    let mut piece = Bidule::new(BiduleType::I);
    piece.rotate(); // vertical line in local column 2
    piece.pos = Point { x: -2, y: 5 }; // hugging the left wall
    g.current_piece = piece;
    let before_positions = g.current_piece.positions.clone();
    let rotated = g.try_rotate();
    // horizontal again would poke outside the wall at all three kick spots
    assert!(!rotated);
    assert_eq!(g.current_piece.positions, before_positions);
    assert_eq!(g.current_piece.pos, Point { x: -2, y: 5 });
}

#[test]
fn wall_kick_shifts_a_rotation_that_fits_one_column_over() {
    let mut g = playing_game();
    // a vertical I at the left wall: rotating to horizontal collides in
    // place, and the kick sequence must find a fitting spot or give up
    let mut piece = Bidule::new(BiduleType::I);
    piece.rotate();
    piece.pos = Point { x: -1, y: 5 };
    g.current_piece = piece;
    let rotated = g.try_rotate();
    // in place the row pokes out at column -1; the first kick (one column
    // right) fits it exactly against the wall
    assert!(rotated);
    assert_eq!(g.current_piece.pos, Point { x: 0, y: 5 });
    for p in &g.current_piece.positions {
        let x = g.current_piece.pos.x + p.x;
        assert!(x >= 0 && x < GRID_WIDTH as i32);
    }
}

#[test]
fn the_bag_deals_each_standard_kind_once_per_refill() {
    for _ in 0..10 {
        let g = Game::new();
        // the fresh game drew four pieces from one refill; together with what
        // is left in the bag they form the seven standard kinds, plus at most
        // one special kind
        let mut kinds: Vec<BiduleType> = vec![g.current_piece.kind];
        for p in &g.next_pieces {
            kinds.push(p.kind);
        }
        kinds.extend(g.bag.iter().copied());
        let standards = [
            BiduleType::I,
            BiduleType::O,
            BiduleType::T,
            BiduleType::S,
            BiduleType::Z,
            BiduleType::J,
            BiduleType::L,
        ];
        for k in standards {
            assert_eq!(kinds.iter().filter(|&&x| x == k).count(), 1, "{:?}", k);
        }
        let specials = kinds.len() - 7;
        assert!(specials <= 1);
    }
}
