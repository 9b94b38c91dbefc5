//! Field-level behavior: collision, locking, line clearing, and the
//! kind-specific post-lock mechanics.

use jelly_blocks::bidule::{Bidule, BiduleType, BlockColor, Point};
use jelly_blocks::grid::{Cell, Grid};
use jelly_blocks::special_bidule::{resolve_jelly_physics, resolve_special_mechanics_on_lock};
use jelly_blocks::{GRID_HEIGHT, GRID_WIDTH};

fn cell_of(color: BlockColor, seed: usize) -> Option<Cell> {
    Some(Cell {
        color,
        bubble_seed: seed,
    })
}

#[test]
fn empty_grid_has_no_collisions_at_spawn() {
    let grid = Grid::new();
    for y in 0..GRID_HEIGHT {
        for x in 0..GRID_WIDTH {
            assert!(grid.cells[y][x].is_none());
        }
    }
    let piece = Bidule::new(BiduleType::T);
    assert!(!grid.is_collision(&piece));
}

#[test]
fn collision_at_walls_and_floor() {
    let grid = Grid::new();
    let mut piece = Bidule::new(BiduleType::I);
    piece.pos = Point { x: -1, y: 0 };
    assert!(grid.is_collision(&piece));
    piece.pos = Point { x: 7, y: 0 };
    assert!(grid.is_collision(&piece));
    piece.pos = Point { x: 3, y: 19 };
    assert!(grid.is_collision(&piece));
    // cells above the visible field never collide
    piece.pos = Point { x: 3, y: -2 };
    assert!(!grid.is_collision(&piece));
}

#[test]
fn collision_with_occupied_cell() {
    let mut grid = Grid::new();
    grid.cells[1][4] = cell_of(BlockColor::Green, 0);
    let piece = Bidule::new(BiduleType::I); // covers (3..=6, 1) at spawn
    assert!(grid.is_collision(&piece));
}

#[test]
fn lock_piece_writes_cells() {
    let mut grid = Grid::new();
    let mut piece = Bidule::new(BiduleType::O); // offsets (1,0),(2,0),(1,1),(2,1)
    piece.pos = Point { x: 0, y: 18 };
    grid.lock_piece(&piece);
    assert!(grid.cells[18][1].is_some());
    assert!(grid.cells[18][2].is_some());
    assert!(grid.cells[19][1].is_some());
    assert!(grid.cells[19][2].is_some());
    assert_eq!(grid.cells[18][1].unwrap().color, BlockColor::Yellow);
    assert!(grid.cells[18][0].is_none());
}

#[test]
fn four_pieces_complete_one_row_and_compact() {
    // P6 scenario: on a 10-wide, 20-tall empty grid, four pieces locked into
    // one complete row clear exactly that row and rows above drop by one.
    let mut grid = Grid::new();
    grid.cells[10][5] = cell_of(BlockColor::Green, 77);
    for px in [0i32, 2, 4, 6] {
        let mut p = Bidule::new(BiduleType::I);
        p.pos = Point { x: px, y: 18 };
        grid.lock_piece(&p);
    }
    for x in 0..GRID_WIDTH {
        assert!(grid.cells[19][x].is_some());
    }
    let cleared = grid.clear_lines();
    assert_eq!(cleared, vec![19usize]);
    // the marker moved down one row, the field still has 20 rows
    assert_eq!(grid.cells.len(), GRID_HEIGHT);
    assert!(grid.cells[10][5].is_none());
    assert_eq!(grid.cells[11][5].unwrap().bubble_seed, 77);
    for x in 0..GRID_WIDTH {
        assert!(grid.cells[19][x].is_none());
    }
}

#[test]
fn clear_lines_reports_rows_topmost_first() {
    let mut grid = Grid::new();
    for x in 0..GRID_WIDTH {
        grid.cells[17][x] = cell_of(BlockColor::Red, x);
        grid.cells[19][x] = cell_of(BlockColor::Blue, x);
    }
    grid.cells[18][0] = cell_of(BlockColor::Green, 0);
    let cleared = grid.clear_lines();
    assert_eq!(cleared, vec![17usize, 19usize]);
    // the partial row is kept and packed to the bottom
    assert!(grid.cells[19][0].is_some());
    assert_eq!(grid.cells[19][0].unwrap().color, BlockColor::Green);
    assert!(grid.cells[18][0].is_none());
}

#[test]
fn clear_lines_on_empty_grid_clears_nothing() {
    let mut grid = Grid::new();
    let cleared = grid.clear_lines();
    assert!(cleared.is_empty());
    for y in 0..GRID_HEIGHT {
        for x in 0..GRID_WIDTH {
            assert!(grid.cells[y][x].is_none());
        }
    }
}

#[test]
fn bomb_clears_a_one_cell_radius() {
    let mut grid = Grid::new();
    for y in 10..20 {
        for x in 0..GRID_WIDTH {
            grid.cells[y][x] = cell_of(BlockColor::Green, 0);
        }
    }
    let mut bomb = Bidule::new(BiduleType::Bomb); // diamond in a 3x3 box
    bomb.pos = Point { x: 3, y: 12 };
    // footprint cells: (4,12),(3,13),(4,13),(5,13),(4,14)
    let cells = [(4i32, 12i32), (3, 13), (4, 13), (5, 13), (4, 14)];
    resolve_special_mechanics_on_lock(&mut grid, &bomb);
    for y in 10..20usize {
        for x in 0..GRID_WIDTH {
            let in_blast = cells.iter().any(|&(cx, cy)| {
                (x as i32 - cx).abs() <= 1 && (y as i32 - cy).abs() <= 1
            });
            assert_eq!(
                grid.cells[y][x].is_none(),
                in_blast,
                "({x},{y}) blast membership"
            );
        }
    }
}

#[test]
fn laser_clears_touched_columns_full_height() {
    let mut grid = Grid::new();
    for y in 0..GRID_HEIGHT {
        grid.cells[y][2] = cell_of(BlockColor::Red, 0);
        grid.cells[y][3] = cell_of(BlockColor::Red, 0);
        grid.cells[y][5] = cell_of(BlockColor::Red, 0);
    }
    let mut laser = Bidule::new(BiduleType::Laser); // columns pos.x and pos.x+1
    laser.pos = Point { x: 2, y: 5 };
    resolve_special_mechanics_on_lock(&mut grid, &laser);
    for y in 0..GRID_HEIGHT {
        assert!(grid.cells[y][2].is_none());
        assert!(grid.cells[y][3].is_none());
        assert!(grid.cells[y][5].is_some());
    }
}

#[test]
fn drill_clears_at_or_below_its_lowest_cell_per_column() {
    let mut grid = Grid::new();
    for y in 0..GRID_HEIGHT {
        grid.cells[y][4] = cell_of(BlockColor::Blue, y);
    }
    let mut drill = Bidule::new(BiduleType::Drill);
    // offsets (0,0),(1,0),(2,0),(1,1),(1,2); at pos (3,10): column 4 has
    // cells at rows 10, 11, 12, so its lowest cell is at row 12
    drill.pos = Point { x: 3, y: 10 };
    resolve_special_mechanics_on_lock(&mut grid, &drill);
    for y in 0..12usize {
        assert!(grid.cells[y][4].is_some(), "row {y} above should stay");
    }
    for y in 12..GRID_HEIGHT {
        assert!(grid.cells[y][4].is_none(), "row {y} should be drilled");
    }
}

#[test]
fn anvil_compacts_below_and_drops_by_the_minimum_gap() {
    // P4 scenario: merging halves the stack under the anvil (odd cell out
    // kept) and the anvil drops by the minimum per-column gap, rigidly.
    let mut grid = Grid::new();
    for y in 16..20 {
        grid.cells[y][3] = cell_of(BlockColor::Green, y);
    }
    let mut anvil = Bidule::new(BiduleType::Anvil);
    anvil.pos = Point { x: 0, y: 5 };
    grid.lock_piece(&anvil);
    resolve_special_mechanics_on_lock(&mut grid, &anvil);
    // column 3: four cells merged into two, keeping the lower cell of each
    // pair, repacked at the bottom
    assert_eq!(grid.cells[18][3].unwrap().bubble_seed, 17);
    assert_eq!(grid.cells[19][3].unwrap().bubble_seed, 19);
    assert!(grid.cells[17][3].is_some()); // the anvil's own cell, dropped
    assert_eq!(grid.cells[17][3].unwrap().color, BlockColor::Steel);
    // gaps: columns 0 and 3 bottom at row 5 (gap 14 and 12), columns 1 and 2
    // bottom at row 7 (gap 12); minimum gap 12, so the top anvil row lands on
    // row 17 and the stem rows on 18 and 19
    for x in 0..4usize {
        assert_eq!(grid.cells[17][x].unwrap().color, BlockColor::Steel);
    }
    for x in [1usize, 2] {
        assert_eq!(grid.cells[18][x].unwrap().color, BlockColor::Steel);
        assert_eq!(grid.cells[19][x].unwrap().color, BlockColor::Steel);
    }
    assert!(grid.cells[5][0].is_none());
}

#[test]
fn anvil_with_zero_gap_moves_nothing() {
    let mut grid = Grid::new();
    let mut anvil = Bidule::new(BiduleType::Anvil);
    anvil.pos = Point { x: 0, y: 17 }; // stem rests on the floor: zero gap
    grid.lock_piece(&anvil);
    resolve_special_mechanics_on_lock(&mut grid, &anvil);
    assert_eq!(grid.cells[17][0].unwrap().color, BlockColor::Steel);
    assert_eq!(grid.cells[19][1].unwrap().color, BlockColor::Steel);
}

#[test]
fn liquid_falls_straight_down_into_free_cells() {
    let mut grid = Grid::new();
    grid.cells[0][5] = cell_of(BlockColor::Pink, 1);
    resolve_jelly_physics(&mut grid);
    assert!(grid.cells[0][5].is_none());
    assert_eq!(grid.cells[19][5].unwrap().bubble_seed, 1);
}

#[test]
fn settled_liquid_configuration_is_left_untouched() {
    // P5 scenario: re-running the settle pass on an already-settled field
    // produces no further moves.
    let mut grid = Grid::new();
    for x in 0..GRID_WIDTH {
        grid.cells[19][x] = cell_of(BlockColor::Pink, x);
        grid.cells[18][x] = cell_of(BlockColor::Pink, x + 100);
    }
    let before = grid.cells.clone();
    resolve_jelly_physics(&mut grid);
    assert_eq!(grid.cells, before);
}

#[test]
fn liquid_never_moves_other_colors() {
    let mut grid = Grid::new();
    grid.cells[5][2] = cell_of(BlockColor::Green, 9);
    grid.cells[4][2] = cell_of(BlockColor::Pink, 3);
    resolve_jelly_physics(&mut grid);
    // the green block floats where it was; the liquid slid off it and sank
    assert_eq!(grid.cells[5][2].unwrap().color, BlockColor::Green);
    let mut pink_count = 0;
    for y in 0..GRID_HEIGHT {
        for x in 0..GRID_WIDTH {
            if let Some(c) = grid.cells[y][x] {
                if c.color == BlockColor::Pink {
                    pink_count += 1;
                    assert_eq!(y, 19);
                    assert!(x == 1 || x == 3);
                }
            }
        }
    }
    assert_eq!(pink_count, 1);
}

#[test]
fn standard_kinds_leave_the_field_alone_on_lock() {
    let mut grid = Grid::new();
    grid.cells[12][7] = cell_of(BlockColor::Orange, 4);
    let mut piece = Bidule::new(BiduleType::T);
    piece.pos = Point { x: 0, y: 10 };
    resolve_special_mechanics_on_lock(&mut grid, &piece);
    assert_eq!(grid.cells[12][7].unwrap().bubble_seed, 4);
    assert!(grid.cells[10][1].is_none());
}

#[test]
fn liquid_does_not_tunnel_through_corners() {
    // a diagonal move needs both the destination column's below-cell and the
    // same-row cell free; a blocked same-row cell pins the liquid in place
    let mut grid = Grid::new();
    grid.cells[18][5] = cell_of(BlockColor::Pink, 1);
    grid.cells[19][5] = cell_of(BlockColor::Green, 0); // below: occupied
    grid.cells[18][4] = cell_of(BlockColor::Green, 0); // same row left: occupied
    grid.cells[18][6] = cell_of(BlockColor::Green, 0); // same row right: occupied
    resolve_jelly_physics(&mut grid);
    assert_eq!(grid.cells[18][5].unwrap().color, BlockColor::Pink);
    assert!(grid.cells[19][4].is_none());
    assert!(grid.cells[19][6].is_none());
}
