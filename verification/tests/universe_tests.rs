use game_of_life::cell::Cell;
use game_of_life::universe::{cell_from_draw, Universe};

/// Coordinates of every Alive cell, row-major.
fn alive_coords(u: &Universe) -> Vec<(usize, usize)> {
    let width = u.width();
    let height = u.height();
    let cells = u.borrow_cells();
    let mut alive = Vec::new();
    for row in 0..height {
        for col in 0..width {
            if cells[row * width + col] == Cell::Alive {
                alive.push((row, col));
            }
        }
    }
    alive
}

fn all_dead(u: &Universe) -> bool {
    u.borrow_cells().iter().all(|c| *c == Cell::Dead)
}

#[test]
fn new_dead_grid_has_default_size_and_no_life() {
    let u = Universe::new(false);
    assert_eq!(u.width(), 64);
    assert_eq!(u.height(), 64);
    assert_eq!(u.borrow_cells().len(), 64 * 64);
    assert!(all_dead(&u));
}

#[test]
fn get_index_is_row_major() {
    let u = Universe::new(false);
    assert_eq!(u.get_index(0, 0), 0);
    assert_eq!(u.get_index(0, 63), 63);
    assert_eq!(u.get_index(1, 0), 64);
    assert_eq!(u.get_index(7, 5), 7 * 64 + 5);
}

#[test]
fn get_index_is_injective_over_the_grid() {
    let u = Universe::new(false);
    let mut seen = vec![false; 64 * 64];
    for row in 0..64 {
        for col in 0..64 {
            let i = u.get_index(row, col);
            assert!(!seen[i], "index {} hit twice", i);
            seen[i] = true;
        }
    }
}

#[test]
fn tick_on_all_dead_grid_stays_all_dead() {
    let mut u = Universe::new(false);
    u.tick();
    assert_eq!(u.borrow_cells().len(), 64 * 64);
    assert!(all_dead(&u));
}

#[test]
fn lone_cell_dies_of_underpopulation() {
    let mut u = Universe::new(false);
    u.toggle_cell(5, 5);
    assert_eq!(alive_coords(&u), vec![(5, 5)]);
    u.tick();
    assert!(all_dead(&u));
}

#[test]
fn block_of_four_is_a_still_life() {
    let mut u = Universe::new(false);
    u.set_cells(&[(1, 1), (1, 2), (2, 1), (2, 2)]);
    u.tick();
    assert_eq!(alive_coords(&u), vec![(1, 1), (1, 2), (2, 1), (2, 2)]);
}

#[test]
fn blinker_oscillates_with_period_two() {
    let mut u = Universe::new(false);
    u.set_width(5);
    u.set_height(5);
    u.set_cells(&[(1, 0), (1, 1), (1, 2)]);
    let start = u.borrow_cells().to_vec();
    u.tick();
    assert_eq!(alive_coords(&u), vec![(0, 1), (1, 1), (2, 1)]);
    u.tick();
    assert_eq!(alive_coords(&u), vec![(1, 0), (1, 1), (1, 2)]);
    assert_eq!(u.borrow_cells(), &start[..]);
}

#[test]
fn toggle_flips_exactly_one_cell() {
    let mut u = Universe::new(false);
    u.set_cells(&[(0, 0), (3, 7), (63, 63)]);
    let before = u.borrow_cells().to_vec();
    u.toggle_cell(3, 8);
    let after = u.borrow_cells();
    for row in 0..64 {
        for col in 0..64 {
            let i = row * 64 + col;
            if (row, col) == (3, 8) {
                assert_eq!(after[i], Cell::Alive);
                assert_eq!(before[i], Cell::Dead);
            } else {
                assert_eq!(after[i], before[i]);
            }
        }
    }
}

#[test]
fn toggle_twice_restores_the_grid() {
    let mut u = Universe::new(false);
    u.set_cells(&[(0, 0), (1, 2), (2, 1), (63, 0)]);
    let before = u.borrow_cells().to_vec();
    u.toggle_cell(0, 0);
    u.toggle_cell(0, 0);
    assert_eq!(u.borrow_cells(), &before[..]);
    u.toggle_cell(40, 41);
    u.toggle_cell(40, 41);
    assert_eq!(u.borrow_cells(), &before[..]);
}

#[test]
fn set_width_resets_to_all_dead_at_the_new_size() {
    let mut u = Universe::new(false);
    u.set_cells(&[(1, 1), (2, 2)]);
    u.set_width(10);
    assert_eq!(u.width(), 10);
    assert_eq!(u.height(), 64);
    assert_eq!(u.borrow_cells().len(), 10 * 64);
    assert!(all_dead(&u));
}

#[test]
fn set_height_resets_to_all_dead_at_the_new_size() {
    let mut u = Universe::new(false);
    u.set_cells(&[(1, 1), (2, 2)]);
    u.set_height(9);
    assert_eq!(u.width(), 64);
    assert_eq!(u.height(), 9);
    assert_eq!(u.borrow_cells().len(), 64 * 9);
    assert!(all_dead(&u));
}

#[test]
fn set_cells_sets_only_the_listed_cells_and_repeats_are_idempotent() {
    let mut u = Universe::new(false);
    u.set_cells(&[(4, 4), (4, 4), (0, 63)]);
    assert_eq!(alive_coords(&u), vec![(0, 63), (4, 4)]);
    u.set_cells(&[]);
    assert_eq!(alive_coords(&u), vec![(0, 63), (4, 4)]);
}

#[test]
fn set_cells_leaves_already_alive_cells_alive() {
    let mut u = Universe::new(false);
    u.set_cells(&[(2, 2)]);
    u.set_cells(&[(2, 2), (2, 3)]);
    assert_eq!(alive_coords(&u), vec![(2, 2), (2, 3)]);
}

#[test]
fn corner_counts_opposite_corner_as_diagonal_neighbor() {
    // On a 4-by-4 torus the cell at (0, 0) has Alive neighbors (3, 3) by
    // diagonal wraparound, (0, 1) and (1, 0): three in all, so it is born.
    // Without the wraparound it would see only two and stay Dead.
    let mut u = Universe::new(false);
    u.set_width(4);
    u.set_height(4);
    u.set_cells(&[(3, 3), (0, 1), (1, 0)]);
    u.tick();
    let cells = u.borrow_cells();
    assert_eq!(cells[0], Cell::Alive);
}

#[test]
fn cell_from_draw_is_alive_below_one_half() {
    let half_bits = 0.5f64.to_bits();
    assert_eq!(cell_from_draw(0), Cell::Alive);
    assert_eq!(cell_from_draw(0.25f64.to_bits()), Cell::Alive);
    assert_eq!(cell_from_draw(half_bits - 1), Cell::Alive);
    assert_eq!(cell_from_draw(half_bits), Cell::Dead);
    assert_eq!(cell_from_draw(0.75f64.to_bits()), Cell::Dead);
    assert_eq!(cell_from_draw(u64::MAX), Cell::Dead);
}

#[test]
fn toggle_turns_dead_to_alive_and_back() {
    let mut c = Cell::Dead;
    c.toggle();
    assert_eq!(c, Cell::Alive);
    c.toggle();
    assert_eq!(c, Cell::Dead);
}
