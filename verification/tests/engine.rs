use lifegrid::grid::cell_at;
use lifegrid::grid::my_count_adjacent_cells;
use lifegrid::grid::new_grid;
use lifegrid::grid::set_cell;
use lifegrid::sim::my_update_cells;

fn live_cells(height: usize, width: usize, cell: &Vec<Vec<i32>>) -> Vec<(usize, usize)> {
    let mut out = Vec::new();
    for y in 0..height {
        for x in 0..width {
            if cell_at(height, width, cell, y, x) {
                out.push((y, x));
            }
        }
    }
    out
}

#[test]
fn new_grid_is_all_dead() {
    let cell = new_grid(4, 6);
    assert_eq!(live_cells(4, 6, &cell), vec![]);
}

#[test]
fn set_cell_writes_one_cell() {
    let mut cell = new_grid(4, 6);
    set_cell(4, 6, &mut cell, 2, 5, true);
    assert_eq!(live_cells(4, 6, &cell), vec![(2, 5)]);
    set_cell(4, 6, &mut cell, 2, 5, false);
    assert_eq!(live_cells(4, 6, &cell), vec![]);
}

#[test]
fn neighbor_count_is_at_most_eight() {
    let mut cell = new_grid(5, 5);
    for y in 0..5 {
        for x in 0..5 {
            set_cell(5, 5, &mut cell, y, x, true);
        }
    }
    assert_eq!(my_count_adjacent_cells(5, 5, &cell, 2, 2), 8);
}

#[test]
fn neighbor_count_excludes_the_cell_itself() {
    let mut cell = new_grid(5, 5);
    set_cell(5, 5, &mut cell, 2, 2, true);
    assert_eq!(my_count_adjacent_cells(5, 5, &cell, 2, 2), 0);
}

#[test]
fn neighbor_count_has_hard_edges() {
    let mut cell = new_grid(3, 3);
    for y in 0..3 {
        for x in 0..3 {
            set_cell(3, 3, &mut cell, y, x, true);
        }
    }
    // A corner cell sees only the three in-bounds neighbors; nothing wraps.
    assert_eq!(my_count_adjacent_cells(3, 3, &cell, 0, 0), 3);
    assert_eq!(my_count_adjacent_cells(3, 3, &cell, 2, 2), 3);
    assert_eq!(my_count_adjacent_cells(3, 3, &cell, 0, 1), 5);
}

#[test]
fn neighbor_count_is_defined_outside_the_grid() {
    let mut cell = new_grid(3, 3);
    set_cell(3, 3, &mut cell, 0, 0, true);
    assert_eq!(my_count_adjacent_cells(3, 3, &cell, -1, -1), 1);
    assert_eq!(my_count_adjacent_cells(3, 3, &cell, 3, 3), 0);
    assert_eq!(my_count_adjacent_cells(3, 3, &cell, -1, 1), 1);
}

#[test]
fn step_keeps_an_all_dead_grid_dead() {
    let mut cell = new_grid(6, 7);
    my_update_cells(6, 7, &mut cell);
    assert_eq!(live_cells(6, 7, &cell), vec![]);
}

#[test]
fn dead_cell_with_three_neighbors_is_born() {
    let mut cell = new_grid(5, 5);
    set_cell(5, 5, &mut cell, 1, 1, true);
    set_cell(5, 5, &mut cell, 1, 3, true);
    set_cell(5, 5, &mut cell, 3, 2, true);
    assert_eq!(my_count_adjacent_cells(5, 5, &cell, 2, 2), 3);
    my_update_cells(5, 5, &mut cell);
    assert!(cell_at(5, 5, &cell, 2, 2));
}

#[test]
fn dead_cell_with_two_neighbors_stays_dead() {
    let mut cell = new_grid(5, 5);
    set_cell(5, 5, &mut cell, 1, 1, true);
    set_cell(5, 5, &mut cell, 1, 3, true);
    assert_eq!(my_count_adjacent_cells(5, 5, &cell, 2, 2), 2);
    my_update_cells(5, 5, &mut cell);
    assert!(!cell_at(5, 5, &cell, 2, 2));
}

#[test]
fn dead_cell_with_four_neighbors_stays_dead() {
    let mut cell = new_grid(5, 5);
    set_cell(5, 5, &mut cell, 1, 1, true);
    set_cell(5, 5, &mut cell, 1, 3, true);
    set_cell(5, 5, &mut cell, 3, 1, true);
    set_cell(5, 5, &mut cell, 3, 3, true);
    assert_eq!(my_count_adjacent_cells(5, 5, &cell, 2, 2), 4);
    my_update_cells(5, 5, &mut cell);
    assert!(!cell_at(5, 5, &cell, 2, 2));
}

#[test]
fn live_cell_with_no_neighbor_dies() {
    let mut cell = new_grid(5, 5);
    set_cell(5, 5, &mut cell, 2, 2, true);
    my_update_cells(5, 5, &mut cell);
    assert!(!cell_at(5, 5, &cell, 2, 2));
}

#[test]
fn live_cell_with_one_neighbor_dies() {
    let mut cell = new_grid(5, 5);
    set_cell(5, 5, &mut cell, 2, 2, true);
    set_cell(5, 5, &mut cell, 1, 1, true);
    my_update_cells(5, 5, &mut cell);
    assert!(!cell_at(5, 5, &cell, 2, 2));
}

#[test]
fn live_cell_with_two_neighbors_survives() {
    let mut cell = new_grid(5, 5);
    set_cell(5, 5, &mut cell, 2, 2, true);
    set_cell(5, 5, &mut cell, 1, 1, true);
    set_cell(5, 5, &mut cell, 3, 3, true);
    assert_eq!(my_count_adjacent_cells(5, 5, &cell, 2, 2), 2);
    my_update_cells(5, 5, &mut cell);
    assert!(cell_at(5, 5, &cell, 2, 2));
}

#[test]
fn live_cell_with_three_neighbors_survives() {
    let mut cell = new_grid(5, 5);
    set_cell(5, 5, &mut cell, 2, 2, true);
    set_cell(5, 5, &mut cell, 1, 1, true);
    set_cell(5, 5, &mut cell, 1, 3, true);
    set_cell(5, 5, &mut cell, 3, 2, true);
    assert_eq!(my_count_adjacent_cells(5, 5, &cell, 2, 2), 3);
    my_update_cells(5, 5, &mut cell);
    assert!(cell_at(5, 5, &cell, 2, 2));
}

#[test]
fn live_cell_with_four_neighbors_dies() {
    let mut cell = new_grid(5, 5);
    set_cell(5, 5, &mut cell, 2, 2, true);
    set_cell(5, 5, &mut cell, 1, 1, true);
    set_cell(5, 5, &mut cell, 1, 3, true);
    set_cell(5, 5, &mut cell, 3, 1, true);
    set_cell(5, 5, &mut cell, 3, 3, true);
    assert_eq!(my_count_adjacent_cells(5, 5, &cell, 2, 2), 4);
    my_update_cells(5, 5, &mut cell);
    assert!(!cell_at(5, 5, &cell, 2, 2));
}

#[test]
fn live_cell_with_eight_neighbors_dies() {
    let mut cell = new_grid(5, 5);
    for y in 1..4 {
        for x in 1..4 {
            set_cell(5, 5, &mut cell, y, x, true);
        }
    }
    my_update_cells(5, 5, &mut cell);
    assert!(!cell_at(5, 5, &cell, 2, 2));
}

#[test]
fn block_is_stable_over_many_steps() {
    let mut cell = new_grid(6, 6);
    set_cell(6, 6, &mut cell, 2, 2, true);
    set_cell(6, 6, &mut cell, 2, 3, true);
    set_cell(6, 6, &mut cell, 3, 2, true);
    set_cell(6, 6, &mut cell, 3, 3, true);
    let before = live_cells(6, 6, &cell);
    for _ in 0..5 {
        my_update_cells(6, 6, &mut cell);
        assert_eq!(live_cells(6, 6, &cell), before);
    }
}

#[test]
fn blinker_oscillates_with_period_two() {
    let mut cell = new_grid(7, 7);
    set_cell(7, 7, &mut cell, 3, 2, true);
    set_cell(7, 7, &mut cell, 3, 3, true);
    set_cell(7, 7, &mut cell, 3, 4, true);
    let horizontal = live_cells(7, 7, &cell);
    my_update_cells(7, 7, &mut cell);
    assert_eq!(live_cells(7, 7, &cell), vec![(2, 3), (3, 3), (4, 3)]);
    my_update_cells(7, 7, &mut cell);
    assert_eq!(live_cells(7, 7, &cell), horizontal);
}
