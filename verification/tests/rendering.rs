use lifegrid::grid::new_grid;
use lifegrid::grid::set_cell;
use lifegrid::render::my_print_cells;

#[test]
fn layout_is_header_border_rows_border() {
    let cell = new_grid(2, 3);
    let out = my_print_cells(0, 2, 3, &cell);
    assert_eq!(out.len(), 5);
    assert_eq!(out[0], b"generation = 0".to_vec());
    assert_eq!(out[1], b"+---+".to_vec());
    assert_eq!(out[2], b"|   |".to_vec());
    assert_eq!(out[3], b"|   |".to_vec());
    assert_eq!(out[4], b"+---+".to_vec());
}

#[test]
fn live_cells_are_marked_with_the_highlight_sequence() {
    let mut cell = new_grid(1, 3);
    set_cell(1, 3, &mut cell, 0, 1, true);
    let out = my_print_cells(7, 1, 3, &cell);
    assert_eq!(out[0], b"generation = 7".to_vec());
    assert_eq!(out[2], b"| \x1b[31m#\x1b[0m |".to_vec());
}

#[test]
fn generation_numbers_render_in_decimal() {
    let cell = new_grid(1, 1);
    assert_eq!(my_print_cells(1234, 1, 1, &cell)[0], b"generation = 1234".to_vec());
    assert_eq!(my_print_cells(-5, 1, 1, &cell)[0], b"generation = -5".to_vec());
    assert_eq!(my_print_cells(10, 1, 1, &cell)[0], b"generation = 10".to_vec());
    assert_eq!(
        my_print_cells(i32::MIN, 1, 1, &cell)[0],
        b"generation = -2147483648".to_vec()
    );
    assert_eq!(
        my_print_cells(i32::MAX, 1, 1, &cell)[0],
        b"generation = 2147483647".to_vec()
    );
}

#[test]
fn zero_width_grid_renders_empty_rows() {
    let cell = new_grid(1, 0);
    let out = my_print_cells(0, 1, 0, &cell);
    assert_eq!(out[1], b"++".to_vec());
    assert_eq!(out[2], b"||".to_vec());
    assert_eq!(out[3], b"++".to_vec());
}
