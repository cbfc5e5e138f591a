use algo::bounds::BOARD_SIZE;
use algo::coords::xy;
use algo::grid::Grid;

fn counting_grid() -> Grid<u32> {
    let mut cells = Vec::new();
    for i in 0..(BOARD_SIZE * BOARD_SIZE) as u32 {
        cells.push(i);
    }
    Grid::from_cells(cells)
}

#[test]
fn get_is_absent_exactly_outside_the_board() {
    let g = counting_grid();
    assert!(g.get(xy(-1, 0)).is_none());
    assert!(g.get(xy(0, -1)).is_none());
    assert!(g.get(xy(BOARD_SIZE as i32, 0)).is_none());
    assert!(g.get(xy(0, BOARD_SIZE as i32)).is_none());
    for x in 0..BOARD_SIZE as i32 {
        for y in 0..BOARD_SIZE as i32 {
            assert!(g.get(xy(x, y)).is_some());
        }
    }
}

#[test]
fn cells_are_stored_column_major() {
    let g = counting_grid();
    assert_eq!(g.get(xy(0, 0)), Some(&0));
    assert_eq!(g.get(xy(0, 1)), Some(&1));
    assert_eq!(g.get(xy(1, 0)), Some(&(BOARD_SIZE as u32)));
    assert_eq!(g.get(xy(27, 27)), Some(&783));
}

#[test]
fn set_updates_one_cell_and_rejects_the_outside() {
    let mut g = counting_grid();
    assert!(g.set(xy(3, 4), 9999));
    assert_eq!(g.get(xy(3, 4)), Some(&9999));
    assert_eq!(g.get(xy(4, 3)), Some(&(4 * BOARD_SIZE as u32 + 3)));
    assert!(!g.set(xy(-1, 4), 1));
    assert!(!g.set(xy(3, BOARD_SIZE as i32), 1));
    assert_eq!(g.get(xy(0, 0)), Some(&0));
}
