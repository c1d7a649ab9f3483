use tetris::colors::{BLUE, LIGHT_BLUE, OPEN_COLOR, PURPLE, RED, YELLOW};
use tetris::piece::Orientation;
use tetris::{Cell, CellStatus, DrawSource, Grid, GridError, PieceGenerator, PieceShape};

fn board_starting_with(first_pick: usize) -> Grid {
    let picks = vec![first_pick, 0, 0, 0, 0, 0];
    Grid::with_generator(PieceGenerator::with_source(DrawSource::scripted(picks)))
}

fn square_board() -> Grid {
    board_starting_with(6)
}

fn status(grid: &Grid, index: usize) -> CellStatus {
    grid.iter()[index].get_status()
}

fn active_cells(grid: &Grid) -> Vec<usize> {
    (0..240).filter(|i| status(grid, *i) == CellStatus::Active).collect()
}

fn closed_cells(grid: &Grid) -> Vec<usize> {
    (0..240).filter(|i| status(grid, *i) == CellStatus::Closed).collect()
}

fn snapshot(grid: &Grid) -> Vec<Cell> {
    grid.iter().to_vec()
}

fn fill_row(grid: &mut Grid, row: usize) {
    for column in 0..10 {
        assert_eq!(grid.close_cell(row * 10 + column, RED), Ok(()));
    }
}

#[test]
fn fresh_board_holds_the_first_piece_on_its_spawn_cells() {
    let grid = square_board();
    assert_eq!(grid.iter().len(), 240);
    assert_eq!(grid.active_piece().shape(), PieceShape::Square);
    assert_eq!(grid.active_piece().cells(), [24, 25, 34, 35]);
    for (index, cell) in grid.iter().iter().enumerate() {
        if [24, 25, 34, 35].contains(&index) {
            assert_eq!(cell.get_status(), CellStatus::Active);
            assert_eq!(cell.get_color(), YELLOW);
        } else {
            assert_eq!(cell.get_status(), CellStatus::Open);
            assert_eq!(cell.get_color(), OPEN_COLOR);
        }
    }
    assert!(!grid.is_game_over());
}

#[test]
fn init_gives_an_open_board_and_a_spawned_piece() {
    let grid = Grid::init();
    assert!(closed_cells(&grid).is_empty());
    assert!(!grid.is_game_over());
    let piece = grid.active_piece();
    assert_eq!(piece.cells(), tetris::Piece::create(piece.shape()).cells());
    assert_eq!(piece.orientation(), Orientation::Up);
    let mut cells = piece.cells().to_vec();
    cells.sort();
    assert_eq!(active_cells(&grid), cells);
    for index in cells {
        assert_eq!(grid.iter()[index].get_color(), piece.color());
    }
}

#[test]
fn tick_moves_the_piece_down_one_row() {
    let mut grid = square_board();
    grid.cycle();
    assert_eq!(grid.active_piece().cells(), [34, 35, 44, 45]);
    assert_eq!(active_cells(&grid), vec![34, 35, 44, 45]);
    for index in [34, 35, 44, 45] {
        assert_eq!(grid.iter()[index].get_color(), YELLOW);
    }
    assert!(closed_cells(&grid).is_empty());
    grid.move_active_down();
    assert_eq!(active_cells(&grid), vec![44, 45, 54, 55]);
    assert_eq!(status(&grid, 34), CellStatus::Open);
    assert_eq!(grid.iter()[34].get_color(), OPEN_COLOR);
}

#[test]
fn active_cells_are_the_four_cells_of_the_piece() {
    let mut grid = square_board();
    grid.move_active_left();
    for step in 0..60 {
        let mut cells = grid.active_piece().cells().to_vec();
        cells.sort();
        assert_eq!(active_cells(&grid), cells);
        match step % 4 {
            0 => grid.move_active_right(),
            1 => grid.rotate_active_cw(),
            2 => grid.cycle(),
            _ => grid.move_active_left(),
        }
    }
}

#[test]
fn square_falls_to_the_bottom_and_locks() {
    let mut grid = square_board();
    for tick in 1..=20 {
        grid.cycle();
        let top = 24 + 10 * tick;
        assert_eq!(grid.active_piece().cells(), [top, top + 1, top + 10, top + 11]);
        assert!(closed_cells(&grid).is_empty());
    }
    assert_eq!(active_cells(&grid), vec![224, 225, 234, 235]);
    grid.cycle();
    assert_eq!(closed_cells(&grid), vec![224, 225, 234, 235]);
    for index in [224, 225, 234, 235] {
        assert_eq!(grid.iter()[index].get_color(), YELLOW);
    }
    assert_eq!(grid.active_piece().shape(), PieceShape::Straight);
    assert_eq!(grid.active_piece().cells(), [33, 34, 35, 36]);
    assert_eq!(active_cells(&grid), vec![33, 34, 35, 36]);
    for index in 0..224 {
        if (33..=36).contains(&index) {
            assert_eq!(grid.iter()[index].get_color(), LIGHT_BLUE);
        } else {
            assert_eq!(status(&grid, index), CellStatus::Open);
            assert_eq!(grid.iter()[index].get_color(), OPEN_COLOR);
        }
    }
    assert!(!grid.is_game_over());
}

#[test]
fn piece_locks_on_top_of_the_stack() {
    let mut grid = square_board();
    assert_eq!(grid.close_cell(64, BLUE), Ok(()));
    grid.cycle();
    grid.cycle();
    assert_eq!(grid.active_piece().cells(), [44, 45, 54, 55]);
    grid.cycle();
    assert_eq!(closed_cells(&grid), vec![44, 45, 54, 55, 64]);
    assert_eq!(grid.active_piece().shape(), PieceShape::Straight);
    assert_eq!(active_cells(&grid), vec![33, 34, 35, 36]);
    assert!(!grid.is_game_over());
}

#[test]
fn moves_shift_the_piece_sideways() {
    let mut grid = square_board();
    grid.move_active_left();
    assert_eq!(grid.active_piece().cells(), [23, 24, 33, 34]);
    assert_eq!(active_cells(&grid), vec![23, 24, 33, 34]);
    grid.move_active_right();
    grid.move_active_right();
    assert_eq!(grid.active_piece().cells(), [25, 26, 35, 36]);
    assert_eq!(active_cells(&grid), vec![25, 26, 35, 36]);
    assert_eq!(grid.iter()[25].get_color(), YELLOW);
    assert_eq!(grid.iter()[24].get_color(), OPEN_COLOR);
}

#[test]
fn move_into_the_left_wall_changes_nothing() {
    let mut grid = square_board();
    for _ in 0..4 {
        grid.move_active_left();
    }
    assert_eq!(grid.active_piece().cells(), [20, 21, 30, 31]);
    let before = snapshot(&grid);
    grid.move_active_left();
    assert_eq!(grid.active_piece().cells(), [20, 21, 30, 31]);
    assert_eq!(snapshot(&grid), before);
}

#[test]
fn move_into_the_right_wall_changes_nothing() {
    let mut grid = square_board();
    for _ in 0..4 {
        grid.move_active_right();
    }
    assert_eq!(grid.active_piece().cells(), [28, 29, 38, 39]);
    let before = snapshot(&grid);
    grid.move_active_right();
    assert_eq!(grid.active_piece().cells(), [28, 29, 38, 39]);
    assert_eq!(snapshot(&grid), before);
    assert!(!grid.is_game_over());
}

#[test]
fn move_into_a_closed_cell_changes_nothing() {
    let mut grid = square_board();
    grid.cycle();
    assert_eq!(grid.close_cell(46, RED), Ok(()));
    let before = snapshot(&grid);
    grid.move_active_right();
    assert_eq!(grid.active_piece().cells(), [34, 35, 44, 45]);
    assert_eq!(snapshot(&grid), before);
}

#[test]
fn rotation_turns_the_piece_and_its_orientation() {
    let mut grid = board_starting_with(3);
    assert_eq!(grid.active_piece().shape(), PieceShape::TShape);
    grid.rotate_active_cw();
    assert_eq!(grid.active_piece().cells(), [34, 24, 44, 35]);
    assert_eq!(grid.active_piece().orientation(), Orientation::Right);
    assert_eq!(active_cells(&grid), vec![24, 34, 35, 44]);
    assert_eq!(grid.iter()[44].get_color(), PURPLE);
}

#[test]
fn blocked_rotation_changes_nothing() {
    let mut grid = board_starting_with(3);
    grid.cycle();
    assert_eq!(grid.close_cell(54, RED), Ok(()));
    let before = snapshot(&grid);
    grid.rotate_active_cw();
    assert_eq!(grid.active_piece().cells(), [44, 43, 45, 34]);
    assert_eq!(grid.active_piece().orientation(), Orientation::Up);
    assert_eq!(snapshot(&grid), before);
}

#[test]
fn rotation_off_the_top_changes_nothing() {
    let picks = vec![0, 0, 0, 0, 0, 0];
    let mut grid = Grid::with_generator(PieceGenerator::with_source(DrawSource::scripted(picks)));
    assert_eq!(grid.active_piece().shape(), PieceShape::Straight);
    grid.rotate_active_cw();
    assert_eq!(grid.active_piece().cells(), [25, 35, 45, 55]);
    grid.rotate_active_cw();
    assert_eq!(grid.active_piece().cells(), [46, 45, 44, 43]);
    grid.rotate_active_cw();
    assert_eq!(grid.active_piece().cells(), [54, 44, 34, 24]);
    grid.rotate_active_cw();
    assert_eq!(grid.active_piece().cells(), [33, 34, 35, 36]);
    assert_eq!(grid.active_piece().orientation(), Orientation::Up);
    assert_eq!(active_cells(&grid), vec![33, 34, 35, 36]);
}

#[test]
fn check_posit_tells_legal_layouts() {
    let mut grid = square_board();
    assert!(grid.check_posit([24, 25, 34, 35]));
    assert!(grid.check_posit([231, 232, 233, 239]));
    assert!(!grid.check_posit([231, 232, 233, 240]));
    assert!(!grid.check_posit([230, 231, 232, 239]));
    assert!(!grid.check_posit([38, 39, 40, 41]));
    assert_eq!(grid.close_cell(100, RED), Ok(()));
    assert!(!grid.check_posit([100, 101, 102, 103]));
    assert_eq!(grid.activate_cell(101, RED), Ok(()));
    assert!(grid.check_posit([101, 102, 103, 104]));
    assert!(grid.is_valid_cell(239));
    assert!(!grid.is_valid_cell(240));
}

#[test]
fn cell_changes_set_status_and_colour() {
    let mut grid = square_board();
    assert_eq!(grid.close_cell(7, RED), Ok(()));
    assert_eq!(status(&grid, 7), CellStatus::Closed);
    assert_eq!(grid.iter()[7].get_color(), RED);
    assert_eq!(grid.activate_cell(7, BLUE), Ok(()));
    assert_eq!(status(&grid, 7), CellStatus::Active);
    assert_eq!(grid.iter()[7].get_color(), BLUE);
    assert_eq!(grid.open_cell(7), Ok(()));
    assert_eq!(status(&grid, 7), CellStatus::Open);
    assert_eq!(grid.iter()[7].get_color(), OPEN_COLOR);
    assert_eq!(closed_cells(&grid), Vec::<usize>::new());
}

#[test]
fn cell_change_off_the_board_is_an_error() {
    let mut grid = square_board();
    let before = snapshot(&grid);
    assert_eq!(grid.close_cell(240, RED), Err(GridError::InvalidIndex));
    assert_eq!(grid.open_cell(1000), Err(GridError::InvalidIndex));
    assert_eq!(grid.activate_cell(usize::MAX, RED), Err(GridError::InvalidIndex));
    assert_eq!(snapshot(&grid), before);
    assert_eq!(grid.close_cell(239, RED), Ok(()));
}

#[test]
fn row_is_full_when_all_ten_cells_are_closed() {
    let mut grid = square_board();
    for column in 0..9 {
        assert_eq!(grid.close_cell(230 + column, RED), Ok(()));
    }
    assert!(!grid.check_if_row_full(23));
    assert_eq!(grid.activate_cell(239, RED), Ok(()));
    assert!(!grid.check_if_row_full(23));
    assert_eq!(grid.close_cell(239, RED), Ok(()));
    assert!(grid.check_if_row_full(23));
    assert!(!grid.check_if_row_full(22));
    assert!(!grid.check_if_row_full(0));
}

#[test]
fn full_row_is_cleared_and_the_stack_comes_down() {
    let mut grid = square_board();
    fill_row(&mut grid, 23);
    assert_eq!(grid.close_cell(225, BLUE), Ok(()));
    assert_eq!(grid.close_cell(213, YELLOW), Ok(()));
    grid.check_rows();
    assert_eq!(closed_cells(&grid), vec![223, 235]);
    assert_eq!(grid.iter()[235].get_color(), BLUE);
    assert_eq!(grid.iter()[223].get_color(), YELLOW);
    assert_eq!(grid.iter()[230].get_color(), OPEN_COLOR);
    assert!(!grid.check_if_row_full(23));
    assert!(!grid.is_game_over());
}

#[test]
fn clear_row_takes_the_row_above_into_the_row() {
    let mut grid = square_board();
    fill_row(&mut grid, 10);
    assert_eq!(grid.close_cell(95, BLUE), Ok(()));
    assert_eq!(grid.close_cell(115, YELLOW), Ok(()));
    grid.clear_row(10);
    assert_eq!(closed_cells(&grid), vec![105, 115]);
    assert_eq!(grid.iter()[105].get_color(), BLUE);
    assert_eq!(grid.iter()[115].get_color(), YELLOW);
}

#[test]
fn clear_row_opens_the_row_under_an_open_row() {
    let mut grid = square_board();
    fill_row(&mut grid, 23);
    grid.clear_row(23);
    assert!(closed_cells(&grid).is_empty());
    for index in 230..240 {
        assert_eq!(status(&grid, index), CellStatus::Open);
        assert_eq!(grid.iter()[index].get_color(), OPEN_COLOR);
    }
    assert!(!grid.check_if_row_full(23));
}

#[test]
fn clear_row_passes_over_the_first_cell() {
    let mut grid = square_board();
    assert_eq!(grid.close_cell(0, BLUE), Ok(()));
    assert_eq!(grid.close_cell(1, BLUE), Ok(()));
    fill_row(&mut grid, 5);
    grid.clear_row(5);
    assert_eq!(closed_cells(&grid), vec![0, 11]);
}

#[test]
fn clear_row_of_the_top_row_opens_it() {
    let mut grid = square_board();
    fill_row(&mut grid, 0);
    assert_eq!(grid.close_cell(10, BLUE), Ok(()));
    grid.clear_row(0);
    assert_eq!(closed_cells(&grid), vec![10]);
}

#[test]
fn one_pass_clears_every_full_row() {
    let mut grid = square_board();
    fill_row(&mut grid, 22);
    fill_row(&mut grid, 23);
    assert_eq!(grid.close_cell(215, BLUE), Ok(()));
    assert_eq!(grid.close_cell(203, YELLOW), Ok(()));
    grid.clear_full_rows();
    assert_eq!(closed_cells(&grid), vec![223, 235]);
    assert!(!grid.is_game_over());
}

#[test]
fn pass_without_full_rows_changes_nothing() {
    let mut grid = square_board();
    for column in 0..9 {
        assert_eq!(grid.close_cell(230 + column, RED), Ok(()));
    }
    let before = snapshot(&grid);
    grid.clear_full_rows();
    assert_eq!(snapshot(&grid), before);
}

#[test]
fn locking_a_piece_clears_the_row_it_completes() {
    let mut grid = square_board();
    for column in 0..10 {
        if column != 4 && column != 5 {
            assert_eq!(grid.close_cell(220 + column, RED), Ok(()));
            assert_eq!(grid.close_cell(230 + column, RED), Ok(()));
        }
    }
    assert_eq!(grid.close_cell(210, BLUE), Ok(()));
    for _ in 0..20 {
        grid.cycle();
    }
    assert_eq!(active_cells(&grid), vec![224, 225, 234, 235]);
    grid.cycle();
    assert_eq!(closed_cells(&grid), vec![230]);
    assert_eq!(grid.iter()[230].get_color(), BLUE);
    assert_eq!(grid.active_piece().cells(), [33, 34, 35, 36]);
    assert_eq!(active_cells(&grid), vec![33, 34, 35, 36]);
    assert!(!grid.is_game_over());
}

#[test]
fn closed_cell_in_the_top_rows_ends_the_game() {
    let mut grid = square_board();
    assert!(!grid.check_if_game_over());
    assert_eq!(grid.close_cell(39, RED), Ok(()));
    assert!(grid.check_if_game_over());
    assert!(!grid.is_game_over());
    grid.check_rows();
    assert!(grid.is_game_over());
}

#[test]
fn closed_cell_below_the_top_rows_does_not_end_the_game() {
    let mut grid = square_board();
    assert_eq!(grid.close_cell(40, RED), Ok(()));
    assert_eq!(grid.activate_cell(5, RED), Ok(()));
    assert!(!grid.check_if_game_over());
    grid.check_rows();
    assert!(!grid.is_game_over());
}

#[test]
fn game_stays_over_after_later_clears() {
    let mut grid = square_board();
    assert_eq!(grid.close_cell(15, RED), Ok(()));
    grid.check_rows();
    assert!(grid.is_game_over());
    assert_eq!(grid.open_cell(15), Ok(()));
    fill_row(&mut grid, 23);
    grid.check_rows();
    assert!(closed_cells(&grid).is_empty());
    assert!(grid.is_game_over());
    grid.cycle();
    assert!(grid.is_game_over());
}

#[test]
fn ticking_without_moves_ends_the_game() {
    let mut grid = Grid::init();
    let mut ticks = 0;
    while !grid.is_game_over() {
        grid.cycle();
        ticks += 1;
        assert!(ticks < 5000);
        let mut cells = grid.active_piece().cells().to_vec();
        cells.sort();
        assert_eq!(active_cells(&grid), cells);
    }
    assert!(closed_cells(&grid).iter().any(|index| *index < 50));
    grid.cycle();
    assert!(grid.is_game_over());
    let mut cells = grid.active_piece().cells().to_vec();
    cells.sort();
    assert_eq!(active_cells(&grid), cells);
}

#[test]
fn new_piece_takes_the_place_of_the_piece() {
    let mut grid = square_board();
    grid.cycle();
    assert_eq!(grid.close_cell(200, RED), Ok(()));
    assert_eq!(active_cells(&grid), vec![34, 35, 44, 45]);
    grid.new_piece();
    assert_eq!(grid.active_piece().shape(), PieceShape::Straight);
    assert_eq!(grid.active_piece().cells(), [33, 34, 35, 36]);
    assert_eq!(active_cells(&grid), vec![33, 34, 35, 36]);
    assert_eq!(grid.iter()[33].get_color(), LIGHT_BLUE);
    assert_eq!(status(&grid, 44), CellStatus::Open);
    assert_eq!(grid.iter()[44].get_color(), OPEN_COLOR);
    assert_eq!(closed_cells(&grid), vec![200]);
}

#[test]
fn new_piece_leaves_locked_cells_of_the_old_piece() {
    let mut grid = square_board();
    assert_eq!(grid.close_cell(24, RED), Ok(()));
    grid.new_piece();
    assert_eq!(closed_cells(&grid), vec![24]);
    assert_eq!(active_cells(&grid), vec![33, 34, 35, 36]);
    assert_eq!(status(&grid, 25), CellStatus::Open);
}

#[test]
fn piece_that_cannot_fall_at_all_locks_where_it_spawned() {
    let mut grid = square_board();
    assert_eq!(grid.close_cell(44, RED), Ok(()));
    grid.cycle();
    assert!(grid.is_game_over());
    assert_eq!(grid.active_piece().shape(), PieceShape::Straight);
    assert_eq!(active_cells(&grid), vec![33, 34, 35, 36]);
    assert_eq!(closed_cells(&grid), vec![24, 25, 44]);
}

#[test]
fn iter_mut_hands_out_the_cells() {
    let mut grid = square_board();
    for cell in grid.iter_mut() {
        cell.set_color(BLUE);
        cell.close();
    }
    assert_eq!(closed_cells(&grid).len(), 240);
    assert_eq!(grid.iter()[17].get_color(), BLUE);
}

#[test]
fn pass_takes_ten_closed_cells_for_each_full_row() {
    let mut grid = square_board();
    fill_row(&mut grid, 20);
    fill_row(&mut grid, 23);
    for index in [71, 155, 190, 212, 213, 229] {
        assert_eq!(grid.close_cell(index, BLUE), Ok(()));
    }
    assert_eq!(closed_cells(&grid).len(), 26);
    grid.clear_full_rows();
    assert_eq!(closed_cells(&grid), vec![91, 175, 210, 222, 223, 239]);
    for index in closed_cells(&grid) {
        assert_eq!(grid.iter()[index].get_color(), BLUE);
    }
}

#[test]
fn pass_keeps_the_order_within_a_column() {
    let mut grid = square_board();
    fill_row(&mut grid, 22);
    assert_eq!(grid.close_cell(207, BLUE), Ok(()));
    assert_eq!(grid.close_cell(217, PURPLE), Ok(()));
    assert_eq!(grid.close_cell(237, YELLOW), Ok(()));
    grid.clear_full_rows();
    assert_eq!(closed_cells(&grid), vec![217, 227, 237]);
    assert_eq!(grid.iter()[217].get_color(), BLUE);
    assert_eq!(grid.iter()[227].get_color(), PURPLE);
    assert_eq!(grid.iter()[237].get_color(), YELLOW);
}

#[test]
fn opened_cell_takes_the_open_colour() {
    let mut grid = square_board();
    assert_eq!(grid.close_cell(100, RED), Ok(()));
    assert_eq!(grid.open_cell(100), Ok(()));
    assert_eq!(grid.iter()[100], Cell::new());
}
