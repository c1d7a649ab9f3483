use tetris::colors::{Color, OPEN_COLOR, RED, YELLOW};
use tetris::{Cell, CellStatus};

#[test]
fn new_cell_is_open_in_the_open_colour() {
    let cell = Cell::new();
    assert_eq!(cell.get_status(), CellStatus::Open);
    assert_eq!(cell.get_color(), OPEN_COLOR);
    assert_eq!(OPEN_COLOR, Color::LightGrey);
}

#[test]
fn close_keeps_the_colour() {
    let mut cell = Cell::new();
    cell.set_color(RED);
    cell.close();
    assert_eq!(cell.get_status(), CellStatus::Closed);
    assert_eq!(cell.get_color(), RED);
}

#[test]
fn active_keeps_the_colour() {
    let mut cell = Cell::new();
    cell.set_color(YELLOW);
    cell.active();
    assert_eq!(cell.get_status(), CellStatus::Active);
    assert_eq!(cell.get_color(), YELLOW);
}

#[test]
fn open_resets_the_colour() {
    let mut cell = Cell::new();
    cell.close();
    cell.set_color(RED);
    cell.open();
    assert_eq!(cell.get_status(), CellStatus::Open);
    assert_eq!(cell.get_color(), OPEN_COLOR);
}

#[test]
fn set_status_dispatches_on_the_variant() {
    let mut cell = Cell::new();
    cell.set_color(RED);
    cell.set_status(CellStatus::Closed);
    assert_eq!(cell.get_status(), CellStatus::Closed);
    assert_eq!(cell.get_color(), RED);
    cell.set_status(CellStatus::Active);
    assert_eq!(cell.get_status(), CellStatus::Active);
    assert_eq!(cell.get_color(), RED);
    cell.set_status(CellStatus::Open);
    assert_eq!(cell.get_status(), CellStatus::Open);
    assert_eq!(cell.get_color(), OPEN_COLOR);
}

#[test]
fn set_color_leaves_the_status() {
    let mut cell = Cell::new();
    cell.active();
    cell.set_color(YELLOW);
    assert_eq!(cell.get_status(), CellStatus::Active);
    assert_eq!(cell.get_color(), YELLOW);
}
