use tetris::colors::{BLUE, GREEN, LIGHT_BLUE, ORANGE, PURPLE, RED, YELLOW};
use tetris::piece::{Orientation, OFF_BOARD};
use tetris::{Piece, PieceShape};

#[test]
fn shapes_have_their_colours() {
    assert_eq!(PieceShape::Straight.get_color(), LIGHT_BLUE);
    assert_eq!(PieceShape::LShape.get_color(), ORANGE);
    assert_eq!(PieceShape::BackwardLShape.get_color(), BLUE);
    assert_eq!(PieceShape::TShape.get_color(), PURPLE);
    assert_eq!(PieceShape::RightZig.get_color(), GREEN);
    assert_eq!(PieceShape::LeftZig.get_color(), RED);
    assert_eq!(PieceShape::Square.get_color(), YELLOW);
}

#[test]
fn shapes_spawn_on_their_cells() {
    assert_eq!(Piece::create(PieceShape::Straight).cells(), [33, 34, 35, 36]);
    assert_eq!(Piece::create(PieceShape::LShape).cells(), [34, 33, 25, 35]);
    assert_eq!(Piece::create(PieceShape::BackwardLShape).cells(), [34, 33, 23, 35]);
    assert_eq!(Piece::create(PieceShape::TShape).cells(), [34, 33, 35, 24]);
    assert_eq!(Piece::create(PieceShape::RightZig).cells(), [34, 33, 24, 25]);
    assert_eq!(Piece::create(PieceShape::LeftZig).cells(), [34, 24, 23, 35]);
    assert_eq!(Piece::create(PieceShape::Square).cells(), [24, 25, 34, 35]);
}

#[test]
fn created_piece_faces_up_in_its_colour() {
    let piece = Piece::create(PieceShape::TShape);
    assert_eq!(piece.shape(), PieceShape::TShape);
    assert_eq!(piece.color(), PURPLE);
    assert_eq!(piece.orientation(), Orientation::Up);
    assert_eq!(piece.get_cell(0), 34);
    assert_eq!(piece.get_cell(3), 24);
}

#[test]
fn potential_moves_shift_every_cell() {
    let piece = Piece::create(PieceShape::Square);
    assert_eq!(piece.potential_down_posit(), [34, 35, 44, 45]);
    assert_eq!(piece.potential_right_posit(), [25, 26, 35, 36]);
    assert_eq!(piece.potential_left_posit(), [23, 24, 33, 34]);
    assert_eq!(piece.cells(), [24, 25, 34, 35]);
}

#[test]
fn move_to_changes_the_cells_only() {
    let mut piece = Piece::create(PieceShape::Square);
    piece.move_to([100, 101, 110, 111]);
    assert_eq!(piece.cells(), [100, 101, 110, 111]);
    assert_eq!(piece.shape(), PieceShape::Square);
    assert_eq!(piece.color(), YELLOW);
    assert_eq!(piece.orientation(), Orientation::Up);
}

#[test]
fn left_of_the_first_cell_is_off_the_board() {
    let mut piece = Piece::create(PieceShape::Straight);
    piece.move_to([0, 1, 2, 3]);
    assert_eq!(piece.potential_left_posit(), [OFF_BOARD, 0, 1, 2]);
}

#[test]
fn down_from_the_bottom_row_leaves_the_board() {
    let mut piece = Piece::create(PieceShape::Square);
    piece.move_to([224, 225, 234, 235]);
    assert_eq!(piece.potential_down_posit(), [234, 235, 244, 245]);
}

#[test]
fn square_does_not_turn() {
    let piece = Piece::create(PieceShape::Square);
    assert_eq!(piece.potential_cw_posit(), [24, 25, 34, 35]);
}

#[test]
fn pivot_shapes_turn_about_their_first_cell() {
    assert_eq!(Piece::create(PieceShape::TShape).potential_cw_posit(), [34, 24, 44, 35]);
    assert_eq!(Piece::create(PieceShape::LShape).potential_cw_posit(), [34, 24, 45, 44]);
    assert_eq!(Piece::create(PieceShape::BackwardLShape).potential_cw_posit(), [34, 24, 25, 44]);
    assert_eq!(Piece::create(PieceShape::RightZig).potential_cw_posit(), [34, 24, 35, 45]);
    assert_eq!(Piece::create(PieceShape::LeftZig).potential_cw_posit(), [34, 35, 25, 44]);
}

#[test]
fn four_turns_bring_a_pivot_shape_back() {
    let mut piece = Piece::create(PieceShape::LShape);
    for _ in 0..4 {
        let posit = piece.potential_cw_posit();
        piece.move_to(posit);
        piece.rotate_orient_cw();
    }
    assert_eq!(piece.cells(), [34, 33, 25, 35]);
    assert_eq!(piece.orientation(), Orientation::Up);
}

#[test]
fn straight_swings_through_its_four_orientations() {
    let mut piece = Piece::create(PieceShape::Straight);
    assert_eq!(piece.potential_cw_posit(), [25, 35, 45, 55]);
    piece.move_to([25, 35, 45, 55]);
    piece.rotate_orient_cw();
    assert_eq!(piece.orientation(), Orientation::Right);
    assert_eq!(piece.potential_cw_posit(), [46, 45, 44, 43]);
    piece.move_to([46, 45, 44, 43]);
    piece.rotate_orient_cw();
    assert_eq!(piece.orientation(), Orientation::Down);
    assert_eq!(piece.potential_cw_posit(), [54, 44, 34, 24]);
    piece.move_to([54, 44, 34, 24]);
    piece.rotate_orient_cw();
    assert_eq!(piece.orientation(), Orientation::Left);
    assert_eq!(piece.potential_cw_posit(), [33, 34, 35, 36]);
    piece.move_to([33, 34, 35, 36]);
    piece.rotate_orient_cw();
    assert_eq!(piece.orientation(), Orientation::Up);
}

#[test]
fn turn_near_the_top_runs_off_the_board() {
    let mut piece = Piece::create(PieceShape::Straight);
    piece.move_to([3, 4, 5, 6]);
    assert_eq!(piece.potential_cw_posit(), [OFF_BOARD, 5, 15, 25]);
}

#[test]
fn rotate_orient_cw_goes_round() {
    let mut piece = Piece::create(PieceShape::TShape);
    piece.rotate_orient_cw();
    assert_eq!(piece.orientation(), Orientation::Right);
    piece.rotate_orient_cw();
    assert_eq!(piece.orientation(), Orientation::Down);
    piece.rotate_orient_cw();
    assert_eq!(piece.orientation(), Orientation::Left);
    piece.rotate_orient_cw();
    assert_eq!(piece.orientation(), Orientation::Up);
    assert_eq!(piece.cells(), [34, 33, 35, 24]);
}

#[test]
fn right_move_from_the_right_edge_is_refused() {
    let mut piece = Piece::create(PieceShape::Square);
    piece.move_to([28, 29, 38, 39]);
    assert!(Piece::is_not_off_side(piece.cells()));
    assert!(!Piece::is_not_off_side(piece.potential_right_posit()));
}

#[test]
fn left_move_from_the_left_edge_is_refused() {
    let mut piece = Piece::create(PieceShape::Square);
    piece.move_to([20, 21, 30, 31]);
    assert!(Piece::is_not_off_side(piece.cells()));
    assert!(!Piece::is_not_off_side(piece.potential_left_posit()));
}

#[test]
fn layouts_inside_the_board_are_accepted() {
    assert!(Piece::is_not_off_side([33, 34, 35, 36]));
    assert!(Piece::is_not_off_side([30, 31, 32, 33]));
    assert!(Piece::is_not_off_side([36, 37, 38, 39]));
    assert!(Piece::is_not_off_side([24, 25, 34, 35]));
}

#[test]
fn layout_with_both_edge_columns_is_refused() {
    assert!(!Piece::is_not_off_side([38, 39, 40, 41]));
    assert!(!Piece::is_not_off_side([9, 100, 101, 102]));
}

// The side check looks at columns only. An upright straight piece in the
// rightmost column that moves right lands whole in the leftmost column, one
// row down, and passes it: a known limit of the check.
#[test]
fn upright_straight_slips_round_the_edge() {
    let mut piece = Piece::create(PieceShape::Straight);
    piece.move_to([9, 19, 29, 39]);
    assert_eq!(piece.potential_right_posit(), [10, 20, 30, 40]);
    assert!(Piece::is_not_off_side(piece.potential_right_posit()));
}
