//! Piece geometry: the seven shapes, where they spawn, and where a move or a
//! clockwise turn would put their four cells.

use vstd::prelude::*;
use crate::colors::{Color, BLUE, GREEN, LIGHT_BLUE, ORANGE, PURPLE, RED, YELLOW};

verus! {

/// Cells in one row of the board.
pub const COLUMNS: usize = 10;

/// Rows of the board, the hidden top rows included.
pub const ROWS: usize = 24;

/// Cells of the board. Cell `i` lies in row `i / 10`, column `i % 10`.
pub const NUM_CELLS: usize = 240;

/// The index that stands for "not on the board": the first one past the
/// last cell. Every legality check refuses it.
pub const OFF_BOARD: usize = 240;

#[derive(Debug, Clone, Copy, PartialEq, Eq, Structural)]
pub enum PieceShape {
    Straight,
    LShape,
    BackwardLShape,
    TShape,
    RightZig,
    LeftZig,
    Square,
}

#[derive(Debug, Clone, Copy, PartialEq, Eq, Structural)]
pub enum Orientation {
    Up,
    Right,
    Down,
    Left,
}

/// The colour that belongs to a shape.
pub open spec fn shape_color(shape: PieceShape) -> Color {
    match shape {
        PieceShape::Straight => LIGHT_BLUE,
        PieceShape::LShape => ORANGE,
        PieceShape::BackwardLShape => BLUE,
        PieceShape::TShape => PURPLE,
        PieceShape::RightZig => GREEN,
        PieceShape::LeftZig => RED,
        PieceShape::Square => YELLOW,
    }
}

/// The four cells a shape occupies when it enters the board.
pub open spec fn spawn_cells(shape: PieceShape) -> Seq<usize> {
    match shape {
        PieceShape::Straight => seq![33usize, 34usize, 35usize, 36usize],
        PieceShape::LShape => seq![34usize, 33usize, 25usize, 35usize],
        PieceShape::BackwardLShape => seq![34usize, 33usize, 23usize, 35usize],
        PieceShape::TShape => seq![34usize, 33usize, 35usize, 24usize],
        PieceShape::RightZig => seq![34usize, 33usize, 24usize, 25usize],
        PieceShape::LeftZig => seq![34usize, 24usize, 23usize, 35usize],
        PieceShape::Square => seq![24usize, 25usize, 34usize, 35usize],
    }
}

/// The orientation after one clockwise turn.
pub open spec fn next_orientation(orientation: Orientation) -> Orientation {
    match orientation {
        Orientation::Up => Orientation::Right,
        Orientation::Right => Orientation::Down,
        Orientation::Down => Orientation::Left,
        Orientation::Left => Orientation::Up,
    }
}

/// The column of a cell.
pub open spec fn column(cell: usize) -> int {
    cell as int % 10
}

/// The cell `by` places after `cell`, or before it where `by` is negative;
/// `OFF_BOARD` where that is no index at all.
pub open spec fn displaced(cell: usize, by: int) -> usize {
    if 0 <= cell + by <= usize::MAX {
        (cell + by) as usize
    } else {
        OFF_BOARD
    }
}

/// Every cell one row down.
pub open spec fn moved_down(cells: Seq<usize>) -> Seq<usize> {
    Seq::new(4, |i: int| displaced(cells[i], 10))
}

/// Every cell one column to the right.
pub open spec fn moved_right(cells: Seq<usize>) -> Seq<usize> {
    Seq::new(4, |i: int| displaced(cells[i], 1))
}

/// Every cell one column to the left.
pub open spec fn moved_left(cells: Seq<usize>) -> Seq<usize> {
    Seq::new(4, |i: int| displaced(cells[i], -1))
}

/// Whether `cell` is one of the eight neighbours of `anchor`, by index
/// distance: 1 for the same row, 10 for the same column, 9 and 11 for the
/// diagonals.
pub open spec fn beside(anchor: usize, cell: usize) -> bool {
    let d = if cell > anchor { cell - anchor } else { anchor - cell };
    d == 1 || d == 9 || d == 10 || d == 11
}

/// Where a quarter turn clockwise takes the displacement between a cell and
/// a neighbour of it: one place on becomes one row down, one row down one
/// place back, and so round, the diagonals alike. A displacement between
/// cells that are no neighbours stays as it is.
pub open spec fn quarter_turn(d: int) -> int {
    if d == 1 {
        10
    } else if d == 11 {
        9
    } else if d == 10 {
        -1
    } else if d == 9 {
        -11
    } else if d == -1 {
        -10
    } else if d == -11 {
        -9
    } else if d == -10 {
        1
    } else if d == -9 {
        11
    } else {
        d
    }
}

/// Where a quarter turn clockwise about `anchor` takes a neighbour of it:
/// to the cell whose displacement from the anchor is the neighbour's, turned.
pub open spec fn turned_about(anchor: usize, cell: usize) -> usize {
    displaced(anchor, quarter_turn(cell - anchor))
}

/// The turn of the five shapes that pivot on their first cell.
pub open spec fn pivot_turned(cells: Seq<usize>) -> Seq<usize> {
    Seq::new(4, |i: int| if i == 0 { cells[0] } else { turned_about(cells[0], cells[i]) })
}

/// The turn of the straight shape, which swings about its centre and so
/// moves each cell by an amount that depends on the orientation.
pub open spec fn straight_turned(cells: Seq<usize>, orientation: Orientation) -> Seq<usize> {
    match orientation {
        Orientation::Up => seq![
            displaced(cells[0], -8),
            displaced(cells[1], 1),
            displaced(cells[2], 10),
            displaced(cells[3], 19),
        ],
        Orientation::Right => seq![
            displaced(cells[0], 21),
            displaced(cells[1], 10),
            displaced(cells[2], -1),
            displaced(cells[3], -12),
        ],
        Orientation::Down => seq![
            displaced(cells[0], 8),
            displaced(cells[1], -1),
            displaced(cells[2], -10),
            displaced(cells[3], -19),
        ],
        Orientation::Left => seq![
            displaced(cells[0], -21),
            displaced(cells[1], -10),
            displaced(cells[2], 1),
            displaced(cells[3], 12),
        ],
    }
}

/// Whether a layout keeps clear of wrapping round the side edges: no two of
/// its cells sit one in the leftmost and one in the rightmost column. This
/// looks at columns only, so it is an approximation: a layout that lies in a
/// single edge column passes whichever row it slid into.
pub open spec fn not_off_side(posit: Seq<usize>) -> bool {
    forall|i: int, j: int|
        0 <= i < 4 && 0 <= j < 4 ==> !(#[trigger] column(posit[i]) == 0 && #[trigger] column(
            posit[j],
        ) == 9)
}

/// A piece as a plain value.
pub struct PieceView {
    pub cells: Seq<usize>,
    pub color: Color,
    pub shape: PieceShape,
    pub orientation: Orientation,
}

/// A shape as it enters the board.
pub open spec fn spawned(shape: PieceShape) -> PieceView {
    PieceView {
        cells: spawn_cells(shape),
        color: shape_color(shape),
        shape,
        orientation: Orientation::Up,
    }
}

/// Whether four cells form the outline of `shape` in `orientation`, by index
/// distances.
pub open spec fn shaped(shape: PieceShape, orientation: Orientation, cells: Seq<usize>) -> bool {
    match shape {
        PieceShape::Square => {
            &&& cells[1] == cells[0] + 1
            &&& cells[2] == cells[0] + 10
            &&& cells[3] == cells[0] + 11
        },
        PieceShape::Straight => match orientation {
            Orientation::Up => {
                &&& cells[1] == cells[0] + 1
                &&& cells[2] == cells[0] + 2
                &&& cells[3] == cells[0] + 3
            },
            Orientation::Right => {
                &&& cells[1] == cells[0] + 10
                &&& cells[2] == cells[0] + 20
                &&& cells[3] == cells[0] + 30
            },
            Orientation::Down => {
                &&& cells[1] == cells[0] - 1
                &&& cells[2] == cells[0] - 2
                &&& cells[3] == cells[0] - 3
            },
            Orientation::Left => {
                &&& cells[1] == cells[0] - 10
                &&& cells[2] == cells[0] - 20
                &&& cells[3] == cells[0] - 30
            },
        },
        _ => {
            &&& beside(cells[0], cells[1])
            &&& beside(cells[0], cells[2])
            &&& beside(cells[0], cells[3])
        },
    }
}

/// Where a clockwise turn would put the cells.
pub open spec fn turned(piece: PieceView) -> Seq<usize> {
    match piece.shape {
        PieceShape::Square => piece.cells,
        PieceShape::Straight => straight_turned(piece.cells, piece.orientation),
        _ => pivot_turned(piece.cells),
    }
}

impl PieceView {
    /// Four distinct cells on the board, in the outline of the shape, in the
    /// shape's colour, and not wrapped round the side edges.
    pub open spec fn wf(self) -> bool {
        &&& self.outlined()
        &&& not_off_side(self.cells)
    }

    /// Four distinct cells on the board, in the outline of the shape, in the
    /// shape's colour.
    pub open spec fn outlined(self) -> bool {
        &&& self.cells.len() == 4
        &&& forall|i: int| 0 <= i < 4 ==> self.cells[i] < NUM_CELLS
        &&& forall|i: int, j: int| 0 <= i < j < 4 ==> self.cells[i] != self.cells[j]
        &&& self.color == shape_color(self.shape)
        &&& shaped(self.shape, self.orientation, self.cells)
    }

    /// Whether a clockwise turn is defined: the straight and the square
    /// always turn, the others need their cells beside the pivot.
    pub open spec fn can_turn(self) -> bool {
        self.shape != PieceShape::Square && self.shape != PieceShape::Straight ==> {
            &&& beside(self.cells[0], self.cells[1])
            &&& beside(self.cells[0], self.cells[2])
            &&& beside(self.cells[0], self.cells[3])
        }
    }

    /// The same piece on other cells.
    pub open spec fn at(self, cells: Seq<usize>) -> PieceView {
        PieceView { cells, ..self }
    }

    /// The same piece, one quarter turn on.
    pub open spec fn reoriented(self) -> PieceView {
        PieceView { orientation: next_orientation(self.orientation), ..self }
    }
}

/// Whether every cell of a layout is a cell of the board.
pub open spec fn on_board(posit: Seq<usize>) -> bool {
    forall|i: int| 0 <= i < 4 ==> posit[i] < NUM_CELLS
}

/// Every shape enters the board on cells well inside the side edges.
pub proof fn lemma_spawn_cells_clear_of_the_sides(shape: PieceShape)
    ensures
        not_off_side(spawn_cells(shape)),
        spawned(shape).wf(),
{
    let c = spawn_cells(shape);
    assert(3 <= column(c[0]) <= 6 && 3 <= column(c[1]) <= 6 && 3 <= column(c[2]) <= 6 && 3
        <= column(c[3]) <= 6);
}

/// A well-formed piece that moves one place down, right or left onto cells
/// of the board, without wrapping, is well formed there.
pub proof fn lemma_move_keeps_wf(piece: PieceView, posit: Seq<usize>)
    requires
        piece.wf(),
        posit == moved_down(piece.cells) || posit == moved_right(piece.cells) || posit
            == moved_left(piece.cells),
        on_board(posit),
        not_off_side(posit),
    ensures
        piece.at(posit).wf(),
{
    let c = piece.cells;
    assert(posit[0] < NUM_CELLS && posit[1] < NUM_CELLS && posit[2] < NUM_CELLS && posit[3]
        < NUM_CELLS);
    assert(c[0] < NUM_CELLS && c[1] < NUM_CELLS && c[2] < NUM_CELLS && c[3] < NUM_CELLS);
}

/// The quarter turn is the clockwise rotation of the plane: a neighbour
/// `rows` rows down and `columns` columns on goes to the one `columns` rows
/// down and `rows` columns back.
pub proof fn law_quarter_turn_is_rotation(rows: int, columns: int)
    requires
        -1 <= rows <= 1,
        -1 <= columns <= 1,
        rows != 0 || columns != 0,
    ensures
        quarter_turn(10 * rows + columns) == 10 * columns - rows,
{
}

/// A neighbour of the pivot that turns onto a cell of the board lands on the
/// neighbour a quarter turn on.
proof fn lemma_turned_about(anchor: usize, cell: usize)
    requires
        anchor < NUM_CELLS,
        cell < NUM_CELLS,
        beside(anchor, cell),
        turned_about(anchor, cell) < NUM_CELLS,
    ensures
        turned_about(anchor, cell) == anchor + quarter_turn(cell - anchor),
        beside(anchor, turned_about(anchor, cell)),
{
}

/// A quarter turn takes different displacements to different ones.
proof fn lemma_quarter_turn_injective(a: int, b: int)
    requires
        a == 1 || a == 9 || a == 10 || a == 11 || a == -1 || a == -9 || a == -10 || a == -11,
        b == 1 || b == 9 || b == 10 || b == 11 || b == -1 || b == -9 || b == -10 || b == -11,
        a != b,
    ensures
        quarter_turn(a) != quarter_turn(b),
        quarter_turn(a) != 0,
{
}

/// A well-formed piece that turns clockwise onto cells of the board,
/// without wrapping, is well formed there, once its orientation has advanced
/// too.
pub proof fn lemma_turn_keeps_wf(piece: PieceView)
    requires
        piece.wf(),
        on_board(turned(piece)),
        not_off_side(turned(piece)),
    ensures
        piece.at(turned(piece)).reoriented().wf(),
{
    let c = piece.cells;
    let posit = turned(piece);
    assert(posit[0] < NUM_CELLS && posit[1] < NUM_CELLS && posit[2] < NUM_CELLS && posit[3]
        < NUM_CELLS);
    assert(c[0] < NUM_CELLS && c[1] < NUM_CELLS && c[2] < NUM_CELLS && c[3] < NUM_CELLS);
    match piece.shape {
        PieceShape::Square => {},
        PieceShape::Straight => {},
        _ => {
            let a = c[0];
            assert(posit =~= pivot_turned(c));
            lemma_turned_about(a, c[1]);
            lemma_turned_about(a, c[2]);
            lemma_turned_about(a, c[3]);
            lemma_quarter_turn_injective(c[1] - a, c[2] - a);
            lemma_quarter_turn_injective(c[1] - a, c[3] - a);
            lemma_quarter_turn_injective(c[2] - a, c[3] - a);
            assert(posit[0] == a);
            assert(posit[1] == a + quarter_turn(c[1] - a));
            assert(posit[2] == a + quarter_turn(c[2] - a));
            assert(posit[3] == a + quarter_turn(c[3] - a));
        },
    }
}

/// A piece that reaches into the rightmost column, and not only into it,
/// cannot move right: the layout one place on is refused.
pub proof fn law_right_edge_blocks_right_move(piece: PieceView)
    requires
        piece.wf(),
        exists|i: int| 0 <= i < 4 && column(piece.cells[i]) == 9,
        exists|i: int| 0 <= i < 4 && column(piece.cells[i]) != 9,
    ensures
        !not_off_side(moved_right(piece.cells)),
{
    let c = piece.cells;
    let m = moved_right(c);
    lemma_edge_has_inner_neighbour(piece);
    let i = choose|i: int| 0 <= i < 4 && column(c[i]) == 9;
    let j = choose|j: int| 0 <= j < 4 && column(c[j]) == 8;
    lemma_step_columns(c[i]);
    lemma_step_columns(c[j]);
    lemma_edge_pair_refused(m, i, j);
}

/// A piece that reaches into the leftmost column, and not only into it,
/// cannot move left: the layout one place back is refused. The piece must
/// not hold the very first cell of the board, which has no cell before it.
pub proof fn law_left_edge_blocks_left_move(piece: PieceView)
    requires
        piece.wf(),
        forall|i: int| 0 <= i < 4 ==> piece.cells[i] > 0,
        exists|i: int| 0 <= i < 4 && column(piece.cells[i]) == 0,
        exists|i: int| 0 <= i < 4 && column(piece.cells[i]) != 0,
    ensures
        !not_off_side(moved_left(piece.cells)),
{
    let c = piece.cells;
    let m = moved_left(c);
    lemma_edge_has_inner_neighbour(piece);
    let i = choose|i: int| 0 <= i < 4 && column(c[i]) == 0;
    let j = choose|j: int| 0 <= j < 4 && column(c[j]) == 1;
    lemma_step_columns(c[i]);
    lemma_step_columns(c[j]);
    lemma_edge_pair_refused(m, j, i);
}

/// A layout that fits between two columns at most three apart, without
/// running over the right edge, is accepted.
pub proof fn law_narrow_layout_accepted(posit: Seq<usize>, leftmost: int)
    requires
        posit.len() == 4,
        0 <= leftmost,
        leftmost + 3 <= 9,
        forall|i: int| 0 <= i < 4 ==> leftmost <= #[trigger] column(posit[i]) <= leftmost + 3,
    ensures
        not_off_side(posit),
{
}

/// One place on is one column on, round the edge; one place back is one
/// column back.
proof fn lemma_step_columns(cell: usize)
    requires
        cell < NUM_CELLS,
    ensures
        column(displaced(cell, 1)) == (column(cell) + 1) % 10,
        cell > 0 ==> column(displaced(cell, -1)) == (column(cell) + 9) % 10,
{
}

/// A layout with one cell in the leftmost and one in the rightmost column
/// is refused.
proof fn lemma_edge_pair_refused(posit: Seq<usize>, left: int, right: int)
    requires
        0 <= left < 4,
        0 <= right < 4,
        column(posit[left]) == 0,
        column(posit[right]) == 9,
    ensures
        !not_off_side(posit),
{
}

/// In a well-formed piece that does not wrap, a cell in an edge column has
/// a cell in the column next to it, unless the whole piece lies in the edge
/// column.
proof fn lemma_edge_has_inner_neighbour(piece: PieceView)
    requires
        piece.wf(),
    ensures
        (exists|i: int| 0 <= i < 4 && column(piece.cells[i]) == 9) && (exists|i: int|
            0 <= i < 4 && column(piece.cells[i]) != 9) ==> exists|j: int|
            0 <= j < 4 && column(piece.cells[j]) == 8,
        (exists|i: int| 0 <= i < 4 && column(piece.cells[i]) == 0) && (exists|i: int|
            0 <= i < 4 && column(piece.cells[i]) != 0) ==> exists|j: int|
            0 <= j < 4 && column(piece.cells[j]) == 1,
{
    let c = piece.cells;
    assert(c[0] < NUM_CELLS && c[1] < NUM_CELLS && c[2] < NUM_CELLS && c[3] < NUM_CELLS);
    let k0 = column(c[0]);
    let k1 = column(c[1]);
    let k2 = column(c[2]);
    let k3 = column(c[3]);
    assert(!(k0 == 0 && k1 == 9) && !(k1 == 0 && k0 == 9));
    assert(!(k0 == 0 && k2 == 9) && !(k2 == 0 && k0 == 9));
    assert(!(k0 == 0 && k3 == 9) && !(k3 == 0 && k0 == 9));
    assert(!(k1 == 0 && k2 == 9) && !(k2 == 0 && k1 == 9));
    assert(!(k1 == 0 && k3 == 9) && !(k3 == 0 && k1 == 9));
    assert(!(k2 == 0 && k3 == 9) && !(k3 == 0 && k2 == 9));
}

impl PieceShape {
    pub fn get_color(&self) -> (color: Color)
        ensures
            color == shape_color(*self),
    {
        match *self {
            PieceShape::Straight => LIGHT_BLUE,
            PieceShape::LShape => ORANGE,
            PieceShape::BackwardLShape => BLUE,
            PieceShape::TShape => PURPLE,
            PieceShape::RightZig => GREEN,
            PieceShape::LeftZig => RED,
            PieceShape::Square => YELLOW,
        }
    }
}

/// `cell + by`, or `OFF_BOARD` where that is no index.
fn step_ahead(cell: usize, by: usize) -> (r: usize)
    ensures
        r == displaced(cell, by as int),
{
    if cell <= usize::MAX - by {
        cell + by
    } else {
        OFF_BOARD
    }
}

/// `cell - by`, or `OFF_BOARD` where that is no index.
fn step_back(cell: usize, by: usize) -> (r: usize)
    ensures
        r == displaced(cell, -(by as int)),
{
    if cell >= by {
        cell - by
    } else {
        OFF_BOARD
    }
}

/// The falling tetromino.
#[derive(Debug)]
pub struct Piece {
    cells: [usize; 4],
    color: Color,
    shape: PieceShape,
    orientation: Orientation,
}

impl View for Piece {
    type V = PieceView;

    closed spec fn view(&self) -> PieceView {
        PieceView {
            cells: self.cells@,
            color: self.color,
            shape: self.shape,
            orientation: self.orientation,
        }
    }
}

impl Piece {
    /// A piece of the given shape on its spawn cells, facing up.
    pub fn create(shape: PieceShape) -> (piece: Piece)
        ensures
            piece@ == spawned(shape),
            piece@.wf(),
    {
        let cells: [usize; 4] = match shape {
            PieceShape::Straight => [33, 34, 35, 36],
            PieceShape::LShape => [34, 33, 25, 35],
            PieceShape::BackwardLShape => [34, 33, 23, 35],
            PieceShape::TShape => [34, 33, 35, 24],
            PieceShape::RightZig => [34, 33, 24, 25],
            PieceShape::LeftZig => [34, 24, 23, 35],
            PieceShape::Square => [24, 25, 34, 35],
        };
        assert(cells@ =~= spawn_cells(shape));
        proof {
            lemma_spawn_cells_clear_of_the_sides(shape);
        }
        Piece { cells, color: shape.get_color(), shape, orientation: Orientation::Up }
    }

    /// Puts the piece on other cells. Shape, colour and orientation stay.
    pub fn move_to(&mut self, new_posit: [usize; 4])
        ensures
            final(self)@ == old(self)@.at(new_posit@),
    {
        self.cells = new_posit;
    }

    pub fn color(&self) -> (color: Color)
        ensures
            color == self@.color,
    {
        self.color
    }

    pub fn shape(&self) -> (shape: PieceShape)
        ensures
            shape == self@.shape,
    {
        self.shape
    }

    pub fn orientation(&self) -> (orientation: Orientation)
        ensures
            orientation == self@.orientation,
    {
        self.orientation
    }

    pub fn cells(&self) -> (cells: [usize; 4])
        ensures
            cells@ == self@.cells,
    {
        self.cells
    }

    pub fn get_cell(&self, index: usize) -> (cell: usize)
        requires
            index < 4,
        ensures
            cell == self@.cells[index as int],
    {
        self.cells[index]
    }

    /// Where a clockwise turn would put the piece. The square stays, the
    /// straight swings about its centre, the others pivot on their first cell.
    pub fn potential_cw_posit(&self) -> (posit: [usize; 4])
        requires
            self@.can_turn(),
        ensures
            posit@ == turned(self@),
    {
        match self.shape {
            PieceShape::Square => self.cells,
            PieceShape::Straight => self.i_cw(),
            _ => self.cw(),
        }
    }

    pub fn potential_down_posit(&self) -> (posit: [usize; 4])
        ensures
            posit@ == moved_down(self@.cells),
    {
        let posit: [usize; 4] = [
            step_ahead(self.cells[0], 10),
            step_ahead(self.cells[1], 10),
            step_ahead(self.cells[2], 10),
            step_ahead(self.cells[3], 10),
        ];
        assert(posit@ =~= moved_down(self@.cells));
        posit
    }

    pub fn potential_right_posit(&self) -> (posit: [usize; 4])
        ensures
            posit@ == moved_right(self@.cells),
    {
        let posit: [usize; 4] = [
            step_ahead(self.cells[0], 1),
            step_ahead(self.cells[1], 1),
            step_ahead(self.cells[2], 1),
            step_ahead(self.cells[3], 1),
        ];
        assert(posit@ =~= moved_right(self@.cells));
        posit
    }

    pub fn potential_left_posit(&self) -> (posit: [usize; 4])
        ensures
            posit@ == moved_left(self@.cells),
    {
        let posit: [usize; 4] = [
            step_back(self.cells[0], 1),
            step_back(self.cells[1], 1),
            step_back(self.cells[2], 1),
            step_back(self.cells[3], 1),
        ];
        assert(posit@ =~= moved_left(self@.cells));
        posit
    }

    /// Advances the orientation by a quarter turn. The cells stay.
    pub fn rotate_orient_cw(&mut self)
        ensures
            final(self)@ == old(self)@.reoriented(),
    {
        match self.orientation {
            Orientation::Up => self.orientation = Orientation::Right,
            Orientation::Right => self.orientation = Orientation::Down,
            Orientation::Down => self.orientation = Orientation::Left,
            Orientation::Left => self.orientation = Orientation::Up,
        };
    }

    fn i_cw(&self) -> (posit: [usize; 4])
        ensures
            posit@ == straight_turned(self@.cells, self@.orientation),
    {
        let c = self.cells;
        let posit: [usize; 4] = match self.orientation {
            Orientation::Up => [
                step_back(c[0], 8),
                step_ahead(c[1], 1),
                step_ahead(c[2], 10),
                step_ahead(c[3], 19),
            ],
            Orientation::Right => [
                step_ahead(c[0], 21),
                step_ahead(c[1], 10),
                step_back(c[2], 1),
                step_back(c[3], 12),
            ],
            Orientation::Down => [
                step_ahead(c[0], 8),
                step_back(c[1], 1),
                step_back(c[2], 10),
                step_back(c[3], 19),
            ],
            Orientation::Left => [
                step_back(c[0], 21),
                step_back(c[1], 10),
                step_ahead(c[2], 1),
                step_ahead(c[3], 12),
            ],
        };
        assert(posit@ =~= straight_turned(self@.cells, self@.orientation));
        posit
    }

    fn cw(&self) -> (posit: [usize; 4])
        requires
            beside(self@.cells[0], self@.cells[1]),
            beside(self@.cells[0], self@.cells[2]),
            beside(self@.cells[0], self@.cells[3]),
        ensures
            posit@ == pivot_turned(self@.cells),
    {
        let anchor = self.cells[0];
        let posit: [usize; 4] = [
            anchor,
            Self::turn_about(anchor, self.cells[1]),
            Self::turn_about(anchor, self.cells[2]),
            Self::turn_about(anchor, self.cells[3]),
        ];
        assert(posit@ =~= pivot_turned(self@.cells));
        posit
    }

    /// One cell of the pivot turn: the index distance to the pivot picks the
    /// neighbour a quarter turn on.
    fn turn_about(anchor: usize, cell: usize) -> (r: usize)
        requires
            beside(anchor, cell),
        ensures
            r == turned_about(anchor, cell),
    {
        if cell > anchor {
            let d: usize = cell - anchor;
            if d == 1 {
                step_ahead(anchor, 10)
            } else if d == 11 {
                step_ahead(anchor, 9)
            } else if d == 10 {
                step_back(anchor, 1)
            } else {
                step_back(anchor, 11)
            }
        } else {
            let d: usize = anchor - cell;
            if d == 1 {
                step_back(anchor, 10)
            } else if d == 11 {
                step_back(anchor, 9)
            } else if d == 10 {
                step_ahead(anchor, 1)
            } else {
                step_ahead(anchor, 11)
            }
        }
    }

    /// Whether a layout keeps clear of both side edges at once.
    pub fn is_not_off_side(posit: [usize; 4]) -> (ok: bool)
        ensures
            ok == not_off_side(posit@),
    {
        let mut has_zero = false;
        let mut has_nine = false;
        let mut i: usize = 0;
        while i < 4
            invariant
                i <= 4,
                has_zero == (exists|k: int| 0 <= k < i && #[trigger] column(posit@[k]) == 0),
                has_nine == (exists|k: int| 0 <= k < i && #[trigger] column(posit@[k]) == 9),
            decreases 4 - i,
        {
            let modulo: usize = posit[i] % 10;
            assert(modulo == column(posit@[i as int]));
            if modulo == 0 {
                has_zero = true;
            }
            if modulo == 9 {
                has_nine = true;
            }
            i += 1;
        }
        !(has_zero && has_nine)
    }
}

} // verus!
