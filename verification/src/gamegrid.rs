//! The board: its cells, the falling piece, and the rules of a tick.

use vstd::prelude::*;
use crate::board::{
    active_cell, activated, among, closed_cell, legal, lemma_changes_keep_cells_wf,
    lemma_legal_on_board, lemma_moved_steady, lemma_respawned_steady, lemma_rotated_steady,
    lemma_row_cleared_keeps, lemma_rows_checked_steady, lemma_swept, lemma_swept_keeps_rest,
    lemma_ticked_steady, lifted, locked, relocated, row_cleared, row_full, shifted_down, swept,
    top_has_closed, GridView, TOP_CELLS,
};
use crate::colors::{Color, OPEN_COLOR};
use crate::piece::{
    lemma_move_keeps_wf, lemma_spawn_cells_clear_of_the_sides, lemma_turn_keeps_wf, moved_left,
    moved_right, on_board, spawned, Piece, COLUMNS, NUM_CELLS, ROWS,
};
use crate::supply::{is_batch, popped, PieceGenerator, SourceView};

verus! {

/// Whether a cell is free, holds part of the locked stack, or holds part of
/// the falling piece.
#[derive(Debug, Clone, Copy, PartialEq, Eq, Structural)]
pub enum CellStatus {
    Open,
    Closed,
    Active,
}

/// What a cell holds, as a plain value.
pub struct CellView {
    pub status: CellStatus,
    pub color: Color,
}

impl CellView {
    /// The value of every open cell.
    pub open spec fn open() -> CellView {
        CellView { status: CellStatus::Open, color: OPEN_COLOR }
    }

    /// An open cell carries the open colour.
    pub open spec fn wf(self) -> bool {
        self.status == CellStatus::Open ==> self.color == OPEN_COLOR
    }
}

/// One slot of the board.
#[derive(Debug, Clone, Copy, PartialEq, Eq)]
pub struct Cell {
    color: Color,
    status: CellStatus,
}

impl View for Cell {
    type V = CellView;

    closed spec fn view(&self) -> CellView {
        CellView { status: self.status, color: self.color }
    }
}

impl Cell {
    /// A fresh cell is open.
    pub fn new() -> (cell: Cell)
        ensures
            cell@ == CellView::open(),
    {
        Cell { color: OPEN_COLOR, status: CellStatus::Open }
    }

    pub fn get_status(&self) -> (status: CellStatus)
        ensures
            status == self@.status,
    {
        self.status
    }

    /// Dispatches to `open`, `close` or `active`.
    pub fn set_status(&mut self, new_status: CellStatus)
        ensures
            final(self)@.status == new_status,
            final(self)@.color == if new_status == CellStatus::Open {
                OPEN_COLOR
            } else {
                old(self)@.color
            },
    {
        match new_status {
            CellStatus::Open => self.open(),
            CellStatus::Closed => self.close(),
            CellStatus::Active => self.active(),
        }
    }

    /// Opening a cell also resets its colour.
    pub fn open(&mut self)
        ensures
            final(self)@ == CellView::open(),
    {
        self.status = CellStatus::Open;
        self.color = OPEN_COLOR;
    }

    /// Closing keeps the colour the cell had.
    pub fn close(&mut self)
        ensures
            final(self)@ == (CellView { status: CellStatus::Closed, color: old(self)@.color }),
    {
        self.status = CellStatus::Closed;
    }

    /// Activating keeps the colour the cell had.
    pub fn active(&mut self)
        ensures
            final(self)@ == (CellView { status: CellStatus::Active, color: old(self)@.color }),
    {
        self.status = CellStatus::Active;
    }

    pub fn get_color(&self) -> (color: Color)
        ensures
            color == self@.color,
    {
        self.color
    }

    /// Sets the colour and nothing else. On an open cell any colour but the
    /// open one leaves the cell ill-formed until it is opened again.
    pub fn set_color(&mut self, color: Color)
        ensures
            final(self)@ == (CellView { status: old(self)@.status, color }),
    {
        self.color = color;
    }
}

/// Why a cell could not be changed.
#[derive(Debug, Clone, Copy, PartialEq, Eq, Structural)]
pub enum GridError {
    /// The index names no cell of the board.
    InvalidIndex,
}

/// The cells of the board as plain values.
pub open spec fn cell_views(cells: Seq<Cell>) -> Seq<CellView> {
    Seq::new(cells.len(), |i: int| cells[i]@)
}

/// Whether two boards differ in their cells at most.
pub open spec fn same_but_cells(pre: GridView, post: GridView) -> bool {
    &&& post.piece == pre.piece
    &&& post.supply == pre.supply
    &&& post.game_over == pre.game_over
}

/// Whether cell `i` is one of the first `n` cells of a layout.
pub open spec fn among_first(posit: Seq<usize>, n: int, i: int) -> bool {
    (n > 0 && posit[0] == i) || (n > 1 && posit[1] == i) || (n > 2 && posit[2] == i) || (n > 3
        && posit[3] == i)
}

/// The board: 24 rows of 10 cells, row by row, the piece that falls, the
/// supply of shapes, and whether the game is over.
pub struct Grid {
    cells: Vec<Cell>,
    active_piece: Piece,
    piece_generator: PieceGenerator,
    game_over: bool,
}

impl View for Grid {
    type V = GridView;

    closed spec fn view(&self) -> GridView {
        GridView {
            cells: cell_views(self.cells@),
            piece: self.active_piece@,
            supply: self.piece_generator@,
            game_over: self.game_over,
        }
    }
}

impl Grid {
    /// An empty board with a randomly shuffled supply and its first piece
    /// on its spawn cells.
    pub fn init() -> (grid: Grid)
        ensures
            grid@.wf(),
            grid@.steady(),
            grid@.piece == spawned(grid@.piece.shape),
            forall|i: int|
                0 <= i < NUM_CELLS ==> #[trigger] grid@.cells[i] == if among(grid@.piece.cells, i) {
                    active_cell(grid@.piece.color)
                } else {
                    CellView::open()
                },
            is_batch(seq![grid@.piece.shape] + grid@.supply.queue),
            grid@.supply.source == SourceView::Random,
            !grid@.game_over,
    {
        let generator = PieceGenerator::new();
        let ghost first = generator@.queue;
        let grid = Grid::with_generator(generator);
        proof {
            assert(seq![grid@.piece.shape] + grid@.supply.queue =~= first);
        }
        grid
    }

    /// An empty board that takes its pieces from `generator`, with the first
    /// of them on its spawn cells.
    pub fn with_generator(generator: PieceGenerator) -> (grid: Grid)
        requires
            generator@.wf(),
        ensures
            grid@.wf(),
            grid@.steady(),
            grid@.piece == spawned(generator@.queue[0]),
            forall|i: int|
                0 <= i < NUM_CELLS ==> #[trigger] grid@.cells[i] == if among(grid@.piece.cells, i) {
                    active_cell(grid@.piece.color)
                } else {
                    CellView::open()
                },
            popped(generator@, grid@.supply),
            !grid@.game_over,
    {
        let mut cells: Vec<Cell> = Vec::new();
        let mut i: usize = 0;
        while i < NUM_CELLS
            invariant
                i <= NUM_CELLS,
                cells.len() == i,
                forall|k: int| 0 <= k < i ==> cells[k]@ == CellView::open(),
            decreases NUM_CELLS - i,
        {
            cells.push(Cell::new());
            i += 1;
        }
        let mut generator = generator;
        let active_piece = generator.pop();
        let mut grid = Grid { cells, active_piece, piece_generator: generator, game_over: false };
        let ghost bare = grid@;
        proof {
            lemma_spawn_cells_clear_of_the_sides(bare.piece.shape);
        }
        grid.place_piece();
        proof {
            assert forall|i: int| 0 <= i < NUM_CELLS implies (#[trigger] grid@.cells[i]).wf() by {
                assert(bare.cells[i] == CellView::open());
            }
            assert forall|row: int| 0 <= row < 24 implies !#[trigger] row_full(
                grid@.cells,
                row,
            ) by {
                assert(bare.cells[row * 10] == CellView::open());
                assert(grid@.cells[row * 10].status != CellStatus::Closed);
            }
        }
        grid
    }

    /// Puts the next piece of the supply in the place of the falling piece:
    /// the cells of the old piece that are still active are opened, and the
    /// four spawn cells of the new piece are made active in its colour.
    pub fn new_piece(&mut self)
        requires
            old(self)@.wf(),
        ensures
            final(self)@.wf(),
            old(self)@.respawned(final(self)@),
            old(self)@.steady() ==> final(self)@.steady(),
    {
        let ghost pre = self@;
        self.lift_piece();
        self.active_piece = self.piece_generator.pop();
        proof {
            lemma_spawn_cells_clear_of_the_sides(self@.piece.shape);
        }
        self.place_piece();
        proof {
            let bare = lifted(pre.cells, pre.piece.cells);
            lemma_changes_keep_cells_wf(pre.cells, pre.piece.cells, pre.piece.cells, pre.piece.color);
            lemma_changes_keep_cells_wf(bare, self@.piece.cells, self@.piece.cells, self@.piece.color);
            if pre.steady() {
                lemma_respawned_steady(pre, self@);
            }
        }
    }

    /// Opens the cells of the piece that are active.
    fn lift_piece(&mut self)
        requires
            old(self)@.cells.len() == NUM_CELLS,
            on_board(old(self)@.piece.cells),
        ensures
            final(self)@ == (GridView {
                cells: lifted(old(self)@.cells, old(self)@.piece.cells),
                ..old(self)@
            }),
    {
        let ghost pre = self@;
        let mut i: usize = 0;
        while i < 4
            invariant
                i <= 4,
                pre.cells.len() == NUM_CELLS,
                on_board(pre.piece.cells),
                self.cells.len() == NUM_CELLS,
                same_but_cells(pre, self@),
                self@.cells =~= Seq::new(
                    NUM_CELLS as nat,
                    |j: int|
                        if among_first(pre.piece.cells, i as int, j) && pre.cells[j].status
                            == CellStatus::Active {
                            CellView::open()
                        } else {
                            pre.cells[j]
                        },
                ),
            decreases 4 - i,
        {
            let cell_num = self.active_piece.get_cell(i);
            assert(pre.piece.cells[i as int] < NUM_CELLS);
            if self.cells[cell_num].get_status() == CellStatus::Active {
                let _ = self.open_cell(cell_num);
            }
            assert(self@.cells =~= Seq::new(
                NUM_CELLS as nat,
                |j: int|
                    if among_first(pre.piece.cells, i + 1, j) && pre.cells[j].status
                        == CellStatus::Active {
                        CellView::open()
                    } else {
                        pre.cells[j]
                    },
            ));
            i += 1;
        }
        assert(self@.cells =~= lifted(pre.cells, pre.piece.cells));
    }

    /// Makes the four cells of the piece active in its colour.
    fn place_piece(&mut self)
        requires
            old(self)@.cells.len() == NUM_CELLS,
            on_board(old(self)@.piece.cells),
        ensures
            final(self)@ == (GridView {
                cells: activated(old(self)@.cells, old(self)@.piece.cells, old(self)@.piece.color),
                ..old(self)@
            }),
    {
        let ghost pre = self@;
        let color = self.active_piece.color();
        let mut i: usize = 0;
        while i < 4
            invariant
                i <= 4,
                pre.cells.len() == NUM_CELLS,
                on_board(pre.piece.cells),
                color == pre.piece.color,
                same_but_cells(pre, self@),
                self@.cells =~= Seq::new(
                    NUM_CELLS as nat,
                    |j: int|
                        if among_first(pre.piece.cells, i as int, j) {
                            active_cell(color)
                        } else {
                            pre.cells[j]
                        },
                ),
            decreases 4 - i,
        {
            let cell_num = self.active_piece.get_cell(i);
            let _ = self.activate_cell(cell_num, color);
            assert(self@.cells =~= Seq::new(
                NUM_CELLS as nat,
                |j: int|
                    if among_first(pre.piece.cells, i + 1, j) {
                        active_cell(color)
                    } else {
                        pre.cells[j]
                    },
            ));
            i += 1;
        }
        assert(self@.cells =~= activated(pre.cells, pre.piece.cells, pre.piece.color));
    }

    /// Closes a cell in the given colour.
    pub fn close_cell(&mut self, cell_num: usize, color: Color) -> (done: Result<(), GridError>)
        ensures
            old(self)@.wf() ==> final(self)@.wf(),
            done is Ok <==> cell_num < old(self)@.cells.len(),
            done is Err ==> final(self)@ == old(self)@,
            done is Ok ==> final(self)@ == (GridView {
                cells: old(self)@.cells.update(cell_num as int, closed_cell(color)),
                ..old(self)@
            }),
    {
        self.change_cell_status(cell_num, CellStatus::Closed, color)
    }

    /// Opens a cell.
    pub fn open_cell(&mut self, cell_num: usize) -> (done: Result<(), GridError>)
        ensures
            old(self)@.wf() ==> final(self)@.wf(),
            done is Ok <==> cell_num < old(self)@.cells.len(),
            done is Err ==> final(self)@ == old(self)@,
            done is Ok ==> final(self)@ == (GridView {
                cells: old(self)@.cells.update(cell_num as int, CellView::open()),
                ..old(self)@
            }),
    {
        self.change_cell_status(cell_num, CellStatus::Open, OPEN_COLOR)
    }

    /// Makes a cell active in the given colour.
    pub fn activate_cell(&mut self, cell_num: usize, color: Color) -> (done: Result<(), GridError>)
        ensures
            old(self)@.wf() ==> final(self)@.wf(),
            done is Ok <==> cell_num < old(self)@.cells.len(),
            done is Err ==> final(self)@ == old(self)@,
            done is Ok ==> final(self)@ == (GridView {
                cells: old(self)@.cells.update(cell_num as int, active_cell(color)),
                ..old(self)@
            }),
    {
        self.change_cell_status(cell_num, CellStatus::Active, color)
    }

    /// Sets status and colour of one cell, or fails on an index that names
    /// no cell. An open cell takes the open colour, whatever colour is given.
    fn change_cell_status(
        &mut self,
        cell_num: usize,
        new_status: CellStatus,
        new_color: Color,
    ) -> (done: Result<(), GridError>)
        ensures
            old(self)@.wf() ==> final(self)@.wf(),
            done is Ok <==> cell_num < old(self)@.cells.len(),
            done is Err ==> final(self)@ == old(self)@,
            done is Ok ==> final(self)@ == (GridView {
                cells: old(self)@.cells.update(
                    cell_num as int,
                    CellView {
                        status: new_status,
                        color: if new_status == CellStatus::Open {
                            OPEN_COLOR
                        } else {
                            new_color
                        },
                    },
                ),
                ..old(self)@
            }),
    {
        if cell_num >= self.cells.len() {
            return Err(GridError::InvalidIndex);
        }
        let mut cell = self.cells[cell_num];
        cell.set_color(new_color);
        cell.set_status(new_status);
        self.cells.set(cell_num, cell);
        proof {
            let changed = old(self)@.cells.update(cell_num as int, cell@);
            assert(self@.cells =~= changed);
            assert(cell@.wf());
            if old(self)@.wf() {
                assert forall|i: int| 0 <= i < changed.len() implies (#[trigger] changed[i]).wf() by {
                    if i != cell_num {
                        assert(old(self)@.cells[i].wf());
                    }
                }
            }
        }
        Ok(())
    }

    /// Whether an index names a cell of the board.
    pub fn is_valid_cell(&self, cell_num: usize) -> (valid: bool)
        ensures
            valid == (cell_num < NUM_CELLS),
    {
        cell_num < NUM_CELLS
    }

    /// The cells, row by row from the top left.
    pub fn iter(&self) -> (cells: &[Cell])
        ensures
            cell_views(cells@) == self@.cells,
    {
        self.cells.as_slice()
    }

    /// The cells, row by row from the top left, for the caller to change.
    /// The board stays well formed where the caller leaves every open cell
    /// in the open colour.
    pub fn iter_mut(&mut self) -> (cells: &mut [Cell])
        ensures
            cell_views(cells@) == old(self)@.cells,
            final(self)@.cells == cell_views(final(cells)@),
            same_but_cells(old(self)@, final(self)@),
    {
        self.cells.as_mut_slice()
    }

    /// The piece that falls.
    pub fn active_piece(&self) -> (piece: &Piece)
        ensures
            piece@ == self@.piece,
    {
        &self.active_piece
    }

    pub fn is_game_over(&self) -> (over: bool)
        ensures
            over == self@.game_over,
    {
        self.game_over
    }

    fn game_over(&mut self)
        ensures
            final(self)@ == (GridView { game_over: true, ..old(self)@ }),
    {
        self.game_over = true;
    }

    /// Whether the piece may stand on `posit`.
    pub fn check_posit(&self, posit: [usize; 4]) -> (ok: bool)
        requires
            self@.wf(),
        ensures
            ok == legal(self@.cells, posit@),
    {
        let mut i: usize = 0;
        while i < 4
            invariant
                i <= 4,
                self@.wf(),
                forall|k: int|
                    0 <= k < i ==> #[trigger] posit@[k] < NUM_CELLS && self@.cells[posit@[k] as int].status
                        != CellStatus::Closed,
            decreases 4 - i,
        {
            let index = posit[i];
            if !self.is_valid_cell(index) || self.cells[index].get_status() == CellStatus::Closed {
                assert(!(posit@[i as int] < NUM_CELLS && self@.cells[posit@[i as int] as int].status
                    != CellStatus::Closed));
                return false;
            }
            i += 1;
        }
        Piece::is_not_off_side(posit)
    }

    /// Whether all ten cells of a row are closed.
    pub fn check_if_row_full(&self, row: usize) -> (full: bool)
        requires
            self@.wf(),
            row < ROWS,
        ensures
            full == row_full(self@.cells, row as int),
    {
        let mut result = true;
        let mut i: usize = 0;
        while i < COLUMNS
            invariant
                i <= COLUMNS,
                row < ROWS,
                self@.wf(),
                result == (forall|k: int|
                    row * 10 <= k < row * 10 + i ==> (#[trigger] self@.cells[k]).status
                        == CellStatus::Closed),
            decreases COLUMNS - i,
        {
            let index = (row * 10) + i;
            let cell = self.cells[index];
            match cell.get_status() {
                CellStatus::Closed => {},
                _ => {
                    result = false;
                    assert(self@.cells[index as int].status != CellStatus::Closed);
                },
            }
            i += 1;
        }
        result
    }

    /// Whether one of the top four rows holds a closed cell.
    pub fn check_if_game_over(&self) -> (over: bool)
        requires
            self@.wf(),
        ensures
            over == top_has_closed(self@.cells),
    {
        let mut result = false;
        let mut i: usize = 0;
        while i < TOP_CELLS
            invariant
                i <= TOP_CELLS,
                self@.wf(),
                result == (exists|k: int|
                    0 <= k < i && (#[trigger] self@.cells[k]).status == CellStatus::Closed),
            decreases TOP_CELLS - i,
        {
            match self.cells[i].get_status() {
                CellStatus::Closed => {
                    result = true;
                    assert(self@.cells[i as int].status == CellStatus::Closed);
                },
                _ => {},
            }
            i += 1;
        }
        result
    }

    /// Takes the piece from its cells to `new_posit`: opens the old cells,
    /// records the new ones in the piece, and makes them active in the
    /// piece's colour.
    fn move_active_to(&mut self, new_posit: [usize; 4])
        requires
            old(self)@.cells.len() == NUM_CELLS,
            on_board(old(self)@.piece.cells),
            on_board(new_posit@),
        ensures
            final(self)@ == (GridView {
                cells: relocated(
                    old(self)@.cells,
                    old(self)@.piece.cells,
                    new_posit@,
                    old(self)@.piece.color,
                ),
                piece: old(self)@.piece.at(new_posit@),
                ..old(self)@
            }),
            old(self)@.piece_placed() ==> final(self)@.piece_placed(),
    {
        let ghost pre = self@;
        let mut i: usize = 0;
        while i < 4
            invariant
                i <= 4,
                pre.cells.len() == NUM_CELLS,
                on_board(pre.piece.cells),
                same_but_cells(pre, self@),
                self@.cells =~= Seq::new(
                        NUM_CELLS as nat,
                        |j: int|
                            if among_first(pre.piece.cells, i as int, j) {
                                CellView::open()
                            } else {
                                pre.cells[j]
                            },
                    ),
            decreases 4 - i,
        {
            let cell_num = self.active_piece.get_cell(i);
            let _ = self.open_cell(cell_num);
            assert(self@.cells =~= Seq::new(
                NUM_CELLS as nat,
                |j: int|
                    if among_first(pre.piece.cells, i + 1, j) {
                        CellView::open()
                    } else {
                        pre.cells[j]
                    },
            ));
            i += 1;
        }
        self.active_piece.move_to(new_posit);
        let ghost opened = self@.cells;
        let color = self.active_piece.color();
        let mut i: usize = 0;
        while i < 4
            invariant
                i <= 4,
                pre.cells.len() == NUM_CELLS,
                on_board(new_posit@),
                color == pre.piece.color,
                opened.len() == NUM_CELLS,
                self@.piece == pre.piece.at(new_posit@),
                self@.supply == pre.supply,
                self@.game_over == pre.game_over,
                self@.cells =~= Seq::new(
                    NUM_CELLS as nat,
                    |j: int|
                        if among_first(new_posit@, i as int, j) {
                            active_cell(color)
                        } else {
                            opened[j]
                        },
                ),
            decreases 4 - i,
        {
            let cell_num = new_posit[i];
            let _ = self.activate_cell(cell_num, color);
            assert(self@.cells =~= Seq::new(
                NUM_CELLS as nat,
                |j: int|
                    if among_first(new_posit@, i + 1, j) {
                        active_cell(color)
                    } else {
                        opened[j]
                    },
            ));
            i += 1;
        }
        assert(self@.cells =~= relocated(pre.cells, pre.piece.cells, new_posit@, pre.piece.color));
        proof {
            if pre.piece_placed() {
                assert forall|j: int| 0 <= j < NUM_CELLS implies ((#[trigger] self@.cells[j]).status
                    == CellStatus::Active <==> among(new_posit@, j)) by {
                    assert(pre.cells[j].status == CellStatus::Active <==> among(pre.piece.cells, j));
                }
            }
        }
    }

    /// One tick, under its other name.
    pub fn move_active_down(&mut self)
        requires
            old(self)@.wf(),
        ensures
            final(self)@.wf(),
            old(self)@.ticked(final(self)@),
            old(self)@.steady() ==> final(self)@.steady(),
            old(self)@.game_over ==> final(self)@.game_over,
    {
        self.cycle();
    }

    /// Moves the piece one column to the right if it may stand there.
    pub fn move_active_right(&mut self)
        requires
            old(self)@.wf(),
        ensures
            final(self)@.wf(),
            final(self)@ == old(self)@.moved_to(moved_right(old(self)@.piece.cells)),
            old(self)@.steady() ==> final(self)@.steady(),
    {
        let potential_posit = self.active_piece.potential_right_posit();
        if !self.check_posit(potential_posit) {
            return ;
        }
        proof {
            lemma_legal_on_board(self@.cells, potential_posit@);
            lemma_move_keeps_wf(self@.piece, potential_posit@);
            lemma_changes_keep_cells_wf(
                self@.cells,
                self@.piece.cells,
                potential_posit@,
                self@.piece.color,
            );
            if self@.steady() {
                lemma_moved_steady(self@, potential_posit@);
            }
        }
        self.move_active_to(potential_posit);
    }

    /// Moves the piece one column to the left if it may stand there.
    pub fn move_active_left(&mut self)
        requires
            old(self)@.wf(),
        ensures
            final(self)@.wf(),
            final(self)@ == old(self)@.moved_to(moved_left(old(self)@.piece.cells)),
            old(self)@.steady() ==> final(self)@.steady(),
    {
        let potential_posit = self.active_piece.potential_left_posit();
        if !self.check_posit(potential_posit) {
            return ;
        }
        proof {
            lemma_legal_on_board(self@.cells, potential_posit@);
            lemma_move_keeps_wf(self@.piece, potential_posit@);
            lemma_changes_keep_cells_wf(
                self@.cells,
                self@.piece.cells,
                potential_posit@,
                self@.piece.color,
            );
            if self@.steady() {
                lemma_moved_steady(self@, potential_posit@);
            }
        }
        self.move_active_to(potential_posit);
    }

    /// Turns the piece clockwise if it may stand on the turned cells, and
    /// only then advances its orientation.
    pub fn rotate_active_cw(&mut self)
        requires
            old(self)@.wf(),
        ensures
            final(self)@.wf(),
            final(self)@ == old(self)@.rotated(),
            old(self)@.steady() ==> final(self)@.steady(),
    {
        let potential_posit = self.active_piece.potential_cw_posit();
        if self.check_posit(potential_posit) {
            proof {
                lemma_legal_on_board(self@.cells, potential_posit@);
                lemma_turn_keeps_wf(self@.piece);
                lemma_changes_keep_cells_wf(
                    self@.cells,
                    self@.piece.cells,
                    potential_posit@,
                    self@.piece.color,
                );
                if self@.steady() {
                    lemma_rotated_steady(self@);
                }
            }
            self.move_active_to(potential_posit);
            self.active_piece.rotate_orient_cw();
        }
    }

    /// One tick. The piece moves down a row if it can, and the rows are
    /// checked. Where it cannot, it is locked, the rows are checked, and the
    /// next piece takes its place on the board after that, so that no
    /// clearing carries its cells away from under it.
    pub fn cycle(&mut self)
        requires
            old(self)@.wf(),
        ensures
            final(self)@.wf(),
            old(self)@.ticked(final(self)@),
            old(self)@.steady() ==> final(self)@.steady(),
            old(self)@.game_over ==> final(self)@.game_over,
    {
        let ghost pre = self@;
        let potential_posit = self.active_piece.potential_down_posit();
        if self.check_posit(potential_posit) {
            proof {
                lemma_legal_on_board(self@.cells, potential_posit@);
                lemma_move_keeps_wf(self@.piece, potential_posit@);
                lemma_changes_keep_cells_wf(
                    self@.cells,
                    self@.piece.cells,
                    potential_posit@,
                    self@.piece.color,
                );
            }
            self.move_active_to(potential_posit);
            self.check_rows();
        } else {
            let mut i: usize = 0;
            while i < 4
                invariant
                    i <= 4,
                    pre.wf(),
                    same_but_cells(pre, self@),
                    self@.cells =~= Seq::new(
                        NUM_CELLS as nat,
                        |j: int|
                            if among_first(pre.piece.cells, i as int, j) {
                                closed_cell(pre.piece.color)
                            } else {
                                pre.cells[j]
                            },
                    ),
                decreases 4 - i,
            {
                let cell_num = self.active_piece.get_cell(i);
                let color = self.active_piece.color();
                let _ = self.close_cell(cell_num, color);
                assert(self@.cells =~= Seq::new(
                    NUM_CELLS as nat,
                    |j: int|
                        if among_first(pre.piece.cells, i + 1, j) {
                            closed_cell(pre.piece.color)
                        } else {
                            pre.cells[j]
                        },
                ));
                i += 1;
            }
            assert(self@.cells =~= locked(pre.cells, pre.piece.cells, pre.piece.color));
            proof {
                lemma_changes_keep_cells_wf(
                    pre.cells,
                    pre.piece.cells,
                    pre.piece.cells,
                    pre.piece.color,
                );
            }
            self.check_rows();
            self.new_piece();
        }
        proof {
            if pre.steady() {
                lemma_ticked_steady(pre, self@);
            }
        }
    }

    /// Clears the full rows, then ends the game if a closed cell stands in
    /// the top four rows.
    pub fn check_rows(&mut self)
        requires
            old(self)@.wf(),
        ensures
            final(self)@.wf(),
            final(self)@ == old(self)@.rows_checked(),
            old(self)@.game_over ==> final(self)@.game_over,
            old(self)@.steady() ==> final(self)@.steady(),
    {
        proof {
            if self@.steady() {
                lemma_rows_checked_steady(self@);
            }
        }
        self.clear_full_rows();
        if self.check_if_game_over() {
            self.game_over();
        }
    }

    /// One pass over the rows from the top: each full row is cleared.
    pub fn clear_full_rows(&mut self)
        requires
            old(self)@.wf(),
        ensures
            final(self)@.wf(),
            final(self)@ == (GridView { cells: swept(old(self)@.cells, 24), ..old(self)@ }),
    {
        let ghost pre = self@;
        let mut row: usize = 0;
        while row < ROWS
            invariant
                row <= ROWS,
                pre.wf(),
                same_but_cells(pre, self@),
                self@.cells == swept(pre.cells, row as int),
            decreases ROWS - row,
        {
            proof {
                lemma_swept(pre.cells, row as int);
                lemma_swept_keeps_rest(pre.cells, row as int);
                assert(row_full(self@.cells, row as int) == row_full(pre.cells, row as int)) by {
                    if row_full(pre.cells, row as int) {
                        assert forall|i: int| row * 10 <= i < row * 10 + 10 implies (
                        #[trigger] self@.cells[i]).status == CellStatus::Closed by {
                            assert(pre.cells[i].status == CellStatus::Closed);
                        }
                    }
                    if row_full(self@.cells, row as int) {
                        assert forall|i: int| row * 10 <= i < row * 10 + 10 implies (
                        #[trigger] pre.cells[i]).status == CellStatus::Closed by {
                            assert(self@.cells[i].status == CellStatus::Closed);
                        }
                    }
                }
            }
            if self.check_if_row_full(row) {
                self.clear_row(row);
            }
            row += 1;
        }
        proof {
            lemma_swept(pre.cells, 24);
        }
    }

    /// Opens the ten cells of a row, then brings down what stands above it.
    pub fn clear_row(&mut self, row: usize)
        requires
            old(self)@.wf(),
            row < ROWS,
        ensures
            final(self)@.wf(),
            final(self)@ == (GridView {
                cells: row_cleared(old(self)@.cells, row as int),
                ..old(self)@
            }),
    {
        let ghost pre = self@;
        let mut i: usize = 0;
        while i < COLUMNS
            invariant
                i <= COLUMNS,
                row < ROWS,
                pre.wf(),
                self.cells.len() == NUM_CELLS,
                same_but_cells(pre, self@),
                self@.cells =~= Seq::new(
                        NUM_CELLS as nat,
                        |j: int|
                            if row * 10 <= j < row * 10 + i {
                                CellView::open()
                            } else {
                                pre.cells[j]
                            },
                    ),
            decreases COLUMNS - i,
        {
            let index = (row * 10) + i;
            let ghost before = self@.cells;
            let mut cell = self.cells[index];
            cell.open();
            self.cells.set(index, cell);
            assert(self@.cells =~= before.update(index as int, CellView::open()));
            assert(self@.cells =~= Seq::new(
                NUM_CELLS as nat,
                |j: int|
                    if row * 10 <= j < row * 10 + (i + 1) {
                        CellView::open()
                    } else {
                        pre.cells[j]
                    },
            ));
            i += 1;
        }
        self.move_closed_down(row * 10);
        assert(self@.cells =~= row_cleared(pre.cells, row as int));
        proof {
            lemma_row_cleared_keeps(pre.cells, row as int);
        }
    }

    /// Brings the cells before `above` down one row, last cell first so that
    /// nothing is overwritten before it is read, and opens what they leave.
    /// The first cell of the board is passed over.
    fn move_closed_down(&mut self, above: usize)
        requires
            old(self)@.cells.len() == NUM_CELLS,
            above + 10 <= NUM_CELLS,
        ensures
            final(self)@ == (GridView {
                cells: shifted_down(old(self)@.cells, above as int),
                ..old(self)@
            }),
    {
        let ghost pre = self@;
        if above == 0 {
            assert(self@.cells =~= shifted_down(pre.cells, 0));
            return ;
        }
        let mut index: usize = above - 1;
        while index > 0
            invariant
                index < above,
                above + 10 <= NUM_CELLS,
                pre.cells.len() == NUM_CELLS,
                self.cells.len() == NUM_CELLS,
                same_but_cells(pre, self@),
                self@.cells =~= Seq::new(
                        NUM_CELLS as nat,
                        |j: int|
                            if index + 10 < j < above + 10 {
                                pre.cells[j - 10]
                            } else if index < j < above {
                                CellView::open()
                            } else {
                                pre.cells[j]
                            },
                    ),
            decreases index,
        {
            let ghost before = self@.cells;
            let moved = self.cells[index];
            self.cells.set(index + 10, moved);
            let mut left = self.cells[index];
            left.open();
            self.cells.set(index, left);
            assert(self@.cells =~= before.update(index + 10, before[index as int]).update(
                index as int,
                CellView::open(),
            ));
            assert(self@.cells =~= Seq::new(
                NUM_CELLS as nat,
                |j: int|
                    if (index - 1) + 10 < j < above + 10 {
                        pre.cells[j - 10]
                    } else if index - 1 < j < above {
                        CellView::open()
                    } else {
                        pre.cells[j]
                    },
            ));
            index -= 1;
        }
        assert(self@.cells =~= shifted_down(pre.cells, above as int));
    }
}

} // verus!
