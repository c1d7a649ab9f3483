//! The rules of the board as functions on plain values: what a legal
//! layout is, what a move, a lock and a row clearing do to the cells, and
//! when the game is over.

use vstd::prelude::*;
use crate::colors::Color;
use crate::gamegrid::{CellStatus, CellView};
use crate::piece::{
    column, law_left_edge_blocks_left_move, law_right_edge_blocks_right_move, moved_down,
    moved_left, moved_right, not_off_side, on_board, spawned, turned, PieceView, NUM_CELLS,
};
use crate::supply::{popped, SupplyView};

verus! {

/// The cells of the four rows above the visible board. A closed cell among
/// them ends the game.
pub const TOP_CELLS: usize = 40;

/// A cell of the locked stack.
pub open spec fn closed_cell(color: Color) -> CellView {
    CellView { status: CellStatus::Closed, color }
}

/// A cell of the falling piece.
pub open spec fn active_cell(color: Color) -> CellView {
    CellView { status: CellStatus::Active, color }
}

/// Whether cell `i` is one of the four cells of a layout.
pub open spec fn among(posit: Seq<usize>, i: int) -> bool {
    posit[0] == i || posit[1] == i || posit[2] == i || posit[3] == i
}

/// Whether the piece may stand on `posit`: all four cells lie on the board,
/// none of them is closed, and the layout does not wrap round the sides.
pub open spec fn legal(cells: Seq<CellView>, posit: Seq<usize>) -> bool {
    &&& forall|k: int|
        0 <= k < 4 ==> #[trigger] posit[k] < NUM_CELLS && cells[posit[k] as int].status
            != CellStatus::Closed
    &&& not_off_side(posit)
}

/// The cells after the piece went from `from` to `to`: the cells of `to`
/// are active in the piece's colour, those of `from` that it left are open,
/// and no other cell has changed.
pub open spec fn relocated(
    cells: Seq<CellView>,
    from: Seq<usize>,
    to: Seq<usize>,
    color: Color,
) -> Seq<CellView> {
    Seq::new(
        cells.len(),
        |i: int|
            if among(to, i) {
                active_cell(color)
            } else if among(from, i) {
                CellView::open()
            } else {
                cells[i]
            },
    )
}

/// The cells after the piece on `at` was locked: its four cells are closed
/// in its colour, and no other cell has changed.
pub open spec fn locked(cells: Seq<CellView>, at: Seq<usize>, color: Color) -> Seq<CellView> {
    Seq::new(
        cells.len(),
        |i: int|
            if among(at, i) {
                closed_cell(color)
            } else {
                cells[i]
            },
    )
}

/// The cells after a piece left the board: each of its cells that was still
/// active is open, and no other cell has changed.
pub open spec fn lifted(cells: Seq<CellView>, at: Seq<usize>) -> Seq<CellView> {
    Seq::new(
        cells.len(),
        |i: int|
            if among(at, i) && cells[i].status == CellStatus::Active {
                CellView::open()
            } else {
                cells[i]
            },
    )
}

/// The cells after a piece was put on `at`: its four cells are active in
/// its colour, and no other cell has changed.
pub open spec fn activated(cells: Seq<CellView>, at: Seq<usize>, color: Color) -> Seq<CellView> {
    Seq::new(
        cells.len(),
        |i: int|
            if among(at, i) {
                active_cell(color)
            } else {
                cells[i]
            },
    )
}

/// Whether all ten cells of a row are closed.
pub open spec fn row_full(cells: Seq<CellView>, row: int) -> bool {
    forall|i: int| row * 10 <= i < row * 10 + 10 ==> (#[trigger] cells[i]).status
        == CellStatus::Closed
}

/// The cells after `row` was cleared and what stood above it came down one
/// row. Below the row nothing changes. In and above it each cell takes what
/// stood ten places before it, with two exceptions at the top: the very
/// first cell of the board is passed over, so it neither moves nor changes
/// (unless the row cleared is the top row itself), and the cells that have
/// nothing above them to take, or only the first cell, are open.
pub open spec fn row_cleared(cells: Seq<CellView>, row: int) -> Seq<CellView> {
    Seq::new(
        cells.len(),
        |i: int|
            if i >= row * 10 + 10 {
                cells[i]
            } else if i == 0 {
                if row == 0 {
                    CellView::open()
                } else {
                    cells[0]
                }
            } else if i <= 10 {
                CellView::open()
            } else {
                cells[i - 10]
            },
    )
}

/// The cells after those before `above` came down one row: a cell from the
/// twelfth on, up to nine places past `above`, takes what stood ten places
/// before it; a cell before `above` that has nothing to take is open. The
/// first cell of the board does not take part.
pub open spec fn shifted_down(cells: Seq<CellView>, above: int) -> Seq<CellView> {
    Seq::new(
        cells.len(),
        |i: int|
            if 11 <= i < above + 10 {
                cells[i - 10]
            } else if 1 <= i < above {
                CellView::open()
            } else {
                cells[i]
            },
    )
}

/// The cells after one pass over the first `rows` rows, top row first: each
/// row that was full when the pass began is cleared in its turn.
pub open spec fn swept(cells: Seq<CellView>, rows: int) -> Seq<CellView>
    decreases rows,
{
    if rows <= 0 {
        cells
    } else {
        let above = swept(cells, rows - 1);
        if row_full(cells, rows - 1) {
            row_cleared(above, rows - 1)
        } else {
            above
        }
    }
}

/// Whether one of the top four rows holds a closed cell.
pub open spec fn top_has_closed(cells: Seq<CellView>) -> bool {
    exists|i: int| 0 <= i < TOP_CELLS && (#[trigger] cells[i]).status == CellStatus::Closed
}

/// The board as a plain value.
pub struct GridView {
    pub cells: Seq<CellView>,
    pub piece: PieceView,
    pub supply: SupplyView,
    pub game_over: bool,
}

impl GridView {
    /// 240 cells whose open ones have the open colour, a well-formed piece
    /// and a well-formed supply.
    pub open spec fn wf(self) -> bool {
        &&& self.cells.len() == NUM_CELLS
        &&& all_wf(self.cells)
        &&& self.piece.wf()
        &&& self.supply.wf()
    }

    /// The active cells are the four cells of the piece, and no others.
    pub open spec fn piece_placed(self) -> bool {
        forall|i: int|
            0 <= i < NUM_CELLS ==> ((#[trigger] self.cells[i]).status == CellStatus::Active
                <==> among(self.piece.cells, i))
    }

    /// What play keeps true of the board from the first board on: the
    /// active cells are the four cells of the piece, and no row is full.
    pub open spec fn steady(self) -> bool {
        &&& self.piece_placed()
        &&& none_full(self.cells, 24)
    }

    /// The board after the piece was asked to go to `posit`: there if that
    /// is legal, else unchanged.
    pub open spec fn moved_to(self, posit: Seq<usize>) -> GridView {
        if legal(self.cells, posit) {
            GridView {
                cells: relocated(self.cells, self.piece.cells, posit, self.piece.color),
                piece: self.piece.at(posit),
                ..self
            }
        } else {
            self
        }
    }

    /// The board after the piece was asked to turn clockwise: turned, with
    /// its orientation advanced, if the turned layout is legal, else
    /// unchanged.
    pub open spec fn rotated(self) -> GridView {
        let posit = turned(self.piece);
        if legal(self.cells, posit) {
            GridView {
                cells: relocated(self.cells, self.piece.cells, posit, self.piece.color),
                piece: self.piece.at(posit).reoriented(),
                ..self
            }
        } else {
            self
        }
    }

    /// The board after the piece was locked where it stands.
    pub open spec fn piece_locked(self) -> GridView {
        GridView { cells: locked(self.cells, self.piece.cells, self.piece.color), ..self }
    }

    /// The board after full rows were cleared and the top rows looked at:
    /// once over, the game stays over.
    pub open spec fn rows_checked(self) -> GridView {
        let cells = swept(self.cells, 24);
        GridView { cells, game_over: self.game_over || top_has_closed(cells), ..self }
    }

    /// Whether `post` is this board after the next piece took the place of
    /// the piece: the old piece leaves the board where it still stands, the
    /// front shape of the supply becomes the piece, and its four spawn cells
    /// are active in its colour.
    pub open spec fn respawned(self, post: GridView) -> bool {
        let piece = spawned(self.supply.queue[0]);
        &&& popped(self.supply, post.supply)
        &&& post == (GridView {
            cells: activated(lifted(self.cells, self.piece.cells), piece.cells, piece.color),
            piece,
            supply: post.supply,
            game_over: self.game_over,
        })
    }

    /// Whether `post` is this board one tick on. The piece moves down one row
    /// if it can, and the rows are checked. Else it is locked where it
    /// stands, the rows are checked, and only then the next piece takes its
    /// place, so that no clearing carries its cells away from under it.
    pub open spec fn ticked(self, post: GridView) -> bool {
        let posit = moved_down(self.piece.cells);
        if legal(self.cells, posit) {
            post == self.moved_to(posit).rows_checked()
        } else {
            self.piece_locked().rows_checked().respawned(post)
        }
    }
}

/// A legal layout lies on the board.
pub proof fn lemma_legal_on_board(cells: Seq<CellView>, posit: Seq<usize>)
    requires
        legal(cells, posit),
    ensures
        on_board(posit),
{
    assert forall|i: int| 0 <= i < 4 implies posit[i] < NUM_CELLS by {
        assert(posit[i] < NUM_CELLS && cells[posit[i] as int].status != CellStatus::Closed);
    }
}

/// A pass over the first `rows` rows keeps the number of cells and leaves
/// the rows after them as they were.
pub proof fn lemma_swept_keeps_rest(cells: Seq<CellView>, rows: int)
    requires
        0 <= rows,
    ensures
        swept(cells, rows).len() == cells.len(),
        forall|i: int| rows * 10 <= i < cells.len() ==> swept(cells, rows)[i] == cells[i],
    decreases rows,
{
    if rows > 0 {
        lemma_swept_keeps_rest(cells, rows - 1);
    }
}

/// Whether no cell is active.
pub open spec fn none_active(cells: Seq<CellView>) -> bool {
    forall|i: int| 0 <= i < cells.len() ==> (#[trigger] cells[i]).status != CellStatus::Active
}

/// Whether every open cell has the open colour.
pub open spec fn all_wf(cells: Seq<CellView>) -> bool {
    forall|i: int| 0 <= i < cells.len() ==> (#[trigger] cells[i]).wf()
}

/// Whether none of the first `rows` rows is full.
pub open spec fn none_full(cells: Seq<CellView>, rows: int) -> bool {
    forall|row: int| 0 <= row < rows ==> !#[trigger] row_full(cells, row)
}

/// A row that is not full has a cell that is not closed.
proof fn lemma_gap_in_row(cells: Seq<CellView>, row: int) -> (i: int)
    requires
        !row_full(cells, row),
    ensures
        row * 10 <= i < row * 10 + 10,
        cells[i].status != CellStatus::Closed,
{
    choose|i: int| row * 10 <= i < row * 10 + 10 && (#[trigger] cells[i]).status
        != CellStatus::Closed
}

/// Clearing a row brings in no cell that was not there, but for open ones.
pub proof fn lemma_row_cleared_keeps(cells: Seq<CellView>, row: int)
    requires
        cells.len() == NUM_CELLS,
        0 <= row < 24,
    ensures
        row_cleared(cells, row).len() == NUM_CELLS,
        all_wf(cells) ==> all_wf(row_cleared(cells, row)),
        none_active(cells) ==> none_active(row_cleared(cells, row)),
{
    let after = row_cleared(cells, row);
    if all_wf(cells) {
        assert forall|i: int| 0 <= i < after.len() implies (#[trigger] after[i]).wf() by {
            if i > 10 && i < row * 10 + 10 {
                assert(cells[i - 10].wf());
            } else {
                assert(cells[i].wf());
            }
        }
    }
    if none_active(cells) {
        assert forall|i: int| 0 <= i < after.len() implies (#[trigger] after[i]).status
            != CellStatus::Active by {
            if i > 10 && i < row * 10 + 10 {
                assert(cells[i - 10].status != CellStatus::Active);
            } else {
                assert(cells[i].status != CellStatus::Active);
            }
        }
    }
}

/// After a full row was cleared, neither it nor a row above it is full,
/// provided that none above it was full before.
proof fn lemma_row_cleared_none_full(cells: Seq<CellView>, row: int)
    requires
        cells.len() == NUM_CELLS,
        0 <= row < 24,
        none_full(cells, row),
    ensures
        none_full(row_cleared(cells, row), row + 1),
{
    let after = row_cleared(cells, row);
    assert forall|k: int| 0 <= k < row + 1 implies !#[trigger] row_full(after, k) by {
        if k == 0 {
            if row == 0 {
                assert(after[0].status != CellStatus::Closed);
            } else {
                assert(after[1].status != CellStatus::Closed);
            }
        } else if k == 1 {
            assert(after[10].status != CellStatus::Closed);
        } else {
            assert(!row_full(cells, k - 1));
            let i = lemma_gap_in_row(cells, k - 1);
            assert(after[i + 10] == cells[i]);
            assert(after[i + 10].status != CellStatus::Closed);
        }
    }
}

/// A pass over the rows keeps open cells in the open colour, brings no
/// active cell onto a board that has none, and leaves no row full that it
/// has passed.
pub proof fn lemma_swept(cells: Seq<CellView>, rows: int)
    requires
        cells.len() == NUM_CELLS,
        0 <= rows <= 24,
    ensures
        swept(cells, rows).len() == NUM_CELLS,
        all_wf(cells) ==> all_wf(swept(cells, rows)),
        none_active(cells) ==> none_active(swept(cells, rows)),
        none_full(swept(cells, rows), rows),
    decreases rows,
{
    if rows > 0 {
        let row = rows - 1;
        let above = swept(cells, row);
        lemma_swept(cells, row);
        lemma_swept_keeps_rest(cells, row);
        if row_full(cells, row) {
            lemma_row_cleared_keeps(above, row);
            lemma_row_cleared_none_full(above, row);
        } else {
            let i = lemma_gap_in_row(cells, row);
            assert(above[i] == cells[i]);
            assert(!row_full(above, row));
            assert forall|k: int| 0 <= k < rows implies !#[trigger] row_full(above, k) by {
                if k < row {
                    assert(!row_full(above, k));
                }
            }
        }
    }
}

/// A pass over a board without full rows changes nothing.
pub proof fn lemma_swept_without_full_rows(cells: Seq<CellView>, rows: int)
    requires
        0 <= rows,
        none_full(cells, rows),
    ensures
        swept(cells, rows) == cells,
    decreases rows,
{
    if rows > 0 {
        assert(none_full(cells, rows - 1)) by {
            assert forall|row: int| 0 <= row < rows - 1 implies !#[trigger] row_full(
                cells,
                row,
            ) by {}
        }
        lemma_swept_without_full_rows(cells, rows - 1);
        assert(!row_full(cells, rows - 1));
    }
}

/// A move, a lock, a lift and a placing of the piece keep open cells in
/// the open colour.
pub proof fn lemma_changes_keep_cells_wf(
    cells: Seq<CellView>,
    from: Seq<usize>,
    to: Seq<usize>,
    color: Color,
)
    requires
        all_wf(cells),
    ensures
        all_wf(relocated(cells, from, to, color)),
        all_wf(locked(cells, from, color)),
        all_wf(lifted(cells, from)),
        all_wf(activated(cells, to, color)),
{
    assert forall|i: int| 0 <= i < cells.len() implies (#[trigger] relocated(
        cells,
        from,
        to,
        color,
    )[i]).wf() by {
        assert(cells[i].wf());
    }
    assert forall|i: int| 0 <= i < cells.len() implies (#[trigger] locked(cells, from, color)[i]).wf() by {
        assert(cells[i].wf());
    }
    assert forall|i: int| 0 <= i < cells.len() implies (#[trigger] lifted(cells, from)[i]).wf() by {
        assert(cells[i].wf());
    }
    assert forall|i: int| 0 <= i < cells.len() implies (#[trigger] activated(cells, to, color)[i]).wf() by {
        assert(cells[i].wf());
    }
}

/// A legal move of the piece of a steady board gives a steady board: the
/// four cells that the piece went to are the active ones.
pub proof fn lemma_moved_steady(grid: GridView, posit: Seq<usize>)
    requires
        grid.cells.len() == NUM_CELLS,
        grid.steady(),
        legal(grid.cells, posit),
    ensures
        grid.moved_to(posit).steady(),
{
    let after = grid.moved_to(posit);
    let from = grid.piece.cells;
    assert forall|i: int| 0 <= i < NUM_CELLS implies ((#[trigger] after.cells[i]).status
        == CellStatus::Active <==> among(posit, i)) by {
        assert(grid.cells[i].status == CellStatus::Active ==> among(from, i));
    }
    assert(after.piece.cells == posit);
    assert forall|row: int| 0 <= row < 24 implies !#[trigger] row_full(after.cells, row) by {
        assert(!row_full(grid.cells, row));
        let i = lemma_gap_in_row(grid.cells, row);
        assert(after.cells[i].status != CellStatus::Closed);
    }
}

/// A turn of the piece of a steady board gives a steady board.
pub proof fn lemma_rotated_steady(grid: GridView)
    requires
        grid.cells.len() == NUM_CELLS,
        grid.steady(),
    ensures
        grid.rotated().steady(),
{
    let posit = turned(grid.piece);
    if legal(grid.cells, posit) {
        let moved = grid.moved_to(posit);
        let after = grid.rotated();
        lemma_moved_steady(grid, posit);
        assert(after.cells == moved.cells);
        assert(after.piece.cells == moved.piece.cells);
        assert forall|i: int| 0 <= i < NUM_CELLS implies ((#[trigger] after.cells[i]).status
            == CellStatus::Active <==> among(after.piece.cells, i)) by {
            assert(moved.cells[i].status == CellStatus::Active <==> among(moved.piece.cells, i));
        }
        assert forall|row: int| 0 <= row < 24 implies !#[trigger] row_full(after.cells, row) by {
            assert(!row_full(moved.cells, row));
        }
    }
}

/// Locking the piece of a board on which it is placed leaves no cell
/// active.
pub proof fn lemma_locked_none_active(grid: GridView)
    requires
        grid.cells.len() == NUM_CELLS,
        grid.piece_placed(),
    ensures
        none_active(grid.piece_locked().cells),
{
    let after = grid.piece_locked().cells;
    assert forall|i: int| 0 <= i < after.len() implies (#[trigger] after[i]).status
        != CellStatus::Active by {
        assert(grid.cells[i].status == CellStatus::Active ==> among(grid.piece.cells, i));
    }
}

/// Putting the next piece on a board gives a steady board, where no row of
/// the board was full and its only active cells, if any, were those of the
/// piece that leaves.
pub proof fn lemma_respawned_steady(grid: GridView, post: GridView)
    requires
        grid.cells.len() == NUM_CELLS,
        none_active(grid.cells) || grid.piece_placed(),
        none_full(grid.cells, 24),
        grid.respawned(post),
    ensures
        post.steady(),
{
    let old_cells = grid.piece.cells;
    let bare = lifted(grid.cells, old_cells);
    assert forall|i: int| 0 <= i < NUM_CELLS implies (#[trigger] bare[i]).status
        != CellStatus::Active by {
        if none_active(grid.cells) {
            assert(grid.cells[i].status != CellStatus::Active);
        } else {
            assert(grid.cells[i].status == CellStatus::Active <==> among(old_cells, i));
        }
    }
    assert forall|i: int| 0 <= i < NUM_CELLS implies ((#[trigger] post.cells[i]).status
        == CellStatus::Active <==> among(post.piece.cells, i)) by {
        assert(bare[i].status != CellStatus::Active);
    }
    assert forall|row: int| 0 <= row < 24 implies !#[trigger] row_full(post.cells, row) by {
        assert(!row_full(grid.cells, row));
        let i = lemma_gap_in_row(grid.cells, row);
        assert(bare[i].status != CellStatus::Closed);
        assert(post.cells[i].status != CellStatus::Closed);
    }
}

/// A tick takes a steady board to a steady board: after it the four cells
/// of the piece are the active ones, whether the piece moved down or a new
/// one took its place.
pub proof fn lemma_ticked_steady(grid: GridView, post: GridView)
    requires
        grid.cells.len() == NUM_CELLS,
        grid.steady(),
        grid.ticked(post),
    ensures
        post.steady(),
{
    let posit = moved_down(grid.piece.cells);
    if legal(grid.cells, posit) {
        let mid = grid.moved_to(posit);
        lemma_moved_steady(grid, posit);
        lemma_swept_without_full_rows(mid.cells, 24);
    } else {
        let shut = grid.piece_locked();
        lemma_locked_none_active(grid);
        lemma_swept(shut.cells, 24);
        lemma_respawned_steady(shut.rows_checked(), post);
    }
}

/// Checking the rows of a steady board changes no cell and leaves it
/// steady.
pub proof fn lemma_rows_checked_steady(grid: GridView)
    requires
        grid.steady(),
    ensures
        grid.rows_checked().cells == grid.cells,
        grid.rows_checked().steady(),
{
    lemma_swept_without_full_rows(grid.cells, 24);
    assert forall|i: int| 0 <= i < NUM_CELLS implies ((#[trigger] grid.rows_checked().cells[i]).status
        == CellStatus::Active <==> among(grid.rows_checked().piece.cells, i)) by {
        assert(grid.cells[i].status == CellStatus::Active <==> among(grid.piece.cells, i));
    }
}

/// The cells that are active.
pub open spec fn active_set(cells: Seq<CellView>) -> Set<int> {
    Set::new(|i: int| 0 <= i < cells.len() && cells[i].status == CellStatus::Active)
}

/// On a steady board exactly four cells are active, and they are the four
/// cells of the piece.
pub proof fn law_steady_board_has_the_piece_active(grid: GridView)
    requires
        grid.wf(),
        grid.steady(),
    ensures
        active_set(grid.cells).finite(),
        active_set(grid.cells).len() == 4,
        forall|i: int| active_set(grid.cells).contains(i) <==> among(grid.piece.cells, i),
{
    let c = grid.piece.cells;
    let four = Set::<int>::empty().insert(c[0] as int).insert(c[1] as int).insert(
        c[2] as int,
    ).insert(c[3] as int);
    assert(c[0] < NUM_CELLS && c[1] < NUM_CELLS && c[2] < NUM_CELLS && c[3] < NUM_CELLS);
    assert(c[0] != c[1] && c[0] != c[2] && c[0] != c[3] && c[1] != c[2] && c[1] != c[3] && c[2]
        != c[3]);
    assert forall|i: int| active_set(grid.cells).contains(i) <==> among(c, i) by {
        if 0 <= i < NUM_CELLS {
            assert(grid.cells[i].status == CellStatus::Active <==> among(c, i));
        }
    }
    assert(active_set(grid.cells) =~= four);
}

/// A legal move changes the cells of the piece and no others: the cells it
/// goes to are active in its colour, the cells it leaves are open, and
/// every other cell is as it was. A move that is not legal changes nothing.
pub proof fn law_move_changes_the_piece_cells_only(grid: GridView, posit: Seq<usize>)
    requires
        grid.wf(),
    ensures
        !legal(grid.cells, posit) ==> grid.moved_to(posit) == grid,
        legal(grid.cells, posit) ==> forall|i: int|
            0 <= i < NUM_CELLS ==> #[trigger] grid.moved_to(posit).cells[i] == if among(posit, i) {
                active_cell(grid.piece.color)
            } else if among(grid.piece.cells, i) {
                CellView::open()
            } else {
                grid.cells[i]
            },
        legal(grid.cells, posit) ==> grid.moved_to(posit).piece.cells == posit,
        grid.moved_to(posit).supply == grid.supply,
        grid.moved_to(posit).game_over == grid.game_over,
{
}

/// A piece at a wall or on the stack stays where it is. A move right or
/// left changes nothing where a cell it would go to is closed or lies past
/// the end of the board, and where the piece reaches into the edge column on
/// that side without lying wholly in it. For the move left the piece must
/// not hold the very first cell of the board.
pub proof fn law_walls_and_stack_stop_the_piece(grid: GridView)
    requires
        grid.wf(),
    ensures
        (exists|k: int|
            0 <= k < 4 && (#[trigger] moved_right(grid.piece.cells)[k] >= NUM_CELLS
                || grid.cells[moved_right(grid.piece.cells)[k] as int].status
                == CellStatus::Closed)) ==> grid.moved_to(moved_right(grid.piece.cells)) == grid,
        (exists|k: int|
            0 <= k < 4 && (#[trigger] moved_left(grid.piece.cells)[k] >= NUM_CELLS
                || grid.cells[moved_left(grid.piece.cells)[k] as int].status
                == CellStatus::Closed)) ==> grid.moved_to(moved_left(grid.piece.cells)) == grid,
        (exists|i: int| 0 <= i < 4 && column(grid.piece.cells[i]) == 9) && (exists|i: int|
            0 <= i < 4 && column(grid.piece.cells[i]) != 9) ==> grid.moved_to(
            moved_right(grid.piece.cells),
        ) == grid,
        (forall|i: int| 0 <= i < 4 ==> grid.piece.cells[i] > 0) && (exists|i: int|
            0 <= i < 4 && column(grid.piece.cells[i]) == 0) && (exists|i: int|
            0 <= i < 4 && column(grid.piece.cells[i]) != 0) ==> grid.moved_to(
            moved_left(grid.piece.cells),
        ) == grid,
{
    let c = grid.piece.cells;
    if (exists|i: int| 0 <= i < 4 && column(c[i]) == 9) && (exists|i: int|
        0 <= i < 4 && column(c[i]) != 9) {
        law_right_edge_blocks_right_move(grid.piece);
    }
    if (forall|i: int| 0 <= i < 4 ==> c[i] > 0) && (exists|i: int|
        0 <= i < 4 && column(c[i]) == 0) && (exists|i: int| 0 <= i < 4 && column(c[i]) != 0) {
        law_left_edge_blocks_left_move(grid.piece);
    }
}

/// What clearing a row does on a board whose very first cell is open: the
/// top row is open afterwards, every cell from the second row down to the
/// cleared row holds what stood one row above it, and the rows below the
/// cleared row are as they were. So the cleared row itself is open
/// afterwards, in the open colour, and is not full, where the row above it
/// was open or where it is the top row.
pub proof fn law_cleared_row_brings_rows_down(cells: Seq<CellView>, row: int)
    requires
        cells.len() == NUM_CELLS,
        all_wf(cells),
        0 <= row < 24,
        cells[0].status == CellStatus::Open,
    ensures
        forall|i: int| 0 <= i < 10 ==> #[trigger] row_cleared(cells, row)[i] == CellView::open(),
        forall|i: int|
            10 <= i < row * 10 + 10 ==> #[trigger] row_cleared(cells, row)[i] == cells[i - 10],
        forall|i: int|
            row * 10 + 10 <= i < NUM_CELLS ==> #[trigger] row_cleared(cells, row)[i] == cells[i],
        row == 0 || (forall|i: int|
            row * 10 - 10 <= i < row * 10 ==> (#[trigger] cells[i]).status == CellStatus::Open)
            ==> {
            &&& forall|i: int|
                row * 10 <= i < row * 10 + 10 ==> #[trigger] row_cleared(cells, row)[i]
                    == CellView::open()
            &&& !row_full(row_cleared(cells, row), row)
        },
{
    let after = row_cleared(cells, row);
    assert(cells[0].wf());
    if row == 0 || (forall|i: int|
        row * 10 - 10 <= i < row * 10 ==> (#[trigger] cells[i]).status == CellStatus::Open) {
        assert forall|i: int| row * 10 <= i < row * 10 + 10 implies #[trigger] after[i]
            == CellView::open() by {
            if row > 0 {
                assert(cells[i - 10].status == CellStatus::Open);
                assert(cells[i - 10].wf());
            }
        }
        assert(after[row * 10].status != CellStatus::Closed);
    }
}

/// How many of the first `upto` cells are closed.
pub open spec fn closed_before(cells: Seq<CellView>, upto: int) -> int
    decreases upto,
{
    if upto <= 0 {
        0
    } else {
        closed_before(cells, upto - 1) + if cells[upto - 1].status == CellStatus::Closed {
            1int
        } else {
            0int
        }
    }
}

/// How many of the first `rows` rows are full.
pub open spec fn full_rows(cells: Seq<CellView>, rows: int) -> int
    decreases rows,
{
    if rows <= 0 {
        0
    } else {
        full_rows(cells, rows - 1) + if row_full(cells, rows - 1) {
            1int
        } else {
            0int
        }
    }
}

/// Two boards that agree from `from` up to `upto` hold as many closed
/// cells there.
proof fn lemma_closed_alike(a: Seq<CellView>, b: Seq<CellView>, from: int, upto: int)
    requires
        0 <= from <= upto,
        forall|i: int| from <= i < upto ==> #[trigger] a[i] == b[i],
    ensures
        closed_before(a, upto) - closed_before(a, from) == closed_before(b, upto) - closed_before(
            b,
            from,
        ),
    decreases upto - from,
{
    if from < upto {
        assert(a[upto - 1] == b[upto - 1]);
        lemma_closed_alike(a, b, from, upto - 1);
    }
}

/// A stretch of closed cells counts in full.
proof fn lemma_closed_stretch(cells: Seq<CellView>, from: int, upto: int)
    requires
        0 <= from <= upto,
        forall|i: int| from <= i < upto ==> (#[trigger] cells[i]).status == CellStatus::Closed,
    ensures
        closed_before(cells, upto) - closed_before(cells, from) == upto - from,
    decreases upto - from,
{
    if from < upto {
        assert(cells[upto - 1].status == CellStatus::Closed);
        lemma_closed_stretch(cells, from, upto - 1);
    }
}

/// A stretch without closed cells counts nothing.
proof fn lemma_closed_none(cells: Seq<CellView>, from: int, upto: int)
    requires
        0 <= from <= upto,
        forall|i: int| from <= i < upto ==> (#[trigger] cells[i]).status != CellStatus::Closed,
    ensures
        closed_before(cells, upto) == closed_before(cells, from),
    decreases upto - from,
{
    if from < upto {
        assert(cells[upto - 1].status != CellStatus::Closed);
        lemma_closed_none(cells, from, upto - 1);
    }
}

/// Where each cell from `from` up to `upto` of `b` holds what stands ten
/// places before it in `a`, the one holds as many closed cells there as the
/// other ten places before.
proof fn lemma_closed_shifted(a: Seq<CellView>, b: Seq<CellView>, from: int, upto: int)
    requires
        10 <= from <= upto,
        forall|i: int| from <= i < upto ==> #[trigger] b[i] == a[i - 10],
    ensures
        closed_before(b, upto) - closed_before(b, from) == closed_before(a, upto - 10)
            - closed_before(a, from - 10),
    decreases upto - from,
{
    if from < upto {
        assert(b[upto - 1] == a[upto - 1 - 10]);
        lemma_closed_shifted(a, b, from, upto - 1);
    }
}

/// Clearing a full row takes ten closed cells off the board and no more:
/// what comes down from above stays closed where it was closed.
pub proof fn law_cleared_row_takes_ten_closed_cells(cells: Seq<CellView>, row: int)
    requires
        cells.len() == NUM_CELLS,
        0 <= row < 24,
        row_full(cells, row),
    ensures
        closed_before(row_cleared(cells, row), NUM_CELLS as int) == closed_before(
            cells,
            NUM_CELLS as int,
        ) - 10,
{
    let after = row_cleared(cells, row);
    let end = row * 10 + 10;
    lemma_closed_alike(cells, after, end, NUM_CELLS as int);
    lemma_closed_stretch(cells, row * 10, end);
    if row == 0 {
        lemma_closed_none(after, 0, 10);
    } else {
        assert(closed_before(after, 1) == closed_before(cells, 1)) by {
            assert(after[0] == cells[0]);
            assert(closed_before(after, 0) == 0 && closed_before(cells, 0) == 0);
        }
        lemma_closed_none(after, 1, 11);
        lemma_closed_shifted(cells, after, 11, end);
    }
}

/// A pass over the rows takes ten closed cells off the board for each row
/// that was full, and no more.
pub proof fn law_pass_takes_ten_closed_cells_a_row(cells: Seq<CellView>, rows: int)
    requires
        cells.len() == NUM_CELLS,
        0 <= rows <= 24,
    ensures
        closed_before(swept(cells, rows), NUM_CELLS as int) == closed_before(
            cells,
            NUM_CELLS as int,
        ) - 10 * full_rows(cells, rows),
    decreases rows,
{
    if rows > 0 {
        let row = rows - 1;
        let above = swept(cells, row);
        law_pass_takes_ten_closed_cells_a_row(cells, row);
        lemma_swept_keeps_rest(cells, row);
        if row_full(cells, row) {
            assert(row_full(above, row)) by {
                assert forall|i: int| row * 10 <= i < row * 10 + 10 implies (#[trigger] above[i]).status
                    == CellStatus::Closed by {
                    assert(cells[i].status == CellStatus::Closed);
                }
            }
            law_cleared_row_takes_ten_closed_cells(above, row);
        }
    }
}

/// The cells of a column that are not open, in the first `rows` rows, top
/// row first.
pub open spec fn column_stack(cells: Seq<CellView>, column: int, rows: int) -> Seq<CellView>
    decreases rows,
{
    if rows <= 0 {
        Seq::empty()
    } else {
        let above = column_stack(cells, column, rows - 1);
        let cell = cells[(rows - 1) * 10 + column];
        if cell.status != CellStatus::Open {
            above.push(cell)
        } else {
            above
        }
    }
}

/// The same, without the cells in full rows.
pub open spec fn column_stack_of_rest(cells: Seq<CellView>, column: int, rows: int) -> Seq<
    CellView,
>
    decreases rows,
{
    if rows <= 0 {
        Seq::empty()
    } else {
        let above = column_stack_of_rest(cells, column, rows - 1);
        let cell = cells[(rows - 1) * 10 + column];
        if cell.status != CellStatus::Open && !row_full(cells, rows - 1) {
            above.push(cell)
        } else {
            above
        }
    }
}

/// After a row was cleared, a column holds down to that row what it held
/// above it before, in the same order.
proof fn lemma_cleared_row_keeps_column(cells: Seq<CellView>, row: int, column: int, rows: int)
    requires
        cells.len() == NUM_CELLS,
        0 <= row < 24,
        0 <= column < 10,
        0 <= rows <= row,
        rows >= 1 || column >= 1 || row == 0,
    ensures
        column_stack(row_cleared(cells, row), column, rows + 1) == column_stack(
            cells,
            column,
            rows,
        ),
    decreases rows,
{
    let after = row_cleared(cells, row);
    if rows == 0 {
        assert(after[column] == CellView::open());
        assert(column_stack(after, column, 0) =~= Seq::<CellView>::empty());
    } else if rows == 1 && column == 0 {
        assert(after[0] == cells[0]);
        assert(after[10] == CellView::open());
        assert(column_stack(after, 0, 0) =~= column_stack(cells, 0, 0));
        assert(column_stack(after, 0, 1) == column_stack(cells, 0, 1));
    } else {
        lemma_cleared_row_keeps_column(cells, row, column, rows - 1);
        assert(after[rows * 10 + column] == cells[(rows - 1) * 10 + column]);
    }
}

/// What a pass over the rows keeps: in every column the cells that are not
/// open and stood outside the full rows are all there afterwards, in the
/// same order from the top and in the same colours, and nothing else is.
pub proof fn law_pass_keeps_the_columns(cells: Seq<CellView>, column: int, rows: int)
    requires
        cells.len() == NUM_CELLS,
        0 <= column < 10,
        0 <= rows <= 24,
    ensures
        column_stack(swept(cells, rows), column, rows) == column_stack_of_rest(
            cells,
            column,
            rows,
        ),
    decreases rows,
{
    if rows > 0 {
        let row = rows - 1;
        let above = swept(cells, row);
        law_pass_keeps_the_columns(cells, column, row);
        lemma_swept_keeps_rest(cells, row);
        assert(above[row * 10 + column] == cells[row * 10 + column]);
        if row_full(cells, row) {
            if row == 0 {
                lemma_cleared_row_keeps_column(above, 0, column, 0);
            } else if column == 0 {
                lemma_cleared_row_keeps_column(above, row, 0, row);
            } else {
                lemma_cleared_row_keeps_column(above, row, column, row);
            }
        }
    }
}

/// Once the game is over it stays over, whatever is cleared later.
pub proof fn law_game_over_stays(grid: GridView)
    ensures
        grid.game_over ==> grid.rows_checked().game_over,
        top_has_closed(swept(grid.cells, 24)) ==> grid.rows_checked().game_over,
{
}

} // verus!
