//! Boards as mathematical grids: the view of a board, its shape, how many of
//! its cells are taken, and where a piece put into a column comes to rest.

use vstd::prelude::*;

verus! {

/// The rows of a board, each as the sequence of its cell codes.
pub open spec fn grid_of(board: &Vec<Vec<i64>>) -> Seq<Seq<i64>> {
    Seq::new(board@.len(), |r: int| board@[r]@)
}

/// `g` has exactly `rows` rows of exactly `cols` cells.
pub open spec fn is_grid<T>(g: Seq<Seq<T>>, rows: int, cols: int) -> bool {
    &&& g.len() == rows
    &&& forall|r: int| 0 <= r < rows ==> (#[trigger] g[r]).len() == cols
}

/// How many of the first `n` cells of `row` are not empty.
pub open spec fn filled_in_row(row: Seq<i64>, n: int) -> int
    decreases n,
{
    if n <= 0 {
        0
    } else {
        filled_in_row(row, n - 1) + if row[n - 1] != 0 {
            1int
        } else {
            0int
        }
    }
}

/// How many cells in the first `n` rows of `g` are not empty.
pub open spec fn filled_cells(g: Seq<Seq<i64>>, n: int) -> int
    decreases n,
{
    if n <= 0 {
        0
    } else {
        filled_cells(g, n - 1) + filled_in_row(g[n - 1], g[n - 1].len() as int)
    }
}

/// `g` with the cell at row `r`, column `c` replaced by `v`.
pub open spec fn with_cell(g: Seq<Seq<i64>>, r: int, c: int, v: i64) -> Seq<Seq<i64>> {
    g.update(r, g[r].update(c, v))
}

/// Writing a cell of a grid leaves its shape as it is.
pub proof fn lemma_with_cell_shape(g: Seq<Seq<i64>>, r: int, c: int, v: i64, rows: int, cols: int)
    requires
        is_grid(g, rows, cols),
        0 <= r < rows,
        0 <= c < cols,
    ensures
        is_grid(with_cell(g, r, c, v), rows, cols),
        with_cell(g, r, c, v)[r][c] == v,
{
    assert(g[r].len() == cols);
    assert forall|k: int| 0 <= k < rows implies (#[trigger] with_cell(g, r, c, v)[k]).len()
        == cols by {
        assert(g[k].len() == cols);
    }
}

/// A prefix of a row holds between zero and `n` pieces.
pub proof fn lemma_filled_in_row_bounds(row: Seq<i64>, n: int)
    requires
        0 <= n,
    ensures
        0 <= filled_in_row(row, n) <= n,
    decreases n,
{
    if n > 0 {
        lemma_filled_in_row_bounds(row, n - 1);
    }
}

/// The first `n` rows of a grid of `cols` columns hold between zero and
/// `n * cols` pieces.
pub proof fn lemma_filled_cells_bounds(g: Seq<Seq<i64>>, n: int, cols: int)
    requires
        0 <= n <= g.len(),
        forall|r: int| 0 <= r < g.len() ==> (#[trigger] g[r]).len() == cols,
    ensures
        0 <= filled_cells(g, n) <= n * cols,
    decreases n,
{
    if n > 0 {
        lemma_filled_cells_bounds(g, n - 1, cols);
        assert(g[n - 1].len() == cols);
        lemma_filled_in_row_bounds(g[n - 1], cols);
        assert(n * cols == (n - 1) * cols + cols) by (nonlinear_arith);
    } else {
        assert(n * cols == 0) by (nonlinear_arith)
            requires
                n == 0,
        ;
    }
}

/// Writing `v` into cell `c` of a row changes the number of pieces among its
/// first `n` cells only if `c` is one of them, and then by what cell `c`
/// gains or loses.
pub proof fn lemma_filled_in_row_update(row: Seq<i64>, c: int, v: i64, n: int)
    requires
        0 <= c < row.len(),
        0 <= n <= row.len(),
    ensures
        filled_in_row(row.update(c, v), n) == filled_in_row(row, n) + if c < n {
            (if v != 0 {
                1int
            } else {
                0int
            }) - (if row[c] != 0 {
                1int
            } else {
                0int
            })
        } else {
            0int
        },
    decreases n,
{
    if n > 0 {
        lemma_filled_in_row_update(row, c, v, n - 1);
    }
}

/// Putting a piece into an empty cell of a grid adds one to the number of
/// its pieces.
pub proof fn lemma_filled_cells_grow(g: Seq<Seq<i64>>, r: int, c: int, v: i64, n: int)
    requires
        0 <= r < g.len(),
        0 <= c < g[r].len(),
        0 <= n <= g.len(),
        g[r][c] == 0,
        v != 0,
    ensures
        filled_cells(with_cell(g, r, c, v), n) == filled_cells(g, n) + if r < n {
            1int
        } else {
            0int
        },
    decreases n,
{
    if n > 0 {
        lemma_filled_cells_grow(g, r, c, v, n - 1);
        if r == n - 1 {
            lemma_filled_in_row_update(g[r], c, v, g[r].len() as int);
        }
    }
}

/// A grid with a piece in one of its first `n` rows holds at least one piece
/// there.
pub proof fn lemma_filled_cells_positive(g: Seq<Seq<i64>>, r: int, c: int, n: int, cols: int)
    requires
        0 <= r < n <= g.len(),
        forall|k: int| 0 <= k < g.len() ==> (#[trigger] g[k]).len() == cols,
        0 <= c < cols,
        g[r][c] != 0,
    ensures
        filled_cells(g, n) >= 1,
    decreases n,
{
    assert(g[n - 1].len() == cols);
    lemma_filled_cells_bounds(g, n - 1, cols);
    assert(0 * cols == 0) by (nonlinear_arith);
    assert((n - 1) * cols >= 0) by (nonlinear_arith)
        requires
            n >= 1,
            cols >= 0,
    ;
    if r == n - 1 {
        lemma_filled_in_row_bounds(g[r], c);
        lemma_filled_in_row_from(g[r], c + 1, cols);
    } else {
        lemma_filled_cells_positive(g, r, c, n - 1, cols);
        lemma_filled_in_row_bounds(g[n - 1], cols);
    }
}

/// A longer prefix of a row holds at least as many pieces.
pub proof fn lemma_filled_in_row_from(row: Seq<i64>, m: int, n: int)
    requires
        0 <= m <= n,
    ensures
        filled_in_row(row, m) <= filled_in_row(row, n),
    decreases n,
{
    if m < n {
        lemma_filled_in_row_from(row, m, n - 1);
    }
}

/// The lowest empty cell of column `c` at or above row `r`; `-1` if there
/// is none. Row 0 is the top row.
pub open spec fn lowest_empty_from(g: Seq<Seq<i64>>, c: int, r: int) -> int
    decreases r + 1,
{
    if r < 0 {
        -1
    } else if g[r][c] == 0 {
        r
    } else {
        lowest_empty_from(g, c, r - 1)
    }
}

/// The lowest empty cell of column `c`, where a piece put into the column
/// comes to rest; `-1` if the column is full.
pub open spec fn lowest_empty(g: Seq<Seq<i64>>, c: int) -> int {
    lowest_empty_from(g, c, g.len() - 1)
}

/// The lowest empty cell at or above row `r` is empty, nothing between it
/// and row `r` is, and there is none exactly if no cell down to row `r` is
/// empty.
pub proof fn lemma_lowest_empty_from(g: Seq<Seq<i64>>, c: int, r: int)
    requires
        -1 <= r,
    ensures
        -1 <= lowest_empty_from(g, c, r) <= r,
        lowest_empty_from(g, c, r) >= 0 ==> g[lowest_empty_from(g, c, r)][c] == 0,
        forall|k: int| lowest_empty_from(g, c, r) < k <= r ==> (#[trigger] g[k][c]) != 0,
    decreases r + 1,
{
    if r >= 0 && g[r][c] != 0 {
        lemma_lowest_empty_from(g, c, r - 1);
    }
}

/// The lowest empty cell of a column is empty and has no empty cell below
/// it, and a column has one exactly if it has an empty cell.
pub proof fn lemma_lowest_empty(g: Seq<Seq<i64>>, c: int)
    ensures
        -1 <= lowest_empty(g, c) < g.len(),
        lowest_empty(g, c) >= 0 ==> g[lowest_empty(g, c)][c] == 0,
        forall|r: int| lowest_empty(g, c) < r < g.len() ==> (#[trigger] g[r][c]) != 0,
        lowest_empty(g, c) >= 0 <==> exists|r: int| 0 <= r < g.len() && g[r][c] == 0,
{
    lemma_lowest_empty_from(g, c, g.len() - 1);
    if lowest_empty(g, c) < 0 {
        assert forall|r: int| 0 <= r < g.len() implies g[r][c] != 0 by {
            assert(lowest_empty(g, c) < r);
        }
    }
}

/// All rows of `g` are as long as its first.
pub open spec fn rectangular(g: Seq<Seq<i64>>) -> bool {
    forall|r: int| 0 <= r < g.len() ==> (#[trigger] g[r]).len() == g[0].len()
}

/// Puts `piece` into the lowest empty cell of `column` and returns the row
/// of that cell. Where the board has no such column or the column is full,
/// the board stays as it is and the result is `None`.
pub fn drop_into(board: &mut Vec<Vec<i64>>, column: usize, piece: i64) -> (landed: Option<usize>)
    requires
        rectangular(grid_of(old(board))),
    ensures
        landed is Some <==> grid_of(old(board)).len() > 0 && column < grid_of(old(board))[0].len()
            && lowest_empty(grid_of(old(board)), column as int) >= 0,
        landed matches Some(row) ==> row == lowest_empty(grid_of(old(board)), column as int)
            && grid_of(final(board)) == with_cell(
            grid_of(old(board)),
            row as int,
            column as int,
            piece,
        ),
        landed is None ==> grid_of(final(board)) == grid_of(old(board)),
{
    let ghost g = grid_of(board);
    if board.len() == 0 {
        return None;
    }
    assert(g[0] == board@[0]@);
    if column >= board[0].len() {
        return None;
    }
    let mut row: usize = board.len();
    while row > 0
        invariant
            row <= g.len(),
            g.len() > 0,
            column < g[0].len(),
            rectangular(g),
            grid_of(board) == g,
            g == grid_of(old(board)),
            lowest_empty(g, column as int) == lowest_empty_from(g, column as int, row - 1),
        decreases row,
    {
        row -= 1;
        assert(g[row as int].len() == g[0].len());
        assert(board@[row as int]@ == g[row as int]);
        if board[row][column] == 0 {
            assert(lowest_empty(g, column as int) == row);
            board[row][column] = piece;
            assert(grid_of(board) =~= with_cell(g, row as int, column as int, piece));
            return Some(row);
        }
    }
    None
}

/// Whether a board has exactly `rows` rows of exactly `cols` cells.
pub fn has_shape(board: &Vec<Vec<i64>>, rows: usize, cols: usize) -> (ok: bool)
    ensures
        ok == is_grid(grid_of(board), rows as int, cols as int),
{
    if board.len() != rows {
        return false;
    }
    let mut r: usize = 0;
    while r < rows
        invariant
            r <= rows,
            board@.len() == rows,
            forall|k: int| 0 <= k < r ==> (#[trigger] grid_of(board)[k]).len() == cols,
        decreases rows - r,
    {
        if board[r].len() != cols {
            assert(grid_of(board)[r as int].len() != cols);
            return false;
        }
        r += 1;
    }
    true
}

/// Every cell of the grid of `rows` rows and `cols` columns holds a code
/// from `low` to `high`.
pub open spec fn cells_within(g: Seq<Seq<i64>>, rows: int, cols: int, low: i64, high: i64) -> bool {
    forall|r: int, c: int|
        0 <= r < rows && 0 <= c < cols ==> low <= (#[trigger] g[r][c]) <= high
}

/// Whether a board has exactly `rows` rows of exactly `cols` cells, each
/// with a code from `low` to `high`.
pub fn has_cells_within(board: &Vec<Vec<i64>>, rows: usize, cols: usize, low: i64, high: i64) -> (ok:
    bool)
    ensures
        ok == (is_grid(grid_of(board), rows as int, cols as int) && cells_within(
            grid_of(board),
            rows as int,
            cols as int,
            low,
            high,
        )),
{
    if !has_shape(board, rows, cols) {
        return false;
    }
    let ghost g = grid_of(board);
    let mut r: usize = 0;
    while r < rows
        invariant
            r <= rows,
            g == grid_of(board),
            is_grid(g, rows as int, cols as int),
            cells_within(g, r as int, cols as int, low, high),
        decreases rows - r,
    {
        assert(g[r as int].len() == cols);
        let mut c: usize = 0;
        while c < cols
            invariant
                r < rows,
                c <= cols,
                g == grid_of(board),
                is_grid(g, rows as int, cols as int),
                g[r as int].len() == cols,
                cells_within(g, r as int, cols as int, low, high),
                forall|k: int| 0 <= k < c ==> low <= (#[trigger] g[r as int][k]) <= high,
            decreases cols - c,
        {
            let cell = board[r][c];
            if cell < low || cell > high {
                assert(!(low <= g[r as int][c as int] <= high));
                return false;
            }
            c += 1;
        }
        r += 1;
    }
    true
}

} // verus!
