//! Who has won a Connect4 board: the first run of four equal discs met when
//! the board is scanned row by row, and in each cell to the right, down,
//! down-right and up-right.

use vstd::prelude::*;
use crate::grid::{grid_of, is_grid};

verus! {

/// The result of the detector when the board is full and nobody has won.
pub const DRAW: i64 = 3;

/// A grid of the Connect4 shape.
pub open spec fn is_board(g: Seq<Seq<i64>>) -> bool {
    is_grid(g, 6, 7)
}

/// Row `r`, column `c` lies on the board.
pub open spec fn on_board(r: int, c: int) -> bool {
    0 <= r < 6 && 0 <= c < 7
}

/// The row step of direction `d`: `0` right, `1` down, `2` down-right,
/// `3` up-right.
pub open spec fn row_step(d: int) -> int {
    if d == 0 {
        0
    } else if d == 3 {
        -1
    } else {
        1
    }
}

/// The column step of direction `d`.
pub open spec fn col_step(d: int) -> int {
    if d == 1 {
        0
    } else {
        1
    }
}

/// The four cells that start at row `r`, column `c` and go in direction `d`
/// all lie on the board.
pub open spec fn line_on_board(r: int, c: int, d: int) -> bool {
    on_board(r, c) && on_board(r + 3 * row_step(d), c + 3 * col_step(d))
}

/// The cell `k` steps from row `r`, column `c` in direction `d`.
pub open spec fn cell_along(g: Seq<Seq<i64>>, r: int, c: int, d: int, k: int) -> i64 {
    g[r + k * row_step(d)][c + k * col_step(d)]
}

/// Four equal discs start at row `r`, column `c` and go in direction `d`.
pub open spec fn run_at(g: Seq<Seq<i64>>, r: int, c: int, d: int) -> bool {
    &&& 0 <= d < 4
    &&& line_on_board(r, c, d)
    &&& g[r][c] != 0
    &&& cell_along(g, r, c, d, 1) == g[r][c]
    &&& cell_along(g, r, c, d, 2) == g[r][c]
    &&& cell_along(g, r, c, d, 3) == g[r][c]
}

/// The disc of the first run found from row `r`, column `c`, direction `d`
/// onwards, rows first, then columns, then directions; `0` if there is none.
pub open spec fn scan_from(g: Seq<Seq<i64>>, r: int, c: int, d: int) -> i64
    decreases 6 - r, 7 - c, 4 - d,
{
    if r >= 6 || r < 0 || c < 0 || d < 0 {
        0
    } else if c >= 7 {
        scan_from(g, r + 1, 0, 0)
    } else if d >= 4 {
        scan_from(g, r, c + 1, 0)
    } else if run_at(g, r, c, d) {
        g[r][c]
    } else {
        scan_from(g, r, c, d + 1)
    }
}

/// No cell of the board is empty.
pub open spec fn board_full(g: Seq<Seq<i64>>) -> bool {
    forall|r: int, c: int| on_board(r, c) ==> (#[trigger] g[r][c]) != 0
}

/// What the detector reports: the disc of the first run of four in scan order;
/// without a run, `3` for a full board and `0` otherwise.
pub open spec fn winner_of(g: Seq<Seq<i64>>) -> i64 {
    let first = scan_from(g, 0, 0, 0);
    if first != 0 {
        first
    } else if board_full(g) {
        3
    } else {
        0
    }
}

/// The steps of direction `d` as a pair, row step first.
fn direction(d: usize) -> (step: (i64, i64))
    requires
        d < 4,
    ensures
        step.0 == row_step(d as int),
        step.1 == col_step(d as int),
{
    if d == 0 {
        (0, 1)
    } else if d == 1 {
        (1, 0)
    } else if d == 2 {
        (1, 1)
    } else {
        (-1, 1)
    }
}

/// Whether four equal discs start at row `x`, column `y` in direction `d`.
pub fn has_run(board: &Vec<Vec<i64>>, x: usize, y: usize, d: usize) -> (found: bool)
    requires
        is_board(grid_of(board)),
        x < 6,
        y < 7,
        d < 4,
    ensures
        found == run_at(grid_of(board), x as int, y as int, d as int),
{
    let ghost g = grid_of(board);
    assert(g[x as int].len() == 7);
    let disc = board[x][y];
    if disc == 0 {
        return false;
    }
    let (dx, dy) = direction(d);
    let end_x: i64 = (x as i64) + 3 * dx;
    let end_y: i64 = (y as i64) + 3 * dy;
    if end_x < 0 || end_x >= 6 || end_y < 0 || end_y >= 7 {
        return false;
    }
    let mut count: i64 = 1;
    while count < 4
        invariant_except_break
            1 <= count <= 4,
        invariant
            is_board(g),
            g == grid_of(board),
            x < 6,
            y < 7,
            d < 4,
            dx == row_step(d as int),
            dy == col_step(d as int),
            line_on_board(x as int, y as int, d as int),
            disc == g[x as int][y as int],
            forall|k: int|
                1 <= k < count ==> #[trigger] cell_along(g, x as int, y as int, d as int, k)
                    == disc,
        ensures
            1 <= count <= 4,
            count < 4 ==> cell_along(g, x as int, y as int, d as int, count as int) != disc,
            forall|k: int|
                1 <= k < count ==> #[trigger] cell_along(g, x as int, y as int, d as int, k)
                    == disc,
        decreases 4 - count,
    {
        let new_x: i64 = (x as i64) + (dx * count);
        let new_y: i64 = (y as i64) + (dy * count);
        assert(g[new_x as int].len() == 7);
        assert(new_x == x + count * row_step(d as int) && new_y == y + count * col_step(
            d as int,
        ));
        if board[new_x as usize][new_y as usize] != disc {
            break;
        }
        count += 1;
    }
    count == 4
}

/// Whether no cell of the board is empty.
pub fn is_full(board: &Vec<Vec<i64>>) -> (full: bool)
    requires
        is_board(grid_of(board)),
    ensures
        full == board_full(grid_of(board)),
{
    let ghost g = grid_of(board);
    let mut x: usize = 0;
    while x < 6
        invariant
            x <= 6,
            g == grid_of(board),
            is_board(g),
            forall|r: int, c: int| 0 <= r < x && 0 <= c < 7 ==> (#[trigger] g[r][c]) != 0,
        decreases 6 - x,
    {
        let mut y: usize = 0;
        while y < 7
            invariant
                x < 6,
                y <= 7,
                g == grid_of(board),
                is_board(g),
                forall|r: int, c: int| 0 <= r < x && 0 <= c < 7 ==> (#[trigger] g[r][c]) != 0,
                forall|c: int| 0 <= c < y ==> (#[trigger] g[x as int][c]) != 0,
            decreases 7 - y,
        {
            assert(g[x as int].len() == 7);
            if board[x][y] == 0 {
                assert(on_board(x as int, y as int) && g[x as int][y as int] == 0);
                return false;
            }
            y += 1;
        }
        x += 1;
    }
    true
}

/// The detector on a borrowed board.
pub fn winner_on(board: &Vec<Vec<i64>>) -> (w: i64)
    requires
        is_board(grid_of(board)),
    ensures
        w == winner_of(grid_of(board)),
{
    let ghost g = grid_of(board);
    let mut x: usize = 0;
    while x < 6
        invariant
            x <= 6,
            g == grid_of(board),
            is_board(g),
            scan_from(g, 0, 0, 0) == scan_from(g, x as int, 0, 0),
        decreases 6 - x,
    {
        let mut y: usize = 0;
        while y < 7
            invariant
                x < 6,
                y <= 7,
                g == grid_of(board),
                is_board(g),
                scan_from(g, 0, 0, 0) == scan_from(g, x as int, y as int, 0),
            decreases 7 - y,
        {
            assert(g[x as int].len() == 7);
            let mut d: usize = 0;
            while d < 4
                invariant
                    x < 6,
                    y < 7,
                    d <= 4,
                    g == grid_of(board),
                    is_board(g),
                    g[x as int].len() == 7,
                    scan_from(g, 0, 0, 0) == scan_from(g, x as int, y as int, d as int),
                decreases 4 - d,
            {
                if has_run(board, x, y, d) {
                    return board[x][y];
                }
                d += 1;
            }
            y += 1;
        }
        x += 1;
    }
    if is_full(board) {
        return DRAW;
    }
    0
}

/// The state of a game of Connect4: `1` if the human has won, `2` if the
/// automated side has, `3` for a draw, `0` while the game is open.
pub fn check_winner(game_board: Vec<Vec<i64>>) -> (w: i64)
    requires
        is_board(grid_of(&game_board)),
    ensures
        w == winner_of(grid_of(&game_board)),
{
    winner_on(&game_board)
}

/// The place `(r, c, d)` comes no later in the scan than `(r2, c2, d2)`.
pub open spec fn scanned_before(r: int, c: int, d: int, r2: int, c2: int, d2: int) -> bool {
    r < r2 || (r == r2 && (c < c2 || (c == c2 && d <= d2)))
}

/// Where the scan from a place finds a disc, a run of that disc starts at
/// the place returned, and no run starts between the two places: the run
/// is the first from the place on.
pub proof fn lemma_scan_witness(g: Seq<Seq<i64>>, r: int, c: int, d: int) -> (at: (int, int, int))
    requires
        scan_from(g, r, c, d) != 0,
    ensures
        run_at(g, at.0, at.1, at.2),
        g[at.0][at.1] == scan_from(g, r, c, d),
        forall|r2: int, c2: int, d2: int|
            #[trigger] run_at(g, r2, c2, d2) && scanned_before(r, c, d, r2, c2, d2)
                ==> scanned_before(at.0, at.1, at.2, r2, c2, d2),
    decreases 6 - r, 7 - c, 4 - d,
{
    if c >= 7 {
        lemma_scan_witness(g, r + 1, 0, 0)
    } else if d >= 4 {
        lemma_scan_witness(g, r, c + 1, 0)
    } else if run_at(g, r, c, d) {
        (r, c, d)
    } else {
        lemma_scan_witness(g, r, c, d + 1)
    }
}

/// The scan from a place finds a disc if a run starts there or later.
pub proof fn lemma_scan_finds(g: Seq<Seq<i64>>, r: int, c: int, d: int, r2: int, c2: int, d2: int)
    requires
        0 <= r,
        0 <= c,
        0 <= d,
        run_at(g, r2, c2, d2),
        scanned_before(r, c, d, r2, c2, d2),
    ensures
        scan_from(g, r, c, d) != 0,
    decreases 6 - r, 7 - c, 4 - d,
{
    if c >= 7 {
        lemma_scan_finds(g, r + 1, 0, 0, r2, c2, d2);
    } else if d >= 4 {
        lemma_scan_finds(g, r, c + 1, 0, r2, c2, d2);
    } else if !run_at(g, r, c, d) {
        lemma_scan_finds(g, r, c, d + 1, r2, c2, d2);
    }
}

/// A board on which four equal discs stand in a row, a column or a
/// diagonal, and on which every such run is of that same disc, has that
/// disc for its winner, whatever else it holds.
pub proof fn lemma_run_wins(g: Seq<Seq<i64>>, r: int, c: int, d: int)
    requires
        is_board(g),
        run_at(g, r, c, d),
        forall|r2: int, c2: int, d2: int| #[trigger]
            run_at(g, r2, c2, d2) ==> g[r2][c2] == g[r][c],
    ensures
        winner_of(g) == g[r][c],
{
    lemma_scan_finds(g, 0, 0, 0, r, c, d);
    let at = lemma_scan_witness(g, 0, 0, 0);
    assert(run_at(g, at.0, at.1, at.2));
}

/// A board with a run of four has a winner: the winner is the disc of one
/// of its runs.
pub proof fn lemma_some_run_wins(g: Seq<Seq<i64>>, r: int, c: int, d: int) -> (at: (int, int, int))
    requires
        is_board(g),
        run_at(g, r, c, d),
    ensures
        run_at(g, at.0, at.1, at.2),
        winner_of(g) == g[at.0][at.1],
        winner_of(g) != 0,
{
    lemma_scan_finds(g, 0, 0, 0, r, c, d);
    lemma_scan_witness(g, 0, 0, 0)
}

/// Without a run of four the scan finds nothing.
pub proof fn lemma_scan_nothing(g: Seq<Seq<i64>>, r: int, c: int, d: int)
    requires
        forall|r2: int, c2: int, d2: int| !#[trigger] run_at(g, r2, c2, d2),
    ensures
        scan_from(g, r, c, d) == 0,
    decreases 6 - r, 7 - c, 4 - d,
{
    if r >= 6 || r < 0 || c < 0 || d < 0 {
    } else if c >= 7 {
        lemma_scan_nothing(g, r + 1, 0, 0);
    } else if d >= 4 {
        lemma_scan_nothing(g, r, c + 1, 0);
    } else {
        lemma_scan_nothing(g, r, c, d + 1);
    }
}

/// A board with no empty cell and no run of four is a draw.
pub proof fn lemma_full_board_draws(g: Seq<Seq<i64>>)
    requires
        is_board(g),
        board_full(g),
        forall|r: int, c: int, d: int| !#[trigger] run_at(g, r, c, d),
    ensures
        winner_of(g) == 3,
{
    lemma_scan_nothing(g, 0, 0, 0);
}

/// A board with an empty cell and no run of four is still open.
pub proof fn lemma_open_board(g: Seq<Seq<i64>>)
    requires
        is_board(g),
        !board_full(g),
        forall|r: int, c: int, d: int| !#[trigger] run_at(g, r, c, d),
    ensures
        winner_of(g) == 0,
{
    lemma_scan_nothing(g, 0, 0, 0);
}

} // verus!
