//! How the automated side moves in TOOT-OTTO. On `"Hard"` it takes the
//! first move, columns from the left and T before O, that puts four of its
//! own equal letters in a line, and else leaves the choice among the
//! columns that are not full to chance. On any other setting it leaves the
//! choice among the empty cells, and between the two letters, to chance.

use vstd::prelude::*;
use vstd::string::StringExecFns;
use crate::chance::{choose_cell, random_index, toss};
use crate::grid::{
    drop_into, grid_of, lemma_lowest_empty, lemma_with_cell_shape, lowest_empty, with_cell,
};
use crate::text::{move_text, render_move};
use crate::toot::laws::{lemma_easy_move_is_legal, lemma_hard_move_is_legal};
use crate::toot::pattern::is_toot_board;

verus! {

/// The automated side's T.
pub const PUFF_T: i64 = 3;

/// The automated side's O.
pub const PUFF_O: i64 = 4;

/// Row `r`, column `c` lies on the board.
pub open spec fn on_toot(r: int, c: int) -> bool {
    0 <= r < 4 && 0 <= c < 6
}

/// The row in which a letter put into column `c` comes to rest: the
/// lowest empty cell of the column; `-1` if the column is full.
pub open spec fn rest_row(g: Seq<Seq<i64>>, c: int) -> int {
    lowest_empty(g, c)
}

/// Column `c` has an empty cell.
pub open spec fn column_free(g: Seq<Seq<i64>>, c: int) -> bool {
    rest_row(g, c) >= 0
}

/// The board after `disc` was put into column `c`.
pub open spec fn placed(g: Seq<Seq<i64>>, c: int, disc: i64) -> Seq<Seq<i64>> {
    with_cell(g, rest_row(g, c), c, disc)
}

/// How many cells in a row hold `disc`, from row `r`, column `c` on and in
/// steps of `dr` rows and `dc` columns, among at most `n` cells.
pub open spec fn streak(
    g: Seq<Seq<i64>>,
    r: int,
    c: int,
    dr: int,
    dc: int,
    disc: i64,
    n: nat,
) -> int
    decreases n,
{
    if n == 0 || !on_toot(r, c) || g[r][c] != disc {
        0
    } else {
        1 + streak(g, r + dr, c + dc, dr, dc, disc, (n - 1) as nat)
    }
}

/// The length of the line of `disc` through row `r`, column `c`, along the
/// steps `dr`, `dc` and against them, the cell itself counted as one.
pub open spec fn line_through(g: Seq<Seq<i64>>, r: int, c: int, dr: int, dc: int, disc: i64) -> int {
    1 + streak(g, r - dr, c - dc, -dr, -dc, disc, 6) + streak(g, r + dr, c + dc, dr, dc, disc, 6)
}

/// A `disc` at row `r`, column `c` stands in a line of four or more equal
/// letters: along the row, down the column below it, or along one of the
/// two diagonals. The cell itself is taken to hold `disc`.
pub open spec fn completes_four(g: Seq<Seq<i64>>, r: int, c: int, disc: i64) -> bool {
    ||| line_through(g, r, c, 0, 1, disc) >= 4
    ||| 1 + streak(g, r + 1, c, 1, 0, disc, 6) >= 4
    ||| line_through(g, r, c, 1, 1, disc) >= 4
    ||| line_through(g, r, c, -1, 1, disc) >= 4
}

/// The column of move `k`, where the twelve moves are counted column by
/// column from the left, T before O.
pub open spec fn option_col(k: int) -> int {
    k / 2
}

/// The letter of move `k`.
pub open spec fn option_disc(k: int) -> i64 {
    if k % 2 == 0 {
        3
    } else {
        4
    }
}

/// Move `k` can be made and puts four equal letters in a line.
pub open spec fn option_wins(g: Seq<Seq<i64>>, k: int) -> bool {
    &&& column_free(g, option_col(k))
    &&& completes_four(
        placed(g, option_col(k), option_disc(k)),
        rest_row(g, option_col(k)),
        option_col(k),
        option_disc(k),
    )
}

/// The first winning move among moves `k` to 11; 12 if there is none.
pub open spec fn first_win_from(g: Seq<Seq<i64>>, k: int) -> int
    decreases 12 - k,
{
    if k >= 12 || k < 0 {
        12
    } else if option_wins(g, k) {
        k
    } else {
        first_win_from(g, k + 1)
    }
}

/// The moves among the first `k` that can be made, in their order.
pub open spec fn candidates_upto(g: Seq<Seq<i64>>, k: int) -> Seq<(usize, i64)>
    decreases k,
{
    if k <= 0 {
        Seq::empty()
    } else if column_free(g, option_col(k - 1)) {
        candidates_upto(g, k - 1).push((option_col(k - 1) as usize, option_disc(k - 1)))
    } else {
        candidates_upto(g, k - 1)
    }
}

/// The move on `"Hard"` when chance has drawn `draw`: the first winning
/// move; without one, the move that `draw` picks among those that can be
/// made; and column 0 with a T where the board is full.
pub open spec fn hard_choice(g: Seq<Seq<i64>>, draw: usize) -> (usize, i64) {
    let win = first_win_from(g, 0);
    let candidates = candidates_upto(g, 12);
    if win < 12 {
        (option_col(win) as usize, option_disc(win))
    } else if candidates.len() > 0 {
        candidates[draw as int % candidates.len() as int]
    } else {
        (0, 3)
    }
}

/// `mv` is a move that `"Hard"` can make on `g`.
pub open spec fn hard_outcome(g: Seq<Seq<i64>>, mv: (usize, i64)) -> bool {
    exists|draw: usize| mv == hard_choice(g, draw)
}

/// The empty cells among the first `n` cells of the board, counted row by
/// row, each as its column and its row.
pub open spec fn open_cells(g: Seq<Seq<i64>>, n: int) -> Seq<(usize, usize)>
    decreases n,
{
    if n <= 0 {
        Seq::empty()
    } else if g[(n - 1) / 6][(n - 1) % 6] == 0 {
        open_cells(g, n - 1).push((((n - 1) % 6) as usize, ((n - 1) / 6) as usize))
    } else {
        open_cells(g, n - 1)
    }
}

/// The move on the easy setting when chance has picked the cell `picked`
/// and the coin shows `heads`: the column of the cell, with a T for heads
/// and an O for tails; column 0 with a T where no cell was picked.
pub open spec fn easy_choice(picked: Option<(usize, usize)>, heads: bool) -> (usize, i64) {
    match picked {
        Some(cell) => (
            cell.0,
            if heads {
                3
            } else {
                4
            },
        ),
        None => (0, 3),
    }
}

/// `mv` is a move that the easy setting can make on `g`.
pub open spec fn easy_outcome(g: Seq<Seq<i64>>, mv: (usize, i64)) -> bool {
    if open_cells(g, 24).len() == 0 {
        mv == (0usize, 3i64)
    } else {
        exists|cell: (usize, usize), heads: bool|
            open_cells(g, 24).contains(cell) && mv == easy_choice(Some(cell), heads)
    }
}

/// `mv` is a move that the automated side can make on `g` at the given
/// difficulty: that of `"Hard"`, or for any other text the easy one.
pub open spec fn toot_outcome(g: Seq<Seq<i64>>, difficulty: Seq<char>, mv: (usize, i64)) -> bool {
    if difficulty == "Hard"@ {
        hard_outcome(g, mv)
    } else {
        easy_outcome(g, mv)
    }
}

/// Puts `disc` into column `col` of a copy of the board: the copy and the
/// row where the letter came to rest, or `None` where the column is full
/// or is none of the six.
pub fn simulate_move(board: &Vec<Vec<i64>>, col: usize, disc: i64) -> (res: Option<
    (Vec<Vec<i64>>, usize),
>)
    requires
        is_toot_board(grid_of(board)),
    ensures
        res is Some <==> col < 6 && column_free(grid_of(board), col as int),
        res matches Some(after) ==> after.1 < 4 && after.1 == rest_row(
            grid_of(board),
            col as int,
        ) && grid_of(&after.0) == placed(grid_of(board), col as int, disc) && is_toot_board(
            grid_of(&after.0),
        ),
{
    let ghost g = grid_of(board);
    let mut new_board = board.clone();
    assert(grid_of(&new_board) =~= g);
    assert(g[0].len() == 6);
    match drop_into(&mut new_board, col, disc) {
        Some(row) => {
            proof {
                lemma_lowest_empty(g, col as int);
                lemma_with_cell_shape(g, row as int, col as int, disc, 4, 6);
            }
            Some((new_board, row))
        },
        None => None,
    }
}

/// How many cells in a row hold `disc`, from row `r`, column `c` on and in
/// steps of `dr` rows and `dc` columns.
fn count_along(board: &Vec<Vec<i64>>, r: i32, c: i32, dr: i32, dc: i32, disc: i64) -> (n: i32)
    requires
        is_toot_board(grid_of(board)),
        -1 <= r <= 4,
        -1 <= c <= 6,
        -1 <= dr <= 1,
        -1 <= dc <= 1,
        dr != 0 || dc != 0,
    ensures
        n == streak(grid_of(board), r as int, c as int, dr as int, dc as int, disc, 6),
        0 <= n <= 6,
{
    let ghost g = grid_of(board);
    let mut n: i32 = 0;
    let mut i: i32 = r;
    let mut j: i32 = c;
    loop
        invariant
            is_toot_board(g),
            g == grid_of(board),
            -1 <= dr <= 1,
            -1 <= dc <= 1,
            dr != 0 || dc != 0,
            -1 <= r <= 4,
            -1 <= c <= 6,
            0 <= n <= 6,
            -1 <= i <= 4,
            -1 <= j <= 6,
            dr == 1 ==> i == r + n,
            dr == -1 ==> i == r - n,
            dc == 1 ==> j == c + n,
            dc == -1 ==> j == c - n,
            n + streak(g, i as int, j as int, dr as int, dc as int, disc, (6 - n) as nat)
                == streak(g, r as int, c as int, dr as int, dc as int, disc, 6),
        ensures
            0 <= n <= 6,
            n == streak(g, r as int, c as int, dr as int, dc as int, disc, 6),
        decreases 6 - n,
    {
        if i < 0 || i >= 4 || j < 0 || j >= 6 {
            break;
        }
        assert(g[i as int].len() == 6);
        if board[i as usize][j as usize] != disc {
            break;
        }
        n += 1;
        i += dr;
        j += dc;
    }
    n
}

/// Whether the `disc` at row `row`, column `col` stands in a line of four
/// or more equal letters: along the row, down the column below it, or along
/// one of the two diagonals. The cell itself is taken to hold `disc`.
pub fn check_for_win(board: &Vec<Vec<i64>>, row: usize, col: usize, disc: i64) -> (won: bool)
    requires
        is_toot_board(grid_of(board)),
        row < 4,
        col < 6,
    ensures
        won == completes_four(grid_of(board), row as int, col as int, disc),
{
    let r: i32 = row as i32;
    let c: i32 = col as i32;

    // along the row, to the left and to the right
    let mut count: i32 = 1;
    count += count_along(board, r, c - 1, 0, -1, disc);
    count += count_along(board, r, c + 1, 0, 1, disc);
    if count >= 4 {
        return true;
    }
    // down the column
    count = 1;
    count += count_along(board, r + 1, c, 1, 0, disc);
    if count >= 4 {
        return true;
    }
    // along the diagonal from the top left to the bottom right
    count = 1;
    count += count_along(board, r - 1, c - 1, -1, -1, disc);
    count += count_along(board, r + 1, c + 1, 1, 1, disc);
    if count >= 4 {
        return true;
    }
    // along the diagonal from the bottom left to the top right
    count = 1;
    count += count_along(board, r + 1, c - 1, 1, -1, disc);
    count += count_along(board, r - 1, c + 1, -1, 1, disc);
    if count >= 4 {
        return true;
    }
    false
}

/// Looks through the twelve moves, columns from the left and T before O:
/// the first move that wins, or else all the moves that can be made.
pub fn scan_moves(game_board: &Vec<Vec<i64>>) -> (found: (Option<(usize, i64)>, Vec<(usize, i64)>))
    requires
        is_toot_board(grid_of(game_board)),
    ensures
        found.0 is Some <==> first_win_from(grid_of(game_board), 0) < 12,
        found.0 matches Some(mv) ==> mv == (
            option_col(first_win_from(grid_of(game_board), 0)) as usize,
            option_disc(first_win_from(grid_of(game_board), 0)),
        ),
        found.0 is None ==> found.1@ == candidates_upto(grid_of(game_board), 12),
{
    let ghost g = grid_of(game_board);
    let cols: usize = 6;
    let mut candidates: Vec<(usize, i64)> = Vec::new();

    let mut col: usize = 0;
    while col < cols
        invariant
            col <= cols == 6,
            g == grid_of(game_board),
            is_toot_board(g),
            first_win_from(g, 0) == first_win_from(g, 2 * col),
            candidates@ == candidates_upto(g, 2 * col),
        decreases cols - col,
    {
        match simulate_move(game_board, col, PUFF_T) {
            Some((new_board, row)) => {
                if check_for_win(&new_board, row, col, PUFF_T) {
                    return (Some((col, PUFF_T)), candidates);
                }
                candidates.push((col, PUFF_T));
            },
            None => {},
        }
        assert(candidates@ == candidates_upto(g, 2 * col + 1));
        assert(first_win_from(g, 0) == first_win_from(g, 2 * col + 1));
        match simulate_move(game_board, col, PUFF_O) {
            Some((new_board, row)) => {
                if check_for_win(&new_board, row, col, PUFF_O) {
                    return (Some((col, PUFF_O)), candidates);
                }
                candidates.push((col, PUFF_O));
            },
            None => {},
        }
        col += 1;
    }
    (None, candidates)
}

/// The move on `"Hard"` when chance has drawn `draw`.
pub fn hard_move_from(game_board: &Vec<Vec<i64>>, draw: usize) -> (mv: (usize, i64))
    requires
        is_toot_board(grid_of(game_board)),
    ensures
        mv == hard_choice(grid_of(game_board), draw),
{
    let (win, candidates) = scan_moves(game_board);
    match win {
        Some(mv) => mv,
        None => {
            if candidates.len() > 0 {
                let idx = draw % candidates.len();
                candidates[idx]
            } else {
                (0, PUFF_T)
            }
        },
    }
}

/// The move on `"Hard"`: the first winning move; without one, a move that
/// chance picks among those that can be made; column 0 with a T where the
/// board is full. Chance is asked only where there is a choice.
pub fn find_best_move_hard(game_board: &Vec<Vec<i64>>) -> (mv: (usize, i64))
    requires
        is_toot_board(grid_of(game_board)),
    ensures
        hard_outcome(grid_of(game_board), mv),
        first_win_from(grid_of(game_board), 0) < 12 ==> mv == (
            option_col(first_win_from(grid_of(game_board), 0)) as usize,
            option_disc(first_win_from(grid_of(game_board), 0)),
        ),
        mv.0 < 6,
        mv.1 == 3 || mv.1 == 4,
{
    let ghost g = grid_of(game_board);
    let (win, candidates) = scan_moves(game_board);
    match win {
        Some(mv) => {
            proof {
                lemma_hard_move_is_legal(g, 0);
                assert(mv == hard_choice(g, 0));
            }
            mv
        },
        None => {
            if candidates.len() > 0 {
                let draw = random_index();
                proof {
                    lemma_hard_move_is_legal(g, draw);
                }
                let idx = draw % candidates.len();
                assert(candidates[idx as int] == hard_choice(g, draw));
                candidates[idx]
            } else {
                proof {
                    lemma_hard_move_is_legal(g, 0);
                    assert((0usize, 3i64) == hard_choice(g, 0));
                }
                (0, PUFF_T)
            }
        },
    }
}

/// The empty cells of the board, row by row, each as its column and its
/// row.
pub fn empty_cells(game_board: &Vec<Vec<i64>>) -> (cells: Vec<(usize, usize)>)
    requires
        is_toot_board(grid_of(game_board)),
    ensures
        cells@ == open_cells(grid_of(game_board), 24),
{
    let ghost g = grid_of(game_board);
    let mut available_moves: Vec<(usize, usize)> = Vec::new();
    let mut row: usize = 0;
    while row < 4
        invariant
            row <= 4,
            g == grid_of(game_board),
            is_toot_board(g),
            available_moves@ == open_cells(g, row * 6),
        decreases 4 - row,
    {
        let mut col: usize = 0;
        while col < 6
            invariant
                row < 4,
                col <= 6,
                g == grid_of(game_board),
                is_toot_board(g),
                available_moves@ == open_cells(g, row * 6 + col),
            decreases 6 - col,
        {
            assert(g[row as int].len() == 6);
            if game_board[row][col] == 0 {
                available_moves.push((col, row));
            }
            col += 1;
        }
        row += 1;
    }
    available_moves
}

/// The move on the easy setting when chance has picked the cell `picked`
/// and the coin shows `heads`.
pub fn easy_move_of(picked: Option<(usize, usize)>, heads: bool) -> (mv: (usize, i64))
    ensures
        mv == easy_choice(picked, heads),
{
    match picked {
        Some((col, _row)) => {
            let piece = if heads {
                PUFF_T
            } else {
                PUFF_O
            };
            (col, piece)
        },
        None => (0, PUFF_T),
    }
}

/// The move on the easy setting: the column of an empty cell that chance
/// picks among all empty cells, with a letter that a fair coin picks;
/// column 0 with a T where the board is full.
pub fn find_best_move_easy(game_board: &Vec<Vec<i64>>) -> (mv: (usize, i64))
    requires
        is_toot_board(grid_of(game_board)),
    ensures
        easy_outcome(grid_of(game_board), mv),
        mv.0 < 6,
        mv.1 == 3 || mv.1 == 4,
{
    let mut rng = rand::thread_rng();
    let available_moves = empty_cells(game_board);
    let picked = choose_cell(&available_moves, &mut rng);
    let mv = match picked {
        Some(cell) => {
            let heads = toss(&mut rng, 1, 2);
            easy_move_of(Some(cell), heads)
        },
        None => easy_move_of(None, true),
    };
    proof {
        lemma_easy_move_is_legal(grid_of(game_board), mv);
    }
    mv
}

/// The move of the automated side on `game_board` as text: the column, a
/// comma, and `3` for a T or `4` for an O. The move is that of `"Hard"`
/// where `difficulty_level` says so, and the easy one for any other text.
pub fn puff_toot(game_board: Vec<Vec<i64>>, difficulty_level: String) -> (move_step: String)
    requires
        is_toot_board(grid_of(&game_board)),
    ensures
        exists|mv: (usize, i64)|
            toot_outcome(grid_of(&game_board), difficulty_level@, mv) && mv.0 < 6 && (mv.1 == 3
                || mv.1 == 4) && move_step@ == move_text(mv.0, mv.1),
{
    let (best_col, best_piece) = if difficulty_level == String::from_str("Hard") {
        find_best_move_hard(&game_board)
    } else {
        find_best_move_easy(&game_board)
    };
    assert(toot_outcome(grid_of(&game_board), difficulty_level@, (best_col, best_piece)));
    render_move(best_col, best_piece)
}

} // verus!
