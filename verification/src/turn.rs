//! What a turn does to the board on the page: the human's disc or letter
//! goes into the column that was clicked, the automated side's into the
//! column that its engine answered, and the detector's result becomes the
//! name of the winner.

use vstd::prelude::*;
use vstd::string::StringExecFns;
use crate::connect4::detect::is_board;
use crate::grid::{
    drop_into, grid_of, lemma_lowest_empty, lemma_with_cell_shape, lowest_empty, with_cell,
};
use crate::text::{move_of, parse_move};
use crate::toot::pattern::is_toot_board;

verus! {

/// The first column from `j` on, of the seven, that has an empty cell; 7
/// if there is none.
pub open spec fn first_free_from(g: Seq<Seq<i64>>, j: int) -> int
    decreases 7 - j,
{
    if j < 0 || j >= 7 {
        7
    } else if lowest_empty(g, j) >= 0 {
        j
    } else {
        first_free_from(g, j + 1)
    }
}

/// The column that the automated side's disc goes into when its engine
/// answered `column`: that column if it has an empty cell, else the first
/// column that has one; 7 if the board is full.
pub open spec fn answered_column(g: Seq<Seq<i64>>, column: i64) -> int {
    if 0 <= column < 7 && lowest_empty(g, column as int) >= 0 {
        column as int
    } else {
        first_free_from(g, 0)
    }
}

/// The code of the letter that the human has selected: `1` for `"T"`, `2`
/// for `"O"`, and `0`, no letter, for any other text.
pub open spec fn selected_code(select_type: Seq<char>) -> i64 {
    if select_type == "T"@ {
        1
    } else if select_type == "O"@ {
        2
    } else {
        0
    }
}

/// The column that the text of a move names, if the text is a move and
/// the column is one of the six and has an empty cell; `-1` if not.
pub open spec fn named_column(g: Seq<Seq<i64>>, move_step: Seq<char>) -> int {
    match move_of(move_step) {
        Some(mv) => if 0 <= mv.0 < 6 && lowest_empty(g, mv.0 as int) >= 0 {
            mv.0 as int
        } else {
            -1
        },
        None => -1,
    }
}

/// The name of the winner that the page shows for the detector's result:
/// the player's for `1`, `"AlphaPuff"` for `2`, `"Draw"` for `3`, and none
/// while the game is open.
pub fn winner_name(winner_result: i64, player_name: &str) -> (name: Option<String>)
    ensures
        winner_result == 1 ==> name is Some && name->Some_0@ == player_name@,
        winner_result == 2 ==> name is Some && name->Some_0@ == "AlphaPuff"@,
        winner_result == 3 ==> name is Some && name->Some_0@ == "Draw"@,
        name is Some <==> 1 <= winner_result <= 3,
{
    if winner_result == 1 {
        Some(String::from_str(player_name))
    } else if winner_result == 2 {
        Some(String::from_str("AlphaPuff"))
    } else if winner_result == 3 {
        Some(String::from_str("Draw"))
    } else {
        None
    }
}

/// The code of the letter that the human has selected.
pub fn letter_code(select_type: &str) -> (code: i64)
    ensures
        code == selected_code(select_type@),
{
    let selected = String::from_str(select_type);
    if selected == String::from_str("T") {
        1
    } else if selected == String::from_str("O") {
        2
    } else {
        0
    }
}

/// The human's turn at Connect4: a disc of the human goes into the column
/// that was clicked. The result tells whether it did; where the board has
/// no such column or the column is full, the board stays as it is.
pub fn human_turn(board: &mut Vec<Vec<i64>>, column: usize) -> (moved: bool)
    requires
        is_board(grid_of(old(board))),
    ensures
        is_board(grid_of(final(board))),
        moved == (column < 7 && lowest_empty(grid_of(old(board)), column as int) >= 0),
        moved ==> grid_of(final(board)) == with_cell(
            grid_of(old(board)),
            lowest_empty(grid_of(old(board)), column as int),
            column as int,
            1,
        ),
        !moved ==> grid_of(final(board)) == grid_of(old(board)),
{
    let ghost g = grid_of(board);
    assert(g[0].len() == 7);
    proof {
        lemma_lowest_empty(g, column as int);
        if column < 7 && lowest_empty(g, column as int) >= 0 {
            lemma_with_cell_shape(
                g,
                lowest_empty(g, column as int),
                column as int,
                1,
                6,
                7,
            );
        }
    }
    drop_into(board, column, 1).is_some()
}

/// The human's turn at TOOT-OTTO: the letter that the human has selected
/// goes into the column that was clicked. The result tells whether the
/// column had room; where it had none, and where no letter is selected,
/// the board stays as it is.
pub fn human_toot_turn(board: &mut Vec<Vec<i64>>, column: usize, select_type: &str) -> (moved:
    bool)
    requires
        is_toot_board(grid_of(old(board))),
    ensures
        is_toot_board(grid_of(final(board))),
        moved == (column < 6 && lowest_empty(grid_of(old(board)), column as int) >= 0),
        moved ==> grid_of(final(board)) == with_cell(
            grid_of(old(board)),
            lowest_empty(grid_of(old(board)), column as int),
            column as int,
            selected_code(select_type@),
        ),
        !moved ==> grid_of(final(board)) == grid_of(old(board)),
{
    let ghost g = grid_of(board);
    assert(g[0].len() == 6);
    let code = letter_code(select_type);
    proof {
        lemma_lowest_empty(g, column as int);
        if column < 6 && lowest_empty(g, column as int) >= 0 {
            lemma_with_cell_shape(
                g,
                lowest_empty(g, column as int),
                column as int,
                code,
                4,
                6,
            );
        }
    }
    drop_into(board, column, code).is_some()
}

/// The turn of the automated side at Connect4 when its engine answered
/// `column`: its disc goes into that column, or, where that is no column
/// with an empty cell, as for the answer `-1`, into the first column that
/// has one. The result is the column played, or `None` where the board is
/// full and stays as it is.
#[allow(non_snake_case)]
pub fn alphaPuff_turn(board: &mut Vec<Vec<i64>>, column: i64) -> (played: Option<usize>)
    requires
        is_board(grid_of(old(board))),
    ensures
        is_board(grid_of(final(board))),
        played is Some <==> answered_column(grid_of(old(board)), column) < 7,
        played matches Some(c) ==> c == answered_column(grid_of(old(board)), column) && grid_of(
            final(board),
        ) == with_cell(
            grid_of(old(board)),
            lowest_empty(grid_of(old(board)), c as int),
            c as int,
            2,
        ),
        played is None ==> grid_of(final(board)) == grid_of(old(board)),
{
    let ghost g = grid_of(board);
    assert(g[0].len() == 7);
    if 0 <= column && column < 7 {
        let c = column as usize;
        proof {
            lemma_lowest_empty(g, c as int);
            if lowest_empty(g, c as int) >= 0 {
                lemma_with_cell_shape(g, lowest_empty(g, c as int), c as int, 2, 6, 7);
            }
        }
        if drop_into(board, c, 2).is_some() {
            return Some(c);
        }
    }
    let mut j: usize = 0;
    while j < 7
        invariant
            j <= 7,
            g == grid_of(old(board)),
            grid_of(board) == g,
            is_board(g),
            !(0 <= column < 7 && lowest_empty(g, column as int) >= 0),
            first_free_from(g, 0) == first_free_from(g, j as int),
        decreases 7 - j,
    {
        proof {
            lemma_lowest_empty(g, j as int);
            if lowest_empty(g, j as int) >= 0 {
                lemma_with_cell_shape(g, lowest_empty(g, j as int), j as int, 2, 6, 7);
            }
        }
        assert(g[0].len() == 7);
        if drop_into(board, j, 2).is_some() {
            return Some(j);
        }
        j += 1;
    }
    None
}

/// The turn of the automated side at TOOT-OTTO when its engine answered
/// `move_step`: the letter goes into the column, as the text names them.
/// The result tells whether it did; where the text is no move, names no
/// column of the board, or the column is full, the board stays as it is.
#[allow(non_snake_case)]
pub fn alphaPuff_toot_turn(board: &mut Vec<Vec<i64>>, move_step: &str) -> (moved: bool)
    requires
        is_toot_board(grid_of(old(board))),
    ensures
        is_toot_board(grid_of(final(board))),
        moved == (named_column(grid_of(old(board)), move_step@) >= 0),
        moved ==> grid_of(final(board)) == with_cell(
            grid_of(old(board)),
            lowest_empty(grid_of(old(board)), named_column(grid_of(old(board)), move_step@)),
            named_column(grid_of(old(board)), move_step@),
            move_of(move_step@)->Some_0.1,
        ),
        !moved ==> grid_of(final(board)) == grid_of(old(board)),
{
    let ghost g = grid_of(board);
    assert(g[0].len() == 6);
    match parse_move(move_step) {
        Some((column, t_or_o)) => {
            if column < 0 || column >= 6 {
                return false;
            }
            let c = column as usize;
            proof {
                lemma_lowest_empty(g, c as int);
                if lowest_empty(g, c as int) >= 0 {
                    lemma_with_cell_shape(
                        g,
                        lowest_empty(g, c as int),
                        c as int,
                        t_or_o,
                        4,
                        6,
                    );
                }
            }
            drop_into(board, c, t_or_o).is_some()
        },
        None => false,
    }
}

} // verus!
