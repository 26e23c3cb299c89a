//! The two engines behind their requests: a request with a board of the
//! wrong shape or with a cell code out of range is turned away, every other
//! request is answered.

use vstd::prelude::*;
use crate::connect4::detect::{is_board, winner_of};
use crate::connect4::engine::puff_connect4;
use crate::connect4::search::{chosen_column, column_open, some_column_open};
use crate::grid::{cells_within, grid_of, has_cells_within};
use crate::model::{ColResponse, GameResult, TootResponse};
use crate::text::move_text;
use crate::toot::pattern::is_toot_board;
use crate::toot::policy::{puff_toot, toot_outcome};

verus! {

/// A Connect4 board as a request may hold it: six rows of seven cells, each
/// empty or with a disc of one of the two sides.
pub open spec fn valid_connect4(g: Seq<Seq<i64>>) -> bool {
    is_board(g) && cells_within(g, 6, 7, 0, 2)
}

/// A TOOT-OTTO board as a request may hold it: four rows of six cells, each
/// empty or with one of the four letters.
pub open spec fn valid_toot(g: Seq<Seq<i64>>) -> bool {
    is_toot_board(g) && cells_within(g, 4, 6, 0, 4)
}

/// Whether a Connect4 request holds a board that the engine takes.
pub fn is_connect4_request(game_board: &Vec<Vec<i64>>) -> (ok: bool)
    ensures
        ok == valid_connect4(grid_of(game_board)),
{
    has_cells_within(game_board, 6, 7, 0, 2)
}

/// Whether a TOOT-OTTO request holds a board that the engine takes.
pub fn is_toot_request(game_board: &Vec<Vec<i64>>) -> (ok: bool)
    ensures
        ok == valid_toot(grid_of(game_board)),
{
    has_cells_within(game_board, 4, 6, 0, 4)
}

/// Answers a Connect4 request with the column that the automated side
/// plays, or with `None` where the board is not valid. The column is open,
/// but for a board that the automated side has already won or on which no
/// column is open: there it is `-1`.
pub fn connect_puff_move(game_board_state: GameResult) -> (answer: Option<ColResponse>)
    ensures
        answer is Some <==> valid_connect4(grid_of(&game_board_state.game_board)),
        answer matches Some(response) ==> response.column == chosen_column(
            grid_of(&game_board_state.game_board),
            game_board_state.difficulty_level@,
        ) && (response.column == -1 || column_open(
            grid_of(&game_board_state.game_board),
            response.column as int,
        )) && (response.column == -1 <==> winner_of(grid_of(&game_board_state.game_board)) == 2
            || !some_column_open(grid_of(&game_board_state.game_board))),
{
    let GameResult { game_board, difficulty_level } = game_board_state;
    if !is_connect4_request(&game_board) {
        return None;
    }
    let column = puff_connect4(game_board, difficulty_level);
    Some(ColResponse { column })
}

/// Answers a TOOT-OTTO request with the move that the automated side
/// makes, or with `None` where the board is not valid.
pub fn connect_puff_toot_move(game_board_state: GameResult) -> (answer: Option<TootResponse>)
    ensures
        answer is Some <==> valid_toot(grid_of(&game_board_state.game_board)),
        answer matches Some(response) ==> exists|mv: (usize, i64)|
            toot_outcome(
                grid_of(&game_board_state.game_board),
                game_board_state.difficulty_level@,
                mv,
            ) && mv.0 < 6 && (mv.1 == 3 || mv.1 == 4) && response.move_step@ == move_text(
                mv.0,
                mv.1,
            ),
{
    let GameResult { game_board, difficulty_level } = game_board_state;
    if !is_toot_request(&game_board) {
        return None;
    }
    let move_step = puff_toot(game_board, difficulty_level);
    Some(TootResponse { move_step })
}

} // verus!
