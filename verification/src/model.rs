//! What the two engines are asked and what they answer.

use vstd::prelude::*;

verus! {

/// A request for a move: the board as rows of cell codes, and the
/// difficulty, `"Easy"` or `"Hard"`.
#[derive(Debug, Clone)]
pub struct GameResult {
    pub game_board: Vec<Vec<i64>>,
    pub difficulty_level: String,
}

/// The answer of the Connect4 engine: an open column from 0 to 6, or `-1`
/// where the automated side has already won or no column is open.
#[derive(Debug, Clone)]
pub struct ColResponse {
    pub column: i64,
}

/// The answer of the TOOT-OTTO engine: the column, a comma, and `3` for a T
/// or `4` for an O.
#[derive(Debug, Clone)]
pub struct TootResponse {
    pub move_step: String,
}

} // verus!
