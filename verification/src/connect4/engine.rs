//! The Connect4 engine: a search state that owns its board, the heuristic
//! and the detector on it, the depth-bounded search, and the entry point
//! that answers a board with a column.

use vstd::prelude::*;
use vstd::string::StringExecFns;
use crate::connect4::detect::{is_board, lemma_scan_witness, winner_of, winner_on};
use crate::connect4::scoring::{
    board_score, count_eq, family_score, lemma_family_score_bounds, nth_window, table_score,
    window_score,
};
use crate::connect4::search::{
    best_from, chosen_column, column_open, drop_disc, first_best, landing_row,
    lemma_search_column, lemma_search_is_best, play, puff_to_move, search, some_column_open,
    Position,
};
use crate::grid::{
    filled_cells, filled_in_row, grid_of, lemma_filled_cells_bounds, lemma_filled_cells_grow,
    lemma_filled_cells_positive, lowest_empty_from,
};

verus! {

/// A node of the search: a board of its own, whose turn it is, and how many
/// discs have been placed.
#[derive(Debug, PartialEq)]
pub struct C4State {
    player1: i64,
    puff: i64,
    empty: i64,
    next_to_move: i64,
    total_steps: i64,
    board: Vec<Vec<i64>>,
    depth: i64,
}

impl Clone for C4State {
    /// A state with a board of its own that holds the same position.
    fn clone(&self) -> (copy: Self)
        ensures
            copy.position() == self.position(),
            copy.depth_limit() == self.depth_limit(),
            copy.wf() == self.wf(),
    {
        let board = self.board.clone();
        assert(grid_of(&board) =~= grid_of(&self.board));
        C4State {
            player1: self.player1,
            puff: self.puff,
            empty: self.empty,
            next_to_move: self.next_to_move,
            total_steps: self.total_steps,
            board,
            depth: self.depth,
        }
    }
}

impl C4State {
    /// The position that the state holds.
    pub closed spec fn position(&self) -> Position {
        Position {
            board: grid_of(&self.board),
            mover: self.next_to_move,
            steps: self.total_steps as int,
        }
    }

    /// The depth that the state was made with.
    pub closed spec fn depth_limit(&self) -> i64 {
        self.depth
    }

    /// The state is well formed: its discs have their codes, one of the two
    /// sides is to move, the board has six rows of seven cells, and the
    /// number of steps is the number of discs on it.
    pub closed spec fn wf(&self) -> bool {
        &&& self.player1 == 1
        &&& self.puff == 2
        &&& self.empty == 0
        &&& (self.next_to_move == 1 || self.next_to_move == 2)
        &&& is_board(grid_of(&self.board))
        &&& self.total_steps == filled_cells(grid_of(&self.board), 6)
    }

    /// What well-formedness says of the position.
    pub proof fn lemma_wf(&self)
        requires
            self.wf(),
        ensures
            is_board(self.position().board),
            self.position().mover == 1 || self.position().mover == 2,
            self.position().steps == filled_cells(self.position().board, 6),
            0 <= self.position().steps <= 42,
    {
        lemma_filled_cells_bounds(grid_of(&self.board), 6, 7);
    }

    /// The state of a new game: an empty board, no step taken, and the
    /// automated side to move.
    pub fn new(depth: i64) -> (state: Self)
        ensures
            state.wf(),
            state.depth_limit() == depth,
            state.position() == puff_to_move(empty_board()),
            state.position().steps == 0,
    {
        let mut board: Vec<Vec<i64>> = Vec::new();
        let mut r: usize = 0;
        while r < 6
            invariant
                r <= 6,
                board@.len() == r,
                forall|k: int| 0 <= k < r ==> (#[trigger] board@[k])@ == Seq::new(7, |c: int| 0i64),
            decreases 6 - r,
        {
            let mut row: Vec<i64> = Vec::new();
            let mut c: usize = 0;
            while c < 7
                invariant
                    c <= 7,
                    row@.len() == c,
                    forall|k: int| 0 <= k < c ==> (#[trigger] row@[k]) == 0,
                decreases 7 - c,
            {
                row.push(0);
                c += 1;
            }
            assert(row@ =~= Seq::new(7, |c: int| 0i64));
            board.push(row);
            r += 1;
        }
        assert(grid_of(&board) =~= empty_board());
        proof {
            lemma_empty_board();
        }
        Self { player1: 1, puff: 2, empty: 0, next_to_move: 2, total_steps: 0, board, depth }
    }

    /// The state in which the automated side is to move on `game_board`:
    /// the number of steps is the number of discs on the board.
    pub fn with_board(game_board: Vec<Vec<i64>>) -> (state: Self)
        requires
            is_board(grid_of(&game_board)),
        ensures
            state.wf(),
            state.depth_limit() == 1,
            state.position() == puff_to_move(grid_of(&game_board)),
    {
        let ghost g = grid_of(&game_board);
        let mut count: i64 = 0;
        let mut r: usize = 0;
        while r < 6
            invariant
                r <= 6,
                g == grid_of(&game_board),
                is_board(g),
                count == filled_cells(g, r as int),
                0 <= count <= r * 7,
            decreases 6 - r,
        {
            assert(g[r as int].len() == 7);
            let ghost above = count;
            let mut c: usize = 0;
            while c < 7
                invariant
                    r < 6,
                    c <= 7,
                    g == grid_of(&game_board),
                    is_board(g),
                    count == above + filled_in_row(g[r as int], c as int),
                    0 <= above <= r * 7,
                    0 <= count <= r * 7 + c,
                decreases 7 - c,
            {
                assert(g[r as int].len() == 7);
                if game_board[r][c] != 0 {
                    count += 1;
                }
                c += 1;
            }
            r += 1;
        }
        let mut state = C4State::new(1);
        state.board = game_board;
        state.total_steps = count;
        state
    }

    /// The board of the state.
    pub fn board(&self) -> (board: &Vec<Vec<i64>>)
        ensures
            grid_of(board) == self.position().board,
    {
        &self.board
    }

    /// The disc of the side to move.
    pub fn next_to_move(&self) -> (mover: i64)
        ensures
            mover == self.position().mover,
    {
        self.next_to_move
    }

    /// The number of discs placed so far.
    pub fn total_steps(&self) -> (steps: i64)
        ensures
            steps == self.position().steps,
    {
        self.total_steps
    }

    /// The depth that the state was made with.
    pub fn depth(&self) -> (depth: i64)
        ensures
            depth == self.depth_limit(),
    {
        self.depth
    }

    /// The detector on the state's board.
    pub fn check_winner(&self) -> (w: i64)
        requires
            self.wf(),
        ensures
            w == winner_of(self.position().board),
    {
        winner_on(&self.board)
    }

    /// Drops the disc of the side to move into `column` and hands the turn
    /// to the other side. Nothing changes, and the result is `false`, where
    /// there is no such column or it is full.
    pub fn puff_move(&mut self, column: usize) -> (moved: bool)
        requires
            old(self).wf(),
        ensures
            final(self).wf(),
            final(self).depth_limit() == old(self).depth_limit(),
            moved == column_open(old(self).position().board, column as int),
            moved ==> final(self).position() == play(old(self).position(), column as int),
            !moved ==> final(self).position() == old(self).position(),
    {
        if column >= 7 {
            return false;
        }
        let ghost g = grid_of(&self.board);
        assert(g[0].len() == 7);
        if self.board[0][column] == self.empty {
            let mut row: usize = 5;
            assert(g[5].len() == 7);
            while self.board[row][column] != self.empty
                invariant
                    row < 6,
                    column < 7,
                    self.empty == 0,
                    g == grid_of(&self.board),
                    is_board(g),
                    g[0][column as int] == 0,
                    g[row as int].len() == 7,
                    landing_row(g, column as int) == lowest_empty_from(g, column as int, row as int),
                decreases row,
            {
                row -= 1;
                assert(g[row as int].len() == 7);
            }
            proof {
                lemma_filled_cells_grow(g, row as int, column as int, self.next_to_move, 6);
                lemma_filled_cells_bounds(g, 6, 7);
            }
            self.board[row][column] = self.next_to_move;
            assert(grid_of(&self.board) =~= drop_disc(g, column as int, old(self).next_to_move));
            if self.next_to_move == self.puff {
                self.next_to_move = self.player1;
            } else {
                self.next_to_move = self.puff;
            }
            self.total_steps += 1;
            return true;
        }
        return false;
    }

    /// The score of a window by the number of its cells that hold a disc of
    /// the side looked from, of the other side, and none.
    pub fn heauristic(&self, good_points: i64, bad_points: i64, empty_points: i64) -> (score: i64)
        ensures
            score == table_score(good_points as int, bad_points as int, empty_points as int),
    {
        if good_points == 4 {
            return 500001;
        } else if good_points == 3 && empty_points == 1 {
            return 5000;
        } else if good_points == 2 && empty_points == 2 {
            return 500;
        } else if bad_points == 2 && empty_points == 2 {
            return -501;
        } else if bad_points == 3 && empty_points == 1 {
            return -5001;
        } else if bad_points == 4 {
            return -500000;
        }
        0
    }

    /// The score of the window `set` for the side whose disc is
    /// `player_to_check_againt`.
    pub fn score_set(&self, set: Vec<i64>, player_to_check_againt: i64) -> (score: i64)
        requires
            self.wf(),
            set@.len() <= i64::MAX,
        ensures
            score == window_score(set@, player_to_check_againt),
    {
        let mut good: i64 = 0;
        let mut bad: i64 = 0;
        let mut empty: i64 = 0;
        let mut i: usize = 0;
        while i < set.len()
            invariant
                i <= set@.len() <= i64::MAX,
                self.player1 == 1,
                self.puff == 2,
                self.empty == 0,
                good == count_eq(set@.take(i as int), player_to_check_againt),
                bad == count_eq(set@.take(i as int), 1) + count_eq(set@.take(i as int), 2),
                empty == count_eq(set@.take(i as int), 0),
                0 <= good <= i,
                0 <= bad <= i,
                0 <= empty <= i,
            decreases set@.len() - i,
        {
            let val = set[i];
            assert(set@.take(i + 1).drop_last() =~= set@.take(i as int));
            if val == player_to_check_againt {
                good += 1;
            }
            if val == self.player1 || val == self.puff {
                bad += 1;
            }
            if val == self.empty {
                empty += 1;
            }
            i += 1;
        }
        assert(set@.take(set@.len() as int) =~= set@);
        bad -= good;
        return self.heauristic(good, bad, empty);
    }

    /// The score of the board for the side whose disc is
    /// `player_to_check_againt`: the scores of all windows of four cells in
    /// a row, a column or a diagonal, added up.
    pub fn tab_score(&self, player_to_check_againt: i64) -> (score: i64)
        requires
            self.wf(),
        ensures
            score == board_score(self.position().board, player_to_check_againt),
    {
        let ghost g = grid_of(&self.board);
        let ghost side = player_to_check_againt;
        let mut score: i64 = 0;

        // windows along the rows
        let mut i: usize = 0;
        while i < 6
            invariant
                i <= 6,
                self.wf(),
                g == grid_of(&self.board),
                side == player_to_check_againt,
                score == family_score(g, side, 0, i * 4),
            decreases 6 - i,
        {
            assert(g[i as int].len() == 7);
            let mut row: Vec<i64> = Vec::new();
            let mut j: usize = 0;
            while j < 7
                invariant
                    i < 6,
                    j <= 7,
                    g == grid_of(&self.board),
                    is_board(g),
                    row@ == g[i as int].take(j as int),
                decreases 7 - j,
            {
                row.push(self.board[i][j]);
                assert(row@ =~= g[i as int].take(j + 1));
                j += 1;
            }
            assert(row@ =~= g[i as int]);
            let mut k: usize = 0;
            while k < 4
                invariant
                    i < 6,
                    k <= 4,
                    self.wf(),
                    g == grid_of(&self.board),
                    side == player_to_check_againt,
                    row@ == g[i as int],
                    row@.len() == 7,
                    score == family_score(g, side, 0, i * 4 + k),
                decreases 4 - k,
            {
                let mut set: Vec<i64> = Vec::new();
                let mut l: usize = 0;
                while l < 4
                    invariant
                        k < 4,
                        l <= 4,
                        row@.len() == 7,
                        set@ == row@.subrange(k as int, k + l),
                    decreases 4 - l,
                {
                    set.push(row[k + l]);
                    assert(set@ =~= row@.subrange(k as int, k + l + 1));
                    l += 1;
                }
                assert(set@ =~= nth_window(g, 0, i * 4 + k));
                proof {
                    lemma_family_score_bounds(g, side, 0, i * 4 + k);
                }
                score += self.score_set(set, player_to_check_againt);
                k += 1;
            }
            i += 1;
        }

        // windows along the columns
        let ghost across = score as int;
        let mut j: usize = 0;
        while j < 7
            invariant
                j <= 7,
                self.wf(),
                g == grid_of(&self.board),
                side == player_to_check_againt,
                across == family_score(g, side, 0, 24),
                score == across + family_score(g, side, 1, j * 3),
            decreases 7 - j,
        {
            let mut col: Vec<i64> = Vec::new();
            let mut i: usize = 0;
            while i < 6
                invariant
                    j < 7,
                    i <= 6,
                    g == grid_of(&self.board),
                    is_board(g),
                    col@.len() == i,
                    forall|r: int| 0 <= r < i ==> (#[trigger] col@[r]) == g[r][j as int],
                decreases 6 - i,
            {
                assert(g[i as int].len() == 7);
                col.push(self.board[i][j]);
                i += 1;
            }
            let mut k: usize = 0;
            while k < 3
                invariant
                    j < 7,
                    k <= 3,
                    self.wf(),
                    g == grid_of(&self.board),
                    side == player_to_check_againt,
                    col@.len() == 6,
                    forall|r: int| 0 <= r < 6 ==> (#[trigger] col@[r]) == g[r][j as int],
                    across == family_score(g, side, 0, 24),
                    score == across + family_score(g, side, 1, j * 3 + k),
                decreases 3 - k,
            {
                let mut set: Vec<i64> = Vec::new();
                let mut l: usize = 0;
                while l < 4
                    invariant
                        k < 3,
                        l <= 4,
                        col@.len() == 6,
                        set@ == col@.subrange(k as int, k + l),
                    decreases 4 - l,
                {
                    set.push(col[k + l]);
                    assert(set@ =~= col@.subrange(k as int, k + l + 1));
                    l += 1;
                }
                assert(set@ =~= nth_window(g, 1, j * 3 + k));
                proof {
                    lemma_family_score_bounds(g, side, 0, 24);
                    lemma_family_score_bounds(g, side, 1, j * 3 + k);
                }
                score += self.score_set(set, player_to_check_againt);
                k += 1;
            }
            j += 1;
        }

        // windows along the diagonals that go down to the right
        let ghost straight = score as int;
        let mut i: usize = 0;
        while i < 3
            invariant
                i <= 3,
                self.wf(),
                g == grid_of(&self.board),
                side == player_to_check_againt,
                straight == family_score(g, side, 0, 24) + family_score(g, side, 1, 21),
                score == straight + family_score(g, side, 2, i * 4),
            decreases 3 - i,
        {
            let mut j: usize = 0;
            while j < 4
                invariant
                    i < 3,
                    j <= 4,
                    self.wf(),
                    g == grid_of(&self.board),
                    side == player_to_check_againt,
                    straight == family_score(g, side, 0, 24) + family_score(g, side, 1, 21),
                    score == straight + family_score(g, side, 2, i * 4 + j),
                decreases 4 - j,
            {
                let mut diag_set: Vec<i64> = Vec::new();
                let mut l: usize = 0;
                while l < 4
                    invariant
                        i < 3,
                        j < 4,
                        l <= 4,
                        g == grid_of(&self.board),
                        is_board(g),
                        diag_set@.len() == l,
                        forall|m: int| 0 <= m < l ==> (#[trigger] diag_set@[m]) == g[i + m][j + m],
                    decreases 4 - l,
                {
                    assert(g[i + l].len() == 7);
                    diag_set.push(self.board[i + l][j + l]);
                    l += 1;
                }
                assert(diag_set@ =~= nth_window(g, 2, i * 4 + j));
                proof {
                    lemma_family_score_bounds(g, side, 0, 24);
                    lemma_family_score_bounds(g, side, 1, 21);
                    lemma_family_score_bounds(g, side, 2, i * 4 + j);
                }
                score += self.score_set(diag_set, player_to_check_againt);
                j += 1;
            }
            i += 1;
        }

        // windows along the diagonals that go up to the right
        let ghost falling = score as int;
        let mut i: usize = 0;
        while i < 3
            invariant
                i <= 3,
                self.wf(),
                g == grid_of(&self.board),
                side == player_to_check_againt,
                falling == family_score(g, side, 0, 24) + family_score(g, side, 1, 21)
                    + family_score(g, side, 2, 12),
                score == falling + family_score(g, side, 3, i * 4),
            decreases 3 - i,
        {
            let mut j: usize = 0;
            while j < 4
                invariant
                    i < 3,
                    j <= 4,
                    self.wf(),
                    g == grid_of(&self.board),
                    side == player_to_check_againt,
                    falling == family_score(g, side, 0, 24) + family_score(g, side, 1, 21)
                        + family_score(g, side, 2, 12),
                    score == falling + family_score(g, side, 3, i * 4 + j),
                decreases 4 - j,
            {
                let mut diag_set: Vec<i64> = Vec::new();
                let mut l: usize = 0;
                while l < 4
                    invariant
                        i < 3,
                        j < 4,
                        l <= 4,
                        g == grid_of(&self.board),
                        is_board(g),
                        diag_set@.len() == l,
                        forall|m: int|
                            0 <= m < l ==> (#[trigger] diag_set@[m]) == g[i + 3 - m][j + m],
                    decreases 4 - l,
                {
                    assert(g[i + 3 - l].len() == 7);
                    diag_set.push(self.board[i + 3 - l][j + l]);
                    l += 1;
                }
                assert(diag_set@ =~= nth_window(g, 3, i * 4 + j));
                proof {
                    lemma_family_score_bounds(g, side, 0, 24);
                    lemma_family_score_bounds(g, side, 1, 21);
                    lemma_family_score_bounds(g, side, 2, 12);
                    lemma_family_score_bounds(g, side, 3, i * 4 + j);
                }
                score += self.score_set(diag_set, player_to_check_againt);
                j += 1;
            }
            i += 1;
        }
        return score;
    }
}

/// A board that the automated side has won holds a disc.
proof fn lemma_won_board_has_discs(g: Seq<Seq<i64>>)
    requires
        is_board(g),
        winner_of(g) == 2,
    ensures
        filled_cells(g, 6) >= 1,
{
    let at = lemma_scan_witness(g, 0, 0, 0);
    lemma_filled_cells_positive(g, at.0, at.1, 6, 7);
}

/// Searches `depth` plies ahead from the state and returns the score of the
/// best line for the side to move and the column that starts it. The human
/// looks for the highest score, the automated side for the lowest; of
/// columns that score alike the earliest is kept. The column is `-1` where
/// the depth is used up, where the automated side has already won, and
/// where no column is open, and nowhere else.
pub fn minimax(c4: &mut C4State, depth: i64) -> (res: (i64, i64))
    requires
        old(c4).wf(),
        depth >= 0,
    ensures
        *final(c4) == *old(c4),
        res.0 == search(old(c4).position(), depth as nat).0,
        res.1 == search(old(c4).position(), depth as nat).1,
        depth == 0 ==> res.0 == board_score(old(c4).position().board, 1) && res.1 == -1,
        res.1 == -1 || column_open(old(c4).position().board, res.1 as int),
        res.1 == -1 <==> depth == 0 || winner_of(old(c4).position().board) == 2
            || !some_column_open(old(c4).position().board),
        depth >= 1 && winner_of(old(c4).position().board) != 2 && some_column_open(
            old(c4).position().board,
        ) ==> first_best(old(c4).position(), depth as nat, (res.0 as int, res.1 as int)),
    decreases depth,
{
    let ghost p = c4.position();
    proof {
        lemma_search_column(p, depth as nat);
        if depth >= 1 && winner_of(p.board) != 2 {
            lemma_search_is_best(p, depth as nat);
        }
    }
    if depth == 0 {
        return (c4.tab_score(c4.player1), -1);
    }
    if c4.next_to_move == c4.player1 {
        let mut score: i64 = i64::MIN;
        let mut opt_move: i64 = -1;
        let winner = c4.check_winner();

        if winner == c4.puff {
            proof {
                lemma_won_board_has_discs(p.board);
            }
            return (score / c4.total_steps, -1);
        }
        let mut j: usize = 0;
        while j < 7
            invariant
                j <= 7,
                depth > 0,
                *c4 == *old(c4),
                c4.wf(),
                p == c4.position(),
                p.mover == 1,
                search(p, depth as nat) == best_from(
                    p,
                    depth as nat,
                    j as int,
                    (score as int, opt_move as int),
                ),
            decreases 7 - j,
        {
            assert(p.board[0].len() == 7);
            if c4.board[0][j] == c4.empty {
                let mut c4_clone = c4.clone();
                if c4_clone.puff_move(j) {
                    let value = minimax(&mut c4_clone, depth - 1);
                    if opt_move == -1 || value.0 > score {
                        score = value.0;
                        opt_move = j as i64;
                    }
                }
            }
            j += 1;
        }
        return (score, opt_move);
    } else {
        let mut score: i64 = i64::MAX;
        let mut opt_move: i64 = -1;
        let winner = c4.check_winner();
        if winner == c4.puff {
            proof {
                lemma_won_board_has_discs(p.board);
            }
            return (score / c4.total_steps, -1);
        }
        let mut j: usize = 0;
        while j < 7
            invariant
                j <= 7,
                depth > 0,
                *c4 == *old(c4),
                c4.wf(),
                p == c4.position(),
                p.mover == 2,
                search(p, depth as nat) == best_from(
                    p,
                    depth as nat,
                    j as int,
                    (score as int, opt_move as int),
                ),
            decreases 7 - j,
        {
            assert(p.board[0].len() == 7);
            if c4.board[0][j] == c4.empty {
                let mut c4_clone = c4.clone();
                if c4_clone.puff_move(j) {
                    let value = minimax(&mut c4_clone, depth - 1);
                    if opt_move == -1 || value.0 < score {
                        score = value.0;
                        opt_move = j as i64;
                    }
                }
            }
            j += 1;
        }
        return (score, opt_move);
    }
}

/// The column that the automated side plays on `game_board`: the choice of
/// a search of four plies where `difficulty_level` is `"Hard"`, of one ply
/// where it is anything else. The result is an open column, but for a
/// board that the automated side has already won or on which no column is
/// open: there it is `-1`.
pub fn puff_connect4(game_board: Vec<Vec<i64>>, difficulty_level: String) -> (column: i64)
    requires
        is_board(grid_of(&game_board)),
    ensures
        column == chosen_column(grid_of(&game_board), difficulty_level@),
        column == -1 || column_open(grid_of(&game_board), column as int),
        column == -1 <==> winner_of(grid_of(&game_board)) == 2 || !some_column_open(
            grid_of(&game_board),
        ),
        winner_of(grid_of(&game_board)) != 2 && (exists|j: int|
            column_open(grid_of(&game_board), j)) ==> column_open(
            grid_of(&game_board),
            column as int,
        ),
{
    proof {
        reveal_strlit("Easy");
        reveal_strlit("Hard");
        assert("Easy"@[0] != "Hard"@[0]);
    }
    let mut diff_level: i64 = 1;
    if difficulty_level == String::from_str("Easy") {
        diff_level = 1;
    } else if difficulty_level == String::from_str("Hard") {
        diff_level = 4;
    }
    let mut state = C4State::with_board(game_board);
    let (_, opt_col) = minimax(&mut state, diff_level);
    return opt_col;
}

/// The board of a new game: six rows of seven empty cells.
pub open spec fn empty_board() -> Seq<Seq<i64>> {
    Seq::new(6, |r: int| Seq::new(7, |c: int| 0i64))
}

/// The empty board has the Connect4 shape and holds no disc.
pub proof fn lemma_empty_board()
    ensures
        is_board(empty_board()),
        filled_cells(empty_board(), 6) == 0,
{
    let g = empty_board();
    assert forall|r: int| 0 <= r < 6 implies filled_in_row(#[trigger] g[r], 7) == 0 by {
        reveal_with_fuel(filled_in_row, 8);
    }
    assert(g[0].len() == 7 && g[1].len() == 7 && g[2].len() == 7 && g[3].len() == 7 && g[4].len()
        == 7 && g[5].len() == 7);
    reveal_with_fuel(filled_cells, 7);
}

} // verus!
