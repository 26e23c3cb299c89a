//! What the depth-bounded search of a Connect4 position returns, as a
//! function of the position.
//!
//! The two sides take turns. The side to move takes, among the columns that
//! are open, the first whose position scores best for it: the human looks
//! for a high score, the automated side for a low one. Of columns that
//! score alike the earliest is kept.

use vstd::prelude::*;
use crate::grid::{filled_cells, lemma_lowest_empty, lowest_empty, with_cell};
use crate::connect4::detect::{is_board, winner_of};
use crate::connect4::scoring::board_score;

verus! {

/// A position of the search: the board, the disc of the side to move, and
/// the number of discs placed so far.
pub struct Position {
    pub board: Seq<Seq<i64>>,
    pub mover: i64,
    pub steps: int,
}

/// Column `j` exists and its top cell is empty.
pub open spec fn column_open(g: Seq<Seq<i64>>, j: int) -> bool {
    0 <= j < 7 && g[0][j] == 0
}

/// The row in which a disc dropped into column `j` comes to rest: the
/// lowest empty cell of the column.
pub open spec fn landing_row(g: Seq<Seq<i64>>, j: int) -> int {
    lowest_empty(g, j)
}

/// The side that moves after `side`.
pub open spec fn other_side(side: i64) -> i64 {
    if side == 2 {
        1
    } else {
        2
    }
}

/// The board after `disc` was dropped into column `j`.
pub open spec fn drop_disc(g: Seq<Seq<i64>>, j: int, disc: i64) -> Seq<Seq<i64>> {
    with_cell(g, landing_row(g, j), j, disc)
}

/// The position after the side to move dropped its disc into column `j`.
pub open spec fn play(p: Position, j: int) -> Position {
    Position {
        board: drop_disc(p.board, j, p.mover),
        mover: other_side(p.mover),
        steps: p.steps + 1,
    }
}

/// The position in which the automated side is to move on board `g`.
pub open spec fn puff_to_move(g: Seq<Seq<i64>>) -> Position {
    Position { board: g, mover: 2, steps: filled_cells(g, 6) }
}

/// The score with which a side starts its choice: the worst there is for it.
pub open spec fn worst_for(mover: i64) -> int {
    if mover == 1 {
        i64::MIN as int
    } else {
        i64::MAX as int
    }
}

/// The score of a position that the automated side has already won: the
/// worst score of the side to move, divided by the number of discs placed
/// and rounded towards zero.
pub open spec fn won_score(p: Position) -> int {
    if p.mover == 1 {
        -(0x8000_0000_0000_0000int / p.steps)
    } else {
        0x7fff_ffff_ffff_ffffint / p.steps
    }
}

/// Score `v` is strictly better for `mover` than score `best`.
pub open spec fn improves(mover: i64, v: int, best: int) -> bool {
    if mover == 1 {
        v > best
    } else {
        v < best
    }
}

/// The score and the column that a search of `depth` plies returns. The
/// column is `-1` where the depth is used up, where the automated side has
/// already won, and where no column is open.
pub open spec fn search(p: Position, depth: nat) -> (int, int)
    decreases depth, 8int,
{
    if depth == 0 {
        (board_score(p.board, 1), -1)
    } else if winner_of(p.board) == 2 {
        (won_score(p), -1)
    } else {
        best_from(p, depth, 0, (worst_for(p.mover), -1))
    }
}

/// The choice of the side to move among columns `j` to 6, when `best` is
/// what it holds from the columns before: an open column is taken where
/// none is held yet, and where it scores strictly better than the one
/// held.
pub open spec fn best_from(p: Position, depth: nat, j: int, best: (int, int)) -> (int, int)
    decreases depth, 7 - j,
{
    if depth == 0 || j < 0 || j >= 7 {
        best
    } else if column_open(p.board, j) {
        let v = search(play(p, j), (depth - 1) as nat).0;
        best_from(
            p,
            depth,
            j + 1,
            if best.1 == -1 || improves(p.mover, v, best.0) {
                (v, j)
            } else {
                best
            },
        )
    } else {
        best_from(p, depth, j + 1, best)
    }
}

/// How many plies the search looks ahead: four for `"Hard"`, one for
/// `"Easy"` and for anything else.
pub open spec fn depth_for(difficulty: Seq<char>) -> nat {
    if difficulty == "Hard"@ {
        4
    } else {
        1
    }
}

/// The column that the automated side plays on board `g`, or `-1`.
pub open spec fn chosen_column(g: Seq<Seq<i64>>, difficulty: Seq<char>) -> int {
    search(puff_to_move(g), depth_for(difficulty)).1
}

/// In a column whose top cell is empty, the landing row is an empty cell on
/// the board with no empty cell below it.
pub proof fn lemma_landing_row(g: Seq<Seq<i64>>, j: int)
    requires
        is_board(g),
        column_open(g, j),
    ensures
        0 <= landing_row(g, j) < 6,
        g[landing_row(g, j)][j] == 0,
        forall|r: int| landing_row(g, j) < r < 6 ==> (#[trigger] g[r][j]) != 0,
{
    lemma_lowest_empty(g, j);
}

/// The score of the position after the side to move has played column
/// `j`, searched one ply less deep.
pub open spec fn reply_score(p: Position, depth: nat, j: int) -> int {
    search(play(p, j), (depth - 1) as nat).0
}

/// Some column of the board is open.
pub open spec fn some_column_open(g: Seq<Seq<i64>>) -> bool {
    exists|j: int| column_open(g, j)
}

/// `chosen` is the best open column for the side to move, and the first
/// such: the column is open, the score is that of the position after it, no
/// open column scores strictly better, and every open column before it
/// scores strictly worse.
pub open spec fn first_best(p: Position, depth: nat, chosen: (int, int)) -> bool {
    &&& column_open(p.board, chosen.1)
    &&& chosen.0 == reply_score(p, depth, chosen.1)
    &&& forall|k: int|
        column_open(p.board, k) ==> !improves(
            p.mover,
            #[trigger] reply_score(p, depth, k),
            chosen.0,
        )
    &&& forall|k: int|
        k < chosen.1 && column_open(p.board, k) ==> improves(
            p.mover,
            chosen.0,
            #[trigger] reply_score(p, depth, k),
        )
}

/// The choice among the columns from `j` on, when a column is held from
/// those before or none is: it is the column held, if no open column among
/// them scores strictly better, and else the first of them that scores
/// best. Where none is held, it is `-1` only if none of them is open.
pub proof fn lemma_best_from_is_best(p: Position, depth: nat, j: int, best: (int, int))
    requires
        depth >= 1,
        0 <= j <= 7,
        best.1 == -1 || 0 <= best.1 < j,
    ensures
        forall|k: int|
            j <= k < 7 && column_open(p.board, k) ==> !improves(
                p.mover,
                #[trigger] reply_score(p, depth, k),
                best_from(p, depth, j, best).0,
            ),
        best.1 != -1 ==> !improves(p.mover, best.0, best_from(p, depth, j, best).0),
        best_from(p, depth, j, best) == best || {
            let chosen = best_from(p, depth, j, best);
            &&& j <= chosen.1 < 7
            &&& column_open(p.board, chosen.1)
            &&& chosen.0 == reply_score(p, depth, chosen.1)
            &&& best.1 != -1 ==> improves(p.mover, chosen.0, best.0)
            &&& forall|k: int|
                j <= k < chosen.1 && column_open(p.board, k) ==> improves(
                    p.mover,
                    chosen.0,
                    #[trigger] reply_score(p, depth, k),
                )
        },
        best.1 == -1 && best_from(p, depth, j, best).1 == -1 ==> best_from(p, depth, j, best)
            == best && forall|k: int| j <= k < 7 ==> !column_open(p.board, k),
    decreases 7 - j,
{
    if j < 7 {
        if column_open(p.board, j) {
            let v = reply_score(p, depth, j);
            let next = if best.1 == -1 || improves(p.mover, v, best.0) {
                (v, j)
            } else {
                best
            };
            lemma_best_from_is_best(p, depth, j + 1, next);
        } else {
            lemma_best_from_is_best(p, depth, j + 1, best);
        }
    }
}

/// Where the search neither has used up its depth nor meets a board that
/// the automated side has won, the side to move gets the best score among
/// its open columns and the first column that gives it: the lowest score
/// for the automated side, the highest for the human. Where no column is
/// open it gets its worst score and no column.
pub proof fn lemma_search_is_best(p: Position, depth: nat)
    requires
        depth >= 1,
        winner_of(p.board) != 2,
    ensures
        some_column_open(p.board) ==> first_best(p, depth, search(p, depth)),
        !some_column_open(p.board) ==> search(p, depth) == (worst_for(p.mover), -1int),
        search(p, depth).1 == -1 <==> !some_column_open(p.board),
{
    lemma_best_from_is_best(p, depth, 0, (worst_for(p.mover), -1));
    let chosen = search(p, depth);
    if some_column_open(p.board) {
        let j = choose|j: int| column_open(p.board, j);
        assert(column_open(p.board, j));
    }
}

/// The column that the search returns is `-1` or a column that is open,
/// and it is `-1` only where the depth is used up, where the automated
/// side has already won, and where no column is open.
pub proof fn lemma_search_column(p: Position, depth: nat)
    ensures
        search(p, depth).1 == -1 || column_open(p.board, search(p, depth).1),
        search(p, depth).1 == -1 <==> depth == 0 || winner_of(p.board) == 2 || !some_column_open(
            p.board,
        ),
{
    if depth > 0 && winner_of(p.board) != 2 {
        lemma_search_is_best(p, depth);
    }
}

/// With an open column on a board that the automated side has not won, a
/// search of one ply or more returns a column, and the column is open.
pub proof fn lemma_search_finds_a_column(p: Position, depth: nat)
    requires
        depth >= 1,
        winner_of(p.board) != 2,
        some_column_open(p.board),
    ensures
        column_open(p.board, search(p, depth).1),
{
    lemma_search_is_best(p, depth);
}

/// An open column `c` is the one that the search returns exactly if every
/// open column before it scores strictly worse for the side to move and no
/// open column after it scores strictly better.
pub proof fn lemma_column_is_chosen(p: Position, depth: nat, c: int)
    requires
        depth >= 1,
        winner_of(p.board) != 2,
        column_open(p.board, c),
    ensures
        search(p, depth).1 == c <==> (forall|k: int|
            k < c && column_open(p.board, k) ==> improves(
                p.mover,
                reply_score(p, depth, c),
                #[trigger] reply_score(p, depth, k),
            )) && (forall|k: int|
            c < k && column_open(p.board, k) ==> !improves(
                p.mover,
                #[trigger] reply_score(p, depth, k),
                reply_score(p, depth, c),
            )),
{
    lemma_search_is_best(p, depth);
    let chosen = search(p, depth);
    assert(some_column_open(p.board));
    assert(!improves(p.mover, reply_score(p, depth, c), chosen.0));
    if chosen.1 != c && (forall|k: int|
        k < c && column_open(p.board, k) ==> improves(
            p.mover,
            reply_score(p, depth, c),
            #[trigger] reply_score(p, depth, k),
        )) && (forall|k: int|
        c < k && column_open(p.board, k) ==> !improves(
            p.mover,
            #[trigger] reply_score(p, depth, k),
            reply_score(p, depth, c),
        )) {
        if chosen.1 < c {
            assert(improves(p.mover, reply_score(p, depth, c), reply_score(p, depth, chosen.1)));
        } else {
            assert(improves(p.mover, chosen.0, reply_score(p, depth, c)));
            assert(!improves(p.mover, reply_score(p, depth, chosen.1), reply_score(p, depth, c)));
        }
    }
}

} // verus!
