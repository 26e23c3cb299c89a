//! What holds of the search of the automated side: on which boards it plays
//! the column that completes a line of four of its own, and what it plays
//! on the others.

use vstd::prelude::*;
use vstd::arithmetic::div_mod::{
    lemma_div_is_ordered, lemma_div_is_ordered_by_denominator, lemma_div_multiples_vanish,
    lemma_div_pos_is_pos, lemma_fundamental_div_mod, lemma_mod_bound,
};
use crate::connect4::detect::{
    board_full, cell_along, col_step, is_board, lemma_run_wins, lemma_scan_finds,
    lemma_scan_nothing, lemma_scan_witness, line_on_board, on_board, row_step, run_at, winner_of,
};
use crate::connect4::engine::{empty_board, lemma_empty_board};
use crate::connect4::scoring::{
    board_score, count_eq, family_len, family_score, lemma_board_score_bounds, nth_window,
    start_col, start_row, window_score,
};
use crate::connect4::search::{
    chosen_column, column_open, depth_for, drop_disc, first_best, improves, landing_row,
    lemma_column_is_chosen, lemma_landing_row, lemma_search_finds_a_column,
    lemma_search_is_best, other_side, play, puff_to_move, reply_score, search,
    some_column_open, Position,
};
use crate::grid::{
    filled_cells, filled_in_row, lemma_filled_cells_bounds, lemma_filled_cells_grow, with_cell,
};

verus! {

/// One if the cell holds `v`, zero if not.
pub open spec fn one_if(cell: i64, v: i64) -> int {
    if cell == v {
        1
    } else {
        0
    }
}

/// In a window of four cells, the count of a code is the sum over the four
/// cells.
pub proof fn lemma_count_four(w: Seq<i64>, v: i64)
    requires
        w.len() == 4,
    ensures
        count_eq(w, v) == one_if(w[0], v) + one_if(w[1], v) + one_if(w[2], v) + one_if(w[3], v),
{
    let w3 = w.drop_last();
    let w2 = w3.drop_last();
    let w1 = w2.drop_last();
    let w0 = w1.drop_last();
    assert(w0.len() == 0);
    assert(count_eq(w0, v) == 0);
    assert(count_eq(w1, v) == count_eq(w0, v) + one_if(w1.last(), v));
    assert(count_eq(w2, v) == count_eq(w1, v) + one_if(w2.last(), v));
    assert(count_eq(w3, v) == count_eq(w2, v) + one_if(w3.last(), v));
    assert(count_eq(w, v) == count_eq(w3, v) + one_if(w.last(), v));
}

/// Window `after` is window `before` with some of its empty cells taken by
/// the automated side.
pub open spec fn filled_by_puff(before: Seq<i64>, after: Seq<i64>) -> bool {
    &&& before.len() == 4
    &&& after.len() == 4
    &&& forall|k: int|
        0 <= k < 4 ==> after[k] == before[k] || (before[k] == 0 && #[trigger] after[k] == 2)
}

/// Discs of the automated side in empty cells of a window never raise its
/// score for the human. They lower it by at most 5001, unless they fill the
/// window with four of its discs: that lowers it by 494999 or more.
pub proof fn lemma_window_filled(before: Seq<i64>, after: Seq<i64>)
    requires
        filled_by_puff(before, after),
    ensures
        window_score(after, 1) <= window_score(before, 1),
        count_eq(after, 2) < 4 ==> window_score(after, 1) >= window_score(before, 1) - 5001,
        count_eq(after, 2) == 4 && count_eq(before, 2) < 4 ==> window_score(after, 1)
            <= window_score(before, 1) - 494999,
{
    lemma_count_four(before, 0);
    lemma_count_four(before, 1);
    lemma_count_four(before, 2);
    lemma_count_four(after, 0);
    lemma_count_four(after, 1);
    lemma_count_four(after, 2);
    assert(after[0] == before[0] || (before[0] == 0 && after[0] == 2));
    assert(after[1] == before[1] || (before[1] == 0 && after[1] == 2));
    assert(after[2] == before[2] || (before[2] == 0 && after[2] == 2));
    assert(after[3] == before[3] || (before[3] == 0 && after[3] == 2));
}

/// Every window of board `after` is the window of board `before` with some
/// of its empty cells taken by the automated side.
pub open spec fn puff_added(before: Seq<Seq<i64>>, after: Seq<Seq<i64>>) -> bool {
    forall|d: int, i: int|
        0 <= d < 4 && 0 <= i < family_len(d) ==> filled_by_puff(
            nth_window(before, d, i),
            #[trigger] nth_window(after, d, i),
        )
}

/// Each of the 69 windows lies on the board.
pub proof fn lemma_window_on_board(d: int, i: int)
    requires
        0 <= d < 4,
        0 <= i < family_len(d),
    ensures
        line_on_board(start_row(d, i), start_col(d, i), d),
{
}

/// A disc of the automated side in an empty cell adds to the windows
/// through that cell and leaves the others as they are.
pub proof fn lemma_disc_adds(g: Seq<Seq<i64>>, r: int, c: int)
    requires
        is_board(g),
        on_board(r, c),
        g[r][c] == 0,
    ensures
        puff_added(g, with_cell(g, r, c, 2)),
{
    let g2 = with_cell(g, r, c, 2);
    assert forall|d: int, i: int| 0 <= d < 4 && 0 <= i < family_len(d) implies filled_by_puff(
        nth_window(g, d, i),
        #[trigger] nth_window(g2, d, i),
    ) by {
        let before = nth_window(g, d, i);
        let after = nth_window(g2, d, i);
        let r0 = start_row(d, i);
        let c0 = start_col(d, i);
        lemma_window_on_board(d, i);
        assert forall|k: int| 0 <= k < 4 implies after[k] == before[k] || (before[k] == 0
            && #[trigger] after[k] == 2) by {
            let row = r0 + k * row_step(d);
            let col = c0 + k * col_step(d);
            assert(on_board(row, col));
            assert(g[row].len() == 7);
            assert(after[k] == cell_along(g2, r0, c0, d, k));
            assert(before[k] == cell_along(g, r0, c0, d, k));
        }
    }
}

/// Added discs of the automated side never raise the score of the first
/// `n` windows of a direction for the human.
proof fn lemma_family_never_rises(before: Seq<Seq<i64>>, after: Seq<Seq<i64>>, d: int, n: int)
    requires
        puff_added(before, after),
        0 <= d < 4,
        0 <= n <= family_len(d),
    ensures
        family_score(after, 1, d, n) <= family_score(before, 1, d, n),
    decreases n,
{
    if n > 0 {
        lemma_family_never_rises(before, after, d, n - 1);
        assert(filled_by_puff(nth_window(before, d, n - 1), nth_window(after, d, n - 1)));
        lemma_window_filled(nth_window(before, d, n - 1), nth_window(after, d, n - 1));
    }
}

/// Where window `i` of a direction is filled with four discs of the
/// automated side, the score of the first `n` windows of that direction
/// falls by 494999 or more, for every `n` above `i`.
proof fn lemma_family_falls(
    before: Seq<Seq<i64>>,
    after: Seq<Seq<i64>>,
    d: int,
    i: int,
    n: int,
)
    requires
        puff_added(before, after),
        0 <= d < 4,
        0 <= i < n <= family_len(d),
        count_eq(nth_window(after, d, i), 2) == 4,
        count_eq(nth_window(before, d, i), 2) < 4,
    ensures
        family_score(after, 1, d, n) <= family_score(before, 1, d, n) - 494999,
    decreases n,
{
    assert(filled_by_puff(nth_window(before, d, n - 1), nth_window(after, d, n - 1)));
    lemma_window_filled(nth_window(before, d, n - 1), nth_window(after, d, n - 1));
    if i == n - 1 {
        lemma_family_never_rises(before, after, d, n - 1);
    } else {
        lemma_family_falls(before, after, d, i, n - 1);
    }
}

/// No window of the board holds four discs of the automated side.
pub open spec fn no_puff_four(g: Seq<Seq<i64>>) -> bool {
    forall|d: int, i: int|
        0 <= d < 4 && 0 <= i < family_len(d) ==> count_eq(#[trigger] nth_window(g, d, i), 2) < 4
}

/// Where no window is filled with four discs of the automated side, the
/// score of the first `n` windows of a direction falls by at most 5001 for
/// each.
proof fn lemma_family_holds(before: Seq<Seq<i64>>, after: Seq<Seq<i64>>, d: int, n: int)
    requires
        puff_added(before, after),
        no_puff_four(after),
        0 <= d < 4,
        0 <= n <= family_len(d),
    ensures
        family_score(after, 1, d, n) >= family_score(before, 1, d, n) - 5001 * n,
    decreases n,
{
    if n > 0 {
        lemma_family_holds(before, after, d, n - 1);
        assert(filled_by_puff(nth_window(before, d, n - 1), nth_window(after, d, n - 1)));
        lemma_window_filled(nth_window(before, d, n - 1), nth_window(after, d, n - 1));
        assert(count_eq(nth_window(after, d, n - 1), 2) < 4);
    }
}

/// Added discs of the automated side that fill a window with four of them
/// lower the score of the board for the human by 494999 or more.
pub proof fn lemma_score_falls(before: Seq<Seq<i64>>, after: Seq<Seq<i64>>, d: int, i: int)
    requires
        puff_added(before, after),
        0 <= d < 4,
        0 <= i < family_len(d),
        count_eq(nth_window(after, d, i), 2) == 4,
        count_eq(nth_window(before, d, i), 2) < 4,
    ensures
        board_score(after, 1) <= board_score(before, 1) - 494999,
{
    lemma_family_never_rises(before, after, 0, 24);
    lemma_family_never_rises(before, after, 1, 21);
    lemma_family_never_rises(before, after, 2, 12);
    lemma_family_never_rises(before, after, 3, 12);
    lemma_family_falls(before, after, d, i, family_len(d));
}

/// Added discs of the automated side that fill no window with four of them
/// lower the score of the board for the human by 345069 at most.
pub proof fn lemma_score_holds(before: Seq<Seq<i64>>, after: Seq<Seq<i64>>)
    requires
        puff_added(before, after),
        no_puff_four(after),
    ensures
        board_score(after, 1) >= board_score(before, 1) - 345069,
{
    lemma_family_holds(before, after, 0, 24);
    lemma_family_holds(before, after, 1, 21);
    lemma_family_holds(before, after, 2, 12);
    lemma_family_holds(before, after, 3, 12);
}

/// The place among the windows of direction `d` of the window that starts
/// at row `r`, column `c`.
pub open spec fn window_index(r: int, c: int, d: int) -> int {
    if d == 1 {
        c * 3 + r
    } else if d == 3 {
        (r - 3) * 4 + c
    } else {
        r * 4 + c
    }
}

/// Every line of four cells on the board is one of the 69 windows.
pub proof fn lemma_line_is_window(r: int, c: int, d: int)
    requires
        0 <= d < 4,
        line_on_board(r, c, d),
    ensures
        0 <= window_index(r, c, d) < family_len(d),
        start_row(d, window_index(r, c, d)) == r,
        start_col(d, window_index(r, c, d)) == c,
{
}

/// A board on which the detector finds nothing and which is not full holds
/// no run of four.
pub proof fn lemma_open_board_has_no_run(g: Seq<Seq<i64>>)
    requires
        winner_of(g) == 0,
    ensures
        forall|r: int, c: int, d: int| !#[trigger] run_at(g, r, c, d),
{
    assert forall|r: int, c: int, d: int| !#[trigger] run_at(g, r, c, d) by {
        if run_at(g, r, c, d) {
            lemma_scan_finds(g, 0, 0, 0, r, c, d);
        }
    }
}

/// A window holds four discs of the automated side exactly if a run of its
/// discs starts where the window starts.
pub proof fn lemma_four_is_run(g: Seq<Seq<i64>>, d: int, i: int)
    requires
        0 <= d < 4,
        0 <= i < family_len(d),
    ensures
        count_eq(nth_window(g, d, i), 2) == 4 <==> run_at(g, start_row(d, i), start_col(d, i), d)
            && g[start_row(d, i)][start_col(d, i)] == 2,
{
    lemma_count_four(nth_window(g, d, i), 2);
    lemma_window_on_board(d, i);
    let r = start_row(d, i);
    let c = start_col(d, i);
    assert(cell_along(g, r, c, d, 0) == g[r][c]);
}

/// On a board without a run, a disc of the automated side after which the
/// detector reports that side has filled a window with four of its discs.
/// The window is returned as its direction and its place.
pub proof fn lemma_win_fills_window(g: Seq<Seq<i64>>, r: int, c: int) -> (at: (int, int))
    requires
        is_board(g),
        on_board(r, c),
        g[r][c] == 0,
        winner_of(g) == 0,
        winner_of(with_cell(g, r, c, 2)) == 2,
    ensures
        0 <= at.0 < 4,
        0 <= at.1 < family_len(at.0),
        count_eq(nth_window(with_cell(g, r, c, 2), at.0, at.1), 2) == 4,
        count_eq(nth_window(g, at.0, at.1), 2) < 4,
{
    let g2 = with_cell(g, r, c, 2);
    let run = lemma_scan_witness(g2, 0, 0, 0);
    let d = run.2;
    lemma_line_is_window(run.0, run.1, d);
    let i = window_index(run.0, run.1, d);
    lemma_four_is_run(g2, d, i);
    lemma_four_is_run(g, d, i);
    lemma_count_four(nth_window(g, d, i), 2);
    lemma_open_board_has_no_run(g);
    (d, i)
}

/// On a board without a run, a disc of the automated side after which the
/// detector does not report that side has filled no window with four of
/// its discs.
pub proof fn lemma_no_win_fills_no_window(g: Seq<Seq<i64>>, r: int, c: int)
    requires
        is_board(g),
        on_board(r, c),
        g[r][c] == 0,
        winner_of(g) == 0,
        winner_of(with_cell(g, r, c, 2)) != 2,
    ensures
        no_puff_four(with_cell(g, r, c, 2)),
{
    let g2 = with_cell(g, r, c, 2);
    lemma_open_board_has_no_run(g);
    assert(g[r].len() == 7);
    assert(is_board(g2)) by {
        assert forall|k: int| 0 <= k < 6 implies (#[trigger] g2[k]).len() == 7 by {
            assert(g[k].len() == 7);
        }
    }
    assert forall|r2: int, c2: int, d2: int| #[trigger] run_at(g2, r2, c2, d2) implies g2[r2][c2]
        == 2 by {
        if g2[r2][c2] != 2 {
            assert(g2[r][c] == 2);
            assert forall|k: int| 0 <= k < 4 implies cell_along(g2, r2, c2, d2, k) == cell_along(
                g,
                r2,
                c2,
                d2,
                k,
            ) by {
                let row = r2 + k * row_step(d2);
                let col = c2 + k * col_step(d2);
                assert(on_board(row, col));
                assert(g[row].len() == 7);
                assert(cell_along(g2, r2, c2, d2, k) == g2[r2][c2]);
            }
            assert(cell_along(g, r2, c2, d2, 0) == g[r2][c2]);
            assert(cell_along(g2, r2, c2, d2, 0) == g2[r2][c2]);
            assert(run_at(g, r2, c2, d2));
        }
    }
    assert forall|d: int, i: int| 0 <= d < 4 && 0 <= i < family_len(d) implies count_eq(
        #[trigger] nth_window(g2, d, i),
        2,
    ) < 4 by {
        lemma_four_is_run(g2, d, i);
        lemma_count_four(nth_window(g2, d, i), 2);
        if count_eq(nth_window(g2, d, i), 2) == 4 {
            lemma_run_wins(g2, start_row(d, i), start_col(d, i), d);
        }
    }
}

/// Where the automated side is to move and open column `c` scores strictly
/// lower than every open column before it and no higher than any after it,
/// the search returns column `c` with its score.
pub proof fn lemma_lowest_column_is_taken(p: Position, depth: nat, c: int)
    requires
        p.mover == 2,
        depth >= 1,
        winner_of(p.board) != 2,
        column_open(p.board, c),
        forall|k: int|
            k < c && column_open(p.board, k) ==> #[trigger] reply_score(p, depth, k)
                > reply_score(p, depth, c),
        forall|k: int|
            c < k && column_open(p.board, k) ==> #[trigger] reply_score(p, depth, k)
                >= reply_score(p, depth, c),
    ensures
        search(p, depth) == (reply_score(p, depth, c), c),
{
    lemma_column_is_chosen(p, depth, c);
    lemma_search_is_best(p, depth);
    assert(some_column_open(p.board));
}

/// The automated side, to move on a board without a run of four, can
/// complete a run of its own in column `c` and in no other column: a search
/// of one ply returns `c`.
pub proof fn lemma_one_ply_takes_the_win(g: Seq<Seq<i64>>, c: int)
    requires
        is_board(g),
        winner_of(g) == 0,
        column_open(g, c),
        winner_of(drop_disc(g, c, 2)) == 2,
        forall|j: int|
            column_open(g, j) && j != c ==> winner_of(#[trigger] drop_disc(g, j, 2)) != 2,
    ensures
        search(puff_to_move(g), 1).1 == c,
        search(puff_to_move(g), 1).0 == board_score(drop_disc(g, c, 2), 1),
{
    let p = puff_to_move(g);
    lemma_landing_row(g, c);
    let row = landing_row(g, c);
    lemma_disc_adds(g, row, c);
    let at = lemma_win_fills_window(g, row, c);
    lemma_score_falls(g, drop_disc(g, c, 2), at.0, at.1);
    lemma_board_score_bounds(g, 1);
    assert(reply_score(p, 1, c) == board_score(drop_disc(g, c, 2), 1));
    assert forall|k: int| 0 <= k < 7 && k != c && column_open(g, k) implies #[trigger] reply_score(
        p,
        1,
        k,
    ) > reply_score(p, 1, c) by {
        lemma_landing_row(g, k);
        assert(winner_of(drop_disc(g, k, 2)) != 2);
        lemma_disc_adds(g, landing_row(g, k), k);
        lemma_no_win_fills_no_window(g, landing_row(g, k), k);
        lemma_score_holds(g, drop_disc(g, k, 2));
        assert(reply_score(p, 1, k) == board_score(drop_disc(g, k, 2), 1));
    }
    lemma_lowest_column_is_taken(p, 1, c);
}

/// Every disc on the board rests on another disc or on the bottom row.
pub open spec fn settled(g: Seq<Seq<i64>>) -> bool {
    forall|r: int, c: int|
        0 <= r < 5 && 0 <= c < 7 && g[r][c] != 0 ==> (#[trigger] g[r + 1][c]) != 0
}

/// A disc dropped into an open column of a settled board leaves a settled
/// board, with one disc more.
pub proof fn lemma_drop_keeps_settled(g: Seq<Seq<i64>>, j: int, disc: i64)
    requires
        is_board(g),
        settled(g),
        column_open(g, j),
        disc != 0,
    ensures
        is_board(drop_disc(g, j, disc)),
        settled(drop_disc(g, j, disc)),
        filled_cells(drop_disc(g, j, disc), 6) == filled_cells(g, 6) + 1,
{
    lemma_landing_row(g, j);
    let row = landing_row(g, j);
    let g2 = drop_disc(g, j, disc);
    assert(g[row].len() == 7);
    lemma_filled_cells_grow(g, row, j, disc, 6);
    assert forall|k: int| 0 <= k < 6 implies (#[trigger] g2[k]).len() == 7 by {
        assert(g[k].len() == 7);
    }
    assert forall|r: int, c: int| 0 <= r < 5 && 0 <= c < 7 && g2[r][c] != 0 implies (
    #[trigger] g2[r + 1][c]) != 0 by {
        assert(g[r].len() == 7);
        assert(g[r + 1].len() == 7);
        if r == row && c == j {
            assert(g[r + 1][c] != 0);
        } else {
            assert(g[r][c] != 0);
            assert(g[r + 1][c] != 0);
        }
    }
}

/// A row without an empty cell among its first `n` holds `n` discs there.
proof fn lemma_full_row(row: Seq<i64>, n: int)
    requires
        0 <= n,
        forall|c: int| 0 <= c < n ==> (#[trigger] row[c]) != 0,
    ensures
        filled_in_row(row, n) == n,
    decreases n,
{
    if n > 0 {
        lemma_full_row(row, n - 1);
    }
}

/// A board whose first `n` rows have no empty cell holds `7 * n` discs
/// there.
proof fn lemma_full_rows(g: Seq<Seq<i64>>, n: int)
    requires
        is_board(g),
        0 <= n <= 6,
        forall|r: int, c: int| 0 <= r < n && 0 <= c < 7 ==> (#[trigger] g[r][c]) != 0,
    ensures
        filled_cells(g, n) == 7 * n,
    decreases n,
{
    if n > 0 {
        lemma_full_rows(g, n - 1);
        assert(g[n - 1].len() == 7);
        assert forall|c: int| 0 <= c < 7 implies (#[trigger] g[n - 1][c]) != 0 by {
        }
        lemma_full_row(g[n - 1], 7);
    }
}

/// In a settled board, a disc in the top cell of a column means that the
/// column is full.
proof fn lemma_settled_column(g: Seq<Seq<i64>>, c: int, r: int)
    requires
        settled(g),
        0 <= c < 7,
        0 <= r < 6,
        g[0][c] != 0,
    ensures
        g[r][c] != 0,
    decreases r,
{
    if r > 0 {
        lemma_settled_column(g, c, r - 1);
        assert(g[r - 1 + 1][c] != 0);
    }
}

/// A settled board with fewer than 42 discs has an open column, which is
/// returned.
pub proof fn lemma_room_means_open_column(g: Seq<Seq<i64>>) -> (j: int)
    requires
        is_board(g),
        settled(g),
        filled_cells(g, 6) < 42,
    ensures
        column_open(g, j),
{
    if column_open(g, 0) {
        0
    } else if column_open(g, 1) {
        1
    } else if column_open(g, 2) {
        2
    } else if column_open(g, 3) {
        3
    } else if column_open(g, 4) {
        4
    } else if column_open(g, 5) {
        5
    } else if column_open(g, 6) {
        6
    } else {
        assert forall|r: int, c: int| 0 <= r < 6 && 0 <= c < 7 implies (#[trigger] g[r][c])
            != 0 by {
            lemma_settled_column(g, c, r);
        }
        lemma_full_rows(g, 6);
        0
    }
}

/// The score of a position with `steps` discs that the automated side has
/// won, when the human is to move.
pub open spec fn lost_score(steps: int) -> int {
    -(0x8000_0000_0000_0000int / steps)
}

/// With more discs on the board, a lost position scores no lower.
pub proof fn lemma_lost_score_grows(a: int, b: int)
    requires
        1 <= a <= b,
    ensures
        lost_score(a) <= lost_score(b),
{
    lemma_div_is_ordered_by_denominator(0x8000_0000_0000_0000int, a, b);
}

/// With one disc more on the board, a lost position scores strictly
/// higher.
pub proof fn lemma_lost_score_rises(t: int)
    requires
        1 <= t <= 42,
    ensures
        lost_score(t) < lost_score(t + 1),
{
    let n = 0x8000_0000_0000_0000int;
    let q = n / (t + 1);
    lemma_fundamental_div_mod(n, t + 1);
    lemma_mod_bound(n, t + 1);
    lemma_div_is_ordered_by_denominator(n, t + 1, 43);
    assert(n / 43 >= 43);
    assert((q + 1) * t <= (t + 1) * q) by (nonlinear_arith)
        requires
            t <= q,
    ;
    assert(t * (q + 1) == (q + 1) * t) by (nonlinear_arith);
    lemma_div_is_ordered(t * (q + 1), n, t);
    lemma_div_multiples_vanish(q + 1, t);
}

/// No board scores as low for the human as a lost position.
pub proof fn lemma_lost_score_is_lowest(g: Seq<Seq<i64>>, t: int)
    requires
        1 <= t <= 42,
    ensures
        lost_score(t) < board_score(g, 1),
{
    lemma_board_score_bounds(g, 1);
    lemma_lost_score_grows(t, 42);
}

/// A position as the search meets it: a board of the Connect4 shape, one
/// of the two sides to move, and as many steps as discs.
pub open spec fn sound(p: Position) -> bool {
    &&& is_board(p.board)
    &&& (p.mover == 1 || p.mover == 2)
    &&& p.steps == filled_cells(p.board, 6)
}

/// A move into an open column of a sound position leaves a sound position
/// with one disc more, the other side to move, every other column as open
/// as before, and the board settled if it was.
pub proof fn lemma_play_keeps_sound(p: Position, j: int)
    requires
        sound(p),
        column_open(p.board, j),
    ensures
        sound(play(p, j)),
        play(p, j).steps == p.steps + 1,
        play(p, j).mover == other_side(p.mover),
        settled(p.board) ==> settled(play(p, j).board),
        forall|k: int| k != j ==> column_open(play(p, j).board, k) == column_open(p.board, k),
{
    lemma_landing_row(p.board, j);
    let row = landing_row(p.board, j);
    lemma_filled_cells_grow(p.board, row, j, p.mover, 6);
    assert(p.board[row].len() == 7);
    assert forall|k: int| 0 <= k < 6 implies (#[trigger] play(p, j).board[k]).len() == 7 by {
        assert(p.board[k].len() == 7);
    }
    if settled(p.board) {
        lemma_drop_keeps_settled(p.board, j, p.mover);
    }
    assert forall|k: int| k != j implies column_open(play(p, j).board, k) == column_open(
        p.board,
        k,
    ) by {
        assert(p.board[0].len() == 7);
    }
}

/// The number of empty cells of a position.
pub open spec fn room(p: Position) -> int {
    42 - p.steps
}

/// A search of `depth` plies from the position never comes to a board
/// without an open column when the human is to move and a ply is left to
/// search. That is so where no ply or, with the automated side to move, one
/// ply is searched; and on a settled board that has as many empty cells as
/// plies are searched, or on which the automated side would be to move
/// once the two sides have filled it.
pub open spec fn steady(p: Position, depth: nat) -> bool {
    ||| depth == 0
    ||| p.mover == 2 && depth <= 1
    ||| settled(p.board) && (depth <= room(p) || (room(p) % 2 == 0 && p.mover == 2) || (room(p) % 2
        == 1 && p.mover == 1))
}

/// A steady search stays steady after a move into an open column.
proof fn lemma_play_keeps_steady(p: Position, depth: nat, j: int)
    requires
        sound(p),
        depth >= 1,
        steady(p, depth),
        column_open(p.board, j),
    ensures
        steady(play(p, j), (depth - 1) as nat),
{
    lemma_play_keeps_sound(p, j);
}

/// A steady search scores no lower than a lost position with as many
/// discs.
pub proof fn lemma_search_floor(p: Position, depth: nat)
    requires
        sound(p),
        1 <= p.steps,
        steady(p, depth),
    ensures
        search(p, depth).0 >= lost_score(p.steps),
    decreases depth,
{
    lemma_filled_cells_bounds(p.board, 6, 7);
    if depth == 0 {
        lemma_lost_score_is_lowest(p.board, p.steps);
    } else if winner_of(p.board) == 2 {
        if p.mover == 2 {
            lemma_div_pos_is_pos(0x7fff_ffff_ffff_ffffint, p.steps);
            lemma_div_pos_is_pos(0x8000_0000_0000_0000int, p.steps);
        }
    } else {
        lemma_search_is_best(p, depth);
        lemma_div_pos_is_pos(0x8000_0000_0000_0000int, p.steps);
        if p.mover == 1 {
            let x = lemma_room_means_open_column(p.board);
            assert(some_column_open(p.board));
        }
        if some_column_open(p.board) {
            let x = search(p, depth).1;
            lemma_play_keeps_sound(p, x);
            lemma_play_keeps_steady(p, depth, x);
            lemma_search_floor(play(p, x), (depth - 1) as nat);
            lemma_lost_score_grows(p.steps, p.steps + 1);
        }
    }
}

/// The automated side, to move on a board that it has not won yet, can
/// complete a run of its own in column `c` and in no column before it: a
/// search of two or of three plies returns `c`, and so does a deeper one
/// on a settled board that has as many empty cells as plies are searched,
/// or an even number of them.
pub proof fn lemma_deep_search_takes_the_win(g: Seq<Seq<i64>>, depth: nat, c: int)
    requires
        is_board(g),
        winner_of(g) != 2,
        column_open(g, c),
        winner_of(drop_disc(g, c, 2)) == 2,
        forall|j: int|
            0 <= j < c && column_open(g, j) ==> winner_of(#[trigger] drop_disc(g, j, 2)) != 2,
        2 <= depth,
        depth <= 3 || (settled(g) && (depth <= 42 - filled_cells(g, 6) || (42 - filled_cells(g, 6))
            % 2 == 0)),
    ensures
        search(puff_to_move(g), depth).1 == c,
        search(puff_to_move(g), depth).0 == lost_score(filled_cells(g, 6) + 1),
{
    let p = puff_to_move(g);
    let s = filled_cells(g, 6);
    lemma_filled_cells_bounds(g, 6, 7);
    assert(sound(p));
    lemma_play_keeps_sound(p, c);
    assert(reply_score(p, depth, c) == lost_score(s + 1));
    assert forall|k: int| k != c && column_open(g, k) implies (k < c ==> #[trigger] reply_score(
        p,
        depth,
        k,
    ) > lost_score(s + 1)) && reply_score(p, depth, k) >= lost_score(s + 1) by {
        let child = play(p, k);
        lemma_play_keeps_sound(p, k);
        if winner_of(drop_disc(g, k, 2)) != 2 {
            // the human can answer in column `c`, which is still open
            assert(column_open(child.board, c));
            assert(some_column_open(child.board));
            let after = play(child, c);
            lemma_play_keeps_sound(child, c);
            lemma_filled_cells_bounds(after.board, 6, 7);
            lemma_search_floor(after, (depth - 2) as nat);
            lemma_search_is_best(child, (depth - 1) as nat);
            assert(!improves(
                1,
                reply_score(child, (depth - 1) as nat, c),
                search(child, (depth - 1) as nat).0,
            ));
            lemma_lost_score_rises(s + 1);
        }
    }
    lemma_lowest_column_is_taken(p, depth, c);
}

/// The automated side, to move on a board without a run of four, can
/// complete a run of its own in column `c` and in no other column:
/// whatever the difficulty, it plays `c`. For a search of more than three
/// plies this is stated of the boards on which `c` is the only open
/// column, and of the settled boards that have as many empty cells as
/// plies are searched, or an even number of them.
pub proof fn lemma_puff_takes_the_win(g: Seq<Seq<i64>>, difficulty: Seq<char>, c: int)
    requires
        is_board(g),
        winner_of(g) == 0,
        column_open(g, c),
        winner_of(drop_disc(g, c, 2)) == 2,
        forall|j: int|
            column_open(g, j) && j != c ==> winner_of(#[trigger] drop_disc(g, j, 2)) != 2,
        depth_for(difficulty) > 3 ==> (forall|j: int| column_open(g, j) ==> j == c) || (settled(g)
            && (depth_for(difficulty) <= 42 - filled_cells(g, 6) || (42 - filled_cells(g, 6)) % 2
            == 0)),
    ensures
        chosen_column(g, difficulty) == c,
{
    let p = puff_to_move(g);
    if depth_for(difficulty) == 1 {
        lemma_one_ply_takes_the_win(g, c);
    } else if forall|j: int| column_open(g, j) ==> j == c {
        assert(some_column_open(g));
        lemma_search_finds_a_column(p, depth_for(difficulty));
    } else {
        lemma_deep_search_takes_the_win(g, depth_for(difficulty), c);
    }
}

/// The score of the position after the automated side has completed a run
/// of its own, as the search sees it: that of the board for the human
/// where one ply is searched, and else that of a lost position with one
/// disc more than board `g` holds.
pub open spec fn win_score(g: Seq<Seq<i64>>, depth: nat, c: int) -> int {
    if depth == 1 {
        board_score(drop_disc(g, c, 2), 1)
    } else {
        lost_score(filled_cells(g, 6) + 1)
    }
}

/// The automated side can complete a run of its own in column `c`, on any
/// board that it has not won yet and at any depth: the search returns `c`
/// exactly if the position after each open column before it scores higher
/// than the position after `c`, and the position after each open column
/// behind it no lower. On every other board the search returns the first
/// of the open columns whose position scores lowest.
pub proof fn lemma_win_is_taken_exactly_if(g: Seq<Seq<i64>>, depth: nat, c: int)
    requires
        is_board(g),
        winner_of(g) != 2,
        column_open(g, c),
        winner_of(drop_disc(g, c, 2)) == 2,
        1 <= depth,
    ensures
        reply_score(puff_to_move(g), depth, c) == win_score(g, depth, c),
        search(puff_to_move(g), depth).1 == c <==> (forall|k: int|
            k < c && column_open(g, k) ==> #[trigger] reply_score(puff_to_move(g), depth, k)
                > win_score(g, depth, c)) && (forall|k: int|
            c < k && column_open(g, k) ==> #[trigger] reply_score(puff_to_move(g), depth, k)
                >= win_score(g, depth, c)),
        first_best(puff_to_move(g), depth, search(puff_to_move(g), depth)),
{
    let p = puff_to_move(g);
    lemma_column_is_chosen(p, depth, c);
    lemma_search_is_best(p, depth);
    assert(some_column_open(g));
}

/// On the empty board the automated side plays one of the seven columns,
/// whatever the difficulty.
pub proof fn lemma_first_move_is_a_column(difficulty: Seq<char>)
    ensures
        0 <= chosen_column(empty_board(), difficulty) < 7,
{
    let g = empty_board();
    lemma_empty_board();
    assert forall|r: int, c: int, d: int| !#[trigger] run_at(g, r, c, d) by {
        if on_board(r, c) {
            assert(g[r][c] == 0);
        }
    }
    lemma_scan_nothing(g, 0, 0, 0);
    assert(!board_full(g)) by {
        assert(on_board(0, 0) && g[0][0] == 0);
    }
    assert(column_open(g, 0));
    assert(some_column_open(g));
    lemma_search_finds_a_column(puff_to_move(g), depth_for(difficulty));
}

} // verus!
