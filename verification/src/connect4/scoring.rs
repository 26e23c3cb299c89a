//! How good a Connect4 board looks to one side: every window of four cells
//! in a line is scored by what it holds, and the scores are added up.

use vstd::prelude::*;
use crate::connect4::detect::cell_along;

verus! {

/// How many entries of `cells` equal `v`.
pub open spec fn count_eq(cells: Seq<i64>, v: i64) -> int
    decreases cells.len(),
{
    if cells.len() == 0 {
        0
    } else {
        count_eq(cells.drop_last(), v) + if cells.last() == v {
            1int
        } else {
            0int
        }
    }
}

/// The score of a window by the number of its cells that hold a disc of the
/// side looked from (`good`), of the other side (`bad`), and none (`empty`).
pub open spec fn table_score(good: int, bad: int, empty: int) -> int {
    if good == 4 {
        500001
    } else if good == 3 && empty == 1 {
        5000
    } else if good == 2 && empty == 2 {
        500
    } else if bad == 2 && empty == 2 {
        -501
    } else if bad == 3 && empty == 1 {
        -5001
    } else if bad == 4 {
        -500000
    } else {
        0
    }
}

/// The number of discs in `cells` that are not `side`'s: all discs of the
/// two players, less those of `side`.
pub open spec fn others_in(cells: Seq<i64>, side: i64) -> int {
    count_eq(cells, 1) + count_eq(cells, 2) - count_eq(cells, side)
}

/// The score of one window for `side`.
pub open spec fn window_score(cells: Seq<i64>, side: i64) -> int {
    table_score(count_eq(cells, side), others_in(cells, side), count_eq(cells, 0))
}

/// The four cells from row `r`, column `c` in direction `d`, in order.
pub open spec fn window_at(g: Seq<Seq<i64>>, r: int, c: int, d: int) -> Seq<i64> {
    seq![
        cell_along(g, r, c, d, 0),
        cell_along(g, r, c, d, 1),
        cell_along(g, r, c, d, 2),
        cell_along(g, r, c, d, 3),
    ]
}

/// How many windows go in direction `d`: 24 to the right, 21 down, 12 along
/// each diagonal.
pub open spec fn family_len(d: int) -> int {
    if d == 0 {
        24
    } else if d == 1 {
        21
    } else {
        12
    }
}

/// The row where window `i` of direction `d` starts.
pub open spec fn start_row(d: int, i: int) -> int {
    if d == 1 {
        i % 3
    } else if d == 3 {
        i / 4 + 3
    } else {
        i / 4
    }
}

/// The column where window `i` of direction `d` starts.
pub open spec fn start_col(d: int, i: int) -> int {
    if d == 1 {
        i / 3
    } else {
        i % 4
    }
}

/// Window `i` of direction `d`.
pub open spec fn nth_window(g: Seq<Seq<i64>>, d: int, i: int) -> Seq<i64> {
    window_at(g, start_row(d, i), start_col(d, i), d)
}

/// The scores of the first `n` windows of direction `d`, added up.
pub open spec fn family_score(g: Seq<Seq<i64>>, side: i64, d: int, n: int) -> int
    decreases n,
{
    if n <= 0 {
        0
    } else {
        family_score(g, side, d, n - 1) + window_score(nth_window(g, d, n - 1), side)
    }
}

/// The score of a board for `side`: the scores of all 69 windows, added up.
pub open spec fn board_score(g: Seq<Seq<i64>>, side: i64) -> int {
    family_score(g, side, 0, 24) + family_score(g, side, 1, 21) + family_score(g, side, 2, 12)
        + family_score(g, side, 3, 12)
}

/// No window scores below -500000 or above 500001.
pub proof fn lemma_table_score_bounds(good: int, bad: int, empty: int)
    ensures
        -500000 <= table_score(good, bad, empty) <= 500001,
{
}

/// The first `n` windows of a direction score between `-500000 * n` and
/// `500001 * n`.
pub proof fn lemma_family_score_bounds(g: Seq<Seq<i64>>, side: i64, d: int, n: int)
    requires
        0 <= n,
    ensures
        -500000 * n <= family_score(g, side, d, n) <= 500001 * n,
    decreases n,
{
    if n > 0 {
        lemma_family_score_bounds(g, side, d, n - 1);
    }
}

/// A board scores between -34500000 and 34500069.
pub proof fn lemma_board_score_bounds(g: Seq<Seq<i64>>, side: i64)
    ensures
        -34500000 <= board_score(g, side) <= 34500069,
{
    lemma_family_score_bounds(g, side, 0, 24);
    lemma_family_score_bounds(g, side, 1, 21);
    lemma_family_score_bounds(g, side, 2, 12);
    lemma_family_score_bounds(g, side, 3, 12);
}

} // verus!
