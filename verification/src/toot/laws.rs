//! What holds of the detector of TOOT-OTTO whatever else the board holds,
//! and of the moves of the automated side whatever chance draws.

use vstd::prelude::*;
use crate::grid::lemma_lowest_empty;
use crate::toot::pattern::{
    all_lettered, first_word_from, has_otto, has_toot, is_toot_board, letters_of, line,
    toot_winner_of, word_in,
};
use crate::toot::policy::{
    candidates_upto, column_free, easy_choice, easy_outcome, first_win_from, hard_choice,
    hard_outcome, on_toot, open_cells, option_col, option_disc, option_wins, rest_row, streak,
};

verus! {

/// The row where a letter comes to rest is the lowest empty cell of its
/// column, and a column is free exactly if it has an empty cell.
pub proof fn lemma_rest_row(g: Seq<Seq<i64>>, c: int)
    requires
        is_toot_board(g),
    ensures
        -1 <= rest_row(g, c) < 4,
        column_free(g, c) ==> g[rest_row(g, c)][c] == 0,
        forall|r: int| rest_row(g, c) < r < 4 ==> (#[trigger] g[r][c]) != 0,
        column_free(g, c) <==> exists|r: int| 0 <= r < 4 && g[r][c] == 0,
{
    lemma_lowest_empty(g, c);
}

/// The first winning move from move `j` on is move `k`, if move `k` wins
/// and none from `j` to `k` does.
proof fn lemma_first_win(g: Seq<Seq<i64>>, j: int, k: int)
    requires
        0 <= j <= k < 12,
        option_wins(g, k),
        forall|i: int| j <= i < k ==> !option_wins(g, i),
    ensures
        first_win_from(g, j) == k,
    decreases k - j,
{
    if j < k {
        lemma_first_win(g, j + 1, k);
    }
}

/// The first winning move from move `j` on comes no later than any winning
/// move from `j` on.
proof fn lemma_first_win_bound(g: Seq<Seq<i64>>, j: int, k: int)
    requires
        0 <= j <= k < 12,
        option_wins(g, k),
    ensures
        j <= first_win_from(g, j) <= k,
        option_wins(g, first_win_from(g, j)),
    decreases k - j,
{
    if !option_wins(g, j) {
        lemma_first_win_bound(g, j + 1, k);
    }
}

/// On `"Hard"`, a move that puts four equal letters in a line, when no
/// move before it does, is the move that is made, whatever chance draws.
/// So it is where it is the only such move.
pub proof fn lemma_first_win_is_played(g: Seq<Seq<i64>>, k: int, draw: usize)
    requires
        is_toot_board(g),
        0 <= k < 12,
        option_wins(g, k),
        forall|i: int| 0 <= i < k ==> !option_wins(g, i),
    ensures
        hard_choice(g, draw) == (option_col(k) as usize, option_disc(k)),
        forall|mv: (usize, i64)|
            hard_outcome(g, mv) ==> mv == (option_col(k) as usize, option_disc(k)),
{
    lemma_first_win(g, 0, k);
}

/// On `"Hard"`, where some move puts four equal letters in a line, chance
/// has no part in the move that is made.
pub proof fn lemma_win_leaves_nothing_to_chance(g: Seq<Seq<i64>>, k: int, one: usize, other: usize)
    requires
        is_toot_board(g),
        0 <= k < 12,
        option_wins(g, k),
    ensures
        hard_choice(g, one) == hard_choice(g, other),
        option_wins(g, first_win_from(g, 0)),
        hard_choice(g, one) == (
            option_col(first_win_from(g, 0)) as usize,
            option_disc(first_win_from(g, 0)),
        ),
{
    lemma_first_win_bound(g, 0, k);
}

/// Each of the moves that can be made is a letter of the automated side in
/// a column that is not full, and every such column is among them.
proof fn lemma_candidates(g: Seq<Seq<i64>>, k: int)
    requires
        0 <= k <= 12,
    ensures
        forall|i: int|
            0 <= i < candidates_upto(g, k).len() ==> {
                let mv = #[trigger] candidates_upto(g, k)[i];
                &&& mv.0 < 6
                &&& column_free(g, mv.0 as int)
                &&& (mv.1 == 3 || mv.1 == 4)
            },
        forall|j: int| 0 <= j < k && column_free(g, option_col(j)) ==> candidates_upto(g, k).len() > 0,
    decreases k,
{
    if k > 0 {
        lemma_candidates(g, k - 1);
        let before = candidates_upto(g, k - 1);
        let all = candidates_upto(g, k);
        assert(0 <= option_col(k - 1) < 6);
        assert forall|i: int| 0 <= i < all.len() implies {
            let mv = #[trigger] all[i];
            &&& mv.0 < 6
            &&& column_free(g, mv.0 as int)
            &&& (mv.1 == 3 || mv.1 == 4)
        } by {
            if i < before.len() {
                assert(all[i] == before[i]);
            }
        }
    }
}

/// The move on `"Hard"` is a letter of the automated side in one of the
/// six columns, and in a column that is not full wherever there is one.
pub proof fn lemma_hard_move_is_legal(g: Seq<Seq<i64>>, draw: usize)
    requires
        is_toot_board(g),
    ensures
        hard_choice(g, draw).0 < 6,
        hard_choice(g, draw).1 == 3 || hard_choice(g, draw).1 == 4,
        (exists|c: int| 0 <= c < 6 && column_free(g, c)) ==> column_free(
            g,
            hard_choice(g, draw).0 as int,
        ),
{
    lemma_candidates(g, 12);
    let win = first_win_from(g, 0);
    let candidates = candidates_upto(g, 12);
    if win < 12 {
        lemma_first_win_range(g, 0);
    } else if candidates.len() > 0 {
        let i = draw as int % candidates.len() as int;
        assert(0 <= i < candidates.len());
        assert(candidates[i].0 < 6);
    } else {
        assert forall|c: int| 0 <= c < 6 implies !column_free(g, c) by {
            assert(option_col(2 * c) == c);
        }
    }
}

/// The first winning move from move `j` on, where there is one, wins.
proof fn lemma_first_win_range(g: Seq<Seq<i64>>, j: int)
    requires
        0 <= j,
    ensures
        j <= first_win_from(g, j) <= 12 || j > 12,
        first_win_from(g, j) < 12 ==> option_wins(g, first_win_from(g, j)),
    decreases 12 - j,
{
    if j < 12 && !option_wins(g, j) {
        lemma_first_win_range(g, j + 1);
    }
}

/// The empty cells among the first `n` are the cells on the board that are
/// empty.
proof fn lemma_open_cells_upto(g: Seq<Seq<i64>>, n: int)
    requires
        0 <= n <= 24,
    ensures
        forall|cell: (usize, usize)|
            open_cells(g, n).contains(cell) <==> cell.0 < 6 && cell.1 * 6 + cell.0 < n
                && g[cell.1 as int][cell.0 as int] == 0,
    decreases n,
{
    if n > 0 {
        lemma_open_cells_upto(g, n - 1);
        let rest = open_cells(g, n - 1);
        let last = (((n - 1) % 6) as usize, ((n - 1) / 6) as usize);
        assert forall|cell: (usize, usize)|
            open_cells(g, n).contains(cell) <==> cell.0 < 6 && cell.1 * 6 + cell.0 < n
                && g[cell.1 as int][cell.0 as int] == 0 by {
            if g[(n - 1) / 6][(n - 1) % 6] == 0 {
                assert(open_cells(g, n) == rest.push(last));
                if open_cells(g, n).contains(cell) {
                    let i = choose|i: int|
                        0 <= i < open_cells(g, n).len() && open_cells(g, n)[i] == cell;
                    if i < rest.len() {
                        assert(rest[i] == cell);
                        assert(rest.contains(cell));
                    }
                }
                if cell.0 < 6 && cell.1 * 6 + cell.0 < n && g[cell.1 as int][cell.0 as int] == 0 {
                    if cell.1 * 6 + cell.0 == n - 1 {
                        assert(cell == last);
                        assert(rest.push(last)[rest.len() as int] == cell);
                    } else {
                        assert(rest.contains(cell));
                        let i = choose|i: int| 0 <= i < rest.len() && rest[i] == cell;
                        assert(rest.push(last)[i] == cell);
                    }
                }
            }
        }
    }
}

/// The cells among which the easy setting lets chance pick are the empty
/// cells of the board, each as its column and its row.
pub proof fn lemma_open_cells(g: Seq<Seq<i64>>)
    requires
        is_toot_board(g),
    ensures
        forall|cell: (usize, usize)|
            open_cells(g, 24).contains(cell) <==> cell.0 < 6 && cell.1 < 4
                && g[cell.1 as int][cell.0 as int] == 0,
{
    lemma_open_cells_upto(g, 24);
}

/// A move of the easy setting is a letter of the automated side in one of
/// the six columns, and in a column with an empty cell wherever the board
/// has one.
pub proof fn lemma_easy_move_is_legal(g: Seq<Seq<i64>>, mv: (usize, i64))
    requires
        is_toot_board(g),
        easy_outcome(g, mv),
    ensures
        mv.0 < 6,
        mv.1 == 3 || mv.1 == 4,
        open_cells(g, 24).len() > 0 ==> column_free(g, mv.0 as int),
        open_cells(g, 24).len() == 0 <==> forall|r: int, c: int|
            0 <= r < 4 && 0 <= c < 6 ==> (#[trigger] g[r][c]) != 0,
{
    lemma_open_cells(g);
    let cells = open_cells(g, 24);
    if cells.len() > 0 {
        let found = choose|cell: (usize, usize), heads: bool|
            cells.contains(cell) && mv == easy_choice(Some(cell), heads);
        let cell = found.0;
        assert(g[cell.1 as int][cell.0 as int] == 0);
        lemma_rest_row(g, cell.0 as int);
        assert(cells.contains(cells[0]));
    } else {
        assert forall|r: int, c: int| 0 <= r < 4 && 0 <= c < 6 implies (#[trigger] g[r][c])
            != 0 by {
            if g[r][c] == 0 {
                assert(cells.contains((c as usize, r as usize)));
            }
        }
    }
}

/// The first deciding line from line `j` on decides as line `i` does, if
/// line `i` holds a word and every line from `j` on that holds a word
/// decides the same.
proof fn lemma_first_word(b: Seq<Seq<char>>, j: int, i: int)
    requires
        0 <= j <= i < 16,
        word_in(line(b, i)) != 0,
        forall|k: int|
            0 <= k < 16 && word_in(#[trigger] line(b, k)) != 0 ==> word_in(line(b, k)) == word_in(
                line(b, i),
            ),
    ensures
        first_word_from(b, j) == word_in(line(b, i)),
    decreases i - j,
{
    if j < i && word_in(line(b, j)) == 0 {
        lemma_first_word(b, j + 1, i);
    }
}

/// A board on which some line spells TOOT and no line spells OTTO without
/// TOOT is won by the human, whatever else it holds.
pub proof fn lemma_toot_wins(g: Seq<Seq<i64>>, i: int)
    requires
        is_toot_board(g),
        0 <= i < 16,
        has_toot(line(letters_of(g), i)),
        forall|k: int|
            0 <= k < 16 && has_otto(#[trigger] line(letters_of(g), k)) ==> has_toot(
                line(letters_of(g), k),
            ),
    ensures
        toot_winner_of(g) == 1,
{
    lemma_first_word(letters_of(g), 0, i);
}

/// A board on which some line spells OTTO and no line spells TOOT is won
/// by the automated side, whatever else it holds.
pub proof fn lemma_otto_wins(g: Seq<Seq<i64>>, i: int)
    requires
        is_toot_board(g),
        0 <= i < 16,
        has_otto(line(letters_of(g), i)),
        forall|k: int| 0 <= k < 16 ==> !has_toot(#[trigger] line(letters_of(g), k)),
    ensures
        toot_winner_of(g) == 2,
{
    lemma_first_word(letters_of(g), 0, i);
}

/// No line from line `j` on holds a word: none of them decides.
proof fn lemma_no_word(b: Seq<Seq<char>>, j: int)
    requires
        0 <= j,
        forall|k: int| 0 <= k < 16 ==> word_in(#[trigger] line(b, k)) == 0,
    ensures
        first_word_from(b, j) == 0,
    decreases 16 - j,
{
    if j < 16 {
        lemma_no_word(b, j + 1);
    }
}

/// A board on which no line spells a word is a draw if every cell holds a
/// letter, and open if not.
pub proof fn lemma_no_word_draws(g: Seq<Seq<i64>>)
    requires
        is_toot_board(g),
        forall|k: int|
            0 <= k < 16 ==> !has_toot(#[trigger] line(letters_of(g), k)) && !has_otto(
                line(letters_of(g), k),
            ),
    ensures
        all_lettered(letters_of(g)) ==> toot_winner_of(g) == 3,
        !all_lettered(letters_of(g)) ==> toot_winner_of(g) == 0,
        all_lettered(letters_of(g)) <==> forall|r: int, c: int|
            0 <= r < 4 && 0 <= c < 6 ==> 1 <= (#[trigger] g[r][c]) <= 4,
{
    let b = letters_of(g);
    assert forall|k: int| 0 <= k < 16 implies word_in(#[trigger] line(b, k)) == 0 by {
        assert(!has_toot(line(b, k)));
    }
    lemma_no_word(b, 0);
    assert forall|r: int, c: int| 0 <= r < 4 && 0 <= c < 6 implies (b[r][c] != '0' <==> 1
        <= #[trigger] g[r][c] <= 4) by {
        assert(g[r].len() == 6);
    }
    if all_lettered(b) {
        assert forall|r: int, c: int| 0 <= r < 4 && 0 <= c < 6 implies 1 <= (#[trigger] g[r][c])
            <= 4 by {
            assert(b[r][c] != '0');
        }
    } else {
        let found = choose|r: int, c: int| 0 <= r < 4 && 0 <= c < 6 && (#[trigger] b[r][c]) == '0';
        assert(!(1 <= g[found.0][found.1] <= 4));
    }
}

/// No more cells than this lie on the board from row `r`, column `c` on in
/// steps of `dr` rows and `dc` columns.
pub open spec fn reach(r: int, c: int, dr: int, dc: int) -> int {
    if !on_toot(r, c) {
        0
    } else if dc == 1 {
        6 - c
    } else if dc == -1 {
        c + 1
    } else if dr == 1 {
        4 - r
    } else {
        r + 1
    }
}

/// Counting among more cells than lie on the board in a direction counts
/// no more equal letters.
proof fn lemma_streak_within_reach(
    g: Seq<Seq<i64>>,
    r: int,
    c: int,
    dr: int,
    dc: int,
    disc: i64,
    n: nat,
    m: nat,
)
    requires
        -1 <= dr <= 1,
        -1 <= dc <= 1,
        dr != 0 || dc != 0,
        n >= reach(r, c, dr, dc),
        m >= reach(r, c, dr, dc),
    ensures
        streak(g, r, c, dr, dc, disc, n) == streak(g, r, c, dr, dc, disc, m),
    decreases n,
{
    if on_toot(r, c) && g[r][c] == disc {
        lemma_streak_within_reach(
            g,
            r + dr,
            c + dc,
            dr,
            dc,
            disc,
            (n - 1) as nat,
            (m - 1) as nat,
        );
    }
}

/// A line of equal letters on the board is counted whole: counting among
/// six cells in a direction gives what counting among any more would give.
pub proof fn lemma_streak_is_whole(
    g: Seq<Seq<i64>>,
    r: int,
    c: int,
    dr: int,
    dc: int,
    disc: i64,
    n: nat,
)
    requires
        -1 <= dr <= 1,
        -1 <= dc <= 1,
        dr != 0 || dc != 0,
        n >= 6,
    ensures
        streak(g, r, c, dr, dc, disc, n) == streak(g, r, c, dr, dc, disc, 6),
{
    lemma_streak_within_reach(g, r, c, dr, dc, disc, n, 6);
}

} // verus!
