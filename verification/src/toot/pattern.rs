//! Who has won a TOOT-OTTO board: the first line, among the rows, the
//! columns and the diagonals of four cells, that spells one of the two
//! words.

use vstd::prelude::*;
use vstd::string::StrSliceExecFns;
use crate::grid::{grid_of, is_grid};

verus! {

/// The result of the detector when the human's word stands on the board.
pub const HUMAN_WINS: i64 = 1;

/// The result of the detector when the automated side's word stands on the
/// board.
pub const PUFF_WINS: i64 = 2;

/// The result of the detector when every cell holds a letter and neither
/// word stands on the board.
pub const DRAW: i64 = 3;

/// A board of the TOOT-OTTO shape.
pub open spec fn is_toot_board<T>(g: Seq<Seq<T>>) -> bool {
    is_grid(g, 4, 6)
}

/// The letter that a cell shows: `T` for codes 1 and 3, `O` for 2 and 4,
/// and the digit `0` for anything else.
pub open spec fn letter_of(cell: i64) -> char {
    if cell == 1 || cell == 3 {
        'T'
    } else if cell == 2 || cell == 4 {
        'O'
    } else {
        '0'
    }
}

/// The letters that a board of codes shows.
pub open spec fn letters_of(g: Seq<Seq<i64>>) -> Seq<Seq<char>> {
    Seq::new(g.len(), |r: int| Seq::new(g[r].len(), |c: int| letter_of(g[r][c])))
}

/// The four letters `a`, `b`, `b`, `a` stand in `s` from place `i` on.
pub open spec fn spells(s: Seq<char>, i: int, a: char, b: char) -> bool {
    &&& 0 <= i
    &&& i + 4 <= s.len()
    &&& s[i] == a
    &&& s[i + 1] == b
    &&& s[i + 2] == b
    &&& s[i + 3] == a
}

/// `s` holds the word TOOT.
pub open spec fn has_toot(s: Seq<char>) -> bool {
    exists|i: int| spells(s, i, 'T', 'O')
}

/// `s` holds the word OTTO.
pub open spec fn has_otto(s: Seq<char>) -> bool {
    exists|i: int| spells(s, i, 'O', 'T')
}

/// What a line of letters decides: `1` where it holds TOOT, else `2` where
/// it holds OTTO, else `0`.
pub open spec fn word_in(s: Seq<char>) -> i64 {
    if has_toot(s) {
        1
    } else if has_otto(s) {
        2
    } else {
        0
    }
}

/// Line `i` of a board of letters, read from its top or left end: lines 0
/// to 3 are the rows, 4 to 9 the columns, 10 to 12 the diagonals that go
/// down to the right from the top cells of columns 0 to 2, and 13 to 15
/// those that go down to the left from the top cells of columns 3 to 5.
pub open spec fn line(b: Seq<Seq<char>>, i: int) -> Seq<char> {
    if i < 4 {
        b[i]
    } else if i < 10 {
        Seq::new(4, |k: int| b[k][i - 4])
    } else if i < 13 {
        Seq::new(4, |k: int| b[k][i - 10 + k])
    } else {
        Seq::new(4, |k: int| b[k][i - 10 - k])
    }
}

/// What the first deciding line among lines `i` to 15 decides; `0` if none
/// of them holds a word.
pub open spec fn first_word_from(b: Seq<Seq<char>>, i: int) -> i64
    decreases 16 - i,
{
    if i >= 16 || i < 0 {
        0
    } else if word_in(line(b, i)) != 0 {
        word_in(line(b, i))
    } else {
        first_word_from(b, i + 1)
    }
}

/// What the board decides: the word of its first deciding line.
pub open spec fn word_on(b: Seq<Seq<char>>) -> i64 {
    first_word_from(b, 0)
}

/// Every cell of the board shows a letter.
pub open spec fn all_lettered(b: Seq<Seq<char>>) -> bool {
    forall|r: int, c: int| 0 <= r < 4 && 0 <= c < 6 ==> (#[trigger] b[r][c]) != '0'
}

/// What the detector reports: the word on the board; where there is none,
/// `3` for a board without an empty cell and `0` otherwise.
pub open spec fn toot_winner_of(g: Seq<Seq<i64>>) -> i64 {
    let word = word_on(letters_of(g));
    if word != 0 {
        word
    } else if all_lettered(letters_of(g)) {
        3
    } else {
        0
    }
}

/// The rows of a board of letters.
pub open spec fn letter_grid(board: &Vec<Vec<char>>) -> Seq<Seq<char>> {
    Seq::new(board@.len(), |r: int| board@[r]@)
}

/// Whether a board of letters has four rows of six cells.
pub fn is_letter_board(board: &Vec<Vec<char>>) -> (ok: bool)
    ensures
        ok == is_toot_board(letter_grid(board)),
{
    if board.len() != 4 {
        return false;
    }
    let mut r: usize = 0;
    while r < 4
        invariant
            r <= 4,
            board@.len() == 4,
            forall|k: int| 0 <= k < r ==> (#[trigger] letter_grid(board)[k]).len() == 6,
        decreases 4 - r,
    {
        if board[r].len() != 6 {
            assert(letter_grid(board)[r as int].len() != 6);
            return false;
        }
        r += 1;
    }
    true
}

/// The letter that a cell shows.
pub fn num_2_char(cell: i64) -> (letter: char)
    ensures
        letter == letter_of(cell),
{
    match cell {
        1 | 3 => 'T',
        2 | 4 => 'O',
        _ => '0',
    }
}

/// Whether the letters `a`, `b`, `b`, `a` stand somewhere in `letters`.
fn holds_word(letters: &Vec<char>, a: char, b: char) -> (found: bool)
    ensures
        found == exists|i: int| spells(letters@, i, a, b),
{
    if letters.len() < 4 {
        return false;
    }
    let last: usize = letters.len() - 4;
    let mut i: usize = 0;
    while i <= last
        invariant
            last + 4 == letters@.len(),
            last + 4 <= usize::MAX,
            forall|k: int| 0 <= k < i ==> !spells(letters@, k, a, b),
        decreases last + 1 - i,
    {
        if letters[i] == a && letters[i + 1] == b && letters[i + 2] == b && letters[i + 3] == a {
            assert(spells(letters@, i as int, a, b));
            return true;
        }
        i += 1;
    }
    false
}

/// What a line of letters decides: `1` where it holds TOOT, else `2` where
/// it holds OTTO, else `0`.
pub fn word_in_letters(letters: &Vec<char>) -> (word: i64)
    ensures
        word == word_in(letters@),
{
    if holds_word(letters, 'T', 'O') {
        HUMAN_WINS
    } else if holds_word(letters, 'O', 'T') {
        PUFF_WINS
    } else {
        0
    }
}

/// What a line of letters decides: `1` where it holds TOOT, else `2` where
/// it holds OTTO, else `0`.
pub fn contains_toot_or_otto(sequence: &str) -> (word: i64)
    ensures
        word == word_in(sequence@),
{
    let n = sequence.unicode_len();
    let mut letters: Vec<char> = Vec::new();
    let mut i: usize = 0;
    while i < n
        invariant
            i <= n,
            n == sequence@.len(),
            letters@ == sequence@.take(i as int),
        decreases n - i,
    {
        letters.push(sequence.get_char(i));
        assert(letters@ =~= sequence@.take(i + 1));
        i += 1;
    }
    assert(letters@ =~= sequence@);
    word_in_letters(&letters)
}

/// What a board of letters decides: the word of the first line that holds
/// one, the rows first, then the columns, then the diagonals down to the
/// right, then those down to the left; `0` if no line holds a word.
pub fn check_pattern_in_board(game_board: Vec<Vec<char>>) -> (word: i64)
    requires
        is_toot_board(letter_grid(&game_board)),
    ensures
        word == word_on(letter_grid(&game_board)),
{
    let ghost b = letter_grid(&game_board);
    let cols: usize = 6;
    let rows: usize = 4;

    let mut r: usize = 0;
    while r < rows
        invariant
            r <= rows == 4,
            b == letter_grid(&game_board),
            is_toot_board(b),
            word_on(b) == first_word_from(b, r as int),
        decreases rows - r,
    {
        assert(line(b, r as int) == game_board@[r as int]@);
        let win_or_not = word_in_letters(&game_board[r]);
        if win_or_not != 0 {
            return win_or_not;
        }
        r += 1;
    }

    let mut col: usize = 0;
    while col < cols
        invariant
            col <= cols == 6,
            rows == 4,
            b == letter_grid(&game_board),
            is_toot_board(b),
            word_on(b) == first_word_from(b, 4 + col),
        decreases cols - col,
    {
        let mut column_sequence: Vec<char> = Vec::new();
        let mut i: usize = 0;
        while i < rows
            invariant
                i <= rows == 4,
                col < 6,
                b == letter_grid(&game_board),
                is_toot_board(b),
                column_sequence@.len() == i,
                forall|k: int| 0 <= k < i ==> (#[trigger] column_sequence@[k]) == b[k][col as int],
            decreases rows - i,
        {
            assert(b[i as int].len() == 6);
            column_sequence.push(game_board[i][col]);
            i += 1;
        }
        assert(column_sequence@ =~= line(b, 4 + col));
        let win_or_not = word_in_letters(&column_sequence);
        if win_or_not != 0 {
            return win_or_not;
        }
        col += 1;
    }

    let mut start_col: usize = 0;
    while start_col <= cols - 4
        invariant
            start_col <= 3,
            cols == 6,
            rows == 4,
            b == letter_grid(&game_board),
            is_toot_board(b),
            word_on(b) == first_word_from(b, 10 + start_col),
        decreases 3 - start_col,
    {
        let mut diag_sequence: Vec<char> = Vec::new();
        let mut i: usize = 0;
        while i < rows
            invariant
                i <= rows == 4,
                start_col < 3,
                b == letter_grid(&game_board),
                is_toot_board(b),
                diag_sequence@.len() == i,
                forall|k: int|
                    0 <= k < i ==> (#[trigger] diag_sequence@[k]) == b[k][start_col + k],
            decreases rows - i,
        {
            assert(b[i as int].len() == 6);
            diag_sequence.push(game_board[i][start_col + i]);
            i += 1;
        }
        assert(diag_sequence@ =~= line(b, 10 + start_col));
        let win_or_not = word_in_letters(&diag_sequence);
        if win_or_not != 0 {
            return win_or_not;
        }
        start_col += 1;
    }

    let mut start_col: usize = 3;
    while start_col < cols
        invariant
            3 <= start_col <= cols == 6,
            rows == 4,
            b == letter_grid(&game_board),
            is_toot_board(b),
            word_on(b) == first_word_from(b, 10 + start_col),
        decreases cols - start_col,
    {
        let mut diag_sequence: Vec<char> = Vec::new();
        let mut i: usize = 0;
        while i < rows
            invariant
                i <= rows == 4,
                3 <= start_col < 6,
                b == letter_grid(&game_board),
                is_toot_board(b),
                diag_sequence@.len() == i,
                forall|k: int|
                    0 <= k < i ==> (#[trigger] diag_sequence@[k]) == b[k][start_col - k],
            decreases rows - i,
        {
            assert(b[i as int].len() == 6);
            diag_sequence.push(game_board[i][start_col - i]);
            i += 1;
        }
        assert(diag_sequence@ =~= line(b, 10 + start_col));
        let win_or_not = word_in_letters(&diag_sequence);
        if win_or_not != 0 {
            return win_or_not;
        }
        start_col += 1;
    }
    0
}

/// The state of a game of TOOT-OTTO: `1` if the human's word stands on the
/// board, `2` if the automated side's does, `3` for a draw, `0` while the
/// game is open.
pub fn check_toot_winner(game_board: Vec<Vec<i64>>) -> (w: i64)
    requires
        is_toot_board(grid_of(&game_board)),
    ensures
        w == toot_winner_of(grid_of(&game_board)),
{
    let ghost g = grid_of(&game_board);
    let ghost b = letters_of(g);
    let mut char_board: Vec<Vec<char>> = Vec::new();
    let mut nonzero_count: usize = 0;
    let mut r: usize = 0;
    while r < 4
        invariant
            r <= 4,
            g == grid_of(&game_board),
            b == letters_of(g),
            is_toot_board(g),
            char_board@.len() == r,
            forall|k: int| 0 <= k < r ==> (#[trigger] char_board@[k])@ == b[k],
            nonzero_count <= r * 6,
            nonzero_count == r * 6 <==> forall|k: int, c: int|
                0 <= k < r && 0 <= c < 6 ==> (#[trigger] b[k][c]) != '0',
        decreases 4 - r,
    {
        assert(g[r as int].len() == 6);
        let mut letters: Vec<char> = Vec::new();
        let ghost above = nonzero_count;
        let mut c: usize = 0;
        while c < 6
            invariant
                r < 4,
                c <= 6,
                g == grid_of(&game_board),
                b == letters_of(g),
                is_toot_board(g),
                letters@.len() == c,
                forall|k: int| 0 <= k < c ==> (#[trigger] letters@[k]) == b[r as int][k],
                above <= r * 6,
                above <= nonzero_count <= above + c,
                nonzero_count == above + c <==> forall|k: int|
                    0 <= k < c ==> (#[trigger] b[r as int][k]) != '0',
            decreases 6 - c,
        {
            assert(g[r as int].len() == 6);
            let letter = num_2_char(game_board[r][c]);
            assert(b[r as int][c as int] == letter);
            if letter != '0' {
                nonzero_count += 1;
            }
            letters.push(letter);
            c += 1;
        }
        assert(letters@ =~= b[r as int]);
        char_board.push(letters);
        r += 1;
    }
    assert(letter_grid(&char_board) =~= b);
    let contain_pattern = check_pattern_in_board(char_board);
    if contain_pattern == 0 {
        if nonzero_count == 24 {
            return DRAW;
        }
        return 0;
    }
    contain_pattern
}

} // verus!
