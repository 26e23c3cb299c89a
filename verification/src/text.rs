//! Numbers and moves as text.

use vstd::prelude::*;
use vstd::string::{StrSliceExecFns, StringExecFns};

verus! {

/// The character of the decimal digit `d`.
pub open spec fn digit_of(d: int) -> char {
    if d == 0 {
        '0'
    } else if d == 1 {
        '1'
    } else if d == 2 {
        '2'
    } else if d == 3 {
        '3'
    } else if d == 4 {
        '4'
    } else if d == 5 {
        '5'
    } else if d == 6 {
        '6'
    } else if d == 7 {
        '7'
    } else if d == 8 {
        '8'
    } else {
        '9'
    }
}

/// The decimal digits of `n`, the most significant first, without leading
/// zeros.
pub open spec fn decimal(n: nat) -> Seq<char>
    decreases n,
{
    if n < 10 {
        seq![digit_of(n as int)]
    } else {
        decimal(n / 10).push(digit_of((n % 10) as int))
    }
}

/// The decimal digits of `v`, after a minus sign where `v` is negative.
pub open spec fn signed_decimal(v: int) -> Seq<char> {
    if v < 0 {
        seq!['-'] + decimal((-v) as nat)
    } else {
        decimal(v as nat)
    }
}

/// A TOOT-OTTO move as text: the column, a comma, and the code of the
/// letter.
pub open spec fn move_text(col: usize, piece: i64) -> Seq<char> {
    decimal(col as nat) + seq![','] + signed_decimal(piece as int)
}

/// The text of one decimal digit.
fn digit_text(d: u64) -> (text: &'static str)
    requires
        d < 10,
    ensures
        text@ == seq![digit_of(d as int)],
{
    proof {
        reveal_strlit("0");
        reveal_strlit("1");
        reveal_strlit("2");
        reveal_strlit("3");
        reveal_strlit("4");
        reveal_strlit("5");
        reveal_strlit("6");
        reveal_strlit("7");
        reveal_strlit("8");
        reveal_strlit("9");
    }
    let text = if d == 0 {
        "0"
    } else if d == 1 {
        "1"
    } else if d == 2 {
        "2"
    } else if d == 3 {
        "3"
    } else if d == 4 {
        "4"
    } else if d == 5 {
        "5"
    } else if d == 6 {
        "6"
    } else if d == 7 {
        "7"
    } else if d == 8 {
        "8"
    } else {
        "9"
    };
    assert(text@ =~= seq![digit_of(d as int)]);
    text
}

/// Appends the decimal digits of `n` to `text`.
pub fn append_decimal(text: &mut String, n: u64)
    ensures
        final(text)@ == old(text)@ + decimal(n as nat),
    decreases n,
{
    if n >= 10 {
        append_decimal(text, n / 10);
    }
    text.append(digit_text(n % 10));
    assert(text@ =~= old(text)@ + decimal(n as nat));
}

/// A TOOT-OTTO move as text: the column, a comma, and the code of the
/// letter.
pub fn render_move(col: usize, piece: i64) -> (text: String)
    ensures
        text@ == move_text(col, piece),
{
    let mut text = String::new();
    append_decimal(&mut text, col as u64);
    text.append(",");
    proof {
        reveal_strlit(",");
        reveal_strlit("-");
    }
    assert(","@ =~= seq![',']);
    assert("-"@ =~= seq!['-']);
    if piece < 0 {
        text.append("-");
        let magnitude: u64 = ((-(piece + 1)) as u64) + 1;
        append_decimal(&mut text, magnitude);
    } else {
        append_decimal(&mut text, piece as u64);
    }
    assert(text@ =~= move_text(col, piece));
    text
}

/// The value of the decimal digit `c`; `-1` if `c` is no digit.
pub open spec fn digit_value(c: char) -> int {
    if c == '0' {
        0
    } else if c == '1' {
        1
    } else if c == '2' {
        2
    } else if c == '3' {
        3
    } else if c == '4' {
        4
    } else if c == '5' {
        5
    } else if c == '6' {
        6
    } else if c == '7' {
        7
    } else if c == '8' {
        8
    } else if c == '9' {
        9
    } else {
        -1
    }
}

/// Every character of `s` is a decimal digit.
pub open spec fn all_digits(s: Seq<char>) -> bool {
    forall|i: int| 0 <= i < s.len() ==> digit_value(#[trigger] s[i]) >= 0
}

/// The number that the digits of `s` write, the most significant first.
pub open spec fn digits_value(s: Seq<char>) -> int
    decreases s.len(),
{
    if s.len() == 0 {
        0
    } else {
        digits_value(s.drop_last()) * 10 + digit_value(s.last())
    }
}

/// `s` starts with a plus or a minus sign.
pub open spec fn has_sign(s: Seq<char>) -> bool {
    s.len() > 0 && (s[0] == '+' || s[0] == '-')
}

/// The digits of a number text: all of it but the sign.
pub open spec fn digits_part(s: Seq<char>) -> Seq<char> {
    if has_sign(s) {
        s.skip(1)
    } else {
        s
    }
}

/// What a number text writes, whether or not it fits a machine integer.
pub open spec fn written_value(s: Seq<char>) -> int {
    if s.len() > 0 && s[0] == '-' {
        -digits_value(digits_part(s))
    } else {
        digits_value(digits_part(s))
    }
}

/// The number that `s` writes: an optional sign and then one or more
/// decimal digits, of a value that fits 64 bits with a sign. `None` for
/// any other text.
pub open spec fn number_of(s: Seq<char>) -> Option<i64> {
    if digits_part(s).len() > 0 && all_digits(digits_part(s)) && i64::MIN <= written_value(s)
        <= i64::MAX {
        Some(written_value(s) as i64)
    } else {
        None
    }
}

/// The place of the first comma of `s` at or after place `i`; the length
/// of `s` if there is none.
pub open spec fn comma_from(s: Seq<char>, i: int) -> int
    decreases s.len() - i,
{
    if i < 0 || i >= s.len() {
        s.len() as int
    } else if s[i] == ',' {
        i
    } else {
        comma_from(s, i + 1)
    }
}

/// The move that `s` writes: a number, a comma and a number, the column
/// first. `None` for any other text.
pub open spec fn move_of(s: Seq<char>) -> Option<(i64, i64)> {
    let at = comma_from(s, 0);
    if at < s.len() && number_of(s.take(at)) is Some && number_of(s.skip(at + 1)) is Some {
        Some((number_of(s.take(at))->Some_0, number_of(s.skip(at + 1))->Some_0))
    } else {
        None
    }
}

/// Digits written after others do not lower the value.
proof fn lemma_digits_value_grows(s: Seq<char>, k: int)
    requires
        all_digits(s),
        0 <= k <= s.len(),
    ensures
        0 <= digits_value(s.take(k)) <= digits_value(s),
    decreases s.len() - k,
{
    lemma_digits_value_positive(s.take(k));
    if k < s.len() {
        lemma_digits_value_grows(s, k + 1);
        assert(s.take(k + 1).drop_last() =~= s.take(k));
        assert(digit_value(s[k]) >= 0);
        assert(s.take(k + 1).last() == s[k]);
    } else {
        assert(s.take(k) =~= s);
    }
}

/// Digits write a value that is not negative.
proof fn lemma_digits_value_positive(s: Seq<char>)
    requires
        all_digits(s),
    ensures
        0 <= digits_value(s),
    decreases s.len(),
{
    if s.len() > 0 {
        lemma_digits_value_positive(s.drop_last());
        assert(digit_value(s[s.len() - 1]) >= 0);
    }
}

/// The value of a decimal digit, or `None` for any other character.
fn digit_of_char(c: char) -> (digit: Option<u64>)
    ensures
        digit is Some <==> digit_value(c) >= 0,
        digit matches Some(d) ==> d == digit_value(c),
{
    if c == '0' {
        Some(0)
    } else if c == '1' {
        Some(1)
    } else if c == '2' {
        Some(2)
    } else if c == '3' {
        Some(3)
    } else if c == '4' {
        Some(4)
    } else if c == '5' {
        Some(5)
    } else if c == '6' {
        Some(6)
    } else if c == '7' {
        Some(7)
    } else if c == '8' {
        Some(8)
    } else if c == '9' {
        Some(9)
    } else {
        None
    }
}

/// The number that the characters from place `from` up to place `to`
/// write.
pub fn parse_number(text: &Vec<char>, from: usize, to: usize) -> (number: Option<i64>)
    requires
        from <= to <= text@.len(),
    ensures
        number == number_of(text@.subrange(from as int, to as int)),
{
    let ghost s = text@.subrange(from as int, to as int);
    if from == to {
        return None;
    }
    let first = text[from];
    assert(s[0] == first);
    let negative = first == '-';
    let start: usize = if first == '+' || first == '-' {
        from + 1
    } else {
        from
    };
    let ghost body = digits_part(s);
    assert(body =~= text@.subrange(start as int, to as int));
    if start == to {
        return None;
    }
    let limit: u64 = if negative {
        0x8000_0000_0000_0000
    } else {
        0x7fff_ffff_ffff_ffff
    };
    let mut magnitude: u64 = 0;
    let mut i: usize = start;
    while i < to
        invariant
            from <= start <= i <= to <= text@.len(),
            s == text@.subrange(from as int, to as int),
            body == digits_part(s),
            body == text@.subrange(start as int, to as int),
            body.len() > 0,
            negative == (s[0] == '-'),
            limit == if negative {
                0x8000_0000_0000_0000u64
            } else {
                0x7fff_ffff_ffff_ffffu64
            },
            all_digits(body.take(i - start)),
            magnitude == digits_value(body.take(i - start)),
            magnitude <= limit,
        decreases to - i,
    {
        let ghost seen = body.take(i - start);
        let ghost next = body.take(i - start + 1);
        assert(next.drop_last() =~= seen);
        assert(next.last() == text@[i as int]);
        match digit_of_char(text[i]) {
            None => {
                assert(digit_value(body[i - start]) < 0);
                return None;
            },
            Some(digit) => {
                assert(all_digits(next)) by {
                    assert forall|k: int| 0 <= k < next.len() implies digit_value(
                        #[trigger] next[k],
                    ) >= 0 by {
                        if k < seen.len() {
                            assert(next[k] == seen[k]);
                        }
                    }
                }
                if magnitude > (limit - digit) / 10 {
                    proof {
                        if all_digits(body) {
                            lemma_digits_value_grows(body, i - start + 1);
                        }
                    }
                    return None;
                }
                magnitude = magnitude * 10 + digit;
            },
        }
        i += 1;
    }
    assert(body.take(to - start) =~= body);
    if negative {
        if magnitude == 0x8000_0000_0000_0000 {
            Some(i64::MIN)
        } else {
            Some(-(magnitude as i64))
        }
    } else {
        Some(magnitude as i64)
    }
}

/// The move that the text writes: a number, a comma and a number, the
/// column first. `None` for any other text.
pub fn parse_move(move_step: &str) -> (parsed: Option<(i64, i64)>)
    ensures
        parsed == move_of(move_step@),
{
    let n = move_step.unicode_len();
    let mut text: Vec<char> = Vec::new();
    let mut i: usize = 0;
    while i < n
        invariant
            i <= n,
            n == move_step@.len(),
            text@ == move_step@.take(i as int),
        decreases n - i,
    {
        text.push(move_step.get_char(i));
        assert(text@ =~= move_step@.take(i + 1));
        i += 1;
    }
    assert(text@ =~= move_step@);
    let mut at: usize = 0;
    while at < n && text[at] != ','
        invariant
            at <= n,
            n == text@.len(),
            comma_from(text@, 0) == comma_from(text@, at as int),
        decreases n - at,
    {
        at += 1;
    }
    if at == n {
        return None;
    }
    assert(text@.subrange(0, at as int) =~= text@.take(at as int));
    assert(text@.subrange(at + 1, n as int) =~= text@.skip(at + 1));
    match parse_number(&text, 0, at) {
        None => None,
        Some(column) => match parse_number(&text, at + 1, n) {
            None => None,
            Some(piece) => Some((column, piece)),
        },
    }
}

/// The decimal digits of a number are digits, at least one, and write the
/// number.
pub proof fn lemma_decimal_reads_back(n: nat)
    ensures
        decimal(n).len() > 0,
        all_digits(decimal(n)),
        digits_value(decimal(n)) == n,
    decreases n,
{
    if n < 10 {
        let s = decimal(n);
        assert(s.drop_last().len() == 0);
        assert(digits_value(s.drop_last()) == 0);
        assert(s.last() == digit_of(n as int));
    } else {
        lemma_decimal_reads_back(n / 10);
        let head = decimal(n / 10);
        let s = head.push(digit_of((n % 10) as int));
        assert(s.drop_last() =~= head);
        assert(s.last() == digit_of((n % 10) as int));
        assert forall|i: int| 0 <= i < s.len() implies digit_value(#[trigger] s[i]) >= 0 by {
            if i < head.len() {
                assert(s[i] == head[i]);
            }
        }
    }
}

/// The text of a number that fits 64 bits with a sign reads back as the
/// number.
pub proof fn lemma_signed_decimal_reads_back(v: i64)
    ensures
        number_of(signed_decimal(v as int)) == Some(v),
        all_digits(digits_part(signed_decimal(v as int))),
{
    let s = signed_decimal(v as int);
    if v < 0 {
        let digits = decimal((-v) as nat);
        lemma_decimal_reads_back((-v) as nat);
        assert(s[0] == '-');
        assert(s.skip(1) =~= digits);
    } else {
        lemma_decimal_reads_back(v as nat);
        assert(digit_value(s[0]) >= 0);
    }
}

/// The first comma from place `i` on is at place `k`, if a comma stands
/// there and none between the two.
proof fn lemma_comma_from(s: Seq<char>, i: int, k: int)
    requires
        0 <= i <= k < s.len(),
        s[k] == ',',
        forall|j: int| i <= j < k ==> s[j] != ',',
    ensures
        comma_from(s, i) == k,
    decreases k - i,
{
    if i < k {
        lemma_comma_from(s, i + 1, k);
    }
}

/// The text of a move reads back as the move.
pub proof fn lemma_move_text_reads_back(col: usize, piece: i64)
    requires
        col <= i64::MAX,
    ensures
        move_of(move_text(col, piece)) == Some((col as i64, piece)),
{
    let head = decimal(col as nat);
    let tail = signed_decimal(piece as int);
    let s = move_text(col, piece);
    lemma_decimal_reads_back(col as nat);
    lemma_signed_decimal_reads_back(col as i64);
    lemma_signed_decimal_reads_back(piece);
    let at = head.len() as int;
    assert(s[at] == ',');
    assert forall|j: int| 0 <= j < at implies s[j] != ',' by {
        assert(s[j] == head[j]);
        assert(digit_value(head[j]) >= 0);
    }
    lemma_comma_from(s, 0, at);
    assert(s.take(at) =~= head);
    assert(s.skip(at + 1) =~= tail);
    assert(signed_decimal(col as int) == head);
}

} // verus!
