use alphapuff::text::{parse_move, parse_number, render_move};

fn number(text: &str) -> Option<i64> {
    let chars: Vec<char> = text.chars().collect();
    parse_number(&chars, 0, chars.len())
}

#[test]
fn parse_number_reads_digits() {
    assert_eq!(number("0"), Some(0));
    assert_eq!(number("7"), Some(7));
    assert_eq!(number("42"), Some(42));
    assert_eq!(number("1234567890"), Some(1234567890));
}

#[test]
fn parse_number_reads_a_sign() {
    assert_eq!(number("+5"), Some(5));
    assert_eq!(number("-5"), Some(-5));
    assert_eq!(number("-0"), Some(0));
    assert_eq!(number("+0"), Some(0));
}

#[test]
fn parse_number_reads_leading_zeros() {
    assert_eq!(number("007"), Some(7));
    assert_eq!(number("-0012"), Some(-12));
    assert_eq!(number("0000000000000000000000000000000000012"), Some(12));
}

#[test]
fn parse_number_reads_the_ends_of_the_range() {
    assert_eq!(number("9223372036854775807"), Some(i64::MAX));
    assert_eq!(number("-9223372036854775808"), Some(i64::MIN));
    assert_eq!(number("+9223372036854775807"), Some(i64::MAX));
    assert_eq!(number("-9223372036854775807"), Some(i64::MIN + 1));
}

#[test]
fn parse_number_refuses_what_does_not_fit() {
    assert_eq!(number("9223372036854775808"), None);
    assert_eq!(number("-9223372036854775809"), None);
    assert_eq!(number("10000000000000000000"), None);
    assert_eq!(number("18446744073709551616"), None);
    assert_eq!(number("99999999999999999999999999"), None);
    assert_eq!(number("-99999999999999999999999999"), None);
}

#[test]
fn parse_number_refuses_other_text() {
    assert_eq!(number(""), None);
    assert_eq!(number("+"), None);
    assert_eq!(number("-"), None);
    assert_eq!(number("--1"), None);
    assert_eq!(number("+-1"), None);
    assert_eq!(number("1-"), None);
    assert_eq!(number(" 1"), None);
    assert_eq!(number("1 "), None);
    assert_eq!(number("1_000"), None);
    assert_eq!(number("1.0"), None);
    assert_eq!(number("0x10"), None);
    assert_eq!(number("T"), None);
    assert_eq!(number("١٢"), None);
}

#[test]
fn parse_number_agrees_with_the_standard_library() {
    let texts = [
        "0", "-0", "+0", "1", "-1", "+1", "", "+", "-", "12a", "a12", "007", "-007",
        "9223372036854775807", "9223372036854775808", "-9223372036854775808",
        "-9223372036854775809", "92233720368547758070", " 3", "3 ", "3,4", "٣",
    ];
    for text in texts {
        assert_eq!(number(text), text.parse::<i64>().ok(), "{:?}", text);
    }
}

#[test]
fn parse_number_reads_a_part_of_the_text() {
    let chars: Vec<char> = "ab-12,34".chars().collect();
    assert_eq!(parse_number(&chars, 2, 5), Some(-12));
    assert_eq!(parse_number(&chars, 3, 5), Some(12));
    assert_eq!(parse_number(&chars, 6, 8), Some(34));
    assert_eq!(parse_number(&chars, 2, 6), None);
    assert_eq!(parse_number(&chars, 0, 5), None);
    assert_eq!(parse_number(&chars, 4, 4), None);
    assert_eq!(parse_number(&chars, 8, 8), None);
}

#[test]
fn parse_move_reads_column_and_letter() {
    assert_eq!(parse_move("2,4"), Some((2, 4)));
    assert_eq!(parse_move("0,3"), Some((0, 3)));
    assert_eq!(parse_move("5,3"), Some((5, 3)));
    assert_eq!(parse_move("12,-7"), Some((12, -7)));
    assert_eq!(parse_move("+1,+3"), Some((1, 3)));
}

#[test]
fn parse_move_refuses_other_text() {
    assert_eq!(parse_move(""), None);
    assert_eq!(parse_move(","), None);
    assert_eq!(parse_move("2"), None);
    assert_eq!(parse_move("2,"), None);
    assert_eq!(parse_move(",4"), None);
    assert_eq!(parse_move("2,4,1"), None);
    assert_eq!(parse_move("2,,4"), None);
    assert_eq!(parse_move("2;4"), None);
    assert_eq!(parse_move("2, 4"), None);
    assert_eq!(parse_move("a,4"), None);
    assert_eq!(parse_move("2,T"), None);
    assert_eq!(parse_move("9223372036854775808,3"), None);
}

#[test]
fn a_move_written_reads_back() {
    for col in [0usize, 1, 5, 9, 10, 99, 100, 12345, i64::MAX as usize] {
        for piece in [3i64, 4, 0, -1, 10, i64::MAX, i64::MIN] {
            assert_eq!(parse_move(&render_move(col, piece)), Some((col as i64, piece)));
        }
    }
}
