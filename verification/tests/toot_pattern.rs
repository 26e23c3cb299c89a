use alphapuff::toot::pattern::{
    check_pattern_in_board, check_toot_winner, contains_toot_or_otto, is_letter_board,
    num_2_char, word_in_letters,
};

fn empty() -> Vec<Vec<i64>> {
    vec![vec![0; 6]; 4]
}

fn letters(rows: [&str; 4]) -> Vec<Vec<char>> {
    rows.iter().map(|row| row.chars().collect()).collect()
}

#[test]
fn num_2_char_maps_the_codes() {
    assert_eq!(num_2_char(1), 'T');
    assert_eq!(num_2_char(3), 'T');
    assert_eq!(num_2_char(2), 'O');
    assert_eq!(num_2_char(4), 'O');
    assert_eq!(num_2_char(0), '0');
}

#[test]
fn num_2_char_shows_other_codes_as_empty() {
    assert_eq!(num_2_char(5), '0');
    assert_eq!(num_2_char(-1), '0');
    assert_eq!(num_2_char(i64::MAX), '0');
    assert_eq!(num_2_char(i64::MIN), '0');
}

#[test]
fn toot_in_a_row_of_six() {
    assert_eq!(contains_toot_or_otto("TOOT--"), 1);
    assert_eq!(contains_toot_or_otto("TOOT00"), 1);
    assert_eq!(contains_toot_or_otto("0TOOT0"), 1);
    assert_eq!(contains_toot_or_otto("00TOOT"), 1);
}

#[test]
fn otto_in_a_row_of_six() {
    assert_eq!(contains_toot_or_otto("OTTOOO"), 2);
    assert_eq!(contains_toot_or_otto("0OTTO0"), 2);
    assert_eq!(contains_toot_or_otto("TTOTTO"), 2);
}

#[test]
fn no_word_in_a_row() {
    assert_eq!(contains_toot_or_otto(""), 0);
    assert_eq!(contains_toot_or_otto("TOO"), 0);
    assert_eq!(contains_toot_or_otto("TOTOTO"), 0);
    assert_eq!(contains_toot_or_otto("TTTTTT"), 0);
    assert_eq!(contains_toot_or_otto("OOOOOO"), 0);
    assert_eq!(contains_toot_or_otto("TO0OT0"), 0);
    assert_eq!(contains_toot_or_otto("toot"), 0);
}

#[test]
fn toot_goes_before_otto_in_one_row() {
    assert_eq!(contains_toot_or_otto("OTTOOT"), 1);
    assert_eq!(contains_toot_or_otto("TOOTTO"), 1);
}

#[test]
fn words_in_text_that_is_not_ascii() {
    assert_eq!(contains_toot_or_otto("éTOOT"), 1);
    assert_eq!(contains_toot_or_otto("TOéOT"), 0);
}

#[test]
fn word_in_letters_agrees_with_the_text() {
    assert_eq!(word_in_letters(&"TOOT".chars().collect()), 1);
    assert_eq!(word_in_letters(&"OTTO".chars().collect()), 2);
    assert_eq!(word_in_letters(&"OTT".chars().collect()), 0);
    assert_eq!(word_in_letters(&Vec::new()), 0);
}

#[test]
fn pattern_in_a_row() {
    assert_eq!(check_pattern_in_board(letters(["000000", "000000", "000000", "TOOT00"])), 1);
    assert_eq!(check_pattern_in_board(letters(["000000", "00OTTO", "000000", "000000"])), 2);
}

#[test]
fn pattern_in_a_column() {
    assert_eq!(check_pattern_in_board(letters(["00T000", "00O000", "00O000", "00T000"])), 1);
    assert_eq!(check_pattern_in_board(letters(["00000O", "00000T", "00000T", "00000O"])), 2);
}

#[test]
fn pattern_in_a_diagonal_down_right() {
    assert_eq!(check_pattern_in_board(letters(["T00000", "0O0000", "00O000", "000T00"])), 1);
    assert_eq!(check_pattern_in_board(letters(["00O000", "000T00", "0000T0", "00000O"])), 2);
}

#[test]
fn pattern_in_a_diagonal_down_left() {
    assert_eq!(check_pattern_in_board(letters(["000T00", "00O000", "0O0000", "T00000"])), 1);
    assert_eq!(check_pattern_in_board(letters(["00000O", "0000T0", "000T00", "00O000"])), 2);
}

#[test]
fn no_pattern_on_the_board() {
    assert_eq!(check_pattern_in_board(letters(["000000", "000000", "000000", "000000"])), 0);
    assert_eq!(check_pattern_in_board(letters(["TTTTTT", "TTTTTT", "TTTTTT", "TTTTTT"])), 0);
    // three letters of a word along a diagonal of three cells
    assert_eq!(check_pattern_in_board(letters(["000T00", "0000O0", "00000O", "000000"])), 0);
}

#[test]
fn rows_go_before_columns() {
    // OTTO in row 0, TOOT down column 5
    assert_eq!(check_pattern_in_board(letters(["0OTTOT", "00000O", "00000O", "00000T"])), 2);
    // TOOT in row 3, OTTO down column 0
    assert_eq!(check_pattern_in_board(letters(["O00000", "T00000", "T00000", "OTOOT0"])), 1);
}

#[test]
fn an_upper_row_goes_before_a_lower_one() {
    assert_eq!(check_pattern_in_board(letters(["OTTO00", "TOOT00", "000000", "000000"])), 2);
    assert_eq!(check_pattern_in_board(letters(["TOOT00", "OTTO00", "000000", "000000"])), 1);
}

#[test]
fn columns_go_before_diagonals() {
    // OTTO down column 0 and TOOT along the diagonal from the top of column 2
    assert_eq!(check_pattern_in_board(letters(["O0T000", "T00O00", "T000O0", "O0000T"])), 2);
}

#[test]
fn winner_with_toot_in_a_row() {
    let mut b = empty();
    b[3] = vec![1, 2, 2, 1, 0, 0];
    assert_eq!(check_toot_winner(b), 1);
}

#[test]
fn winner_with_otto_in_a_row() {
    let mut b = empty();
    b[3] = vec![4, 3, 3, 4, 4, 4];
    assert_eq!(check_toot_winner(b), 2);
}

#[test]
fn letters_of_both_sides_spell_a_word() {
    // the human's T, the automated side's O twice, the human's T
    let mut b = empty();
    b[2] = vec![0, 1, 4, 4, 1, 0];
    assert_eq!(check_toot_winner(b), 1);
    let mut b = empty();
    b[2] = vec![0, 2, 1, 3, 4, 0];
    assert_eq!(check_toot_winner(b), 2);
}

#[test]
fn full_board_without_word_is_a_draw() {
    assert_eq!(check_toot_winner(vec![vec![1; 6]; 4]), 3);
    assert_eq!(check_toot_winner(vec![vec![4; 6]; 4]), 3);
    // every row reads TTTOOO
    let b = vec![
        vec![1, 3, 1, 2, 4, 2],
        vec![3, 1, 3, 4, 2, 4],
        vec![1, 1, 3, 2, 2, 4],
        vec![3, 3, 1, 4, 4, 2],
    ];
    assert_eq!(check_toot_winner(b), 3);
}

#[test]
fn open_board_without_word() {
    assert_eq!(check_toot_winner(empty()), 0);
    let mut b = vec![vec![1; 6]; 4];
    b[0][5] = 0;
    assert_eq!(check_toot_winner(b), 0);
}

#[test]
fn a_code_that_is_no_letter_counts_as_empty() {
    let mut b = vec![vec![1; 6]; 4];
    b[2][2] = 9;
    assert_eq!(check_toot_winner(b), 0);
}

#[test]
fn a_word_on_a_full_board_wins() {
    let mut b = vec![vec![1; 6]; 4];
    b[1][1] = 2;
    b[1][2] = 2;
    assert_eq!(check_toot_winner(b), 1);
}

#[test]
fn is_letter_board_counts_rows_and_cells() {
    assert!(is_letter_board(&letters(["000000", "000000", "000000", "TOOT00"])));
    assert!(!is_letter_board(&Vec::new()));
    assert!(!is_letter_board(&vec![vec!['0'; 6]; 3]));
    assert!(!is_letter_board(&vec![vec!['0'; 6]; 5]));
    assert!(!is_letter_board(&vec![vec!['0'; 7]; 4]));
    let mut ragged = vec![vec!['0'; 6]; 4];
    ragged[3].pop();
    assert!(!is_letter_board(&ragged));
}
