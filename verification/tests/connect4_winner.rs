use alphapuff::connect4::detect::{check_winner, has_run, is_full, winner_on};

fn empty() -> Vec<Vec<i64>> {
    vec![vec![0; 7]; 6]
}

/// A full board on which no four equal discs stand in a line.
fn drawn() -> Vec<Vec<i64>> {
    let mut b = empty();
    for r in 0..6 {
        for c in 0..7 {
            b[r][c] = ((c + r / 2) % 2) as i64 + 1;
        }
    }
    b
}

#[test]
fn empty_board_has_no_winner() {
    assert_eq!(check_winner(empty()), 0);
}

#[test]
fn a_single_disc_wins_nothing() {
    let mut b = empty();
    b[5][3] = 1;
    assert_eq!(check_winner(b), 0);
}

#[test]
fn horizontal_run_of_human_wins() {
    let mut b = empty();
    for c in 2..6 {
        b[5][c] = 1;
    }
    assert_eq!(check_winner(b), 1);
}

#[test]
fn horizontal_run_of_puff_wins() {
    let mut b = empty();
    for c in 3..7 {
        b[0][c] = 2;
    }
    assert_eq!(check_winner(b), 2);
}

#[test]
fn vertical_run_wins() {
    let mut b = empty();
    for r in 2..6 {
        b[r][6] = 2;
    }
    assert_eq!(check_winner(b), 2);
}

#[test]
fn diagonal_down_right_wins() {
    let mut b = empty();
    for k in 0..4 {
        b[2 + k][3 + k] = 1;
    }
    assert_eq!(check_winner(b), 1);
}

#[test]
fn diagonal_up_right_wins() {
    let mut b = empty();
    for k in 0..4 {
        b[5 - k][k] = 2;
    }
    assert_eq!(check_winner(b), 2);
}

#[test]
fn run_wins_whatever_else_is_on_the_board() {
    let mut b = drawn();
    for c in 0..4 {
        b[3][c] = 1;
    }
    for r in 0..6 {
        for c in 0..7 {
            if r != 3 || c >= 4 {
                // break every other line that the new discs could have closed
                if b[r][c] == 1 && (r + c) % 3 == 0 {
                    b[r][c] = 0;
                }
            }
        }
    }
    assert_eq!(check_winner(b), 1);
}

#[test]
fn three_in_a_row_is_no_win() {
    let mut b = empty();
    for c in 0..3 {
        b[5][c] = 1;
    }
    b[5][3] = 2;
    assert_eq!(check_winner(b), 0);
}

#[test]
fn five_in_a_row_wins_too() {
    let mut b = empty();
    for c in 1..6 {
        b[4][c] = 2;
    }
    assert_eq!(check_winner(b), 2);
}

#[test]
fn full_board_without_run_is_a_draw() {
    assert_eq!(check_winner(drawn()), 3);
}

#[test]
fn board_with_one_empty_cell_is_open() {
    let mut b = drawn();
    b[0][0] = 0;
    assert_eq!(check_winner(b), 0);
}

#[test]
fn first_run_in_scan_order_is_reported() {
    // row 0 is scanned before row 1
    let mut b = empty();
    for c in 0..4 {
        b[0][c] = 2;
        b[1][c] = 1;
    }
    assert_eq!(check_winner(b), 2);
    let mut b = empty();
    for c in 0..4 {
        b[0][c] = 1;
        b[1][c] = 2;
    }
    assert_eq!(check_winner(b), 1);
}

#[test]
fn a_run_of_any_code_is_reported_as_that_code() {
    let mut b = empty();
    for r in 0..4 {
        b[r][2] = 7;
    }
    assert_eq!(check_winner(b), 7);
}

#[test]
fn has_run_looks_in_one_direction() {
    let mut b = empty();
    for c in 2..6 {
        b[5][c] = 1;
    }
    assert!(has_run(&b, 5, 2, 0));
    assert!(!has_run(&b, 5, 2, 1));
    assert!(!has_run(&b, 5, 2, 2));
    assert!(!has_run(&b, 5, 2, 3));
    assert!(!has_run(&b, 5, 3, 0));
    assert!(!has_run(&b, 5, 4, 0));
    assert!(!has_run(&b, 0, 0, 0));
}

#[test]
fn has_run_up_right_starts_at_the_lower_end() {
    let mut b = empty();
    for k in 0..4 {
        b[5 - k][1 + k] = 2;
    }
    assert!(has_run(&b, 5, 1, 3));
    assert!(!has_run(&b, 2, 4, 3));
    assert!(!has_run(&b, 2, 4, 2));
}

#[test]
fn is_full_tells_full_from_open() {
    assert!(is_full(&drawn()));
    assert!(!is_full(&empty()));
    let mut b = drawn();
    b[5][6] = 0;
    assert!(!is_full(&b));
}

#[test]
fn winner_on_agrees_with_check_winner() {
    let mut b = empty();
    for r in 1..5 {
        b[r][0] = 1;
    }
    assert_eq!(winner_on(&b), 1);
    assert_eq!(check_winner(b), 1);
}
