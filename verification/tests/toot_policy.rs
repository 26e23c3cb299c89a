use alphapuff::toot::policy::{
    check_for_win, easy_move_of, empty_cells, find_best_move_easy, find_best_move_hard,
    hard_move_from, puff_toot, scan_moves, simulate_move,
};

fn empty() -> Vec<Vec<i64>> {
    vec![vec![0; 6]; 4]
}

/// A full board on which no letter can be added.
fn full() -> Vec<Vec<i64>> {
    vec![vec![1; 6]; 4]
}

#[test]
fn simulate_move_lands_on_the_bottom() {
    let (after, row) = simulate_move(&empty(), 2, 3).unwrap();
    assert_eq!(row, 3);
    let mut expected = empty();
    expected[3][2] = 3;
    assert_eq!(after, expected);
}

#[test]
fn simulate_move_lands_on_the_stack() {
    let mut b = empty();
    b[3][4] = 1;
    b[2][4] = 4;
    let (after, row) = simulate_move(&b, 4, 4).unwrap();
    assert_eq!(row, 1);
    let mut expected = b.clone();
    expected[1][4] = 4;
    assert_eq!(after, expected);
}

#[test]
fn simulate_move_leaves_the_board_alone() {
    let b = empty();
    let _ = simulate_move(&b, 0, 3);
    assert_eq!(b, empty());
}

#[test]
fn simulate_move_into_the_last_cell() {
    let mut b = empty();
    for r in 1..4 {
        b[r][5] = 2;
    }
    let (after, row) = simulate_move(&b, 5, 3).unwrap();
    assert_eq!(row, 0);
    assert_eq!(after[0][5], 3);
}

#[test]
fn simulate_move_refuses_a_full_column() {
    let mut b = empty();
    for r in 0..4 {
        b[r][1] = 3;
    }
    assert!(simulate_move(&b, 1, 4).is_none());
    assert!(simulate_move(&full(), 0, 3).is_none());
}

#[test]
fn simulate_move_refuses_a_column_off_the_board() {
    assert!(simulate_move(&empty(), 6, 3).is_none());
    assert!(simulate_move(&empty(), usize::MAX, 4).is_none());
}

#[test]
fn win_along_the_row() {
    let mut b = empty();
    b[3] = vec![0, 4, 4, 4, 4, 0];
    assert!(check_for_win(&b, 3, 1, 4));
    assert!(check_for_win(&b, 3, 2, 4));
    assert!(check_for_win(&b, 3, 4, 4));
    assert!(!check_for_win(&b, 3, 2, 3));
}

#[test]
fn three_in_the_row_are_no_win() {
    let mut b = empty();
    b[3] = vec![3, 3, 3, 0, 3, 0];
    assert!(!check_for_win(&b, 3, 0, 3));
    assert!(!check_for_win(&b, 3, 4, 3));
    // the cell asked about counts as taken
    assert!(check_for_win(&b, 3, 3, 3));
}

#[test]
fn win_down_the_column() {
    let mut b = empty();
    for r in 0..4 {
        b[r][5] = 3;
    }
    assert!(check_for_win(&b, 0, 5, 3));
    // only the cells below count
    assert!(!check_for_win(&b, 1, 5, 3));
    assert!(!check_for_win(&b, 3, 5, 3));
}

#[test]
fn win_along_the_diagonal_down_right() {
    let mut b = empty();
    for k in 0..4 {
        b[k][1 + k] = 4;
    }
    assert!(check_for_win(&b, 0, 1, 4));
    assert!(check_for_win(&b, 2, 3, 4));
    assert!(check_for_win(&b, 3, 4, 4));
    assert!(!check_for_win(&b, 3, 4, 3));
}

#[test]
fn win_along_the_diagonal_up_right() {
    let mut b = empty();
    for k in 0..4 {
        b[3 - k][2 + k] = 3;
    }
    assert!(check_for_win(&b, 3, 2, 3));
    assert!(check_for_win(&b, 1, 4, 3));
    assert!(check_for_win(&b, 0, 5, 3));
}

#[test]
fn no_win_on_an_empty_board() {
    for r in 0..4 {
        for c in 0..6 {
            assert!(!check_for_win(&empty(), r, c, 3));
            assert!(!check_for_win(&empty(), r, c, 4));
        }
    }
}

#[test]
fn hard_takes_the_winning_o_in_column_two() {
    // three O of the automated side in the bottom row, open at column 2
    let mut b = empty();
    b[3] = vec![0, 0, 0, 4, 4, 4];
    for draw in [0, 1, 5, 11, 12, usize::MAX] {
        assert_eq!(hard_move_from(&b, draw), (2, 4));
    }
    for _ in 0..20 {
        assert_eq!(find_best_move_hard(&b), (2, 4));
        assert_eq!(puff_toot(b.clone(), "Hard".to_string()), "2,4");
    }
}

#[test]
fn scan_moves_finds_the_win_or_the_moves() {
    let mut b = empty();
    b[3] = vec![0, 0, 0, 4, 4, 4];
    assert_eq!(scan_moves(&b).0, Some((2, 4)));
    let (win, moves) = scan_moves(&empty());
    assert_eq!(win, None);
    assert_eq!(
        moves,
        vec![
            (0, 3), (0, 4), (1, 3), (1, 4), (2, 3), (2, 4),
            (3, 3), (3, 4), (4, 3), (4, 4), (5, 3), (5, 4),
        ]
    );
    let (win, moves) = scan_moves(&full());
    assert_eq!(win, None);
    assert_eq!(moves, vec![]);
    let mut c = full();
    c[0][4] = 0;
    assert_eq!(scan_moves(&c), (None, vec![(4, 3), (4, 4)]));
}

#[test]
fn hard_takes_the_winning_t() {
    let mut b = empty();
    for r in 1..4 {
        b[r][4] = 3;
    }
    assert_eq!(hard_move_from(&b, 7), (4, 3));
    assert_eq!(find_best_move_hard(&b), (4, 3));
    assert_eq!(puff_toot(b, "Hard".to_string()), "4,3");
}

#[test]
fn hard_takes_the_first_of_two_wins() {
    // an O wins in column 0 and in column 4: column 0 comes first
    let mut b = empty();
    b[3] = vec![0, 4, 4, 4, 0, 0];
    assert_eq!(hard_move_from(&b, 3), (0, 4));
    assert_eq!(hard_move_from(&b, 8), (0, 4));
    assert_eq!(find_best_move_hard(&b), (0, 4));
    // an O wins in column 0 and a T in column 5
    let mut d = empty();
    d[3] = vec![0, 4, 4, 4, 1, 3];
    d[2][5] = 3;
    d[1][5] = 3;
    assert_eq!(hard_move_from(&d, 9), (0, 4));
    assert_eq!(find_best_move_hard(&d), (0, 4));
}

#[test]
fn hard_takes_t_before_o_in_one_column() {
    // in column 2 a T completes the column and an O the row
    let mut b = empty();
    b[3] = vec![1, 1, 3, 1, 1, 1];
    b[2] = vec![2, 2, 3, 2, 2, 2];
    b[1] = vec![1, 1, 3, 4, 4, 4];
    assert_eq!(hard_move_from(&b, 0), (2, 3));
    assert_eq!(find_best_move_hard(&b), (2, 3));
}

#[test]
fn hard_does_not_look_for_the_word() {
    // an O in column 2 would spell OTTO, but four equal letters are what
    // counts: the draw decides
    let mut b = empty();
    b[3] = vec![0, 0, 0, 3, 3, 4];
    assert_eq!(hard_move_from(&b, 0), (0, 3));
    assert_eq!(hard_move_from(&b, 1), (0, 4));
    assert_eq!(hard_move_from(&b, 5), (2, 4));
}

#[test]
fn hard_without_a_win_follows_the_draw() {
    let b = empty();
    assert_eq!(hard_move_from(&b, 0), (0, 3));
    assert_eq!(hard_move_from(&b, 1), (0, 4));
    assert_eq!(hard_move_from(&b, 5), (2, 4));
    assert_eq!(hard_move_from(&b, 11), (5, 4));
    assert_eq!(hard_move_from(&b, 12), (0, 3));
    assert_eq!(hard_move_from(&b, 29), (2, 4));
}

#[test]
fn hard_skips_full_columns() {
    let mut b = full();
    b[0][1] = 0;
    b[0][4] = 0;
    // the moves that can be made: T and O in column 1, T and O in column 4
    assert_eq!(hard_move_from(&b, 0), (1, 3));
    assert_eq!(hard_move_from(&b, 1), (1, 4));
    assert_eq!(hard_move_from(&b, 2), (4, 3));
    assert_eq!(hard_move_from(&b, 3), (4, 4));
    assert_eq!(hard_move_from(&b, 4), (1, 3));
    for _ in 0..20 {
        let (col, piece) = find_best_move_hard(&b);
        assert!(col == 1 || col == 4);
        assert!(piece == 3 || piece == 4);
    }
}

#[test]
fn hard_on_a_full_board_falls_back() {
    assert_eq!(hard_move_from(&full(), 0), (0, 3));
    assert_eq!(hard_move_from(&full(), 77), (0, 3));
    assert_eq!(find_best_move_hard(&full()), (0, 3));
    assert_eq!(puff_toot(full(), "Hard".to_string()), "0,3");
}

#[test]
fn empty_cells_row_by_row() {
    let mut b = full();
    b[0][2] = 0;
    b[0][5] = 0;
    b[2][1] = 0;
    assert_eq!(empty_cells(&b), vec![(2, 0), (5, 0), (1, 2)]);
    assert_eq!(empty_cells(&full()), vec![]);
    assert_eq!(empty_cells(&empty()).len(), 24);
}

#[test]
fn easy_move_of_a_cell() {
    assert_eq!(easy_move_of(Some((4, 2)), true), (4, 3));
    assert_eq!(easy_move_of(Some((4, 2)), false), (4, 4));
    assert_eq!(easy_move_of(Some((0, 0)), false), (0, 4));
    assert_eq!(easy_move_of(None, true), (0, 3));
    assert_eq!(easy_move_of(None, false), (0, 3));
}

#[test]
fn easy_takes_the_only_empty_cell() {
    let mut b = full();
    b[1][5] = 0;
    for _ in 0..20 {
        let (col, piece) = find_best_move_easy(&b);
        assert_eq!(col, 5);
        assert!(piece == 3 || piece == 4);
    }
}

#[test]
fn easy_takes_a_column_with_an_empty_cell() {
    let mut b = full();
    b[0][0] = 0;
    b[3][3] = 0;
    for _ in 0..40 {
        let (col, piece) = find_best_move_easy(&b);
        assert!(col == 0 || col == 3);
        assert!(piece == 3 || piece == 4);
    }
}

#[test]
fn easy_plays_both_letters() {
    let mut t = 0;
    let mut o = 0;
    for _ in 0..400 {
        match find_best_move_easy(&empty()).1 {
            3 => t += 1,
            4 => o += 1,
            other => panic!("no letter of the automated side: {}", other),
        }
    }
    assert!(t > 0 && o > 0);
}

#[test]
fn easy_on_a_full_board_falls_back() {
    assert_eq!(find_best_move_easy(&full()), (0, 3));
    assert_eq!(puff_toot(full(), "Easy".to_string()), "0,3");
}

#[test]
fn easy_does_not_look_for_a_win() {
    // an O in column 2 wins, yet only column 0 has an empty cell besides
    let mut b = full();
    b[3] = vec![1, 1, 0, 4, 4, 4];
    b[0][0] = 0;
    let mut seen_other = false;
    for _ in 0..200 {
        let (col, piece) = find_best_move_easy(&b);
        assert!(col == 0 || col == 2);
        if (col, piece) != (2, 4) {
            seen_other = true;
        }
    }
    assert!(seen_other);
}

#[test]
fn puff_toot_writes_column_and_letter() {
    let mut b = full();
    b[0][3] = 0;
    for level in ["Easy", "Hard", "", "hard", "Medium"] {
        let text = puff_toot(b.clone(), level.to_string());
        assert!(text == "3,3" || text == "3,4", "{}", text);
    }
}

#[test]
fn lower_case_hard_plays_as_easy() {
    // on "Hard" the O in column 2 is taken every time; the easy setting
    // takes any empty cell
    let mut b = empty();
    b[3] = vec![0, 0, 0, 4, 4, 4];
    let mut seen_other = false;
    for _ in 0..200 {
        if puff_toot(b.clone(), "hard".to_string()) != "2,4" {
            seen_other = true;
        }
    }
    assert!(seen_other);
}
