use alphapuff::grid::{has_cells_within, has_shape};
use alphapuff::model::GameResult;
use alphapuff::service::{
    connect_puff_move, connect_puff_toot_move, is_connect4_request, is_toot_request,
};
use alphapuff::text::{append_decimal, render_move};

#[test]
fn render_move_writes_column_comma_letter() {
    assert_eq!(render_move(0, 3), "0,3");
    assert_eq!(render_move(5, 4), "5,4");
    assert_eq!(render_move(2, 4), "2,4");
}

#[test]
fn render_move_writes_long_numbers() {
    assert_eq!(render_move(10, 0), "10,0");
    assert_eq!(render_move(1234567890, 42), "1234567890,42");
    assert_eq!(render_move(usize::MAX, i64::MAX), format!("{},{}", usize::MAX, i64::MAX));
}

#[test]
fn render_move_writes_negative_codes() {
    assert_eq!(render_move(1, -1), "1,-1");
    assert_eq!(render_move(0, -907), "0,-907");
    assert_eq!(render_move(0, i64::MIN), "0,-9223372036854775808");
}

#[test]
fn append_decimal_appends() {
    let mut text = String::from("n=");
    append_decimal(&mut text, 0);
    assert_eq!(text, "n=0");
    append_decimal(&mut text, 907);
    assert_eq!(text, "n=0907");
    append_decimal(&mut text, u64::MAX);
    assert_eq!(text, "n=090718446744073709551615");
}

#[test]
fn has_shape_counts_rows_and_cells() {
    assert!(has_shape(&vec![vec![0; 7]; 6], 6, 7));
    assert!(!has_shape(&vec![vec![0; 7]; 6], 7, 6));
    assert!(!has_shape(&vec![vec![0; 7]; 5], 6, 7));
    assert!(!has_shape(&vec![vec![0; 6]; 6], 6, 7));
    assert!(has_shape(&vec![], 0, 7));
    let mut ragged = vec![vec![0; 7]; 6];
    ragged[5].pop();
    assert!(!has_shape(&ragged, 6, 7));
    ragged[5].push(0);
    ragged[5].push(0);
    assert!(!has_shape(&ragged, 6, 7));
}

#[test]
fn has_cells_within_checks_each_cell() {
    let mut b = vec![vec![0; 6]; 4];
    assert!(has_cells_within(&b, 4, 6, 0, 4));
    b[3][5] = 4;
    assert!(has_cells_within(&b, 4, 6, 0, 4));
    b[3][5] = 5;
    assert!(!has_cells_within(&b, 4, 6, 0, 4));
    b[3][5] = -1;
    assert!(!has_cells_within(&b, 4, 6, 0, 4));
    assert!(!has_cells_within(&vec![vec![0; 6]; 3], 4, 6, 0, 4));
}

#[test]
fn requests_are_told_apart() {
    assert!(is_connect4_request(&vec![vec![0; 7]; 6]));
    assert!(!is_connect4_request(&vec![vec![0; 6]; 4]));
    assert!(!is_connect4_request(&vec![vec![3; 7]; 6]));
    assert!(is_toot_request(&vec![vec![3; 6]; 4]));
    assert!(!is_toot_request(&vec![vec![0; 7]; 6]));
    assert!(!is_toot_request(&vec![vec![5; 6]; 4]));
}

#[test]
fn connect4_request_is_answered() {
    let mut b = vec![vec![0; 7]; 6];
    for c in 0..3 {
        b[5][c] = 2;
    }
    for c in 4..7 {
        b[5][c] = 1;
    }
    let answer = connect_puff_move(GameResult {
        game_board: b,
        difficulty_level: "Hard".to_string(),
    });
    assert_eq!(answer.unwrap().column, 3);
}

#[test]
fn connect4_request_with_a_wrong_board_is_turned_away() {
    let wrong = [
        vec![],
        vec![vec![0; 7]; 5],
        vec![vec![0; 6]; 6],
        vec![vec![0; 6]; 4],
        vec![vec![4; 7]; 6],
        vec![vec![-1; 7]; 6],
    ];
    for board in wrong {
        for level in ["Easy", "Hard"] {
            let answer = connect_puff_move(GameResult {
                game_board: board.clone(),
                difficulty_level: level.to_string(),
            });
            assert!(answer.is_none());
        }
    }
}

#[test]
fn toot_request_is_answered() {
    let mut b = vec![vec![0; 6]; 4];
    b[3] = vec![0, 0, 0, 4, 4, 4];
    let answer = connect_puff_toot_move(GameResult {
        game_board: b,
        difficulty_level: "Hard".to_string(),
    });
    assert_eq!(answer.unwrap().move_step, "2,4");
}

#[test]
fn toot_request_with_a_wrong_board_is_turned_away() {
    let wrong = [
        vec![],
        vec![vec![0; 6]; 3],
        vec![vec![0; 7]; 6],
        vec![vec![5; 6]; 4],
        vec![vec![-3; 6]; 4],
    ];
    for board in wrong {
        for level in ["Easy", "Hard"] {
            let answer = connect_puff_toot_move(GameResult {
                game_board: board.clone(),
                difficulty_level: level.to_string(),
            });
            assert!(answer.is_none());
        }
    }
}
