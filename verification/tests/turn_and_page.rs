use alphapuff::grid::drop_into;
use alphapuff::page::{Connect4Computer, Msg, Msg_TOOT, TOOTComputer};
use alphapuff::turn::{
    alphaPuff_toot_turn, alphaPuff_turn, human_toot_turn, human_turn, letter_code, winner_name,
};

fn c4_empty() -> Vec<Vec<i64>> {
    vec![vec![0; 7]; 6]
}

fn toot_empty() -> Vec<Vec<i64>> {
    vec![vec![0; 6]; 4]
}

#[test]
fn drop_into_lands_on_the_bottom() {
    let mut b = c4_empty();
    assert_eq!(drop_into(&mut b, 3, 1), Some(5));
    assert_eq!(drop_into(&mut b, 3, 2), Some(4));
    assert_eq!(drop_into(&mut b, 0, 2), Some(5));
    let mut expected = c4_empty();
    expected[5][3] = 1;
    expected[4][3] = 2;
    expected[5][0] = 2;
    assert_eq!(b, expected);
}

#[test]
fn drop_into_refuses_a_full_column() {
    let mut b = toot_empty();
    for row in [3, 2, 1, 0] {
        assert_eq!(drop_into(&mut b, 5, 4), Some(row));
    }
    let before = b.clone();
    assert_eq!(drop_into(&mut b, 5, 4), None);
    assert_eq!(b, before);
}

#[test]
fn drop_into_refuses_a_column_off_the_board() {
    let mut b = toot_empty();
    assert_eq!(drop_into(&mut b, 6, 3), None);
    assert_eq!(drop_into(&mut b, usize::MAX, 3), None);
    assert_eq!(b, toot_empty());
    let mut none: Vec<Vec<i64>> = Vec::new();
    assert_eq!(drop_into(&mut none, 0, 3), None);
    let mut narrow: Vec<Vec<i64>> = vec![vec![], vec![]];
    assert_eq!(drop_into(&mut narrow, 0, 3), None);
}

#[test]
fn drop_into_fills_a_gap_below_a_piece() {
    let mut b = toot_empty();
    b[1][2] = 1;
    assert_eq!(drop_into(&mut b, 2, 3), Some(3));
    assert_eq!(drop_into(&mut b, 2, 3), Some(2));
    assert_eq!(drop_into(&mut b, 2, 3), Some(0));
    assert_eq!(drop_into(&mut b, 2, 3), None);
}

#[test]
fn winner_name_names_the_winner() {
    assert_eq!(winner_name(1, "Ada"), Some("Ada".to_string()));
    assert_eq!(winner_name(1, ""), Some(String::new()));
    assert_eq!(winner_name(2, "Ada"), Some("AlphaPuff".to_string()));
    assert_eq!(winner_name(3, "Ada"), Some("Draw".to_string()));
}

#[test]
fn winner_name_of_an_open_game() {
    assert_eq!(winner_name(0, "Ada"), None);
    assert_eq!(winner_name(4, "Ada"), None);
    assert_eq!(winner_name(-1, "Ada"), None);
}

#[test]
fn letter_code_of_the_selection() {
    assert_eq!(letter_code("T"), 1);
    assert_eq!(letter_code("O"), 2);
    assert_eq!(letter_code(""), 0);
    assert_eq!(letter_code("t"), 0);
    assert_eq!(letter_code("TO"), 0);
}

#[test]
fn human_turn_drops_a_human_disc() {
    let mut b = c4_empty();
    assert!(human_turn(&mut b, 6));
    assert!(human_turn(&mut b, 6));
    let mut expected = c4_empty();
    expected[5][6] = 1;
    expected[4][6] = 1;
    assert_eq!(b, expected);
}

#[test]
fn human_turn_refuses_where_there_is_no_room() {
    let mut b = c4_empty();
    for _ in 0..6 {
        assert!(human_turn(&mut b, 0));
    }
    let before = b.clone();
    assert!(!human_turn(&mut b, 0));
    assert!(!human_turn(&mut b, 7));
    assert_eq!(b, before);
}

#[test]
fn human_toot_turn_drops_the_selected_letter() {
    let mut b = toot_empty();
    assert!(human_toot_turn(&mut b, 1, "T"));
    assert!(human_toot_turn(&mut b, 1, "O"));
    let mut expected = toot_empty();
    expected[3][1] = 1;
    expected[2][1] = 2;
    assert_eq!(b, expected);
}

#[test]
fn human_toot_turn_without_a_letter_passes_the_turn() {
    let mut b = toot_empty();
    assert!(human_toot_turn(&mut b, 1, "X"));
    assert_eq!(b, toot_empty());
}

#[test]
fn human_toot_turn_refuses_where_there_is_no_room() {
    let mut b = toot_empty();
    for _ in 0..4 {
        assert!(human_toot_turn(&mut b, 5, "O"));
    }
    let before = b.clone();
    assert!(!human_toot_turn(&mut b, 5, "O"));
    assert!(!human_toot_turn(&mut b, 6, "O"));
    assert_eq!(b, before);
}

#[test]
fn puff_turn_plays_the_column_answered() {
    let mut b = c4_empty();
    b[5][3] = 1;
    assert_eq!(alphaPuff_turn(&mut b, 3), Some(3));
    assert_eq!(alphaPuff_turn(&mut b, 0), Some(0));
    let mut expected = c4_empty();
    expected[5][3] = 1;
    expected[4][3] = 2;
    expected[5][0] = 2;
    assert_eq!(b, expected);
}

#[test]
fn puff_turn_without_a_column_plays_the_first_free_one() {
    let mut b = c4_empty();
    for r in 0..6 {
        b[r][0] = 1;
        b[r][1] = 2;
    }
    let mut expected = b.clone();
    expected[5][2] = 2;
    assert_eq!(alphaPuff_turn(&mut b, -1), Some(2));
    assert_eq!(b, expected);
    // a full column and a column off the board count as none
    expected[4][2] = 2;
    assert_eq!(alphaPuff_turn(&mut b, 0), Some(2));
    assert_eq!(b, expected);
    expected[3][2] = 2;
    assert_eq!(alphaPuff_turn(&mut b, 7), Some(2));
    assert_eq!(b, expected);
    expected[2][2] = 2;
    assert_eq!(alphaPuff_turn(&mut b, i64::MIN), Some(2));
    assert_eq!(b, expected);
}

#[test]
fn puff_turn_on_a_full_board_does_nothing() {
    let mut b = vec![vec![1; 7]; 6];
    assert_eq!(alphaPuff_turn(&mut b, -1), None);
    assert_eq!(alphaPuff_turn(&mut b, 3), None);
    assert_eq!(b, vec![vec![1; 7]; 6]);
}

#[test]
fn puff_toot_turn_plays_the_move_answered() {
    let mut b = toot_empty();
    assert!(alphaPuff_toot_turn(&mut b, "2,4"));
    assert!(alphaPuff_toot_turn(&mut b, "2,3"));
    assert!(alphaPuff_toot_turn(&mut b, "0,3"));
    let mut expected = toot_empty();
    expected[3][2] = 4;
    expected[2][2] = 3;
    expected[3][0] = 3;
    assert_eq!(b, expected);
}

#[test]
fn puff_toot_turn_refuses_what_is_no_move() {
    let mut b = toot_empty();
    for text in ["", "2", "2,", "2,4,1", "6,3", "-1,3", "x,3", "2 ,3"] {
        assert!(!alphaPuff_toot_turn(&mut b, text), "{:?}", text);
    }
    assert_eq!(b, toot_empty());
}

#[test]
fn puff_toot_turn_refuses_a_full_column() {
    let mut b = toot_empty();
    for r in 0..4 {
        b[r][0] = 1;
    }
    let before = b.clone();
    assert!(!alphaPuff_toot_turn(&mut b, "0,3"));
    assert_eq!(b, before);
}

#[test]
fn connect4_page_starts_a_game() {
    let mut page = Connect4Computer::create();
    assert!(!page.game_started);
    assert_eq!(page.player_name, "A");
    assert_eq!(page.difficulty_level, "Easy");
    assert!(page.update(Msg::GameStarted("Ada".to_string()), "Hard".to_string()));
    assert!(page.game_started);
    assert_eq!(page.player_name, "Ada");
    assert_eq!(page.difficulty_level, "Hard");
}

#[test]
fn toot_page_starts_a_game() {
    let mut page = TOOTComputer::create();
    assert!(!page.game_started);
    assert_eq!(page.player_name, "");
    assert_eq!(page.toro, "T");
    assert_eq!(page.difficulty_level, "Easy");
    assert!(page.update(Msg_TOOT::TOOTGameStarted("Ada".to_string()), "Hard".to_string()));
    assert!(page.game_started);
    assert_eq!(page.player_name, "Ada");
    assert_eq!(page.toro, "T");
    assert_eq!(page.difficulty_level, "Hard");
}

#[test]
fn toot_page_selects_a_letter() {
    let mut page = TOOTComputer::create();
    assert!(page.update(Msg_TOOT::TOOTSelectChange("O".to_string()), "Hard".to_string()));
    assert!(!page.game_started);
    assert_eq!(page.player_name, "");
    assert_eq!(page.toro, "O");
    assert_eq!(page.difficulty_level, "Easy");
}
