use jgsm::board::{
    board_conditions, find_pairing, lineup_label, losing_boards, pack_rgb, position_of,
    win_index_sets, BoardCondition, Speed,
};
use jgsm::records::Stone;

#[test]
fn board_conditions_with_colours() {
    let c = board_conditions(true, true);
    assert_eq!(c.len(), 5);
    assert_eq!(c[0], BoardCondition { speed: Speed::Rapid, player1_color: Some(Stone::Black), player2_color: Some(Stone::White) });
    assert_eq!(c[1], BoardCondition { speed: Speed::Blitz, player1_color: Some(Stone::White), player2_color: Some(Stone::Black) });
    assert_eq!(c[4], BoardCondition { speed: Speed::Bullet, player1_color: Some(Stone::Black), player2_color: Some(Stone::White) });
    let w = board_conditions(true, false);
    assert_eq!(w[0].player1_color, Some(Stone::White));
    assert_eq!(w[3].player1_color, Some(Stone::Black));
}

#[test]
fn board_conditions_without_colours() {
    let c = board_conditions(false, true);
    let speeds: Vec<Speed> = c.iter().map(|b| b.speed).collect();
    assert_eq!(speeds, vec![Speed::Rapid, Speed::Blitz, Speed::Blitz, Speed::Blitz, Speed::Bullet]);
    assert!(c.iter().all(|b| b.player1_color.is_none() && b.player2_color.is_none()));
}

#[test]
fn pairings_and_positions() {
    let p = vec![("a".to_string(), "x".to_string()), ("b".to_string(), "y".to_string()), ("a".to_string(), "x".to_string())];
    assert_eq!(find_pairing(&p, "a", "x"), Some(0));
    assert_eq!(find_pairing(&p, "b", "y"), Some(1));
    assert_eq!(find_pairing(&p, "a", "y"), None);
    let names = vec!["a".to_string(), "b".to_string(), "b".to_string()];
    assert_eq!(position_of(&names, "b"), Some(1));
    assert_eq!(position_of(&names, "c"), None);
}

#[test]
fn two_win_sets_of_four_boards() {
    let s = win_index_sets(4, 2);
    assert_eq!(s, vec![vec![0, 1], vec![0, 2], vec![0, 3], vec![1, 2], vec![1, 3], vec![2, 3]]);
    assert_eq!(win_index_sets(4, 0), vec![Vec::<usize>::new()]);
    assert!(win_index_sets(2, 3).is_empty());
    assert_eq!(win_index_sets(4, 4), vec![vec![0, 1, 2, 3]]);
}

#[test]
fn lost_boards_complement_won_ones() {
    assert_eq!(losing_boards(4, &vec![0, 2]), vec![1, 3]);
    assert_eq!(losing_boards(4, &vec![]), vec![0, 1, 2, 3]);
    assert!(losing_boards(4, &vec![0, 1, 2, 3]).is_empty());
    for won in win_index_sets(4, 2) {
        let lost = losing_boards(4, &won);
        let mut all = won.clone();
        all.extend(lost.iter());
        all.sort();
        assert_eq!(all, vec![0, 1, 2, 3]);
    }
}

#[test]
fn colours_pack_into_rgb() {
    assert_eq!(pack_rgb(255, 128, 0), 0xff8000);
    assert_eq!(pack_rgb(0, 0, 255), 0x0000ff);
    assert_eq!(pack_rgb(1, 2, 3), 0x010203);
}

#[test]
fn lineup_labels_list_board_one_last() {
    assert_eq!(lineup_label("가", "나", "다", "라"), "1국:나, 2국:다, 3국:라, 4국:가");
}
