use jgsm::live::{
    counts_as_league_game, find_shown_pairing, finished_result, finished_winner, identify_board,
    is_league_broadcast, live_clock, side_of,
};
use jgsm::records::Stone;

fn pairs(list: &[(&str, &str)]) -> Vec<(String, String)> {
    list.iter().map(|(a, b)| (a.to_string(), b.to_string())).collect()
}

#[test]
fn league_broadcasts() {
    assert!(is_league_broadcast("2024 KB리그 1라운드"));
    assert!(is_league_broadcast("韩国围甲联赛"));
    assert!(is_league_broadcast("韩围甲 第3轮"));
    assert!(!is_league_broadcast("中国围甲"));
}

#[test]
fn clock_times() {
    assert_eq!(live_clock("05-17 19:30"), Some((19, 30)));
    assert_eq!(live_clock("05-17 7:05 extra"), Some((7, 5)));
    assert_eq!(live_clock("05-17 24:00"), None);
    assert_eq!(live_clock("05-17 12:60"), None);
    assert_eq!(live_clock("05-17"), None);
    assert_eq!(live_clock("05-17 12"), None);
    assert_eq!(live_clock("05-17 ab:10"), None);
    assert_eq!(live_clock("05-17 12:10:59"), Some((12, 10)));
}

#[test]
fn league_games_before_eight() {
    assert_eq!(counts_as_league_game("KB리그", "05-17 19:59"), Some(true));
    assert_eq!(counts_as_league_game("KB리그", "05-17 20:00"), Some(false));
    assert_eq!(counts_as_league_game("其他", "05-17 13:00"), Some(false));
    assert_eq!(counts_as_league_game("KB리그", "bad"), None);
}

#[test]
fn boards_from_names() {
    let p = pairs(&[("申真谞", "朴廷桓"), ("卞相壹", "申旻埈"), ("申真谞", "申旻埈")]);
    assert_eq!(identify_board("申旻埈 vs 卞相壹", &p), Some(1));
    assert_eq!(identify_board("申真谞 朴廷桓 申旻埈", &p), Some(0));
    assert_eq!(identify_board("nobody", &p), None);
}

#[test]
fn sides_and_results() {
    assert_eq!(side_of("申真谞", "申真谞 九段", "朴廷桓 九段"), Some(Stone::Black));
    assert_eq!(side_of("朴廷桓", "申真谞 九段", "朴廷桓 九段"), Some(Stone::White));
    assert_eq!(side_of("李世石", "申真谞", "朴廷桓"), None);
    assert_eq!(finished_winner("黑中盘胜"), Some(Stone::Black));
    assert_eq!(finished_winner("白胜3/4子"), Some(Stone::White));
    assert_eq!(finished_winner("进行中"), None);
    assert_eq!(finished_result(Stone::Black, Some(Stone::Black)), Some(true));
    assert_eq!(finished_result(Stone::Black, Some(Stone::White)), Some(false));
    assert_eq!(finished_result(Stone::White, None), None);
}

#[test]
fn shown_pairings() {
    let p = pairs(&[("A", "B"), ("C", "D")]);
    assert_eq!(find_shown_pairing(&p, "D 9p", "C 9p"), Some(1));
    assert_eq!(find_shown_pairing(&p, "A", "D"), None);
    assert_eq!(find_shown_pairing(&p, "AB", ""), Some(0));
}
