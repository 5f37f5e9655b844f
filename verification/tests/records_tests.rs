use jgsm::calendar::Ymd;
use jgsm::records::{
    code_from_capture, color_record_page, first_player_code, game_perspective, head_to_head_page,
    played_color, player_code, recent_rows, record_dates, DiaryRow, HeadToHead, PageStep, Stone,
};

fn row(date: Option<&str>, cells: &[&str]) -> DiaryRow {
    DiaryRow { date_text: date.map(|d| d.to_string()), cells: cells.iter().map(|c| c.to_string()).collect() }
}

fn ymd(y: i32, m: u32, d: u32) -> Ymd {
    Ymd { year: y, month: m, day: d }
}

#[test]
fn head_to_head_counts_wins_until_cutoff() {
    let rows = vec![
        row(Some("2024-05-01"), &["신진서", "박정환"]),
        row(Some("2024-04-01"), &["박정환", "신진서"]),
        row(None, &["신진서", "박정환"]),
        row(Some("bad"), &["신진서", "박정환"]),
        row(Some("2024-03-01"), &[]),
        row(Some("2020-01-01"), &["신진서", "박정환"]),
        row(Some("2024-02-01"), &["신진서", "박정환"]),
    ];
    let dates = record_dates(&rows);
    assert_eq!(dates[0], Some(ymd(2024, 5, 1)));
    assert_eq!(dates[2], None);
    assert_eq!(dates[3], None);
    let start = HeadToHead { player1_wins: 0, player2_wins: 0 };
    let (t, step) = head_to_head_page(start, &rows, &dates, ymd(2021, 5, 1), "신진서");
    assert_eq!(t, HeadToHead { player1_wins: 1, player2_wins: 1 });
    assert_eq!(step, PageStep::Stop);
}

#[test]
fn head_to_head_goes_on_when_page_is_recent() {
    let rows = vec![row(Some("2024-05-01"), &["A", "B"]), row(Some("2024-05-02"), &["B", "A"])];
    let dates = record_dates(&rows);
    let start = HeadToHead { player1_wins: 3, player2_wins: 4 };
    let (t, step) = head_to_head_page(start, &rows, &dates, ymd(2021, 5, 1), "A");
    assert_eq!(t, HeadToHead { player1_wins: 4, player2_wins: 5 });
    assert_eq!(step, PageStep::NextPage);
}

#[test]
fn head_to_head_empty_page_stops() {
    let rows: Vec<DiaryRow> = Vec::new();
    let start = HeadToHead { player1_wins: 2, player2_wins: 0 };
    let (t, step) = head_to_head_page(start, &rows, &Vec::new(), ymd(2021, 5, 1), "A");
    assert_eq!(t, start);
    assert_eq!(step, PageStep::Stop);
}

#[test]
fn head_to_head_winner_must_match_exactly() {
    let rows = vec![row(Some("2024-05-01"), &["신진서 9단", "B"])];
    let dates = vec![Some(ymd(2024, 5, 1))];
    let (t, _) = head_to_head_page(HeadToHead { player1_wins: 0, player2_wins: 0 }, &rows, &dates, ymd(2021, 1, 1), "신진서");
    assert_eq!(t, HeadToHead { player1_wins: 0, player2_wins: 1 });
}

#[test]
fn player_codes_from_search_results() {
    assert_eq!(player_code("choice('신진서', '1234', '5')"), 1234);
    assert_eq!(player_code("javascript:choice('박정환','77','1')"), 77);
    assert_eq!(player_code("nothing here"), 0);
    assert_eq!(player_code("choice('x', '99999999999', '1')"), 0);
    assert_eq!(first_player_code(&vec!["choice('a', '5', '0')".to_string(), "choice('b', '6', '0')".to_string()]), 5);
    assert_eq!(code_from_capture(&Some("42".to_string())), 42);
    assert_eq!(code_from_capture(&Some("4x".to_string())), 0);
    assert_eq!(code_from_capture(&None), 0);
}

#[test]
fn recent_rows_match_either_month() {
    let rows = vec![
        row(Some("2024-05-03"), &["A", "B"]),
        row(Some("2024-04-03"), &["A", "B"]),
        row(None, &["A", "B"]),
        row(Some("2024-03-30"), &["B", "A"]),
    ];
    assert_eq!(recent_rows(&rows, "-05-", "-03-"), vec![0, 3]);
    assert!(recent_rows(&rows, "-01-", "-02-").is_empty());
}

#[test]
fn perspective_of_a_game() {
    let cells = vec!["신진서".to_string(), "박정환".to_string()];
    assert_eq!(game_perspective(&cells, "신진서"), (1, true));
    assert_eq!(game_perspective(&cells, "박정환"), (0, false));
    let winner_only = vec!["A".to_string()];
    assert_eq!(game_perspective(&winner_only, "B"), (0, false));
}

#[test]
fn colour_from_result() {
    assert_eq!(played_color("백 불계승", true), Some(Stone::White));
    assert_eq!(played_color("백 불계승", false), Some(Stone::Black));
    assert_eq!(played_color("흑 1.5집승", true), Some(Stone::Black));
    assert_eq!(played_color("흑 1.5집승", false), Some(Stone::White));
    assert_eq!(played_color("무승부", true), None);
    assert_eq!(played_color("백흑", true), Some(Stone::White));
    assert_eq!(played_color("백흑", false), Some(Stone::White));
}

#[test]
fn colour_page_takes_rows_after_cutoff() {
    let cutoff = ymd(2024, 3, 1);
    let dates = vec![Some(ymd(2024, 5, 1)), None, Some(ymd(2024, 3, 2)), Some(ymd(2024, 3, 1)), Some(ymd(2024, 4, 1))];
    let (taken, step) = color_record_page(&dates, cutoff);
    assert_eq!(taken, vec![0, 2]);
    assert_eq!(step, PageStep::Stop);
    let (taken, step) = color_record_page(&vec![Some(ymd(2024, 5, 1)), None], cutoff);
    assert_eq!(taken, vec![0]);
    assert_eq!(step, PageStep::NextPage);
    let (taken, step) = color_record_page(&Vec::new(), cutoff);
    assert!(taken.is_empty());
    assert_eq!(step, PageStep::Stop);
}
