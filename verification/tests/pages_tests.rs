use jgsm::calendar::Ymd;
use jgsm::pages::{
    color_games_of_page, game_cells_of, goratings_entries_of_page, head_to_head_of_page, player_code_of_search_page,
    ranking_entries_of_page, ranking_month_of_page, recent_games_of_page,
};
use jgsm::records::{HeadToHead, PageStep};

fn strings(list: &[&str]) -> Vec<String> {
    list.iter().map(|s| s.to_string()).collect()
}

const RECORD_PAGE: &str = "<html><body><table>\
<thead><tr><th>no</th></tr></thead>\
<tbody>\
<tr><td class=\"no\">2024-05-01</td><td>KB</td><td>신진서</td><td>박정환</td><td>백 불계승</td></tr>\
<tr><td class=\"no\">2024-04-01</td><td>KB</td><td>박정환</td><td>신진서</td><td>흑 불계승</td></tr>\
<tr><td class=\"no\">2019-01-01</td><td>KB</td><td>신진서</td><td>박정환</td><td>흑 불계승</td></tr>\
</tbody></table></body></html>";

#[test]
fn game_cells_skip_the_first_two() {
    assert_eq!(game_cells_of(&strings(&["a", "b", "c", "d"])), strings(&["c", "d"]));
    assert!(game_cells_of(&strings(&["a", "b"])).is_empty());
    assert!(game_cells_of(&strings(&["a"])).is_empty());
}

#[test]
fn head_to_head_is_read_from_a_page() {
    let start = HeadToHead { player1_wins: 0, player2_wins: 0 };
    let cutoff = Ymd { year: 2021, month: 5, day: 1 };
    let (tally, step) = head_to_head_of_page(start, RECORD_PAGE, cutoff, "신진서").unwrap();
    assert_eq!(tally, HeadToHead { player1_wins: 1, player2_wins: 1 });
    assert_eq!(step, PageStep::Stop);
}

#[test]
fn head_to_head_empty_page_ends_reading() {
    let start = HeadToHead { player1_wins: 2, player2_wins: 5 };
    let cutoff = Ymd { year: 2021, month: 5, day: 1 };
    let body = "<html><body><table><tbody></tbody></table></body></html>";
    assert_eq!(head_to_head_of_page(start, body, cutoff, "신진서"), Some((start, PageStep::Stop)));
}

#[test]
fn head_to_head_refuses_a_tally_at_the_limit() {
    let start = HeadToHead { player1_wins: u32::MAX, player2_wins: 0 };
    let cutoff = Ymd { year: 2021, month: 5, day: 1 };
    assert_eq!(head_to_head_of_page(start, RECORD_PAGE, cutoff, "신진서"), None);
}

#[test]
fn recent_games_match_either_month() {
    let games = recent_games_of_page(RECORD_PAGE, "-05-", "-01-");
    assert_eq!(games, vec![strings(&["신진서", "박정환", "백 불계승"]), strings(&["신진서", "박정환", "흑 불계승"])]);
    assert!(recent_games_of_page(RECORD_PAGE, "-07-", "-08-").is_empty());
}

#[test]
fn colour_games_stop_at_cutoff() {
    let (games, step) = color_games_of_page(RECORD_PAGE, Ymd { year: 2024, month: 4, day: 1 });
    assert_eq!(games, vec![strings(&["신진서", "박정환", "백 불계승"])]);
    assert_eq!(step, PageStep::Stop);
    let (games, step) = color_games_of_page(RECORD_PAGE, Ymd { year: 2018, month: 1, day: 1 });
    assert_eq!(games.len(), 3);
    assert_eq!(step, PageStep::NextPage);
}

#[test]
fn player_code_from_search_page() {
    let body = "<ul><li onclick=\"choice('신진서', '1234', '5')\">신진서</li>\
<li onclick=\"choice('신진서2', '99', '5')\">x</li></ul>";
    assert_eq!(player_code_of_search_page(body), Some(1234));
    assert_eq!(player_code_of_search_page("<ul><li>nothing</li></ul>"), None);
}

#[test]
fn rating_list_entries_and_month() {
    let body = "<div><button class=\"on\">2024년 5월</button><button>4월</button></div>\
<table class=\"tbstyle03\"><tbody>\
<tr><td>1</td><td><a>신진서</a></td><td>10,123점</td></tr>\
<tr><td>2</td><td>no link</td><td>9,000</td></tr>\
<tr><td>3</td><td><a>박정환</a></td><td>9,876</td></tr>\
</tbody></table>";
    assert_eq!(ranking_month_of_page(body), Some("20245".to_string()));
    assert_eq!(
        ranking_entries_of_page(body),
        vec![("신진서".to_string(), "10123".to_string()), ("박정환".to_string(), "9876".to_string())]
    );
    assert_eq!(ranking_month_of_page("<p>none</p>"), None);
}

#[test]
fn goratings_entries_keep_rating_text() {
    let body = "<table><tr><th>Rank</th></tr>\
<tr><td>1</td><td><a>Shin Jinseo</a></td><td>M</td><td>kr</td><td>3870</td></tr>\
<tr><td>2</td><td><a>Park Junghwan</a></td><td>M</td></tr>\
</table>";
    assert_eq!(goratings_entries_of_page(body), vec![("Shin Jinseo".to_string(), "3870".to_string())]);
}
