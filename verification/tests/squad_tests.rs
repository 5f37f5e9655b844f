use jgsm::calendar::{calendar_date, earlier, first_day_of_month, parse_record_date, Ymd};
use jgsm::squad::{init_teams, Team};

#[test]
fn league_has_four_squads_of_six() {
    let teams = init_teams();
    assert_eq!(teams.len(), 4);
    let names: Vec<&str> = teams.iter().map(|t| t.team_name().as_str()).collect();
    assert_eq!(names, vec!["한국물가정보", "수려한합천", "울산 고려아연", "원익"]);
    assert!(teams.iter().all(|t| t.players().len() == 6));
    assert_eq!(teams[0].players()[0].korean_name, "강동윤");
    assert_eq!(teams[3].players()[5].english_name, "Gu Zihao");
    assert_eq!(teams[2].players()[5].chinese_name, "廖元赫");
    assert_eq!(teams[1].players()[1].birth_date, Ymd { year: 2005, month: 6, day: 12 });
}

#[test]
fn remove_player_keeps_order() {
    let mut team = Team::new("t".to_string(), vec![10, 20, 30, 40]);
    let out = team.remove_player(1);
    assert_eq!(out, 20);
    assert_eq!(team.players(), &vec![10, 30, 40]);
    assert_eq!(team.team_name(), "t");
}

#[test]
fn players_mut_edits_in_place() {
    let mut team = Team::new("t".to_string(), vec![1, 2]);
    team.players_mut().push(3);
    team.players_mut()[0] = 9;
    assert_eq!(team.players(), &vec![9, 2, 3]);
}

#[test]
fn calendar_checks_days() {
    assert_eq!(calendar_date(2024, 2, 29), Some(Ymd { year: 2024, month: 2, day: 29 }));
    assert_eq!(calendar_date(2023, 2, 29), None);
    assert_eq!(calendar_date(1900, 2, 29), None);
    assert_eq!(calendar_date(2000, 2, 29), Some(Ymd { year: 2000, month: 2, day: 29 }));
    assert_eq!(calendar_date(2023, 4, 31), None);
    assert_eq!(calendar_date(2023, 13, 1), None);
    assert_eq!(calendar_date(262143, 1, 1), None);
    assert_eq!(calendar_date(-4, 2, 29), Some(Ymd { year: -4, month: 2, day: 29 }));
    assert_eq!(first_day_of_month(2024, 3), Some(Ymd { year: 2024, month: 3, day: 1 }));
    assert_eq!(first_day_of_month(2024, 0), None);
}

#[test]
fn record_dates_are_read() {
    assert_eq!(parse_record_date("2024-05-17"), Some(Ymd { year: 2024, month: 5, day: 17 }));
    assert_eq!(parse_record_date("2024-02-30"), None);
    assert_eq!(parse_record_date("날짜"), None);
}

#[test]
fn earlier_is_lexicographic_by_day() {
    let a = Ymd { year: 2024, month: 1, day: 31 };
    let b = Ymd { year: 2024, month: 2, day: 1 };
    assert!(earlier(a, b));
    assert!(!earlier(b, a));
    assert!(!earlier(a, a));
    assert!(earlier(Ymd { year: 2023, month: 12, day: 31 }, a));
}
