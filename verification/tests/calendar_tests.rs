use jgsm::calendar::{colour_window, head_to_head_cutoff, Ymd};

fn ymd(y: i32, m: u32, d: u32) -> Ymd {
    Ymd { year: y, month: m, day: d }
}

#[test]
fn head_to_head_cutoff_is_three_years_back() {
    assert_eq!(head_to_head_cutoff(ymd(2024, 5, 1)), Some(ymd(2021, 5, 2)));
    assert_eq!(head_to_head_cutoff(ymd(2023, 3, 1)), Some(ymd(2020, 3, 1)));
    assert_eq!(head_to_head_cutoff(ymd(2024, 2, 30)), None);
    assert_eq!(head_to_head_cutoff(ymd(-262143, 1, 5)), None);
}

#[test]
fn colour_window_is_ninety_days_back() {
    assert_eq!(colour_window(ymd(2024, 5, 1)), Some((ymd(2024, 2, 1), ymd(2024, 2, 1))));
    assert_eq!(colour_window(ymd(2024, 1, 15)), Some((ymd(2023, 10, 17), ymd(2023, 10, 1))));
    assert_eq!(colour_window(ymd(2023, 13, 1)), None);
}
