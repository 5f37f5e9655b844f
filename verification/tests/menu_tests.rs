use jgsm::menu::{parse_board_choice, parse_choice, parse_main_menu, parse_post_menu, MainMenu, PostMenu};

#[test]
fn numbered_choices() {
    assert_eq!(parse_choice("1\n", 4), Some(0));
    assert_eq!(parse_choice(" 4 ", 4), Some(3));
    assert_eq!(parse_choice("5", 4), None);
    assert_eq!(parse_choice("0", 4), None);
    assert_eq!(parse_choice("two", 4), None);
    assert_eq!(parse_choice("", 4), None);
}

#[test]
fn board_choices_with_unknown() {
    assert_eq!(parse_board_choice("3", 6), Some(Some(2)));
    assert_eq!(parse_board_choice("7\n", 6), Some(None));
    assert_eq!(parse_board_choice("8", 6), None);
    assert_eq!(parse_board_choice("0", 6), None);
}

#[test]
fn main_menu_entries() {
    assert_eq!(parse_main_menu("1\n"), MainMenu::KbLeague);
    assert_eq!(parse_main_menu("2"), MainMenu::KbLeaguePowerRanking);
    assert_eq!(parse_main_menu(" exit "), MainMenu::Exit);
    assert_eq!(parse_main_menu("3"), MainMenu::Invalid);
    assert_eq!(parse_main_menu("EXIT"), MainMenu::Invalid);
}

#[test]
fn post_menu_entries() {
    assert_eq!(parse_post_menu("4"), PostMenu::Minimax);
    assert_eq!(parse_post_menu("6\r\n"), PostMenu::BothBest);
    assert_eq!(parse_post_menu("10"), PostMenu::TeamPower);
    assert_eq!(parse_post_menu("exit"), PostMenu::Exit);
    assert_eq!(parse_post_menu("11"), PostMenu::Invalid);
}
