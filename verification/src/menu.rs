//! Reading what the user types at the prompts.
use vstd::prelude::*;
use crate::text::{parse_usize, parsed_unsigned, same_text, trim, trimmed};

verus! {

/// The item picked from a numbered list of `count` items (numbered from 1),
/// as an index from 0: the input, trimmed, read as a `usize` between 1 and
/// `count`.
pub open spec fn choice_of(input: Seq<char>, count: int) -> Option<int> {
    match parsed_unsigned(trimmed(input), usize::MAX as int) {
        Some(x) => if 1 <= x <= count {
            Some(x - 1)
        } else {
            None
        },
        None => None,
    }
}

/// The item picked from a numbered list (see `choice_of`); `None` asks again.
pub fn parse_choice(input: &str, count: usize) -> (r: Option<usize>)
    ensures
        match choice_of(input@, count as int) {
            Some(i) => r == Some(i as usize),
            None => r is None,
        },
{
    let t = trim(input);
    match parse_usize(t) {
        Some(x) => if 1 <= x && x <= count {
            Some(x - 1)
        } else {
            None
        },
        None => None,
    }
}

/// A board pick from a squad of `squad_size` players listed with one extra
/// entry, "unknown", numbered `squad_size + 1`: `Some(Some(i))` for the
/// player at index `i`, `Some(None)` for "unknown", `None` to ask again.
pub open spec fn board_choice_of(input: Seq<char>, squad_size: int) -> Option<Option<int>> {
    match parsed_unsigned(trimmed(input), usize::MAX as int) {
        Some(x) => if 1 <= x <= squad_size {
            Some(Some(x - 1))
        } else if x == squad_size + 1 {
            Some(None)
        } else {
            None
        },
        None => None,
    }
}

/// A board pick from a squad listed with an extra "unknown" entry (see
/// `board_choice_of`).
pub fn parse_board_choice(input: &str, squad_size: usize) -> (r: Option<Option<usize>>)
    requires
        squad_size < usize::MAX,
    ensures
        match board_choice_of(input@, squad_size as int) {
            Some(Some(i)) => r == Some(Some(i as usize)),
            Some(None) => r == Some(None::<usize>),
            None => r is None,
        },
{
    let t = trim(input);
    match parse_usize(t) {
        Some(x) => if 1 <= x && x <= squad_size {
            Some(Some(x - 1))
        } else if x == squad_size + 1 {
            Some(None)
        } else {
            None
        },
        None => None,
    }
}

/// An entry of the main menu.
#[derive(Clone, Copy, Debug, PartialEq, Eq, Structural)]
pub enum MainMenu {
    KbLeague,
    KbLeaguePowerRanking,
    Exit,
    Invalid,
}

/// The main-menu entry that the trimmed input names: `1`, `2` or `exit`.
pub open spec fn main_menu_of(input: Seq<char>) -> MainMenu {
    let t = trimmed(input);
    if t == "1"@ {
        MainMenu::KbLeague
    } else if t == "2"@ {
        MainMenu::KbLeaguePowerRanking
    } else if t == "exit"@ {
        MainMenu::Exit
    } else {
        MainMenu::Invalid
    }
}

/// The main-menu entry the user typed (see `main_menu_of`).
pub fn parse_main_menu(input: &str) -> (r: MainMenu)
    ensures
        r == main_menu_of(input@),
        trimmed(input@) == "1"@ ==> r == MainMenu::KbLeague,
        trimmed(input@) == "2"@ ==> r == MainMenu::KbLeaguePowerRanking,
        trimmed(input@) == "exit"@ ==> r == MainMenu::Exit,
        trimmed(input@) != "1"@ && trimmed(input@) != "2"@ && trimmed(input@) != "exit"@ ==> r == MainMenu::Invalid,
{
    proof {
        reveal_strlit("1");
        assert("1"@.len() == 1);
        assert("1"@[0] == '1');
        reveal_strlit("2");
        assert("2"@.len() == 1);
        assert("2"@[0] == '2');
        reveal_strlit("exit");
        assert("exit"@.len() == 4);
        assert("exit"@[0] == 'e');
    }
    let t = trim(input);
    if same_text(t, "1") {
        MainMenu::KbLeague
    } else if same_text(t, "2") {
        MainMenu::KbLeaguePowerRanking
    } else if same_text(t, "exit") {
        MainMenu::Exit
    } else {
        MainMenu::Invalid
    }
}

/// An entry of the post-season menu.
#[derive(Clone, Copy, Debug, PartialEq, Eq, Structural)]
pub enum PostMenu {
    Team1Squad,
    Team2Squad,
    ExportMatrix,
    Minimax,
    Counterpick,
    BothBest,
    ChosenLineups,
    ExportTiebreaker,
    LiveWinRate,
    TeamPower,
    Exit,
    Invalid,
}

/// The post-season menu entry that the trimmed input names: `1` to `10` or `exit`.
pub open spec fn post_menu_of(input: Seq<char>) -> PostMenu {
    let t = trimmed(input);
    if t == "1"@ {
        PostMenu::Team1Squad
    } else if t == "2"@ {
        PostMenu::Team2Squad
    } else if t == "3"@ {
        PostMenu::ExportMatrix
    } else if t == "4"@ {
        PostMenu::Minimax
    } else if t == "5"@ {
        PostMenu::Counterpick
    } else if t == "6"@ {
        PostMenu::BothBest
    } else if t == "7"@ {
        PostMenu::ChosenLineups
    } else if t == "8"@ {
        PostMenu::ExportTiebreaker
    } else if t == "9"@ {
        PostMenu::LiveWinRate
    } else if t == "10"@ {
        PostMenu::TeamPower
    } else if t == "exit"@ {
        PostMenu::Exit
    } else {
        PostMenu::Invalid
    }
}

/// The post-season menu entry the user typed (see `post_menu_of`).
pub fn parse_post_menu(input: &str) -> (r: PostMenu)
    ensures
        r == post_menu_of(input@),
        trimmed(input@) == "1"@ ==> r == PostMenu::Team1Squad,
        trimmed(input@) == "2"@ ==> r == PostMenu::Team2Squad,
        trimmed(input@) == "3"@ ==> r == PostMenu::ExportMatrix,
        trimmed(input@) == "4"@ ==> r == PostMenu::Minimax,
        trimmed(input@) == "5"@ ==> r == PostMenu::Counterpick,
        trimmed(input@) == "6"@ ==> r == PostMenu::BothBest,
        trimmed(input@) == "7"@ ==> r == PostMenu::ChosenLineups,
        trimmed(input@) == "8"@ ==> r == PostMenu::ExportTiebreaker,
        trimmed(input@) == "9"@ ==> r == PostMenu::LiveWinRate,
        trimmed(input@) == "10"@ ==> r == PostMenu::TeamPower,
        trimmed(input@) == "exit"@ ==> r == PostMenu::Exit,
        trimmed(input@) != "1"@ && trimmed(input@) != "2"@ && trimmed(input@) != "3"@ && trimmed(input@) != "4"@ && trimmed(input@) != "5"@ && trimmed(input@) != "6"@ && trimmed(input@) != "7"@ && trimmed(input@) != "8"@ && trimmed(input@) != "9"@ && trimmed(input@) != "10"@ && trimmed(input@) != "exit"@ ==> r == PostMenu::Invalid,
{
    proof {
        reveal_strlit("1");
        assert("1"@.len() == 1);
        assert("1"@[0] == '1');
        reveal_strlit("2");
        assert("2"@.len() == 1);
        assert("2"@[0] == '2');
        reveal_strlit("3");
        assert("3"@.len() == 1);
        assert("3"@[0] == '3');
        reveal_strlit("4");
        assert("4"@.len() == 1);
        assert("4"@[0] == '4');
        reveal_strlit("5");
        assert("5"@.len() == 1);
        assert("5"@[0] == '5');
        reveal_strlit("6");
        assert("6"@.len() == 1);
        assert("6"@[0] == '6');
        reveal_strlit("7");
        assert("7"@.len() == 1);
        assert("7"@[0] == '7');
        reveal_strlit("8");
        assert("8"@.len() == 1);
        assert("8"@[0] == '8');
        reveal_strlit("9");
        assert("9"@.len() == 1);
        assert("9"@[0] == '9');
        reveal_strlit("10");
        assert("10"@.len() == 2);
        assert("10"@[0] == '1');
        reveal_strlit("exit");
        assert("exit"@.len() == 4);
        assert("exit"@[0] == 'e');
    }
    let t = trim(input);
    if same_text(t, "1") {
        PostMenu::Team1Squad
    } else if same_text(t, "2") {
        PostMenu::Team2Squad
    } else if same_text(t, "3") {
        PostMenu::ExportMatrix
    } else if same_text(t, "4") {
        PostMenu::Minimax
    } else if same_text(t, "5") {
        PostMenu::Counterpick
    } else if same_text(t, "6") {
        PostMenu::BothBest
    } else if same_text(t, "7") {
        PostMenu::ChosenLineups
    } else if same_text(t, "8") {
        PostMenu::ExportTiebreaker
    } else if same_text(t, "9") {
        PostMenu::LiveWinRate
    } else if same_text(t, "10") {
        PostMenu::TeamPower
    } else if same_text(t, "exit") {
        PostMenu::Exit
    } else {
        PostMenu::Invalid
    }
}

} // verus!
