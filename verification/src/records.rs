//! Reading the league's game records: head-to-head tallies, recent games
//! and the colours a player had, page by page.
//!
//! A record page is a list of rows; each row may carry a date cell and
//! holds, from its third cell on, the winner's name, the loser's name and
//! a description of the result (which colour won).
use vstd::prelude::*;
use regex::Regex;
use crate::calendar::{is_earlier, iso_date_parse, parse_record_date, Ymd};
use crate::text::{contains, parse_i32, parsed_i32, same_text, text_contains};

verus! {

/// One row of a record page.
pub struct DiaryRow {
    /// The text of the row's date cell, if it has one.
    pub date_text: Option<String>,
    /// The texts of the row's cells from the third on: winner, loser, result.
    pub cells: Vec<String>,
}

/// Whether the game loop over record pages goes on to the next page.
#[derive(Clone, Copy, Debug, PartialEq, Eq, Structural)]
pub enum PageStep {
    NextPage,
    Stop,
}

/// The date a row gives, as the record reader reads it.
pub open spec fn row_date(row: DiaryRow) -> Option<Ymd> {
    match row.date_text {
        None => None,
        Some(t) => date_of_text(t@),
    }
}

/// The date a date cell's text gives, as the record reader reads it.
pub open spec fn date_of_text(t: Seq<char>) -> Option<Ymd> {
    match iso_date_parse(t) {
        Some((y, m, d)) => Some(Ymd { year: y, month: m, day: d }),
        None => None,
    }
}

/// The dates of the rows of a page (`None` for a row without a readable date).
pub fn record_dates(rows: &Vec<DiaryRow>) -> (r: Vec<Option<Ymd>>)
    ensures
        r@.len() == rows@.len(),
        forall|i: int| 0 <= i < rows@.len() ==> #[trigger] r@[i] == row_date(rows@[i]),
{
    let mut r: Vec<Option<Ymd>> = Vec::new();
    let mut i: usize = 0;
    while i < rows.len()
        invariant
            i <= rows@.len(),
            r@.len() == i,
            forall|k: int| 0 <= k < i ==> #[trigger] r@[k] == row_date(rows@[k]),
        decreases rows@.len() - i,
    {
        let d = match &rows[i].date_text {
            None => None,
            Some(t) => parse_record_date(t.as_str()),
        };
        r.push(d);
        i = i + 1;
    }
    r
}

/// Games won by each of two players against each other.
#[derive(Clone, Copy, Debug, PartialEq, Eq, Structural)]
pub struct HeadToHead {
    pub player1_wins: u32,
    pub player2_wins: u32,
}

/// The tally after one row: `None` when the row is older than `cutoff`
/// (reading stops there), the tally unchanged for a row without a readable
/// date or without a winner cell, else one more win for player 1 when the
/// winner's name is exactly `player1` and for player 2 otherwise.
pub open spec fn head_to_head_row(
    tally: HeadToHead,
    date: Option<Ymd>,
    cells: Seq<Seq<char>>,
    cutoff: Ymd,
    player1: Seq<char>,
) -> Option<HeadToHead> {
    match date {
        None => Some(tally),
        Some(d) => if is_earlier(d, cutoff) {
            None
        } else if cells.len() == 0 {
            Some(tally)
        } else if cells[0] == player1 {
            Some(HeadToHead { player1_wins: (tally.player1_wins + 1) as u32, ..tally })
        } else {
            Some(HeadToHead { player2_wins: (tally.player2_wins + 1) as u32, ..tally })
        },
    }
}

/// The texts of a row's cells.
pub open spec fn cell_texts(row: DiaryRow) -> Seq<Seq<char>> {
    row.cells@.map_values(|c: String| c@)
}

/// The cell texts of the rows of a page.
pub open spec fn page_cells(rows: Seq<DiaryRow>) -> Seq<Seq<Seq<char>>> {
    rows.map_values(|r: DiaryRow| cell_texts(r))
}

/// The tally after the rows `from..` of a page (given by their cell texts),
/// and whether a row older than `cutoff` stopped the reading.
pub open spec fn head_to_head_rows(
    tally: HeadToHead,
    rows: Seq<Seq<Seq<char>>>,
    dates: Seq<Option<Ymd>>,
    from: int,
    cutoff: Ymd,
    player1: Seq<char>,
) -> (HeadToHead, bool)
    decreases rows.len() - from,
{
    if from < 0 || from >= rows.len() {
        (tally, false)
    } else {
        match head_to_head_row(tally, dates[from], rows[from], cutoff, player1) {
            None => (tally, true),
            Some(t) => head_to_head_rows(t, rows, dates, from + 1, cutoff, player1),
        }
    }
}

/// One page of the head-to-head record: an empty page ends the reading;
/// otherwise the rows are tallied in order until one is older than
/// `cutoff`, which ends the reading too.
pub open spec fn head_to_head_page_result(
    tally: HeadToHead,
    rows: Seq<Seq<Seq<char>>>,
    dates: Seq<Option<Ymd>>,
    cutoff: Ymd,
    player1: Seq<char>,
) -> (HeadToHead, PageStep) {
    if rows.len() == 0 {
        (tally, PageStep::Stop)
    } else {
        let (t, stopped) = head_to_head_rows(tally, rows, dates, 0, cutoff, player1);
        (t, if stopped { PageStep::Stop } else { PageStep::NextPage })
    }
}

/// `date` is a day before `cutoff`: an earlier year, or an earlier month of
/// the same year, or an earlier day of the same month.
pub open spec fn dated_before(date: Option<Ymd>, cutoff: Ymd) -> bool {
    match date {
        None => false,
        Some(d) => d.year < cutoff.year || (d.year == cutoff.year && d.month < cutoff.month) || (
        d.year == cutoff.year && d.month == cutoff.month && d.day < cutoff.day),
    }
}

/// How many of the first `n` rows are dated games whose winner's cell is
/// exactly `player1`.
pub open spec fn dated_wins(
    cells: Seq<Seq<Seq<char>>>,
    dates: Seq<Option<Ymd>>,
    player1: Seq<char>,
    n: int,
) -> int
    decreases n,
{
    if n <= 0 {
        0
    } else {
        dated_wins(cells, dates, player1, n - 1) + if dates[n - 1] is Some && cells[n - 1].len() > 0
            && cells[n - 1][0] == player1 {
            1int
        } else {
            0int
        }
    }
}

/// How many of the first `n` rows are dated games with a winner's cell
/// other than `player1`.
pub open spec fn dated_losses(
    cells: Seq<Seq<Seq<char>>>,
    dates: Seq<Option<Ymd>>,
    player1: Seq<char>,
    n: int,
) -> int
    decreases n,
{
    if n <= 0 {
        0
    } else {
        dated_losses(cells, dates, player1, n - 1) + if dates[n - 1] is Some && cells[n - 1].len() > 0
            && cells[n - 1][0] != player1 {
            1int
        } else {
            0int
        }
    }
}

/// Tallies one page of the head-to-head record of `player1` against an
/// opponent, given the page's rows and their dates.
pub fn head_to_head_page(
    tally: HeadToHead,
    rows: &Vec<DiaryRow>,
    dates: &Vec<Option<Ymd>>,
    cutoff: Ymd,
    player1: &str,
) -> (r: (HeadToHead, PageStep))
    requires
        dates@.len() == rows@.len(),
        tally.player1_wins + tally.player2_wins + rows@.len() <= u32::MAX,
    ensures
        r == head_to_head_page_result(tally, page_cells(rows@), dates@, cutoff, player1@),
        r.0.player1_wins + r.0.player2_wins <= tally.player1_wins + tally.player2_wins
            + rows@.len(),
        rows@.len() == 0 ==> r == (tally, PageStep::Stop),
        (r.1 == PageStep::Stop) <==> (rows@.len() == 0 || exists|k: int|
            0 <= k < rows@.len() && dated_before(#[trigger] dates@[k], cutoff)),
        r.1 == PageStep::NextPage ==> r.0.player1_wins == tally.player1_wins + dated_wins(
            page_cells(rows@),
            dates@,
            player1@,
            rows@.len() as int,
        ) && r.0.player2_wins == tally.player2_wins + dated_losses(
            page_cells(rows@),
            dates@,
            player1@,
            rows@.len() as int,
        ),
        r.1 == PageStep::Stop && rows@.len() > 0 ==> exists|k: int|
            0 <= k < rows@.len() && dated_before(#[trigger] dates@[k], cutoff) && (forall|j: int|
                0 <= j < k ==> !dated_before(#[trigger] dates@[j], cutoff))
                && r.0.player1_wins == tally.player1_wins + dated_wins(
                page_cells(rows@),
                dates@,
                player1@,
                k,
            ) && r.0.player2_wins == tally.player2_wins + dated_losses(
                page_cells(rows@),
                dates@,
                player1@,
                k,
            ),
{
    if rows.len() == 0 {
        return (tally, PageStep::Stop);
    }
    let mut t = tally;
    let mut i: usize = 0;
    while i < rows.len()
        invariant
            dates@.len() == rows@.len(),
            i <= rows@.len(),
            t.player1_wins + t.player2_wins <= tally.player1_wins + tally.player2_wins + i,
            tally.player1_wins + tally.player2_wins + rows@.len() <= u32::MAX,
            head_to_head_rows(tally, page_cells(rows@), dates@, 0, cutoff, player1@)
                == head_to_head_rows(
                t,
                page_cells(rows@),
                dates@,
                i as int,
                cutoff,
                player1@,
            ),
            forall|j: int| 0 <= j < i ==> !dated_before(#[trigger] dates@[j], cutoff),
            t.player1_wins == tally.player1_wins + dated_wins(page_cells(rows@), dates@, player1@, i as int),
            t.player2_wins == tally.player2_wins + dated_losses(page_cells(rows@), dates@, player1@, i as int),
        decreases rows@.len() - i,
    {
        let row = &rows[i];
        assert(page_cells(rows@)[i as int].len() == row.cells@.len());
        match dates[i] {
            None => {},
            Some(d) => {
                if crate::calendar::earlier(d, cutoff) {
                    assert(dated_before(dates@[i as int], cutoff));
                    return (t, PageStep::Stop);
                }
                if row.cells.len() > 0 {
                    assert(page_cells(rows@)[i as int][0] == row.cells@[0]@);
                    if same_text(row.cells[0].as_str(), player1) {
                        t = HeadToHead { player1_wins: t.player1_wins + 1, ..t };
                    } else {
                        t = HeadToHead { player2_wins: t.player2_wins + 1, ..t };
                    }
                }
            },
        }
        i = i + 1;
    }
    (t, PageStep::NextPage)
}

/// The first capture group of the pattern `choice\('[^']+', ?'(\d+)', ?'\d+'\)`
/// in `text`, as `regex` finds it, or `None` where the pattern does not match.
pub uninterp spec fn choice_code_capture(text: Seq<char>) -> Option<Seq<char>>;

/// `Regex::captures` with the player-search pattern: the text of its first
/// group in the leftmost match. What `regex` matches is named, not stated.
#[verifier::external_body]
fn capture_choice_code(text: &str) -> (r: Option<String>)
    ensures
        match choice_code_capture(text@) {
            Some(c) => r matches Some(s) && s@ == c,
            None => r is None,
        },
{
    let re = Regex::new(r"choice\('[^']+', ?'(\d+)', ?'\d+'\)").unwrap();
    re.captures(text).and_then(|cap| cap.get(1).map(|m| m.as_str().to_string()))
}

/// The player code that a captured group stands for: the group read as an
/// `i32`, or 0 when there is no group or it is not such a number.
pub open spec fn code_of_capture(capture: Option<Seq<char>>) -> int {
    match capture {
        None => 0,
        Some(c) => match parsed_i32(c) {
            Some(v) => v,
            None => 0,
        },
    }
}

/// The player code for a captured group (see `code_of_capture`).
pub fn code_from_capture(capture: &Option<String>) -> (r: i32)
    ensures
        match capture {
            Some(c) => r == code_of_capture(Some(c@)),
            None => r == 0,
        },
{
    match capture {
        None => 0,
        Some(c) => {
            let p = parse_i32(c.as_str());
            match p {
                Some(v) => v,
                None => 0,
            }
        },
    }
}

/// The player code that a player-search result carries in its `onclick` text.
pub fn player_code(onclick: &str) -> (r: i32)
    ensures
        r == code_of_capture(choice_code_capture(onclick@)),
{
    let cap = capture_choice_code(onclick);
    code_from_capture(&cap)
}

/// The player code from the `onclick` texts of a player search; the first
/// result is the one taken.
pub fn first_player_code(onclick_texts: &Vec<String>) -> (r: i32)
    requires
        onclick_texts@.len() > 0,
    ensures
        r == code_of_capture(choice_code_capture(onclick_texts@[0]@)),
{
    player_code(onclick_texts[0].as_str())
}

/// A row counts as a recent game when its date text holds either month marker.
pub open spec fn is_recent_row(row: DiaryRow, marker_a: Seq<char>, marker_b: Seq<char>) -> bool {
    match row.date_text {
        None => false,
        Some(t) => text_contains(t@, marker_a) || text_contains(t@, marker_b),
    }
}

/// The rows of a page that hold games of the current month or of the
/// rating list's month, by index, in page order.
pub fn recent_rows(rows: &Vec<DiaryRow>, current_month: &str, ranking_month: &str) -> (r: Vec<
    usize,
>)
    ensures
        forall|j: int|
            0 <= j < r@.len() ==> r@[j] < rows@.len() && is_recent_row(
                rows@[#[trigger] r@[j] as int],
                current_month@,
                ranking_month@,
            ),
        forall|a: int, b: int| 0 <= a < b < r@.len() ==> r@[a] < r@[b],
        forall|i: int|
            0 <= i < rows@.len() && is_recent_row(rows@[i], current_month@, ranking_month@)
                ==> r@.contains(i as usize),
{
    let mut r: Vec<usize> = Vec::new();
    let mut i: usize = 0;
    while i < rows.len()
        invariant
            i <= rows@.len(),
            forall|j: int|
                0 <= j < r@.len() ==> r@[j] < i && is_recent_row(
                    rows@[#[trigger] r@[j] as int],
                    current_month@,
                    ranking_month@,
                ),
            forall|a: int, b: int| 0 <= a < b < r@.len() ==> r@[a] < r@[b],
            forall|k: int|
                0 <= k < i && is_recent_row(rows@[k], current_month@, ranking_month@)
                    ==> r@.contains(k as usize),
        decreases rows@.len() - i,
    {
        let hit = match &rows[i].date_text {
            None => false,
            Some(t) => contains(t.as_str(), current_month) || contains(t.as_str(), ranking_month),
        };
        if hit {
            let ghost before = r@;
            r.push(i);
            assert(r@[r@.len() - 1] == i);
            assert forall|k: int|
                0 <= k < i && is_recent_row(rows@[k], current_month@, ranking_month@) implies r@.contains(
                k as usize,
            ) by {
                let j = choose|j: int| 0 <= j < before.len() && before[j] == k as usize;
                assert(r@[j] == before[j]);
            }
        }
        i = i + 1;
    }
    r
}

/// Who a game was against, seen from `player`: the opponent's cell (0 for
/// the winner's, 1 for the loser's) and whether `player` won, which is the
/// case when the winner's cell holds `player`'s name.
pub fn game_perspective(cells: &Vec<String>, player: &str) -> (r: (usize, bool))
    requires
        cells@.len() >= 1,
        text_contains(cells@[0]@, player@) ==> cells@.len() >= 2,
    ensures
        r.1 == text_contains(cells@[0]@, player@),
        r.0 == (if r.1 {
            1usize
        } else {
            0usize
        }),
        r.0 < cells@.len(),
{
    let won = contains(cells[0].as_str(), player);
    if won {
        (1, true)
    } else {
        (0, false)
    }
}

/// The colour of the stones.
#[derive(Clone, Copy, Debug, PartialEq, Eq, Structural)]
pub enum Stone {
    Black,
    White,
}

/// The colour a player had, from the result text of the game and whether
/// the player won: the result names the winner's colour (`백` white,
/// `흑` black), white being checked first.
pub open spec fn played_color_of(result: Seq<char>, won: bool) -> Option<Stone> {
    let white = text_contains(result, "백"@);
    let black = text_contains(result, "흑"@);
    if (white && won) || (black && !won) {
        Some(Stone::White)
    } else if (black && won) || (white && !won) {
        Some(Stone::Black)
    } else {
        None
    }
}

/// The colour a player had in a game (see `played_color_of`).
pub fn played_color(result: &str, won: bool) -> (r: Option<Stone>)
    ensures
        r == played_color_of(result@, won),
        text_contains(result@, "백"@) && won ==> r == Some(Stone::White),
        text_contains(result@, "흑"@) && !won ==> r == Some(Stone::White),
        !text_contains(result@, "백"@) && text_contains(result@, "흑"@) && won ==> r == Some(
            Stone::Black,
        ),
        !text_contains(result@, "흑"@) && text_contains(result@, "백"@) && !won ==> r == Some(
            Stone::Black,
        ),
        !text_contains(result@, "백"@) && !text_contains(result@, "흑"@) ==> r is None,
{
    let white = contains(result, "백");
    let black = contains(result, "흑");
    if (white && won) || (black && !won) {
        Some(Stone::White)
    } else if (black && won) || (white && !won) {
        Some(Stone::Black)
    } else {
        None
    }
}

/// When the result names exactly one colour, a won game and a lost game
/// give the player opposite colours.
pub proof fn lemma_colour_flips_with_result(result: Seq<char>)
    requires
        text_contains(result, "백"@) != text_contains(result, "흑"@),
    ensures
        played_color_of(result, true) is Some,
        played_color_of(result, false) is Some,
        played_color_of(result, true) != played_color_of(result, false),
{
}

/// Which rows of a colour-record page to use: an empty page ends the
/// reading; rows without a readable date are passed over; rows dated after
/// `cutoff` are taken; the first row dated on or before `cutoff` ends the
/// reading. Returns the taken rows' indices and what comes next.
pub open spec fn color_rows_from(dates: Seq<Option<Ymd>>, from: int, cutoff: Ymd) -> (
    Seq<usize>,
    bool,
)
    decreases dates.len() - from,
{
    if from < 0 || from >= dates.len() {
        (Seq::empty(), false)
    } else {
        match dates[from] {
            None => color_rows_from(dates, from + 1, cutoff),
            Some(d) => if is_earlier(cutoff, d) {
                let (rest, stopped) = color_rows_from(dates, from + 1, cutoff);
                (seq![from as usize] + rest, stopped)
            } else {
                (Seq::empty(), true)
            },
        }
    }
}

/// The rows of one page of a player's games to weigh by colour, and
/// whether the reading goes on (see `color_rows_from`).
pub fn color_record_page(dates: &Vec<Option<Ymd>>, cutoff: Ymd) -> (r: (Vec<usize>, PageStep))
    ensures
        dates@.len() == 0 ==> r.0@.len() == 0 && r.1 == PageStep::Stop,
        dates@.len() > 0 ==> r.0@ == color_rows_from(dates@, 0, cutoff).0 && (r.1
            == PageStep::Stop) == color_rows_from(dates@, 0, cutoff).1,
{
    let mut taken: Vec<usize> = Vec::new();
    if dates.len() == 0 {
        return (taken, PageStep::Stop);
    }
    let mut i: usize = 0;
    while i < dates.len()
        invariant
            i <= dates@.len(),
            taken@ + color_rows_from(dates@, i as int, cutoff).0 == color_rows_from(
                dates@,
                0,
                cutoff,
            ).0,
            color_rows_from(dates@, i as int, cutoff).1 == color_rows_from(dates@, 0, cutoff).1,
        decreases dates@.len() - i,
    {
        match dates[i] {
            None => {},
            Some(d) => {
                if crate::calendar::earlier(cutoff, d) {
                    let ghost before = taken@;
                    taken.push(i);
                    assert(taken@ + color_rows_from(dates@, i + 1, cutoff).0 =~= before
                        + color_rows_from(dates@, i as int, cutoff).0);
                } else {
                    assert(color_rows_from(dates@, i as int, cutoff).0 =~= Seq::<usize>::empty());
                    assert(taken@ =~= taken@ + Seq::<usize>::empty());
                    return (taken, PageStep::Stop);
                }
            },
        }
        i = i + 1;
    }
    assert(taken@ =~= taken@ + Seq::<usize>::empty());
    (taken, PageStep::NextPage)
}

} // verus!
