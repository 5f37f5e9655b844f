//! Reading the federation's web pages: `scraper` parses the HTML and
//! selects the elements; what the pages mean is read from the selected
//! elements' texts here.
use vstd::prelude::*;
use scraper::{Html, Selector};
use crate::calendar::{is_earlier, Ymd};
use crate::board::pair_views;
use crate::text::{is_ascii_digit, keep_ascii_digits, text_contains};
use crate::records::{
    cell_texts, code_of_capture, choice_code_capture, color_record_page, color_rows_from, date_of_text,
    first_player_code, head_to_head_page, head_to_head_page_result, page_cells, record_dates, row_date,
    DiaryRow, HeadToHead, PageStep,
};

verus! {

/// A table row of a page: the text of its first `td.no` cell, if it has
/// one, and the texts of all its `td` cells, in order.
pub struct PageRow {
    pub date_text: Option<String>,
    pub cells: Vec<String>,
}

/// The texts of strings.
pub open spec fn texts(v: Seq<String>) -> Seq<Seq<char>> {
    v.map_values(|s: String| s@)
}

/// The text of an optional string.
pub open spec fn opt_text(t: Option<String>) -> Option<Seq<char>> {
    match t {
        Some(s) => Some(s@),
        None => None,
    }
}

/// A page row as text.
pub open spec fn page_row_text(row: PageRow) -> (Option<Seq<char>>, Seq<Seq<char>>) {
    (opt_text(row.date_text), texts(row.cells@))
}

/// Page rows as text.
pub open spec fn page_text(rows: Seq<PageRow>) -> Seq<(Option<Seq<char>>, Seq<Seq<char>>)> {
    rows.map_values(|r: PageRow| page_row_text(r))
}

/// The rows that `scraper` selects with `tbody>tr` in the HTML `body`, each
/// as the text of its first `td.no` cell (if any) and the texts of its `td`
/// cells.
pub uninterp spec fn record_rows_of(body: Seq<char>) -> Seq<(Option<Seq<char>>, Seq<Seq<char>>)>;

/// The rows that `scraper` selects with `tr` in the HTML `body`, read as in
/// `record_rows_of`.
pub uninterp spec fn listed_rows_of(body: Seq<char>) -> Seq<(Option<Seq<char>>, Seq<Seq<char>>)>;

/// `Html::parse_document` and `select` with `tbody>tr`, `td.no` and `td`:
/// the rows of a record page. What the parser selects is named, not stated.
#[verifier::external_body]
fn scrape_record_rows(body: &str) -> (r: Vec<PageRow>)
    ensures
        page_text(r@) == record_rows_of(body@),
{
    let document = Html::parse_document(body);
    let (rows, date, cell) = (Selector::parse("tbody>tr").unwrap(), Selector::parse("td.no").unwrap(), Selector::parse("td").unwrap());
    document.select(&rows).map(|row| PageRow {
        date_text: row.select(&date).next().map(|d| d.text().collect::<String>()),
        cells: row.select(&cell).map(|c| c.text().collect::<String>()).collect(),
    }).collect()
}

/// `Html::parse_document` and `select` with `tr`, `td.no` and `td`: every
/// table row of a page. What the parser selects is named, not stated.
#[verifier::external_body]
fn scrape_listed_rows(body: &str) -> (r: Vec<PageRow>)
    ensures
        page_text(r@) == listed_rows_of(body@),
{
    let document = Html::parse_document(body);
    let (rows, date, cell) = (Selector::parse("tr").unwrap(), Selector::parse("td.no").unwrap(), Selector::parse("td").unwrap());
    document.select(&rows).map(|row| PageRow {
        date_text: row.select(&date).next().map(|d| d.text().collect::<String>()),
        cells: row.select(&cell).map(|c| c.text().collect::<String>()).collect(),
    }).collect()
}

/// The cells of a game row that describe the game: those from the third on
/// (winner, loser, result); none when the row has two cells or fewer.
pub open spec fn game_cells(cells: Seq<Seq<char>>) -> Seq<Seq<char>> {
    if cells.len() <= 2 {
        Seq::empty()
    } else {
        cells.skip(2)
    }
}

/// The date a page row gives (see `date_of_text`).
pub open spec fn text_row_date(row: (Option<Seq<char>>, Seq<Seq<char>>)) -> Option<Ymd> {
    match row.0 {
        None => None,
        Some(t) => date_of_text(t),
    }
}

/// The dates of a page's rows.
pub open spec fn page_dates(page: Seq<(Option<Seq<char>>, Seq<Seq<char>>)>) -> Seq<Option<Ymd>> {
    page.map_values(|r: (Option<Seq<char>>, Seq<Seq<char>>)| text_row_date(r))
}

/// The game cells of a page's rows.
pub open spec fn page_games(page: Seq<(Option<Seq<char>>, Seq<Seq<char>>)>) -> Seq<Seq<Seq<char>>> {
    page.map_values(|r: (Option<Seq<char>>, Seq<Seq<char>>)| game_cells(r.1))
}

/// The game cells of a row's cells (see `game_cells`).
pub fn game_cells_of(cells: &Vec<String>) -> (r: Vec<String>)
    ensures
        texts(r@) == game_cells(texts(cells@)),
{
    let mut r: Vec<String> = Vec::new();
    if cells.len() <= 2 {
        assert(texts(r@) =~= Seq::<Seq<char>>::empty());
        return r;
    }
    let mut j: usize = 2;
    while j < cells.len()
        invariant
            2 <= j <= cells@.len(),
            texts(r@) =~= texts(cells@).subrange(2, j as int),
        decreases cells@.len() - j,
    {
        let c = cells[j].clone();
        let ghost before = r@;
        r.push(c);
        assert(texts(r@) =~= texts(before).push(cells@[j as int]@));
        assert(texts(cells@).subrange(2, j + 1) =~= texts(cells@).subrange(2, j as int).push(
            cells@[j as int]@,
        ));
        j = j + 1;
    }
    assert(texts(cells@).subrange(2, cells@.len() as int) =~= texts(cells@).skip(2));
    r
}

/// The game rows of a page: each row's date text and its game cells.
pub fn diary_rows_of(page: &Vec<PageRow>) -> (r: Vec<DiaryRow>)
    ensures
        r@.len() == page@.len(),
        forall|i: int|
            0 <= i < page@.len() ==> opt_text(#[trigger] r@[i].date_text) == opt_text(page@[i].date_text)
                && cell_texts(r@[i]) == game_cells(texts(page@[i].cells@)),
{
    let mut r: Vec<DiaryRow> = Vec::new();
    let mut i: usize = 0;
    while i < page.len()
        invariant
            i <= page@.len(),
            r@.len() == i,
            forall|k: int|
                0 <= k < i ==> opt_text(#[trigger] r@[k].date_text) == opt_text(page@[k].date_text)
                    && cell_texts(r@[k]) == game_cells(texts(page@[k].cells@)),
        decreases page@.len() - i,
    {
        let date_text = match &page[i].date_text {
            Some(t) => Some(t.clone()),
            None => None,
        };
        let cells = game_cells_of(&page[i].cells);
        let row = DiaryRow { date_text, cells };
        assert(cell_texts(row) =~= texts(row.cells@));
        r.push(row);
        i = i + 1;
    }
    r
}

/// The rows of a record page and their dates, both as the page's text gives them.
fn record_page(body: &str) -> (r: (Vec<DiaryRow>, Vec<Option<Ymd>>))
    ensures
        r.0@.len() == record_rows_of(body@).len(),
        r.1@ == page_dates(record_rows_of(body@)),
        page_cells(r.0@) == page_games(record_rows_of(body@)),
{
    let page = scrape_record_rows(body);
    let rows = diary_rows_of(&page);
    let dates = record_dates(&rows);
    proof {
        let text = record_rows_of(body@);
        assert(page_text(page@).len() == page@.len());
        assert forall|i: int| 0 <= i < rows@.len() implies dates@[i] == page_dates(text)[i] by {
            assert(page_text(page@)[i] == page_row_text(page@[i]));
            assert(opt_text(rows@[i].date_text) == opt_text(page@[i].date_text));
            assert(row_date(rows@[i]) == text_row_date(text[i]));
        }
        assert(dates@ =~= page_dates(text));
        assert forall|i: int| 0 <= i < rows@.len() implies page_cells(rows@)[i] == page_games(text)[i] by {
            assert(page_text(page@)[i] == page_row_text(page@[i]));
            assert(opt_text(rows@[i].date_text) == opt_text(page@[i].date_text));
        }
        assert(page_cells(rows@) =~= page_games(text));
    }
    (rows, dates)
}

/// One page of the head-to-head record of `player1`, read from the page's
/// HTML; `None` when the tally could pass `u32::MAX` on this page.
pub fn head_to_head_of_page(tally: HeadToHead, body: &str, cutoff: Ymd, player1: &str) -> (r: Option<
    (HeadToHead, PageStep),
>)
    ensures
        tally.player1_wins + tally.player2_wins + record_rows_of(body@).len() <= u32::MAX ==> r
            == Some(
            head_to_head_page_result(
                tally,
                page_games(record_rows_of(body@)),
                page_dates(record_rows_of(body@)),
                cutoff,
                player1@,
            ),
        ),
        tally.player1_wins + tally.player2_wins + record_rows_of(body@).len() > u32::MAX ==> r is None,
{
    let (rows, dates) = record_page(body);
    if rows.len() > 0xffff_ffffusize {
        return None;
    }
    let used: u64 = tally.player1_wins as u64 + tally.player2_wins as u64;
    if used + rows.len() as u64 > 0xffff_ffffu64 {
        return None;
    }
    Some(head_to_head_page(tally, &rows, &dates, cutoff, player1))
}

/// Game cells, as text, of a list of games.
pub open spec fn nested_texts(v: Seq<Vec<String>>) -> Seq<Seq<Seq<char>>> {
    v.map_values(|w: Vec<String>| texts(w@))
}

/// A page row is a recent game when its date text holds either month marker.
pub open spec fn is_recent_text(
    row: (Option<Seq<char>>, Seq<Seq<char>>),
    marker_a: Seq<char>,
    marker_b: Seq<char>,
) -> bool {
    match row.0 {
        None => false,
        Some(t) => text_contains(t, marker_a) || text_contains(t, marker_b),
    }
}

/// The game cells of the recent games of a page, in page order.
pub open spec fn recent_games(
    page: Seq<(Option<Seq<char>>, Seq<Seq<char>>)>,
    marker_a: Seq<char>,
    marker_b: Seq<char>,
) -> Seq<Seq<Seq<char>>> {
    page.filter(|r: (Option<Seq<char>>, Seq<Seq<char>>)| is_recent_text(r, marker_a, marker_b)).map_values(
        |r: (Option<Seq<char>>, Seq<Seq<char>>)| game_cells(r.1),
    )
}

/// The games of a page of a player's record (every table row) played in
/// the current month or in the rating list's month, by their game cells.
pub fn recent_games_of_page(body: &str, current_month: &str, ranking_month: &str) -> (r: Vec<
    Vec<String>,
>)
    ensures
        nested_texts(r@) == recent_games(listed_rows_of(body@), current_month@, ranking_month@),
{
    let page = scrape_listed_rows(body);
    let ghost text = page_text(page@);
    let ghost pred = |r: (Option<Seq<char>>, Seq<Seq<char>>)| is_recent_text(r, current_month@, ranking_month@);
    let ghost f = |r: (Option<Seq<char>>, Seq<Seq<char>>)| game_cells(r.1);
    let mut r: Vec<Vec<String>> = Vec::new();
    let mut i: usize = 0;
    while i < page.len()
        invariant
            i <= page@.len(),
            text == page_text(page@),
            text.len() == page@.len(),
            pred == (|r: (Option<Seq<char>>, Seq<Seq<char>>)| is_recent_text(r, current_month@, ranking_month@)),
            f == (|r: (Option<Seq<char>>, Seq<Seq<char>>)| game_cells(r.1)),
            nested_texts(r@) == text.take(i as int).filter(pred).map_values(f),
        decreases page@.len() - i,
    {
        let hit = match &page[i].date_text {
            None => false,
            Some(t) => crate::text::contains(t.as_str(), current_month) || crate::text::contains(
                t.as_str(),
                ranking_month,
            ),
        };
        proof {
            reveal_with_fuel(Seq::<_>::filter, 1);
            assert(text.take(i + 1).drop_last() =~= text.take(i as int));
            assert(text[i as int] == page_row_text(page@[i as int]));
            assert(text.take(i + 1).last() == text[i as int]);
        }
        if hit {
            let g = game_cells_of(&page[i].cells);
            let ghost before = r@;
            r.push(g);
            proof {
                let old_f = text.take(i as int).filter(pred);
                assert(text.take(i + 1).filter(pred) == old_f.push(text[i as int]));
                assert(old_f.push(text[i as int]).map_values(f) =~= old_f.map_values(f).push(
                    f(text[i as int]),
                ));
                assert(nested_texts(r@) =~= nested_texts(before).push(texts(g@)));
            }
        } else {
            assert(text.take(i + 1).filter(pred) == text.take(i as int).filter(pred));
        }
        i = i + 1;
    }
    assert(text.take(text.len() as int) =~= text);
    r
}

/// The records' rows `from..` that `color_rows_from` takes lie in `from..dates.len()`.
proof fn lemma_color_rows_in_range(dates: Seq<Option<Ymd>>, from: int, cutoff: Ymd)
    requires
        0 <= from,
        dates.len() <= usize::MAX,
    ensures
        forall|j: int|
            0 <= j < color_rows_from(dates, from, cutoff).0.len() ==> from <= #[trigger] color_rows_from(
                dates,
                from,
                cutoff,
            ).0[j] < dates.len(),
    decreases dates.len() - from,
{
    if from < dates.len() {
        lemma_color_rows_in_range(dates, from + 1, cutoff);
        let rest = color_rows_from(dates, from + 1, cutoff).0;
        let whole = color_rows_from(dates, from, cutoff).0;
        match dates[from] {
            None => {},
            Some(d) => {
                if is_earlier(cutoff, d) {
                    assert(whole == seq![from as usize] + rest);
                    assert forall|j: int| 0 <= j < whole.len() implies from <= #[trigger] whole[j]
                        < dates.len() by {
                        if j > 0 {
                            assert(whole[j] == rest[j - 1]);
                        }
                    }
                }
            },
        }
    }
}

/// The game cells of the rows of a colour-record page that `color_rows_from`
/// takes, and whether that stopped the reading.
pub open spec fn color_games(page: Seq<(Option<Seq<char>>, Seq<Seq<char>>)>, cutoff: Ymd) -> (
    Seq<Seq<Seq<char>>>,
    bool,
) {
    let taken = color_rows_from(page_dates(page), 0, cutoff);
    (taken.0.map_values(|k: usize| game_cells(page[k as int].1)), taken.1)
}

/// A copy of a list of strings.
fn copy_strings(v: &Vec<String>) -> (r: Vec<String>)
    ensures
        r@ == v@,
{
    let mut r: Vec<String> = Vec::new();
    let mut i: usize = 0;
    while i < v.len()
        invariant
            i <= v@.len(),
            r@ =~= v@.take(i as int),
        decreases v@.len() - i,
    {
        r.push(v[i].clone());
        assert(r@ =~= v@.take(i + 1));
        i = i + 1;
    }
    assert(v@.take(v@.len() as int) =~= v@);
    r
}

/// The games of one page of a player's record to weigh by colour (see
/// `color_rows_from`), by their game cells, and whether the reading goes on.
pub fn color_games_of_page(body: &str, cutoff: Ymd) -> (r: (Vec<Vec<String>>, PageStep))
    ensures
        record_rows_of(body@).len() == 0 ==> r.0@.len() == 0 && r.1 == PageStep::Stop,
        record_rows_of(body@).len() > 0 ==> nested_texts(r.0@) == color_games(record_rows_of(body@), cutoff).0
            && (r.1 == PageStep::Stop) == color_games(record_rows_of(body@), cutoff).1,
{
    let (rows, dates) = record_page(body);
    let ghost text = record_rows_of(body@);
    let (taken, step) = color_record_page(&dates, cutoff);
    let n = dates.len();
    proof {
        assert(dates@.len() == n);
        lemma_color_rows_in_range(dates@, 0, cutoff);
    }
    let mut r: Vec<Vec<String>> = Vec::new();
    let mut j: usize = 0;
    while j < taken.len()
        invariant
            j <= taken@.len(),
            rows@.len() == text.len(),
            dates@.len() == text.len(),
            page_cells(rows@) == page_games(text),
            forall|k: int| 0 <= k < taken@.len() ==> #[trigger] taken@[k] < rows@.len(),
            r@.len() == j,
            forall|k: int| 0 <= k < j ==> texts(#[trigger] r@[k]@) == page_games(text)[taken@[k] as int],
        decreases taken@.len() - j,
    {
        let k = taken[j];
        let c = copy_strings(&rows[k].cells);
        assert(page_cells(rows@)[k as int] == cell_texts(rows@[k as int]));
        assert(texts(c@) =~= cell_texts(rows@[k as int]));
        r.push(c);
        j = j + 1;
    }
    proof {
        if text.len() > 0 {
            assert(nested_texts(r@) =~= color_games(text, cutoff).0);
        }
    }
    (r, step)
}

/// The `onclick` attributes of the `li[onclick]` elements that `scraper`
/// selects in the HTML `body`, in document order.
pub uninterp spec fn onclick_texts_of(body: Seq<char>) -> Seq<Seq<char>>;

/// `Html::parse_document` and `select` with `li[onclick]`, taking each
/// element's `onclick` attribute. What the parser selects is named, not stated.
#[verifier::external_body]
fn scrape_onclick_texts(body: &str) -> (r: Vec<String>)
    ensures
        texts(r@) == onclick_texts_of(body@),
{
    let document = Html::parse_document(body);
    let items = Selector::parse("li[onclick]").unwrap();
    document.select(&items).map(|item| item.value().attr("onclick").unwrap_or_default().to_string()).collect()
}

/// The player code of the first result of a player-search page; `None`
/// when the page lists no result.
pub fn player_code_of_search_page(body: &str) -> (r: Option<i32>)
    ensures
        onclick_texts_of(body@).len() == 0 ==> r is None,
        onclick_texts_of(body@).len() > 0 ==> (r matches Some(c) && c == code_of_capture(
            choice_code_capture(onclick_texts_of(body@)[0]),
        )),
{
    let onclick_texts = scrape_onclick_texts(body);
    if onclick_texts.len() == 0 {
        None
    } else {
        assert(texts(onclick_texts@)[0] == onclick_texts@[0]@);
        Some(first_player_code(&onclick_texts))
    }
}

/// Optional string pairs as text.
pub open spec fn opt_pair_texts(v: Seq<(Option<String>, Option<String>)>) -> Seq<
    (Option<Seq<char>>, Option<Seq<char>>),
> {
    v.map_values(|p: (Option<String>, Option<String>)| (opt_text(p.0), opt_text(p.1)))
}

/// The pairs of which both parts are there, in order.
pub open spec fn both_present(v: Seq<(Option<Seq<char>>, Option<Seq<char>>)>) -> Seq<
    (Seq<char>, Seq<char>),
> {
    v.filter(|p: (Option<Seq<char>>, Option<Seq<char>>)| p.0 is Some && p.1 is Some).map_values(
        |p: (Option<Seq<char>>, Option<Seq<char>>)| (p.0.unwrap(), p.1.unwrap()),
    )
}

/// For each row of the federation's rating list (`table.tbstyle03 > tbody > tr`
/// in the HTML `body`): the inner HTML of its `td:nth-child(2) a` and of its
/// `td:nth-child(3)`, where the row has them.
pub uninterp spec fn ranking_cells_of(body: Seq<char>) -> Seq<(Option<Seq<char>>, Option<Seq<char>>)>;

/// For each table row (`tr`) of the goratings list in the HTML `body`: the
/// inner HTML of its `td:nth-child(2) a` and of its `td:nth-child(5)`,
/// where the row has them.
pub uninterp spec fn goratings_cells_of(body: Seq<char>) -> Seq<(Option<Seq<char>>, Option<Seq<char>>)>;

/// The text of the first `button.on` element (the list's month) in the HTML `body`.
pub uninterp spec fn ranking_month_text_of(body: Seq<char>) -> Option<Seq<char>>;

/// `Html::parse_document` and `select` on the rating list: each row's name
/// and rating cells. What the parser selects is named, not stated.
#[verifier::external_body]
fn scrape_ranking_cells(body: &str) -> (r: Vec<(Option<String>, Option<String>)>)
    ensures
        opt_pair_texts(r@) == ranking_cells_of(body@),
{
    let document = Html::parse_document(body);
    let (rows, name, rating) = (Selector::parse("table.tbstyle03 > tbody > tr").unwrap(), Selector::parse("td:nth-child(2) a").unwrap(), Selector::parse("td:nth-child(3)").unwrap());
    document.select(&rows).map(|row| (row.select(&name).next().map(|e| e.inner_html()), row.select(&rating).next().map(|e| e.inner_html()))).collect()
}

/// `Html::parse_document` and `select` on the goratings list: each row's
/// name and rating cells. What the parser selects is named, not stated.
#[verifier::external_body]
fn scrape_goratings_cells(body: &str) -> (r: Vec<(Option<String>, Option<String>)>)
    ensures
        opt_pair_texts(r@) == goratings_cells_of(body@),
{
    let document = Html::parse_document(body);
    let (rows, name, rating) = (Selector::parse("tr").unwrap(), Selector::parse("td:nth-child(2) a").unwrap(), Selector::parse("td:nth-child(5)").unwrap());
    document.select(&rows).map(|row| (row.select(&name).next().map(|e| e.inner_html()), row.select(&rating).next().map(|e| e.inner_html()))).collect()
}

/// `Html::parse_document` and `select` with `button.on`: the text of the
/// first such button. What the parser selects is named, not stated.
#[verifier::external_body]
fn scrape_ranking_month(body: &str) -> (r: Option<String>)
    ensures
        opt_text(r) == ranking_month_text_of(body@),
{
    let document = Html::parse_document(body);
    let button = Selector::parse("button.on").unwrap();
    document.select(&button).next().map(|e| e.text().collect::<String>())
}

/// The pairs of which both parts are there (see `both_present`).
fn present_pairs(v: Vec<(Option<String>, Option<String>)>) -> (r: Vec<(String, String)>)
    ensures
        pair_views(r@) == both_present(opt_pair_texts(v@)),
{
    let ghost text = opt_pair_texts(v@);
    let ghost pred = |p: (Option<Seq<char>>, Option<Seq<char>>)| p.0 is Some && p.1 is Some;
    let ghost f = |p: (Option<Seq<char>>, Option<Seq<char>>)| (p.0.unwrap(), p.1.unwrap());
    let mut r: Vec<(String, String)> = Vec::new();
    let mut i: usize = 0;
    while i < v.len()
        invariant
            i <= v@.len(),
            text == opt_pair_texts(v@),
            pred == (|p: (Option<Seq<char>>, Option<Seq<char>>)| p.0 is Some && p.1 is Some),
            f == (|p: (Option<Seq<char>>, Option<Seq<char>>)| (p.0.unwrap(), p.1.unwrap())),
            pair_views(r@) == text.take(i as int).filter(pred).map_values(f),
        decreases v@.len() - i,
    {
        proof {
            reveal_with_fuel(Seq::<_>::filter, 1);
            assert(text.take(i + 1).drop_last() =~= text.take(i as int));
            assert(text.take(i + 1).last() == text[i as int]);
        }
        match (&v[i].0, &v[i].1) {
            (Some(a), Some(b)) => {
                let ghost before = r@;
                r.push((a.clone(), b.clone()));
                proof {
                    let old_f = text.take(i as int).filter(pred);
                    assert(text.take(i + 1).filter(pred) == old_f.push(text[i as int]));
                    assert(old_f.push(text[i as int]).map_values(f) =~= old_f.map_values(f).push(
                        f(text[i as int]),
                    ));
                    assert(pair_views(r@) =~= pair_views(before).push((a@, b@)));
                }
            },
            _ => {
                assert(text.take(i + 1).filter(pred) == text.take(i as int).filter(pred));
            },
        }
        i = i + 1;
    }
    assert(text.take(text.len() as int) =~= text);
    r
}

/// Rating entries with the rating reduced to its ASCII digits.
pub open spec fn digit_ratings(v: Seq<(Seq<char>, Seq<char>)>) -> Seq<(Seq<char>, Seq<char>)> {
    v.map_values(|p: (Seq<char>, Seq<char>)| (p.0, p.1.filter(|c: char| is_ascii_digit(c))))
}

/// The entries of the federation's rating list: each player's name and
/// the digits of the rating, for the rows that hold both.
pub fn ranking_entries_of_page(body: &str) -> (r: Vec<(String, String)>)
    ensures
        pair_views(r@) == digit_ratings(both_present(ranking_cells_of(body@))),
{
    let pairs = present_pairs(scrape_ranking_cells(body));
    let mut r: Vec<(String, String)> = Vec::new();
    let mut i: usize = 0;
    while i < pairs.len()
        invariant
            i <= pairs@.len(),
            pair_views(r@) =~= digit_ratings(pair_views(pairs@)).take(i as int),
        decreases pairs@.len() - i,
    {
        let digits = keep_ascii_digits(pairs[i].1.as_str());
        let name = pairs[i].0.clone();
        let ghost before = r@;
        r.push((name, digits));
        assert(pair_views(pairs@)[i as int] == (pairs@[i as int].0@, pairs@[i as int].1@));
        assert(digit_ratings(pair_views(pairs@))[i as int] == (name@, digits@));
        assert(pair_views(r@) =~= pair_views(before).push((name@, digits@)));
        assert(pair_views(r@) =~= digit_ratings(pair_views(pairs@)).take(i + 1));
        i = i + 1;
    }
    assert(digit_ratings(pair_views(pairs@)).take(pairs@.len() as int) =~= digit_ratings(
        pair_views(pairs@),
    ));
    r
}

/// The entries of the goratings list: each player's name and rating text,
/// for the rows that hold both.
pub fn goratings_entries_of_page(body: &str) -> (r: Vec<(String, String)>)
    ensures
        pair_views(r@) == both_present(goratings_cells_of(body@)),
{
    present_pairs(scrape_goratings_cells(body))
}

/// The month of the federation's rating list, as the digits of its
/// selected month button; `None` when the page has no such button.
pub fn ranking_month_of_page(body: &str) -> (r: Option<String>)
    ensures
        match ranking_month_text_of(body@) {
            None => r is None,
            Some(t) => r matches Some(s) && s@ == t.filter(|c: char| is_ascii_digit(c)),
        },
{
    match scrape_ranking_month(body) {
        None => None,
        Some(t) => Some(keep_ascii_digits(t.as_str())),
    }
}

} // verus!
