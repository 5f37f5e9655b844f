//! Reading a live broadcast of league games: which games count, which
//! board a game is, and how a finished game ended for a player.
use vstd::prelude::*;
use crate::records::Stone;
use crate::text::{chars_of, contains, parse_u32_chars, parsed_unsigned, text_contains};

verus! {

/// A broadcast of the Korean league (its title names `KB`, `韩国围甲` or `韩围甲`).
pub open spec fn is_league_text(text: Seq<char>) -> bool {
    text_contains(text, "KB"@) || text_contains(text, "韩国围甲"@) || text_contains(text, "韩围甲"@)
}

/// Whether a broadcast's text marks it as a league game.
pub fn is_league_broadcast(text: &str) -> (r: bool)
    ensures
        r == is_league_text(text@),
        text_contains(text@, "KB"@) ==> r,
        text_contains(text@, "韩国围甲"@) ==> r,
        text_contains(text@, "韩围甲"@) ==> r,
        r ==> text_contains(text@, "KB"@) || text_contains(text@, "韩国围甲"@) || text_contains(
            text@,
            "韩围甲"@,
        ),
{
    contains(text, "KB") || contains(text, "韩国围甲") || contains(text, "韩围甲")
}

/// The index of the first `sep` in `s`, or `s.len()` when there is none.
pub open spec fn sep_index(s: Seq<char>, sep: char) -> int
    decreases s.len(),
{
    if s.len() == 0 {
        0
    } else if s[0] == sep {
        0
    } else {
        1 + sep_index(s.drop_first(), sep)
    }
}

/// The `n`-th piece of `s` split at every `sep` (`s.split(sep).nth(n)`).
pub open spec fn piece(s: Seq<char>, sep: char, n: nat) -> Option<Seq<char>>
    decreases n,
{
    let i = sep_index(s, sep);
    if n == 0 {
        Some(s.take(i))
    } else if i < s.len() {
        piece(s.skip(i + 1), sep, (n - 1) as nat)
    } else {
        None
    }
}

proof fn lemma_sep_index(s: Seq<char>, sep: char, i: int)
    requires
        0 <= i <= s.len(),
        forall|k: int| 0 <= k < i ==> s[k] != sep,
        i == s.len() || s[i] == sep,
    ensures
        sep_index(s, sep) == i,
    decreases i,
{
    if i > 0 {
        let t = s.drop_first();
        assert forall|k: int| 0 <= k < i - 1 implies t[k] != sep by {
            assert(t[k] == s[k + 1]);
        }
        if i < s.len() {
            assert(t[i - 1] == s[i]);
        }
        lemma_sep_index(t, sep, i - 1);
    }
}

fn find_sep(v: &Vec<char>, start: usize, sep: char) -> (r: usize)
    requires
        start <= v@.len(),
    ensures
        start <= r <= v@.len(),
        r - start == sep_index(v@.skip(start as int), sep),
{
    let mut i = start;
    while i < v.len() && v[i] != sep
        invariant
            start <= i <= v@.len(),
            forall|k: int| start <= k < i ==> v@[k] != sep,
        decreases v@.len() - i,
    {
        i = i + 1;
    }
    proof {
        let t = v@.skip(start as int);
        assert forall|k: int| 0 <= k < i - start implies t[k] != sep by {
            assert(t[k] == v@[k + start]);
        }
        if i < v@.len() {
            assert(t[i - start] == v@[i as int]);
        }
        lemma_sep_index(t, sep, i - start);
    }
    i
}

fn nth_piece(v: &Vec<char>, sep: char, n: usize) -> (r: Option<Vec<char>>)
    ensures
        match piece(v@, sep, n as nat) {
            Some(p) => r matches Some(x) && x@ == p,
            None => r is None,
        },
{
    let mut start: usize = 0;
    let mut k: usize = 0;
    assert(v@.skip(0) =~= v@);
    while k < n
        invariant
            start <= v@.len(),
            k <= n,
            piece(v@, sep, n as nat) == piece(v@.skip(start as int), sep, (n - k) as nat),
        decreases n - k,
    {
        let i = find_sep(v, start, sep);
        if i == v.len() {
            return None;
        }
        proof {
            let t = v@.skip(start as int);
            assert(t.skip(i - start + 1) =~= v@.skip(i + 1));
        }
        start = i + 1;
        k = k + 1;
    }
    let end = find_sep(v, start, sep);
    let mut out: Vec<char> = Vec::new();
    let mut j = start;
    while j < end
        invariant
            start <= j <= end <= v@.len(),
            out@ == v@.subrange(start as int, j as int),
        decreases end - j,
    {
        out.push(v[j]);
        j = j + 1;
        assert(out@ =~= v@.subrange(start as int, j as int));
    }
    assert(v@.skip(start as int).take(end - start) =~= v@.subrange(start as int, end as int));
    Some(out)
}

/// The clock time `HH:MM` that a broadcast writes after its first space, as
/// (hour, minute), when both parts read as numbers and make a time of day.
pub open spec fn live_clock_of(text: Seq<char>) -> Option<(u32, u32)> {
    match piece(text, ' ', 1) {
        None => None,
        Some(t) => match (piece(t, ':', 0), piece(t, ':', 1)) {
            (Some(h), Some(m)) => match (
                parsed_unsigned(h, u32::MAX as int),
                parsed_unsigned(m, u32::MAX as int),
            ) {
                (Some(hv), Some(mv)) => if hv < 24 && mv < 60 {
                    Some((hv as u32, mv as u32))
                } else {
                    None
                },
                _ => None,
            },
            _ => None,
        },
    }
}

/// The clock time of a broadcast (see `live_clock_of`); `None` where the
/// text does not give one.
pub fn live_clock(text: &str) -> (r: Option<(u32, u32)>)
    ensures
        r == live_clock_of(text@),
{
    let v = chars_of(text);
    let t = match nth_piece(&v, ' ', 1) {
        None => return None,
        Some(t) => t,
    };
    let h = match nth_piece(&t, ':', 0) {
        None => return None,
        Some(h) => h,
    };
    let m = match nth_piece(&t, ':', 1) {
        None => return None,
        Some(m) => m,
    };
    let hv = match parse_u32_chars(&h) {
        None => return None,
        Some(x) => x,
    };
    let mv = match parse_u32_chars(&m) {
        None => return None,
        Some(x) => x,
    };
    if hv < 24 && mv < 60 {
        Some((hv, mv))
    } else {
        None
    }
}

/// Whether a game that a broadcast shows counts: it is a league game
/// started before 20:00. `None` when the broadcast's time is not a time of
/// day.
pub fn counts_as_league_game(text: &str, time_text: &str) -> (r: Option<bool>)
    ensures
        match live_clock_of(time_text@) {
            None => r is None,
            Some((h, m)) => r == Some(is_league_text(text@) && h < 20),
        },
{
    match live_clock(time_text) {
        None => None,
        Some((h, _m)) => Some(is_league_broadcast(text) && h < 20),
    }
}

/// Both names of pair `p` occur in `text`.
pub open spec fn names_both_in(text: Seq<char>, p: (Seq<char>, Seq<char>)) -> bool {
    text_contains(text, p.0) && text_contains(text, p.1)
}

/// The board whose two players' names both occur in a broadcast's text:
/// the first such board of `pairs` (one pair of names per board).
pub fn identify_board(text: &str, pairs: &Vec<(String, String)>) -> (r: Option<usize>)
    ensures
        match r {
            Some(i) => i < pairs@.len() && names_both_in(text@, (pairs@[i as int].0@, pairs@[i as int].1@))
                && forall|j: int|
                0 <= j < i ==> !names_both_in(text@, (#[trigger] pairs@[j].0@, pairs@[j].1@)),
            None => forall|j: int|
                0 <= j < pairs@.len() ==> !names_both_in(text@, (#[trigger] pairs@[j].0@, pairs@[j].1@)),
        },
{
    let mut i: usize = 0;
    while i < pairs.len()
        invariant
            i <= pairs@.len(),
            forall|j: int| 0 <= j < i ==> !names_both_in(text@, (#[trigger] pairs@[j].0@, pairs@[j].1@)),
        decreases pairs@.len() - i,
    {
        if contains(text, pairs[i].0.as_str()) && contains(text, pairs[i].1.as_str()) {
            return Some(i);
        }
        i = i + 1;
    }
    None
}

/// The colour `name` plays in a broadcast: black when the black player's
/// label holds the name, else white when the white player's label does.
pub open spec fn side_of_name(name: Seq<char>, black: Seq<char>, white: Seq<char>) -> Option<Stone> {
    if text_contains(black, name) {
        Some(Stone::Black)
    } else if text_contains(white, name) {
        Some(Stone::White)
    } else {
        None
    }
}

/// The colour a player plays in a broadcast (see `side_of_name`).
pub fn side_of(name: &str, black_player: &str, white_player: &str) -> (r: Option<Stone>)
    ensures
        r == side_of_name(name@, black_player@, white_player@),
        text_contains(black_player@, name@) ==> r == Some(Stone::Black),
        !text_contains(black_player@, name@) && text_contains(white_player@, name@) ==> r == Some(
            Stone::White,
        ),
        !text_contains(black_player@, name@) && !text_contains(white_player@, name@) ==> r is None,
{
    if contains(black_player, name) {
        Some(Stone::Black)
    } else if contains(white_player, name) {
        Some(Stone::White)
    } else {
        None
    }
}

/// The colour that won a finished game, from the broadcast's result tag:
/// black for `黑胜` or `黑中盘胜`, else white for `白胜` or `白中盘胜`.
pub open spec fn winner_of_tag(tag: Seq<char>) -> Option<Stone> {
    if text_contains(tag, "黑胜"@) || text_contains(tag, "黑中盘胜"@) {
        Some(Stone::Black)
    } else if text_contains(tag, "白胜"@) || text_contains(tag, "白中盘胜"@) {
        Some(Stone::White)
    } else {
        None
    }
}

/// The colour that won a finished game (see `winner_of_tag`).
pub fn finished_winner(tag: &str) -> (r: Option<Stone>)
    ensures
        r == winner_of_tag(tag@),
        text_contains(tag@, "黑胜"@) ==> r == Some(Stone::Black),
        text_contains(tag@, "黑中盘胜"@) ==> r == Some(Stone::Black),
        !text_contains(tag@, "黑胜"@) && !text_contains(tag@, "黑中盘胜"@) && (text_contains(
            tag@,
            "白胜"@,
        ) || text_contains(tag@, "白中盘胜"@)) ==> r == Some(Stone::White),
        !text_contains(tag@, "黑胜"@) && !text_contains(tag@, "黑中盘胜"@) && !text_contains(
            tag@,
            "白胜"@,
        ) && !text_contains(tag@, "白中盘胜"@) ==> r is None,
{
    if contains(tag, "黑胜") || contains(tag, "黑中盘胜") {
        Some(Stone::Black)
    } else if contains(tag, "白胜") || contains(tag, "白中盘胜") {
        Some(Stone::White)
    } else {
        None
    }
}

/// How a finished game ended for a player: `Some(true)` won, `Some(false)`
/// lost, `None` when the player's colour is unknown.
pub fn finished_result(winner: Stone, side: Option<Stone>) -> (r: Option<bool>)
    ensures
        match side {
            None => r is None,
            Some(s) => r == Some(s == winner),
        },
{
    match side {
        None => None,
        Some(s) => Some(match (s, winner) {
            (Stone::Black, Stone::Black) => true,
            (Stone::White, Stone::White) => true,
            _ => false,
        }),
    }
}

/// Both names of pair `p` occur in the two players' labels, each in one of them.
pub open spec fn pairing_shown(black: Seq<char>, white: Seq<char>, p: (Seq<char>, Seq<char>)) -> bool {
    &&& (text_contains(black, p.0) || text_contains(white, p.0))
    &&& (text_contains(black, p.1) || text_contains(white, p.1))
}

/// The tie-break pairing a broadcast shows: the first pair of `pairs` whose
/// two names both occur among the players' labels.
pub fn find_shown_pairing(pairs: &Vec<(String, String)>, black_player: &str, white_player: &str) -> (r:
    Option<usize>)
    ensures
        match r {
            Some(i) => i < pairs@.len() && pairing_shown(
                black_player@,
                white_player@,
                (pairs@[i as int].0@, pairs@[i as int].1@),
            ) && forall|j: int|
                0 <= j < i ==> !pairing_shown(
                    black_player@,
                    white_player@,
                    (#[trigger] pairs@[j].0@, pairs@[j].1@),
                ),
            None => forall|j: int|
                0 <= j < pairs@.len() ==> !pairing_shown(
                    black_player@,
                    white_player@,
                    (#[trigger] pairs@[j].0@, pairs@[j].1@),
                ),
        },
{
    let mut i: usize = 0;
    while i < pairs.len()
        invariant
            i <= pairs@.len(),
            forall|j: int|
                0 <= j < i ==> !pairing_shown(
                    black_player@,
                    white_player@,
                    (#[trigger] pairs@[j].0@, pairs@[j].1@),
                ),
        decreases pairs@.len() - i,
    {
        let a = pairs[i].0.as_str();
        let b = pairs[i].1.as_str();
        if (contains(black_player, a) || contains(white_player, a)) && (contains(black_player, b)
            || contains(white_player, b)) {
            return Some(i);
        }
        i = i + 1;
    }
    None
}

} // verus!
