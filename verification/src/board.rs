//! Boards of a match: game speed and stone colour per board, who meets whom,
//! and how the boards split into won and lost ones.
use vstd::prelude::*;
use vstd::string::StringExecFns;
use itertools::Itertools;
use crate::records::Stone;
use crate::selection::{strictly_sorted, views};
use crate::text::same_text;

verus! {

/// The time control of a board.
#[derive(Clone, Copy, Debug, PartialEq, Eq, Structural)]
pub enum Speed {
    Rapid,
    Blitz,
    Bullet,
}

/// How board games are played: speed, and each side's colour when known.
#[derive(Clone, Copy, Debug, PartialEq, Eq, Structural)]
pub struct BoardCondition {
    pub speed: Speed,
    pub player1_color: Option<Stone>,
    pub player2_color: Option<Stone>,
}

/// The other colour.
pub open spec fn opposite(s: Stone) -> Stone {
    match s {
        Stone::Black => Stone::White,
        Stone::White => Stone::Black,
    }
}

/// Board `i` (0 to 4) of a post-season match: board 0 is rapid, boards 1
/// to 3 blitz, board 4 bullet. When the colours are known (`colors_known`),
/// team 1 has black on the even boards if it has black on the first board
/// (`first_black`) and white on them otherwise, alternating board by
/// board; team 2 always has the other colour.
pub open spec fn board_condition(i: int, colors_known: bool, first_black: bool) -> BoardCondition {
    let speed = if i == 0 {
        Speed::Rapid
    } else if i == 4 {
        Speed::Bullet
    } else {
        Speed::Blitz
    };
    if colors_known {
        let c1 = if (i % 2 == 0) == first_black {
            Stone::Black
        } else {
            Stone::White
        };
        BoardCondition { speed, player1_color: Some(c1), player2_color: Some(opposite(c1)) }
    } else {
        BoardCondition { speed, player1_color: None, player2_color: None }
    }
}

/// The conditions of the five boards of a post-season match.
pub fn board_conditions(colors_known: bool, first_black: bool) -> (r: Vec<BoardCondition>)
    ensures
        r@.len() == 5,
        forall|i: int| 0 <= i < 5 ==> #[trigger] r@[i] == board_condition(i, colors_known, first_black),
        r@[0].speed == Speed::Rapid,
        r@[1].speed == Speed::Blitz,
        r@[2].speed == Speed::Blitz,
        r@[3].speed == Speed::Blitz,
        r@[4].speed == Speed::Bullet,
        !colors_known ==> forall|i: int|
            0 <= i < 5 ==> (#[trigger] r@[i]).player1_color is None && r@[i].player2_color is None,
        colors_known ==> r@[0].player1_color == Some(
            if first_black {
                Stone::Black
            } else {
                Stone::White
            },
        ),
        colors_known ==> forall|i: int|
            0 <= i < 5 ==> (#[trigger] r@[i]).player1_color is Some && r@[i].player2_color is Some
                && r@[i].player1_color != r@[i].player2_color,
        colors_known ==> forall|i: int|
            0 <= i < 4 ==> (#[trigger] r@[i]).player1_color != r@[i + 1].player1_color,
{
    let mut r: Vec<BoardCondition> = Vec::new();
    let mut i: usize = 0;
    while i < 5
        invariant
            i <= 5,
            r@.len() == i,
            forall|k: int| 0 <= k < i ==> #[trigger] r@[k] == board_condition(k, colors_known, first_black),
        decreases 5 - i,
    {
        let speed = if i == 0 {
            Speed::Rapid
        } else if i == 4 {
            Speed::Bullet
        } else {
            Speed::Blitz
        };
        let cond = if colors_known {
            let black = (i % 2 == 0) == first_black;
            if black {
                BoardCondition {
                    speed,
                    player1_color: Some(Stone::Black),
                    player2_color: Some(Stone::White),
                }
            } else {
                BoardCondition {
                    speed,
                    player1_color: Some(Stone::White),
                    player2_color: Some(Stone::Black),
                }
            }
        } else {
            BoardCondition { speed, player1_color: None, player2_color: None }
        };
        r.push(cond);
        i = i + 1;
    }
    assert(r@[0] == board_condition(0, colors_known, first_black));
    assert(r@[1] == board_condition(1, colors_known, first_black));
    assert(r@[2] == board_condition(2, colors_known, first_black));
    assert(r@[3] == board_condition(3, colors_known, first_black));
    assert(r@[4] == board_condition(4, colors_known, first_black));
    r
}

/// With colours known, the two sides of a board have opposite colours, and
/// each team's colour changes from one board to the next.
pub proof fn lemma_colors_alternate(i: int, first_black: bool)
    requires
        0 <= i < 4,
    ensures
        board_condition(i, true, first_black).player1_color matches Some(c) && board_condition(
            i,
            true,
            first_black,
        ).player2_color == Some(opposite(c)),
        board_condition(i, true, first_black).player1_color matches Some(c) && board_condition(
            i + 1,
            true,
            first_black,
        ).player1_color == Some(opposite(c)),
{
}

/// `i` is the first index whose pair is (`a`, `b`).
pub open spec fn is_first_pair(pairs: Seq<(Seq<char>, Seq<char>)>, a: Seq<char>, b: Seq<char>, i: int) -> bool {
    &&& 0 <= i < pairs.len()
    &&& pairs[i] == (a, b)
    &&& forall|j: int| 0 <= j < i ==> pairs[j] != (a, b)
}

/// The name pairs of a list of pairings.
pub open spec fn pair_views(pairs: Seq<(String, String)>) -> Seq<(Seq<char>, Seq<char>)> {
    pairs.map_values(|p: (String, String)| (p.0@, p.1@))
}

/// The first pairing of `player1` against `player2` in `pairs` (pairs of
/// names: team 1's player, team 2's player).
pub fn find_pairing(pairs: &Vec<(String, String)>, player1: &str, player2: &str) -> (r: Option<
    usize,
>)
    ensures
        match r {
            Some(i) => is_first_pair(pair_views(pairs@), player1@, player2@, i as int),
            None => forall|j: int|
                0 <= j < pairs@.len() ==> #[trigger] pair_views(pairs@)[j] != (player1@, player2@),
        },
{
    let mut i: usize = 0;
    while i < pairs.len()
        invariant
            i <= pairs@.len(),
            forall|j: int| 0 <= j < i ==> #[trigger] pair_views(pairs@)[j] != (player1@, player2@),
        decreases pairs@.len() - i,
    {
        assert(pair_views(pairs@)[i as int] == (pairs@[i as int].0@, pairs@[i as int].1@));
        if same_text(pairs[i].0.as_str(), player1) && same_text(pairs[i].1.as_str(), player2) {
            return Some(i);
        }
        i = i + 1;
    }
    None
}

/// The first place of `name` in `names`.
pub fn position_of(names: &Vec<String>, name: &str) -> (r: Option<usize>)
    ensures
        match r {
            Some(i) => i < names@.len() && names@[i as int]@ == name@ && forall|j: int|
                0 <= j < i ==> #[trigger] names@[j]@ != name@,
            None => forall|j: int| 0 <= j < names@.len() ==> #[trigger] names@[j]@ != name@,
        },
{
    let mut i: usize = 0;
    while i < names.len()
        invariant
            i <= names@.len(),
            forall|j: int| 0 <= j < i ==> #[trigger] names@[j]@ != name@,
        decreases names@.len() - i,
    {
        if same_text(names[i].as_str(), name) {
            return Some(i);
        }
        i = i + 1;
    }
    None
}

/// `s` picks `k` of the boards `0..n`, in increasing order.
pub open spec fn is_combination(s: Seq<usize>, n: int, k: int) -> bool {
    &&& s.len() == k
    &&& forall|i: int| 0 <= i < s.len() ==> #[trigger] s[i] < n
    &&& forall|i: int, j: int| 0 <= i < j < s.len() ==> s[i] < s[j]
}

/// `(0..n).combinations(k)` of itertools, collected: every way to pick `k`
/// of `0..n` as an increasing sequence, each once, in lexicographic order
/// (the order in which its index vector advances; for `k > n` there is none).
#[verifier::external_body]
fn index_combinations(n: usize, k: usize) -> (r: Vec<Vec<usize>>)
    ensures
        forall|i: int| 0 <= i < r@.len() ==> is_combination(#[trigger] r@[i]@, n as int, k as int),
        forall|s: Seq<usize>| is_combination(s, n as int, k as int) ==> views(r@).contains(s),
        strictly_sorted(views(r@)),
{
    (0..n).combinations(k).collect()
}

/// Every set of `wins` boards out of `boards` that a team can win, in
/// lexicographic order, each once.
pub fn win_index_sets(boards: usize, wins: usize) -> (r: Vec<Vec<usize>>)
    ensures
        forall|i: int| 0 <= i < r@.len() ==> is_combination(#[trigger] r@[i]@, boards as int, wins as int),
        forall|s: Seq<usize>| is_combination(s, boards as int, wins as int) ==> views(r@).contains(s),
        strictly_sorted(views(r@)),
{
    index_combinations(boards, wins)
}

/// The boards `0..boards` that are not in `won`, in increasing order.
pub open spec fn lost_boards(boards: int, won: Seq<usize>) -> Seq<usize> {
    Seq::new(boards as nat, |i: int| i as usize).filter(|i: usize| !won.contains(i))
}

/// The boards of a match that a set of won boards leaves lost.
pub fn losing_boards(boards: usize, won: &Vec<usize>) -> (r: Vec<usize>)
    ensures
        r@ == lost_boards(boards as int, won@),
{
    let ghost all = Seq::new(boards as nat, |i: int| i as usize);
    let mut r: Vec<usize> = Vec::new();
    let mut i: usize = 0;
    while i < boards
        invariant
            i <= boards,
            all == Seq::new(boards as nat, |i: int| i as usize),
            r@ == all.take(i as int).filter(|x: usize| !won@.contains(x)),
        decreases boards - i,
    {
        proof {
            reveal_with_fuel(Seq::<_>::filter, 1);
            assert(all.take(i + 1).drop_last() =~= all.take(i as int));
            assert(all.take(i + 1).last() == i);
        }
        let mut found = false;
        let mut j: usize = 0;
        while j < won.len()
            invariant
                j <= won@.len(),
                found == exists|t: int| 0 <= t < j && won@[t] == i,
            decreases won@.len() - j,
        {
            if won[j] == i {
                found = true;
            }
            j = j + 1;
        }
        if !found {
            r.push(i);
        }
        i = i + 1;
    }
    assert(all.take(boards as int) =~= all);
    r
}

/// A board is either won or lost, never both: a set of won boards and the
/// boards it leaves lost share no board, and together they are all boards.
pub proof fn lemma_boards_split(boards: int, won: Seq<usize>)
    requires
        0 <= boards <= usize::MAX,
        forall|i: int| 0 <= i < won.len() ==> #[trigger] won[i] < boards,
    ensures
        forall|b: usize| (b as int) < boards ==> (won.contains(b) != lost_boards(boards, won).contains(b)),
        forall|b: usize| lost_boards(boards, won).contains(b) ==> (b as int) < boards,
{
    let all = Seq::new(boards as nat, |i: int| i as usize);
    let pred = |x: usize| !won.contains(x);
    assert forall|b: usize| (b as int) < boards implies (won.contains(b) != lost_boards(boards, won).contains(b)) by {
        assert(all[b as int] == b);
        assert(all.contains(b));
        if won.contains(b) {
            if lost_boards(boards, won).contains(b) {
                all.lemma_filter_contains_rev(pred, b);
            }
        } else {
            all.lemma_filter_contains(pred, b as int);
        }
    }
    assert forall|b: usize| lost_boards(boards, won).contains(b) implies (b as int) < boards by {
        all.lemma_filter_contains_rev(pred, b);
    }
}

/// The packed `0xRRGGBB` colour of a cell from its red, green and blue parts
/// (`red << 16 | green << 8 | blue`).
pub fn pack_rgb(red: u32, green: u32, blue: u32) -> (r: u32)
    ensures
        r == (red << 16u32) | (green << 8u32) | blue,
        red < 256 && green < 256 && blue < 256 ==> r == red * 65536 + green * 256 + blue,
{
    let r = (red << 16u32) | (green << 8u32) | blue;
    assert(red < 256 && green < 256 && blue < 256 ==> (red << 16u32) | (green << 8u32) | blue == red
        * 65536 + green * 256 + blue) by (bit_vector);
    r
}

/// The column header of a line-up: its players by board, the first
/// board's player named last (`1국:<2nd>, 2국:<3rd>, 3국:<4th>, 4국:<1st>`).
pub fn lineup_label(first_rapid: &str, second_blitz: &str, third_blitz: &str, forth_blitz: &str) -> (r:
    String)
    ensures
        r@ == "1국:"@ + second_blitz@ + ", 2국:"@ + third_blitz@ + ", 3국:"@ + forth_blitz@
            + ", 4국:"@ + first_rapid@,
{
    let mut s = String::from_str("1국:");
    s.append(second_blitz);
    s.append(", 2국:");
    s.append(third_blitz);
    s.append(", 3국:");
    s.append(forth_blitz);
    s.append(", 4국:");
    s.append(first_rapid);
    s
}

} // verus!
