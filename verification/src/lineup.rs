//! Line-ups: who plays on which board.
//!
//! A regular-season match has four boards (one rapid game, three blitz
//! games); a post-season match adds a fifth, bullet board.
use vstd::prelude::*;
use crate::selection::{
    extensions, falling, is_selection, lemma_sorted_no_repeats, ordered_selections, strictly_sorted, views,
};

verus! {

/// The players of a four-board line-up.
#[derive(Clone, Copy, Debug)]
pub struct Lineup<P> {
    pub first_rapid: P,
    pub second_blitz: P,
    pub third_blitz: P,
    pub forth_blitz: P,
}

impl<P> Lineup<P> {
    pub fn new(first_rapid: P, second_blitz: P, third_blitz: P, forth_blitz: P) -> (r: Self)
        ensures
            r.first_rapid == first_rapid,
            r.second_blitz == second_blitz,
            r.third_blitz == third_blitz,
            r.forth_blitz == forth_blitz,
    {
        Lineup { first_rapid, second_blitz, third_blitz, forth_blitz }
    }

    pub fn first_rapid(&self) -> (r: &P)
        ensures
            *r == self.first_rapid,
    {
        &self.first_rapid
    }

    pub fn second_blitz(&self) -> (r: &P)
        ensures
            *r == self.second_blitz,
    {
        &self.second_blitz
    }

    pub fn third_blitz(&self) -> (r: &P)
        ensures
            *r == self.third_blitz,
    {
        &self.third_blitz
    }

    pub fn forth_blitz(&self) -> (r: &P)
        ensures
            *r == self.forth_blitz,
    {
        &self.forth_blitz
    }
}

/// The players of a five-board (post-season) line-up.
#[derive(Clone, Copy, Debug)]
pub struct PostLineup<P> {
    pub first_rapid: P,
    pub second_blitz: P,
    pub third_blitz: P,
    pub forth_blitz: P,
    pub fifth_bullet: P,
}

impl<P> PostLineup<P> {
    pub fn new(first_rapid: P, second_blitz: P, third_blitz: P, forth_blitz: P, fifth_bullet: P) -> (r:
        Self)
        ensures
            r.first_rapid == first_rapid,
            r.second_blitz == second_blitz,
            r.third_blitz == third_blitz,
            r.forth_blitz == forth_blitz,
            r.fifth_bullet == fifth_bullet,
    {
        PostLineup { first_rapid, second_blitz, third_blitz, forth_blitz, fifth_bullet }
    }

    pub fn first_rapid(&self) -> (r: &P)
        ensures
            *r == self.first_rapid,
    {
        &self.first_rapid
    }

    pub fn second_blitz(&self) -> (r: &P)
        ensures
            *r == self.second_blitz,
    {
        &self.second_blitz
    }

    pub fn third_blitz(&self) -> (r: &P)
        ensures
            *r == self.third_blitz,
    {
        &self.third_blitz
    }

    pub fn forth_blitz(&self) -> (r: &P)
        ensures
            *r == self.forth_blitz,
    {
        &self.forth_blitz
    }

    pub fn fifth_bullet(&self) -> (r: &P)
        ensures
            *r == self.fifth_bullet,
    {
        &self.fifth_bullet
    }
}

/// The four-board line-up that seats the players of `s`, board by board.
pub open spec fn lineup_of(s: Seq<usize>) -> Lineup<usize> {
    Lineup { first_rapid: s[0], second_blitz: s[1], third_blitz: s[2], forth_blitz: s[3] }
}

/// The five-board line-up that seats the players of `s`, board by board.
pub open spec fn post_lineup_of(s: Seq<usize>) -> PostLineup<usize> {
    PostLineup {
        first_rapid: s[0],
        second_blitz: s[1],
        third_blitz: s[2],
        forth_blitz: s[3],
        fifth_bullet: s[4],
    }
}

/// Every four-board line-up of a squad of `squad_size` players (players
/// named by their index in the squad), no player on two boards. The
/// line-ups come in the order of nested loops over the boards, first board
/// outermost; each possible line-up occurs exactly once.
///
/// Players are told apart by their place in the squad: two squad entries
/// that are equal players (or share a name) still count as two players
/// here, where a comparison of the players themselves would take them for
/// one. For a squad without repeated players the two agree.
pub fn all_lineups(squad_size: usize) -> (r: Vec<Lineup<usize>>)
    ensures
        r@.len() == extensions(squad_size, 4, Seq::empty()).len(),
        r@.len() == falling(squad_size as int, 4),
        forall|i: int|
            0 <= i < r@.len() ==> #[trigger] r@[i] == lineup_of(
                extensions(squad_size, 4, Seq::empty())[i],
            ),
        forall|i: int|
            0 <= i < r@.len() ==> is_selection(
                extensions(squad_size, 4, Seq::empty())[i],
                squad_size as int,
                4,
            ),
        forall|s: Seq<usize>|
            is_selection(s, squad_size as int, 4) ==> exists|i: int|
                0 <= i < r@.len() && #[trigger] r@[i] == lineup_of(s),
        forall|i: int, j: int| 0 <= i < j < r@.len() ==> r@[i] != r@[j],
{
    let sel = ordered_selections(squad_size, 4);
    let ghost e = extensions(squad_size, 4, Seq::empty());
    let mut r: Vec<Lineup<usize>> = Vec::new();
    let mut i: usize = 0;
    while i < sel.len()
        invariant
            views(sel@) == e,
            forall|t: int| 0 <= t < sel@.len() ==> is_selection(#[trigger] sel@[t]@, squad_size as int, 4),
            i <= sel@.len(),
            r@.len() == i,
            forall|t: int| 0 <= t < i ==> #[trigger] r@[t] == lineup_of(e[t]),
        decreases sel@.len() - i,
    {
        let s = &sel[i];
        assert(e[i as int] == sel@[i as int]@);
        assert(is_selection(s@, squad_size as int, 4));
        r.push(Lineup::new(s[0], s[1], s[2], s[3]));
        i = i + 1;
    }
    proof {
        assert forall|t: int| 0 <= t < r@.len() implies is_selection(e[t], squad_size as int, 4) by {
            assert(e[t] == sel@[t]@);
        }
        assert forall|s: Seq<usize>| is_selection(s, squad_size as int, 4) implies exists|t: int|
            0 <= t < r@.len() && #[trigger] r@[t] == lineup_of(s) by {
            assert(views(sel@).contains(s));
            let t = choose|t: int| 0 <= t < e.len() && e[t] == s;
            assert(r@[t] == lineup_of(s));
        }
        lemma_sorted_no_repeats(e);
        assert forall|a: int, b: int| 0 <= a < b < r@.len() implies r@[a] != r@[b] by {
            let x = e[a];
            let y = e[b];
            assert(x != y);
            assert(is_selection(x, squad_size as int, 4) && is_selection(y, squad_size as int, 4));
            if r@[a] == r@[b] {
                assert(x =~= y);
            }
        }
    }
    r
}

/// Every five-board line-up of a squad of `squad_size` players (players
/// named by their index in the squad), no player on two boards, in the
/// order of nested loops over the boards; each occurs exactly once.
/// Players are told apart by their place in the squad, as in `all_lineups`.
pub fn all_post_lineups(squad_size: usize) -> (r: Vec<PostLineup<usize>>)
    ensures
        r@.len() == extensions(squad_size, 5, Seq::empty()).len(),
        r@.len() == falling(squad_size as int, 5),
        forall|i: int|
            0 <= i < r@.len() ==> #[trigger] r@[i] == post_lineup_of(
                extensions(squad_size, 5, Seq::empty())[i],
            ),
        forall|i: int|
            0 <= i < r@.len() ==> is_selection(
                extensions(squad_size, 5, Seq::empty())[i],
                squad_size as int,
                5,
            ),
        forall|s: Seq<usize>|
            is_selection(s, squad_size as int, 5) ==> exists|i: int|
                0 <= i < r@.len() && #[trigger] r@[i] == post_lineup_of(s),
        forall|i: int, j: int| 0 <= i < j < r@.len() ==> r@[i] != r@[j],
{
    let sel = ordered_selections(squad_size, 5);
    let ghost e = extensions(squad_size, 5, Seq::empty());
    let mut r: Vec<PostLineup<usize>> = Vec::new();
    let mut i: usize = 0;
    while i < sel.len()
        invariant
            views(sel@) == e,
            forall|t: int| 0 <= t < sel@.len() ==> is_selection(#[trigger] sel@[t]@, squad_size as int, 5),
            i <= sel@.len(),
            r@.len() == i,
            forall|t: int| 0 <= t < i ==> #[trigger] r@[t] == post_lineup_of(e[t]),
        decreases sel@.len() - i,
    {
        let s = &sel[i];
        assert(e[i as int] == sel@[i as int]@);
        assert(is_selection(s@, squad_size as int, 5));
        r.push(PostLineup::new(s[0], s[1], s[2], s[3], s[4]));
        i = i + 1;
    }
    proof {
        assert forall|t: int| 0 <= t < r@.len() implies is_selection(e[t], squad_size as int, 5) by {
            assert(e[t] == sel@[t]@);
        }
        assert forall|s: Seq<usize>| is_selection(s, squad_size as int, 5) implies exists|t: int|
            0 <= t < r@.len() && #[trigger] r@[t] == post_lineup_of(s) by {
            assert(views(sel@).contains(s));
            let t = choose|t: int| 0 <= t < e.len() && e[t] == s;
            assert(r@[t] == post_lineup_of(s));
        }
        lemma_sorted_no_repeats(e);
        assert forall|a: int, b: int| 0 <= a < b < r@.len() implies r@[a] != r@[b] by {
            let x = e[a];
            let y = e[b];
            assert(x != y);
            assert(is_selection(x, squad_size as int, 5) && is_selection(y, squad_size as int, 5));
            if r@[a] == r@[b] {
                assert(x =~= y);
            }
        }
    }
    r
}

/// `lineup` keeps every board that `fixed` pins (`Some(player)`); boards
/// pinned to `None` are open.
pub open spec fn fits(lineup: Lineup<usize>, fixed: Lineup<Option<usize>>) -> bool {
    &&& (fixed.first_rapid is None || fixed.first_rapid == Some(lineup.first_rapid))
    &&& (fixed.second_blitz is None || fixed.second_blitz == Some(lineup.second_blitz))
    &&& (fixed.third_blitz is None || fixed.third_blitz == Some(lineup.third_blitz))
    &&& (fixed.forth_blitz is None || fixed.forth_blitz == Some(lineup.forth_blitz))
}

fn board_fits(player: usize, pin: Option<usize>) -> (r: bool)
    ensures
        r == (pin is None || pin == Some(player)),
{
    match pin {
        None => true,
        Some(p) => p == player,
    }
}

/// The line-ups that respect the boards a team has fixed, in their order.
/// A board is fixed to a player's place in the squad, not to a name: two
/// squad entries with the same name are two different pins here.
pub fn filter_lineups(lineups: &Vec<Lineup<usize>>, fixed: &Lineup<Option<usize>>) -> (r: Vec<
    Lineup<usize>,
>)
    ensures
        r@ == lineups@.filter(|l: Lineup<usize>| fits(l, *fixed)),
        forall|i: int|
            0 <= i < r@.len() ==> {
                &&& (fixed.first_rapid is Some ==> (#[trigger] r@[i]).first_rapid == fixed.first_rapid.unwrap())
                &&& (fixed.second_blitz is Some ==> (#[trigger] r@[i]).second_blitz == fixed.second_blitz.unwrap())
                &&& (fixed.third_blitz is Some ==> (#[trigger] r@[i]).third_blitz == fixed.third_blitz.unwrap())
                &&& (fixed.forth_blitz is Some ==> (#[trigger] r@[i]).forth_blitz == fixed.forth_blitz.unwrap())
            },
        forall|i: int|
            0 <= i < r@.len() ==> lineups@.contains(#[trigger] r@[i]),
        forall|j: int|
            0 <= j < lineups@.len() && {
                &&& (fixed.first_rapid is Some ==> (#[trigger] lineups@[j]).first_rapid == fixed.first_rapid.unwrap())
                &&& (fixed.second_blitz is Some ==> (#[trigger] lineups@[j]).second_blitz == fixed.second_blitz.unwrap())
                &&& (fixed.third_blitz is Some ==> (#[trigger] lineups@[j]).third_blitz == fixed.third_blitz.unwrap())
                &&& (fixed.forth_blitz is Some ==> (#[trigger] lineups@[j]).forth_blitz == fixed.forth_blitz.unwrap())
            } ==> r@.contains(lineups@[j]),
{
    let mut r: Vec<Lineup<usize>> = Vec::new();
    let mut i: usize = 0;
    while i < lineups.len()
        invariant
            i <= lineups@.len(),
            r@ == lineups@.take(i as int).filter(|l: Lineup<usize>| fits(l, *fixed)),
        decreases lineups@.len() - i,
    {
        let l = lineups[i];
        proof {
            reveal_with_fuel(Seq::<_>::filter, 1);
            assert(lineups@.take(i + 1).drop_last() =~= lineups@.take(i as int));
        }
        if board_fits(l.first_rapid, fixed.first_rapid) && board_fits(
            l.second_blitz,
            fixed.second_blitz,
        ) && board_fits(l.third_blitz, fixed.third_blitz) && board_fits(
            l.forth_blitz,
            fixed.forth_blitz,
        ) {
            r.push(l);
        }
        i = i + 1;
    }
    assert(lineups@.take(lineups@.len() as int) =~= lineups@);
    proof {
        broadcast use vstd::seq_lib::group_filter_ensures;

        let pred = |l: Lineup<usize>| fits(l, *fixed);
        assert forall|i: int| 0 <= i < r@.len() implies lineups@.contains(#[trigger] r@[i]) by {
            lineups@.lemma_filter_contains_rev(pred, r@[i]);
        }
    }
    r
}

} // verus!
