use jgsm::lineup::{all_lineups, all_post_lineups, filter_lineups, Lineup, PostLineup};
use jgsm::selection::ordered_selections;
use std::collections::HashSet;

#[test]
fn selections_of_two_out_of_three() {
    let s = ordered_selections(3, 2);
    assert_eq!(s, vec![vec![0, 1], vec![0, 2], vec![1, 0], vec![1, 2], vec![2, 0], vec![2, 1]]);
}

#[test]
fn selections_edge_cases() {
    assert_eq!(ordered_selections(3, 0), vec![Vec::<usize>::new()]);
    assert!(ordered_selections(2, 3).is_empty());
    assert_eq!(ordered_selections(1, 1), vec![vec![0]]);
}

#[test]
fn lineup_count_is_falling_factorial() {
    assert_eq!(all_lineups(6).len(), 6 * 5 * 4 * 3);
    assert_eq!(all_post_lineups(6).len(), 6 * 5 * 4 * 3 * 2);
    assert_eq!(all_lineups(4).len(), 24);
    assert_eq!(all_lineups(3).len(), 0);
    assert_eq!(all_post_lineups(5).len(), 120);
}

#[test]
fn lineups_are_distinct_and_ordered() {
    let l = all_lineups(5);
    let keys: Vec<(usize, usize, usize, usize)> =
        l.iter().map(|x| (x.first_rapid, x.second_blitz, x.third_blitz, x.forth_blitz)).collect();
    let set: HashSet<_> = keys.iter().cloned().collect();
    assert_eq!(set.len(), keys.len());
    let mut sorted = keys.clone();
    sorted.sort();
    assert_eq!(sorted, keys);
    for (a, b, c, d) in keys {
        let seats = [a, b, c, d];
        let distinct: HashSet<_> = seats.iter().collect();
        assert_eq!(distinct.len(), 4);
        assert!(seats.iter().all(|&p| p < 5));
    }
}

#[test]
fn post_lineups_follow_nested_loops() {
    let l = all_post_lineups(5);
    let first = l[0];
    assert_eq!(
        (first.first_rapid, first.second_blitz, first.third_blitz, first.forth_blitz, first.fifth_bullet),
        (0, 1, 2, 3, 4)
    );
    let second = l[1];
    assert_eq!(
        (second.first_rapid, second.second_blitz, second.third_blitz, second.forth_blitz, second.fifth_bullet),
        (0, 1, 2, 4, 3)
    );
    let last = l[l.len() - 1];
    assert_eq!(
        (last.first_rapid, last.second_blitz, last.third_blitz, last.forth_blitz, last.fifth_bullet),
        (4, 3, 2, 1, 0)
    );
}

#[test]
fn lineup_getters() {
    let l = Lineup::new("a", "b", "c", "d");
    assert_eq!((*l.first_rapid(), *l.second_blitz(), *l.third_blitz(), *l.forth_blitz()), ("a", "b", "c", "d"));
    let p = PostLineup::new(1, 2, 3, 4, 5);
    assert_eq!(*p.fifth_bullet(), 5);
    assert_eq!(*p.first_rapid(), 1);
}

#[test]
fn filter_keeps_fixed_boards() {
    let all = all_lineups(5);
    let fixed = Lineup::new(Some(2), None, None, Some(0));
    let kept = filter_lineups(&all, &fixed);
    assert_eq!(kept.len(), 6);
    assert!(kept.iter().all(|l| l.first_rapid == 2 && l.forth_blitz == 0));
    let open = Lineup::new(None, None, None, None);
    assert_eq!(filter_lineups(&all, &open).len(), all.len());
    let impossible = Lineup::new(Some(1), Some(1), None, None);
    assert!(filter_lineups(&all, &impossible).is_empty());
}
