//! Ordered selections of distinct players: the line-ups a squad can field.
//!
//! A selection of `k` out of `n` players is a sequence of `k` distinct
//! player indices below `n`; position `i` of the sequence is board `i`.
use vstd::prelude::*;

verus! {

/// `s` seats `k` distinct players out of `n`.
pub open spec fn is_selection(s: Seq<usize>, n: int, k: int) -> bool {
    &&& s.len() == k
    &&& forall|i: int| 0 <= i < s.len() ==> #[trigger] s[i] < n
    &&& forall|i: int, j: int| 0 <= i < j < s.len() ==> s[i] != s[j]
}

/// `prefix` can still be completed to a selection of `k` out of `n`.
pub open spec fn is_partial_selection(prefix: Seq<usize>, n: int, k: int) -> bool {
    &&& prefix.len() <= k
    &&& forall|i: int| 0 <= i < prefix.len() ==> #[trigger] prefix[i] < n
    &&& forall|i: int, j: int| 0 <= i < j < prefix.len() ==> prefix[i] != prefix[j]
}

/// `s` begins with `prefix`.
pub open spec fn extends(s: Seq<usize>, prefix: Seq<usize>) -> bool {
    prefix.len() <= s.len() && s.take(prefix.len() as int) == prefix
}

/// `a` comes before `b` in lexicographic order: at the first board where
/// they differ, `a` names the earlier player.
pub open spec fn lex_less(a: Seq<usize>, b: Seq<usize>) -> bool {
    exists|i: int| 0 <= i < a.len() && i < b.len() && a.take(i) == b.take(i) && a[i] < b[i]
}

/// Every entry of `r` comes strictly before every later entry.
pub open spec fn strictly_sorted(r: Seq<Seq<usize>>) -> bool {
    forall|i: int, j: int| 0 <= i < j < r.len() ==> lex_less(#[trigger] r[i], #[trigger] r[j])
}

/// All selections of `k` out of `n` players that begin with `prefix`,
/// in lexicographic order.
pub open spec fn extensions(n: usize, k: usize, prefix: Seq<usize>) -> Seq<Seq<usize>>
    decreases k - prefix.len(), n + 1,
{
    if prefix.len() >= k {
        seq![prefix]
    } else {
        extensions_from(n, k, prefix, 0)
    }
}

/// The selections of `extensions(n, k, prefix)` whose next board holds
/// player `c` or a later one.
pub open spec fn extensions_from(n: usize, k: usize, prefix: Seq<usize>, c: int) -> Seq<
    Seq<usize>,
>
    decreases k - prefix.len(), n - c,
{
    if c >= n || c < 0 || prefix.len() >= k {
        Seq::empty()
    } else {
        let rest = extensions_from(n, k, prefix, c + 1);
        if prefix.contains(c as usize) {
            rest
        } else {
            extensions(n, k, prefix.push(c as usize)) + rest
        }
    }
}

/// The views of a sequence of index vectors.
pub open spec fn views(r: Seq<Vec<usize>>) -> Seq<Seq<usize>> {
    r.map_values(|v: Vec<usize>| v@)
}

proof fn lemma_lex_less_prefix(a: Seq<usize>, b: Seq<usize>, p: int)
    requires
        0 <= p < a.len(),
        p < b.len(),
        a.take(p) == b.take(p),
        a[p] < b[p],
    ensures
        lex_less(a, b),
{
}

proof fn lemma_push_extends(s: Seq<usize>, prefix: Seq<usize>)
    requires
        extends(s, prefix),
        prefix.len() < s.len(),
    ensures
        extends(s, prefix.push(s[prefix.len() as int])),
{
    assert(s.take(prefix.len() as int + 1) =~= prefix.push(s[prefix.len() as int]));
}

proof fn lemma_extensions_ordered(n: usize, k: usize, prefix: Seq<usize>)
    requires
        is_partial_selection(prefix, n as int, k as int),
    ensures
        forall|i: int|
            0 <= i < extensions(n, k, prefix).len() ==> is_selection(
                #[trigger] extensions(n, k, prefix)[i],
                n as int,
                k as int,
            ) && extends(extensions(n, k, prefix)[i], prefix),
        strictly_sorted(extensions(n, k, prefix)),
    decreases k - prefix.len(), n + 1,
{
    let r = extensions(n, k, prefix);
    if prefix.len() >= k {
        assert(r =~= seq![prefix]);
        assert(prefix.take(prefix.len() as int) =~= prefix);
    } else {
        lemma_extensions_from_ordered(n, k, prefix, 0);
    }
}

proof fn lemma_extensions_from_ordered(n: usize, k: usize, prefix: Seq<usize>, c: int)
    requires
        is_partial_selection(prefix, n as int, k as int),
        prefix.len() < k,
        0 <= c <= n,
    ensures
        forall|i: int|
            0 <= i < extensions_from(n, k, prefix, c).len() ==> is_selection(
                #[trigger] extensions_from(n, k, prefix, c)[i],
                n as int,
                k as int,
            ) && extends(extensions_from(n, k, prefix, c)[i], prefix) && extensions_from(
                n,
                k,
                prefix,
                c,
            )[i][prefix.len() as int] >= c,
        strictly_sorted(extensions_from(n, k, prefix, c)),
    decreases k - prefix.len(), n - c,
{
    let r = extensions_from(n, k, prefix, c);
    if c >= n {
        assert(r =~= Seq::<Seq<usize>>::empty());
    } else {
        let rest = extensions_from(n, k, prefix, c + 1);
        lemma_extensions_from_ordered(n, k, prefix, c + 1);
        if prefix.contains(c as usize) {
            assert(r == rest);
        } else {
            let p2 = prefix.push(c as usize);
            assert forall|i: int, j: int| 0 <= i < j < p2.len() implies p2[i] != p2[j] by {
                if j == prefix.len() {
                    if p2[i] == p2[j] {
                        assert(prefix[i] == c as usize);
                        assert(prefix.contains(c as usize));
                    }
                } else {
                    assert(p2[i] == prefix[i] && p2[j] == prefix[j]);
                }
            }
            assert forall|i: int| 0 <= i < p2.len() implies #[trigger] p2[i] < n by {
                if i < prefix.len() {
                    assert(p2[i] == prefix[i]);
                }
            }
            lemma_extensions_ordered(n, k, p2);
            let a = extensions(n, k, p2);
            assert(r == a + rest);
            assert forall|i: int| 0 <= i < a.len() implies extends(#[trigger] a[i], prefix) && a[i][
                prefix.len() as int] == c by {
                let s = a[i];
                assert(is_selection(s, n as int, k as int) && extends(s, p2));
                assert(s.take(p2.len() as int) == p2);
                assert(p2.take(prefix.len() as int) =~= prefix);
                assert(s.take(prefix.len() as int) =~= s.take(p2.len() as int).take(
                    prefix.len() as int,
                ));
                assert(s[prefix.len() as int] == s.take(p2.len() as int)[prefix.len() as int]);
            }
            assert forall|i: int|
                0 <= i < r.len() implies is_selection(#[trigger] r[i], n as int, k as int)
                && extends(r[i], prefix) && r[i][prefix.len() as int] >= c by {
                if i < a.len() {
                    assert(r[i] == a[i]);
                } else {
                    assert(r[i] == rest[i - a.len()]);
                }
            }
            assert forall|i: int, j: int| 0 <= i < j < r.len() implies lex_less(
                #[trigger] r[i],
                #[trigger] r[j],
            ) by {
                if j < a.len() {
                    assert(r[i] == a[i] && r[j] == a[j]);
                } else if i >= a.len() {
                    assert(r[i] == rest[i - a.len()] && r[j] == rest[j - a.len()]);
                } else {
                    let x = a[i];
                    let y = rest[j - a.len()];
                    assert(r[i] == x && r[j] == y);
                    assert(extends(x, prefix) && extends(y, prefix));
                    assert(x[prefix.len() as int] == c);
                    assert(y[prefix.len() as int] >= c + 1);
                    lemma_lex_less_prefix(x, y, prefix.len() as int);
                }
            }
        }
    }
}

proof fn lemma_extensions_complete(n: usize, k: usize, prefix: Seq<usize>, s: Seq<usize>)
    requires
        is_partial_selection(prefix, n as int, k as int),
        is_selection(s, n as int, k as int),
        extends(s, prefix),
    ensures
        extensions(n, k, prefix).contains(s),
    decreases k - prefix.len(), n + 1,
{
    if prefix.len() >= k {
        assert(s =~= prefix);
        assert(extensions(n, k, prefix)[0] == s);
    } else {
        lemma_extensions_from_complete(n, k, prefix, 0, s);
    }
}

proof fn lemma_extensions_from_complete(
    n: usize,
    k: usize,
    prefix: Seq<usize>,
    c: int,
    s: Seq<usize>,
)
    requires
        is_partial_selection(prefix, n as int, k as int),
        prefix.len() < k,
        is_selection(s, n as int, k as int),
        extends(s, prefix),
        0 <= c <= s[prefix.len() as int],
    ensures
        extensions_from(n, k, prefix, c).contains(s),
    decreases k - prefix.len(), n - c,
{
    let p = prefix.len() as int;
    let x = s[p];
    assert(x < n);
    let rest = extensions_from(n, k, prefix, c + 1);
    assert(!prefix.contains(x)) by {
        if prefix.contains(x) {
            let i = choose|i: int| 0 <= i < prefix.len() && prefix[i] == x;
            assert(s[i] == s.take(p)[i]);
            assert(s[i] == x);
        }
    }
    if c == x {
        let p2 = prefix.push(c as usize);
        assert forall|i: int, j: int| 0 <= i < j < p2.len() implies p2[i] != p2[j] by {
            if j == prefix.len() {
                assert(p2[i] == prefix[i]);
                if p2[i] == p2[j] {
                    assert(prefix.contains(x));
                }
            } else {
                assert(p2[i] == prefix[i] && p2[j] == prefix[j]);
            }
        }
        assert forall|i: int| 0 <= i < p2.len() implies #[trigger] p2[i] < n by {
            if i < prefix.len() {
                assert(p2[i] == prefix[i]);
            }
        }
        lemma_push_extends(s, prefix);
        lemma_extensions_complete(n, k, p2, s);
        let a = extensions(n, k, p2);
        let j = choose|j: int| 0 <= j < a.len() && a[j] == s;
        assert(extensions_from(n, k, prefix, c) == a + rest);
        assert((a + rest)[j] == s);
    } else {
        lemma_extensions_from_complete(n, k, prefix, c + 1, s);
        let j = choose|j: int| 0 <= j < rest.len() && rest[j] == s;
        if prefix.contains(c as usize) {
            assert(extensions_from(n, k, prefix, c) == rest);
        } else {
            let a = extensions(n, k, prefix.push(c as usize));
            assert(extensions_from(n, k, prefix, c) == a + rest);
            assert((a + rest)[a.len() + j] == s);
        }
    }
}

/// `m * (m - 1) * ... * (m - j + 1)`: the number of ways to seat `j` of `m`
/// players on `j` boards.
pub open spec fn falling(m: int, j: nat) -> int
    decreases j,
{
    if j == 0 {
        1
    } else {
        m * falling(m - 1, (j - 1) as nat)
    }
}

/// How many of the players `c..n` are not yet in `prefix`.
pub open spec fn free_from(prefix: Seq<usize>, c: int, n: int) -> int
    decreases n - c,
{
    if c >= n || c < 0 {
        0
    } else {
        free_from(prefix, c + 1, n) + if prefix.contains(c as usize) {
            0int
        } else {
            1int
        }
    }
}

/// How many entries of `p` are at least `c`.
pub open spec fn count_at_least(p: Seq<usize>, c: int) -> int
    decreases p.len(),
{
    if p.len() == 0 {
        0
    } else {
        count_at_least(p.drop_last(), c) + if p.last() >= c {
            1int
        } else {
            0int
        }
    }
}

proof fn lemma_count_at_least_step(p: Seq<usize>, c: int)
    requires
        0 <= c <= usize::MAX,
        forall|i: int, j: int| 0 <= i < j < p.len() ==> p[i] != p[j],
    ensures
        count_at_least(p, c) == count_at_least(p, c + 1) + if p.contains(c as usize) {
            1int
        } else {
            0int
        },
    decreases p.len(),
{
    if p.len() > 0 {
        let q = p.drop_last();
        let x = p.last();
        assert forall|i: int, j: int| 0 <= i < j < q.len() implies q[i] != q[j] by {
            assert(q[i] == p[i] && q[j] == p[j]);
        }
        lemma_count_at_least_step(q, c);
        assert(!q.contains(x)) by {
            if q.contains(x) {
                let i = choose|i: int| 0 <= i < q.len() && q[i] == x;
                assert(p[i] == x && p[p.len() - 1] == x);
            }
        }
        assert(p =~= q.push(x));
        assert(p.contains(c as usize) == (q.contains(c as usize) || x == c as usize)) by {
            if p.contains(c as usize) {
                let i = choose|i: int| 0 <= i < p.len() && p[i] == c as usize;
                if i < q.len() {
                    assert(q[i] == p[i]);
                }
            }
            if q.contains(c as usize) {
                let i = choose|i: int| 0 <= i < q.len() && q[i] == c as usize;
                assert(p[i] == q[i]);
            }
            if x == c as usize {
                assert(p[p.len() - 1] == x);
            }
        }
    }
}

proof fn lemma_count_at_least_zero(p: Seq<usize>)
    ensures
        count_at_least(p, 0) == p.len(),
    decreases p.len(),
{
    if p.len() > 0 {
        lemma_count_at_least_zero(p.drop_last());
    }
}

proof fn lemma_free_from(prefix: Seq<usize>, c: int, n: int)
    requires
        0 <= c <= n <= usize::MAX,
        forall|i: int| 0 <= i < prefix.len() ==> #[trigger] prefix[i] < n,
        forall|i: int, j: int| 0 <= i < j < prefix.len() ==> prefix[i] != prefix[j],
    ensures
        free_from(prefix, c, n) + count_at_least(prefix, c) == n - c,
    decreases n - c,
{
    if c == n {
        lemma_count_at_least_none(prefix, n);
    } else {
        lemma_free_from(prefix, c + 1, n);
        lemma_count_at_least_step(prefix, c);
    }
}

proof fn lemma_count_at_least_none(p: Seq<usize>, n: int)
    requires
        forall|i: int| 0 <= i < p.len() ==> #[trigger] p[i] < n,
    ensures
        count_at_least(p, n) == 0,
    decreases p.len(),
{
    if p.len() > 0 {
        let q = p.drop_last();
        assert forall|i: int| 0 <= i < q.len() implies #[trigger] q[i] < n by {
            assert(q[i] == p[i]);
        }
        lemma_count_at_least_none(q, n);
        assert(p[p.len() - 1] < n);
    }
}

proof fn lemma_extensions_len(n: usize, k: usize, prefix: Seq<usize>)
    requires
        is_partial_selection(prefix, n as int, k as int),
    ensures
        extensions(n, k, prefix).len() == falling(n - prefix.len(), (k - prefix.len()) as nat),
    decreases k - prefix.len(), n + 1,
{
    if prefix.len() < k {
        lemma_extensions_from_len(n, k, prefix, 0);
        lemma_free_from(prefix, 0, n as int);
        lemma_count_at_least_zero(prefix);
    }
}

proof fn lemma_extensions_from_len(n: usize, k: usize, prefix: Seq<usize>, c: int)
    requires
        is_partial_selection(prefix, n as int, k as int),
        prefix.len() < k,
        0 <= c <= n,
    ensures
        extensions_from(n, k, prefix, c).len() == free_from(prefix, c, n as int) * falling(
            n - prefix.len() - 1,
            (k - prefix.len() - 1) as nat,
        ),
    decreases k - prefix.len(), n - c,
{
    let f = falling(n - prefix.len() - 1, (k - prefix.len() - 1) as nat);
    if c < n {
        lemma_extensions_from_len(n, k, prefix, c + 1);
        let a = free_from(prefix, c + 1, n as int);
        if !prefix.contains(c as usize) {
            let p2 = prefix.push(c as usize);
            assert forall|i: int, j: int| 0 <= i < j < p2.len() implies p2[i] != p2[j] by {
                if j == prefix.len() {
                    if p2[i] == p2[j] {
                        assert(prefix[i] == c as usize);
                    }
                } else {
                    assert(p2[i] == prefix[i] && p2[j] == prefix[j]);
                }
            }
            assert forall|i: int| 0 <= i < p2.len() implies #[trigger] p2[i] < n by {
                if i < prefix.len() {
                    assert(p2[i] == prefix[i]);
                }
            }
            lemma_extensions_len(n, k, p2);
            assert((a + 1) * f == f + a * f) by (nonlinear_arith);
        }
    }
}

/// A strictly sorted sequence holds no entry twice.
pub proof fn lemma_sorted_no_repeats(r: Seq<Seq<usize>>)
    requires
        strictly_sorted(r),
    ensures
        forall|i: int, j: int| 0 <= i < j < r.len() ==> r[i] != r[j],
{
    assert forall|i: int, j: int| 0 <= i < j < r.len() implies r[i] != r[j] by {
        assert(lex_less(r[i], r[j]));
        if r[i] == r[j] {
            let p = choose|p: int|
                0 <= p < r[i].len() && p < r[j].len() && r[i].take(p) == r[j].take(p) && r[i][p]
                    < r[j][p];
        }
    }
}

fn holds_index(v: &Vec<usize>, x: usize) -> (r: bool)
    ensures
        r == v@.contains(x),
{
    let mut i: usize = 0;
    while i < v.len()
        invariant
            i <= v@.len(),
            forall|j: int| 0 <= j < i ==> v@[j] != x,
        decreases v@.len() - i,
    {
        if v[i] == x {
            return true;
        }
        i = i + 1;
    }
    false
}

fn copy_indices(v: &Vec<usize>) -> (r: Vec<usize>)
    ensures
        r@ == v@,
{
    let mut r: Vec<usize> = Vec::new();
    let mut i: usize = 0;
    while i < v.len()
        invariant
            i <= v@.len(),
            r@ == v@.take(i as int),
        decreases v@.len() - i,
    {
        r.push(v[i]);
        i = i + 1;
        assert(r@ =~= v@.take(i as int));
    }
    assert(v@.take(v@.len() as int) =~= v@);
    r
}

fn extend_selections(n: usize, k: usize, prefix: &mut Vec<usize>, out: &mut Vec<Vec<usize>>)
    requires
        old(prefix)@.len() <= k,
    ensures
        final(prefix)@ == old(prefix)@,
        views(final(out)@) == views(old(out)@) + extensions(n, k, old(prefix)@),
    decreases k - old(prefix)@.len(),
{
    if prefix.len() >= k {
        let copy = copy_indices(prefix);
        out.push(copy);
        assert(views(out@) =~= views(old(out)@) + extensions(n, k, old(prefix)@));
        return;
    }
    let ghost p0 = prefix@;
    let mut c: usize = 0;
    while c < n
        invariant
            prefix@ == p0,
            p0 == old(prefix)@,
            p0.len() < k,
            c <= n,
            views(out@) + extensions_from(n, k, p0, c as int) == views(old(out)@) + extensions(
                n,
                k,
                p0,
            ),
        decreases n - c,
    {
        if !holds_index(prefix, c) {
            let ghost before = views(out@);
            prefix.push(c);
            extend_selections(n, k, prefix, out);
            prefix.pop();
            assert(prefix@ =~= p0);
            assert(views(out@) + extensions_from(n, k, p0, c + 1) =~= before + extensions_from(
                n,
                k,
                p0,
                c as int,
            ));
        }
        c = c + 1;
    }
    assert(extensions_from(n, k, p0, n as int) =~= Seq::<Seq<usize>>::empty());
    assert(views(out@) =~= views(old(out)@) + extensions(n, k, p0));
}

/// Every way to seat `k` distinct players out of `n` on `k` boards, in
/// lexicographic order of the player indices: each such selection occurs
/// exactly once, and nothing else occurs.
pub fn ordered_selections(n: usize, k: usize) -> (r: Vec<Vec<usize>>)
    ensures
        views(r@) == extensions(n, k, Seq::empty()),
        forall|i: int| 0 <= i < r@.len() ==> is_selection(#[trigger] r@[i]@, n as int, k as int),
        forall|s: Seq<usize>| is_selection(s, n as int, k as int) ==> views(r@).contains(s),
        strictly_sorted(views(r@)),
        r@.len() == falling(n as int, k as nat),
{
    let mut prefix: Vec<usize> = Vec::new();
    let mut out: Vec<Vec<usize>> = Vec::new();
    extend_selections(n, k, &mut prefix, &mut out);
    proof {
        let e: Seq<usize> = Seq::empty();
        assert(views(out@) =~= extensions(n, k, e));
        lemma_extensions_ordered(n, k, e);
        lemma_extensions_len(n, k, e);
        assert forall|i: int| 0 <= i < out@.len() implies is_selection(
            #[trigger] out@[i]@,
            n as int,
            k as int,
        ) by {
            assert(views(out@)[i] == out@[i]@);
        }
        assert forall|s: Seq<usize>| is_selection(s, n as int, k as int) implies views(
            out@,
        ).contains(s) by {
            assert(s.take(0) =~= e);
            lemma_extensions_complete(n, k, e, s);
        }
    }
    out
}

} // verus!
