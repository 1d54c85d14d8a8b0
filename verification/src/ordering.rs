//! Source-order sorting of symbols: by start offset, ties kept in
//! declaration order (what a stable sort by start gives).

use vstd::prelude::*;
use crate::symbols::{range_empty, Symbol};

verus! {

/// Symbol `a` comes before symbol `b` in source order.
pub open spec fn pos_lt(t: Seq<Symbol>, a: usize, b: usize) -> bool {
    t[a as int].start < t[b as int].start || (t[a as int].start == t[b as int].start && a < b)
}

/// `s` lists symbol indices strictly in source order.
pub open spec fn in_source_order(t: Seq<Symbol>, s: Seq<usize>) -> bool {
    forall|i: int, j: int| 0 <= i < j < s.len() ==> pos_lt(t, #[trigger] s[i], #[trigger] s[j])
}

/// The indices of the symbols with a nonempty range (user declarations;
/// built-ins have empty ranges).
pub open spec fn is_declared(t: Seq<Symbol>, x: usize) -> bool {
    x < t.len() && !range_empty(t[x as int])
}

/// Inserts `x` into an index list kept in source order; `x` is larger than
/// every index already there.
fn insert_in_order(t: &Vec<Symbol>, s: &mut Vec<usize>, x: usize)
    requires
        x < t@.len(),
        in_source_order(t@, old(s)@),
        forall|k: int| 0 <= k < old(s)@.len() ==> old(s)@[k] < x,
        forall|k: int| 0 <= k < old(s)@.len() ==> old(s)@[k] < t@.len(),
    ensures
        in_source_order(t@, final(s)@),
        forall|y: usize| final(s)@.contains(y) <==> (old(s)@.contains(y) || y == x),
{
    let mut p: usize = 0;
    while p < s.len()
        invariant
            p <= s@.len(),
            s@ == old(s)@,
            x < t@.len(),
            forall|k: int| 0 <= k < s@.len() ==> s@[k] < t@.len(),
            forall|k: int| 0 <= k < p ==> t@[s@[k] as int].start <= t@[x as int].start,
        ensures
            p <= s@.len(),
            s@ == old(s)@,
            forall|k: int| 0 <= k < p ==> t@[s@[k] as int].start <= t@[x as int].start,
            p < s@.len() ==> t@[s@[p as int] as int].start > t@[x as int].start,
        decreases s@.len() - p,
    {
        if t[s[p]].start > t[x].start {
            break;
        }
        p = p + 1;
    }
    let ghost before = s@;
    assert(before == old(s)@);
    s.insert(p, x);
    proof {
        assert forall|i: int, j: int| 0 <= i < j < s@.len() implies pos_lt(t@, #[trigger] s@[i], #[trigger] s@[j]) by {
            if j < p {
                assert(s@[i] == before[i] && s@[j] == before[j]);
            } else if j == p {
                assert(s@[i] == before[i]);
                assert(before[i] < x);
            } else if i == p {
                assert(s@[j] == before[j - 1]);
                assert(p < before.len());
                if j - 1 > p {
                    assert(pos_lt(t@, before[p as int], before[j - 1]));
                }
            } else if i < p {
                assert(s@[i] == before[i] && s@[j] == before[j - 1]);
                assert(pos_lt(t@, before[i], before[j - 1]));
            } else {
                assert(s@[i] == before[i - 1] && s@[j] == before[j - 1]);
            }
        }
        assert forall|y: usize| s@.contains(y) <==> (before.contains(y) || y == x) by {
            if s@.contains(y) {
                let k = choose|k: int| 0 <= k < s@.len() && s@[k] == y;
                if k < p {
                    assert(before[k] == y);
                } else if k > p {
                    assert(before[k - 1] == y);
                }
            }
            if before.contains(y) {
                let k = choose|k: int| 0 <= k < before.len() && before[k] == y;
                if k < p {
                    assert(s@[k] == y);
                } else {
                    assert(s@[k + 1] == y);
                }
            }
            if y == x {
                assert(s@[p as int] == x);
            }
        }
        assert(forall|y: usize| s@.contains(y) <==> (old(s)@.contains(y) || y == x));
    }
}

/// The declared symbols (nonempty ranges) in source order.
pub fn declared_in_source_order(t: &Vec<Symbol>) -> (r: Vec<usize>)
    ensures
        in_source_order(t@, r@),
        forall|x: usize| r@.contains(x) <==> is_declared(t@, x),
        forall|k: int| 0 <= k < r@.len() ==> r@[k] < t@.len(),
{
    let mut r: Vec<usize> = Vec::new();
    let mut i: usize = 0;
    while i < t.len()
        invariant
            i <= t@.len(),
            in_source_order(t@, r@),
            forall|x: usize| r@.contains(x) <==> (is_declared(t@, x) && x < i),
            forall|k: int| 0 <= k < r@.len() ==> r@[k] < i,
        decreases t@.len() - i,
    {
        if t[i].start < t[i].end {
            proof {
                assert forall|k: int| 0 <= k < r@.len() implies r@[k] < i by {}
            }
            insert_in_order(t, &mut r, i);
            proof {
                assert forall|k: int| 0 <= k < r@.len() implies r@[k] < i + 1 by {
                    assert(r@.contains(r@[k]));
                }
            }
        }
        i = i + 1;
    }
    r
}

/// Keeps the entries of `s` for which `keep[x]` holds, in order.
pub fn filter_indices(s: &Vec<usize>, keep: &Vec<bool>) -> (r: Vec<usize>)
    requires
        forall|k: int| 0 <= k < s@.len() ==> s@[k] < keep@.len(),
    ensures
        r@ == s@.filter(|x: usize| keep@[x as int]),
{
    let mut r: Vec<usize> = Vec::new();
    let mut i: usize = 0;
    while i < s.len()
        invariant
            i <= s@.len(),
            forall|k: int| 0 <= k < s@.len() ==> s@[k] < keep@.len(),
            r@ == s@.take(i as int).filter(|x: usize| keep@[x as int]),
        decreases s@.len() - i,
    {
        reveal_with_fuel(Seq::filter, 1);
        assert(s@.take(i + 1).drop_last() =~= s@.take(i as int));
        if keep[s[i]] {
            r.push(s[i]);
        }
        i = i + 1;
    }
    assert(s@.take(s@.len() as int) =~= s@);
    r
}

} // verus!

verus! {

/// What a filter keeps: exactly the elements that satisfy the predicate.
pub proof fn lemma_filter_contains_iff<A>(s: Seq<A>, f: spec_fn(A) -> bool)
    ensures
        forall|x: A| #[trigger] s.filter(f).contains(x) <==> (s.contains(x) && f(x)),
    decreases s.len(),
{
    reveal_with_fuel(Seq::filter, 1);
    if s.len() > 0 {
        let r = s.drop_last();
        let fr = r.filter(f);
        let fs = s.filter(f);
        let last = s.last();
        lemma_filter_contains_iff(r, f);
        assert(fs == if f(last) { fr.push(last) } else { fr });
        assert forall|x: A| #[trigger] fs.contains(x) <==> (s.contains(x) && f(x)) by {
            if s.contains(x) && f(x) {
                let k = choose|k: int| 0 <= k < s.len() && s[k] == x;
                if k < s.len() - 1 {
                    assert(r[k] == s[k]);
                    assert(r.contains(x));
                    assert(fr.contains(x));
                    let m = choose|m: int| 0 <= m < fr.len() && fr[m] == x;
                    assert(fs[m] == fr[m]);
                    assert(fs.contains(x));
                } else {
                    assert(x == last);
                    assert(fs[fs.len() - 1] == x);
                    assert(fs.contains(x));
                }
            }
            if fs.contains(x) {
                let k = choose|k: int| 0 <= k < fs.len() && fs[k] == x;
                if f(last) && k == fs.len() - 1 {
                    assert(fs[k] == last);
                    assert(s[s.len() - 1] == x);
                    assert(s.contains(x));
                } else {
                    assert(fs[k] == fr[k]);
                    assert(fr.contains(x));
                    assert(r.contains(x) && f(x));
                    let m = choose|m: int| 0 <= m < r.len() && r[m] == x;
                    assert(r[m] == s[m]);
                    assert(s.contains(x));
                }
            }
        }
    }
}

/// Filtering keeps source order.
pub proof fn lemma_filter_in_order(t: Seq<Symbol>, s: Seq<usize>, f: spec_fn(usize) -> bool)
    requires
        in_source_order(t, s),
    ensures
        in_source_order(t, s.filter(f)),
    decreases s.len(),
{
    reveal_with_fuel(Seq::filter, 1);
    if s.len() > 0 {
        let r = s.drop_last();
        assert(in_source_order(t, r)) by {
            assert forall|i: int, j: int| 0 <= i < j < r.len() implies pos_lt(t, #[trigger] r[i], #[trigger] r[j]) by {
                assert(r[i] == s[i] && r[j] == s[j]);
            }
        }
        lemma_filter_in_order(t, r, f);
        lemma_filter_contains_iff(r, f);
        if f(s.last()) {
            let out = s.filter(f);
            let fr = r.filter(f);
            assert(out == fr.push(s.last()));
            assert forall|i: int, j: int| 0 <= i < j < out.len() implies pos_lt(t, #[trigger] out[i], #[trigger] out[j]) by {
                if j < fr.len() {
                    assert(out[i] == fr[i] && out[j] == fr[j]);
                } else {
                    assert(out[i] == fr[i]);
                    assert(fr.contains(fr[i]));
                    assert(r.contains(fr[i]));
                    let m = choose|m: int| 0 <= m < r.len() && r[m] == fr[i];
                    assert(r[m] == s[m]);
                    assert(j == s.filter(f).len() - 1);
                    assert(out[j] == s[s.len() - 1]);
                    assert(pos_lt(t, s[m], s[s.len() - 1]));
                }
            }
        }
    }
}

/// Filters that agree on the elements give the same result.
pub proof fn lemma_filter_ext<A>(s: Seq<A>, f: spec_fn(A) -> bool, g: spec_fn(A) -> bool)
    requires
        forall|i: int| 0 <= i < s.len() ==> f(s[i]) == g(s[i]),
    ensures
        s.filter(f) == s.filter(g),
    decreases s.len(),
{
    reveal_with_fuel(Seq::filter, 1);
    if s.len() > 0 {
        let r = s.drop_last();
        assert forall|i: int| 0 <= i < r.len() implies f(r[i]) == g(r[i]) by {
            assert(r[i] == s[i]);
        }
        lemma_filter_ext(r, f, g);
        assert(f(s[s.len() - 1]) == g(s[s.len() - 1]));
    }
}

/// Two index lists in strict source order with the same elements are equal.
pub proof fn lemma_source_order_unique(t: Seq<Symbol>, a: Seq<usize>, b: Seq<usize>)
    requires
        in_source_order(t, a),
        in_source_order(t, b),
        forall|x: usize| a.contains(x) <==> b.contains(x),
    ensures
        a == b,
    decreases a.len(),
{
    if a.len() == 0 {
        if b.len() > 0 {
            assert(b.contains(b[0]));
        }
        assert(a =~= b);
    } else {
        assert(a.contains(a[0]));
        assert(b.len() > 0);
        assert(b.contains(b[0]));
        let k = choose|k: int| 0 <= k < b.len() && b[k] == a[0];
        let m = choose|m: int| 0 <= m < a.len() && a[m] == b[0];
        if a[0] != b[0] {
            assert(m > 0 && k > 0);
            assert(pos_lt(t, a[0], a[m]));
            assert(pos_lt(t, b[0], b[k]));
            assert(false);
        }
        let a2 = a.drop_first();
        let b2 = b.drop_first();
        assert(in_source_order(t, a2)) by {
            assert forall|i: int, j: int| 0 <= i < j < a2.len() implies pos_lt(t, #[trigger] a2[i], #[trigger] a2[j]) by {
                assert(a2[i] == a[i + 1] && a2[j] == a[j + 1]);
            }
        }
        assert(in_source_order(t, b2)) by {
            assert forall|i: int, j: int| 0 <= i < j < b2.len() implies pos_lt(t, #[trigger] b2[i], #[trigger] b2[j]) by {
                assert(b2[i] == b[i + 1] && b2[j] == b[j + 1]);
            }
        }
        assert forall|x: usize| a2.contains(x) <==> b2.contains(x) by {
            if a2.contains(x) {
                let i = choose|i: int| 0 <= i < a2.len() && a2[i] == x;
                assert(a[i + 1] == x);
                assert(a.contains(x));
                let j = choose|j: int| 0 <= j < b.len() && b[j] == x;
                if j == 0 {
                    assert(pos_lt(t, a[0], a[i + 1]));
                    assert(false);
                }
                assert(b2[j - 1] == x);
            }
            if b2.contains(x) {
                let i = choose|i: int| 0 <= i < b2.len() && b2[i] == x;
                assert(b[i + 1] == x);
                assert(b.contains(x));
                let j = choose|j: int| 0 <= j < a.len() && a[j] == x;
                if j == 0 {
                    assert(pos_lt(t, b[0], b[i + 1]));
                    assert(false);
                }
                assert(a2[j - 1] == x);
            }
        }
        lemma_source_order_unique(t, a2, b2);
        assert(a =~= seq![a[0]] + a2);
        assert(b =~= seq![b[0]] + b2);
    }
}

/// The indices satisfying `pred`, listed in source order.
pub open spec fn source_order(t: Seq<Symbol>, pred: spec_fn(usize) -> bool) -> Seq<usize> {
    choose|o: Seq<usize>| in_source_order(t, o) && (forall|x: usize| o.contains(x) <==> pred(x))
}

/// An index list in source order holding exactly the indices that satisfy
/// `pred` is `source_order(t, pred)`.
pub proof fn lemma_is_source_order(t: Seq<Symbol>, pred: spec_fn(usize) -> bool, o: Seq<usize>)
    requires
        in_source_order(t, o),
        forall|x: usize| o.contains(x) <==> pred(x),
    ensures
        source_order(t, pred) == o,
{
    let c = source_order(t, pred);
    assert(in_source_order(t, c) && (forall|x: usize| c.contains(x) <==> pred(x)));
    lemma_source_order_unique(t, c, o);
}

/// The first position of `o` whose symbol starts after `start`.
pub open spec fn first_starting_after(t: Seq<Symbol>, o: Seq<usize>, start: u32) -> int
    decreases o.len(),
{
    if o.len() == 0 {
        0
    } else if t[o[0] as int].start > start {
        0
    } else {
        1 + first_starting_after(t, o.drop_first(), start)
    }
}

proof fn lemma_first_starting_after(t: Seq<Symbol>, o: Seq<usize>, start: u32)
    requires
        in_source_order(t, o),
    ensures
        0 <= first_starting_after(t, o, start) <= o.len(),
        forall|k: int| 0 <= k < first_starting_after(t, o, start) ==> t[(#[trigger] o[k]) as int].start <= start,
        forall|k: int| first_starting_after(t, o, start) <= k < o.len() ==> t[(#[trigger] o[k]) as int].start > start,
    decreases o.len(),
{
    if o.len() > 0 {
        let r = o.drop_first();
        assert(in_source_order(t, r)) by {
            assert forall|i: int, j: int| 0 <= i < j < r.len() implies pos_lt(t, #[trigger] r[i], #[trigger] r[j]) by {
                assert(r[i] == o[i + 1] && r[j] == o[j + 1]);
            }
        }
        lemma_first_starting_after(t, r, start);
        if t[o[0] as int].start > start {
            assert forall|k: int| 0 <= k < o.len() implies t[(#[trigger] o[k]) as int].start > start by {
                if k > 0 {
                    assert(pos_lt(t, o[0], o[k]));
                }
            }
        } else {
            assert forall|k: int| 0 <= k < first_starting_after(t, o, start) implies t[(#[trigger] o[k]) as int].start <= start by {
                if k > 0 {
                    assert(o[k] == r[k - 1]);
                }
            }
            assert forall|k: int| first_starting_after(t, o, start) <= k < o.len() implies t[(#[trigger] o[k]) as int].start > start by {
                assert(o[k] == r[k - 1]);
            }
        }
    }
}

/// The indices below `n` that satisfy `pred`, in source order.
proof fn lemma_order_prefix(t: Seq<Symbol>, pred: spec_fn(usize) -> bool, n: nat) -> (o: Seq<usize>)
    requires
        n <= t.len(),
        n <= usize::MAX + 1,
    ensures
        in_source_order(t, o),
        forall|x: usize| o.contains(x) <==> (x < n && pred(x)),
    decreases n,
{
    if n == 0 {
        let o = Seq::<usize>::empty();
        assert forall|x: usize| o.contains(x) <==> (x < n && pred(x)) by {}
        o
    } else {
        let prev = lemma_order_prefix(t, pred, (n - 1) as nat);
        let x = (n - 1) as usize;
        if !pred(x) {
            prev
        } else {
            lemma_first_starting_after(t, prev, t[x as int].start);
            let p = first_starting_after(t, prev, t[x as int].start);
            let o = prev.insert(p, x);
            assert forall|k: int| 0 <= k < prev.len() implies (#[trigger] prev[k]) < x by {
                assert(prev.contains(prev[k]));
            }
            assert forall|i: int, j: int| 0 <= i < j < o.len() implies pos_lt(t, #[trigger] o[i], #[trigger] o[j]) by {
                if j < p {
                    assert(o[i] == prev[i] && o[j] == prev[j]);
                } else if j == p {
                    assert(o[i] == prev[i] && o[j] == x);
                } else if i < p {
                    assert(o[i] == prev[i] && o[j] == prev[j - 1]);
                } else if i == p {
                    assert(o[i] == x && o[j] == prev[j - 1]);
                } else {
                    assert(o[i] == prev[i - 1] && o[j] == prev[j - 1]);
                }
            }
            assert forall|y: usize| o.contains(y) <==> (y < n && pred(y)) by {
                if o.contains(y) {
                    let k = choose|k: int| 0 <= k < o.len() && o[k] == y;
                    if k < p {
                        assert(o[k] == prev[k]);
                        assert(prev.contains(y));
                    } else if k > p {
                        assert(o[k] == prev[k - 1]);
                        assert(prev.contains(y));
                    }
                }
                if y < n && pred(y) {
                    if y == x {
                        assert(o[p] == x);
                    } else {
                        assert(prev.contains(y));
                        let k = choose|k: int| 0 <= k < prev.len() && prev[k] == y;
                        if k < p {
                            assert(o[k] == y);
                        } else {
                            assert(o[k + 1] == y);
                        }
                    }
                }
            }
            o
        }
    }
}

/// Every predicate on the indices of a table has its source order: an
/// index list strictly in source order holding exactly those indices.
pub proof fn lemma_source_order_exists(t: Seq<Symbol>, pred: spec_fn(usize) -> bool)
    requires
        forall|x: usize| #[trigger] pred(x) ==> x < t.len(),
    ensures
        in_source_order(t, source_order(t, pred)),
        forall|x: usize| source_order(t, pred).contains(x) <==> pred(x),
{
    let n: nat = if t.len() <= usize::MAX + 1 { t.len() } else { (usize::MAX + 1) as nat };
    let o = lemma_order_prefix(t, pred, n);
    assert(in_source_order(t, o) && (forall|x: usize| o.contains(x) <==> pred(x)));
}

} // verus!
