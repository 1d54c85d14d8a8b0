//! Laws of path validation.

use vstd::prelude::*;
use crate::paths::{dot, dot_dot, has_nul, is_abs, join_slash, join_spec, model_starts_with, norm, norm_step, path_model, render, split_slash, validate_spec};

verus! {

/// A normalized component: nonempty, neither `.` nor `..`, without `/`.
pub open spec fn normal_name(x: Seq<char>) -> bool {
    x.len() > 0 && x != dot() && x != dot_dot() && !x.contains('/')
}

pub open spec fn all_normal(ns: Seq<Seq<char>>) -> bool {
    forall|i: int| 0 <= i < ns.len() ==> normal_name(#[trigger] ns[i])
}

/// Every character of every piece occurs in `s`.
pub open spec fn chars_within(ns: Seq<Seq<char>>, s: Seq<char>) -> bool {
    forall|i: int, j: int| 0 <= i < ns.len() && 0 <= j < ns[i].len() ==> s.contains(#[trigger] ns[i][j])
}

proof fn lemma_split_basics(s: Seq<char>)
    ensures
        split_slash(s).len() > 0,
        forall|i: int| 0 <= i < split_slash(s).len() ==> !(#[trigger] split_slash(s)[i]).contains('/'),
        chars_within(split_slash(s), s),
    decreases s.len(),
{
    if s.len() > 0 {
        let t = s.drop_last();
        lemma_split_basics(t);
        let prev = split_slash(t);
        let cur = split_slash(s);
        assert forall|i: int, j: int| 0 <= i < cur.len() && 0 <= j < cur[i].len() implies s.contains(#[trigger] cur[i][j]) by {
            if s.last() == '/' {
                assert(i < prev.len());
                assert(cur[i] == prev[i]);
                let k = choose|k: int| 0 <= k < t.len() && t[k] == prev[i][j];
                assert(s[k] == t[k]);
            } else if i < prev.len() - 1 || j < prev.last().len() {
                if i < prev.len() - 1 {
                    assert(cur[i] == prev[i]);
                    let k = choose|k: int| 0 <= k < t.len() && t[k] == prev[i][j];
                    assert(s[k] == t[k]);
                } else {
                    assert(cur[i] == prev.last().push(s.last()));
                    assert(cur[i][j] == prev[prev.len() - 1][j]);
                    let k = choose|k: int| 0 <= k < t.len() && t[k] == prev[prev.len() - 1][j];
                    assert(s[k] == t[k]);
                }
            } else {
                assert(cur[i][j] == s.last());
                assert(s[s.len() - 1] == s.last());
            }
        }
        assert forall|i: int| 0 <= i < cur.len() implies !(#[trigger] cur[i]).contains('/') by {
            if s.last() == '/' {
                if i < prev.len() {
                    assert(cur[i] == prev[i]);
                } else {
                    assert(cur[i] =~= Seq::<char>::empty());
                }
            } else if i < prev.len() - 1 {
                assert(cur[i] == prev[i]);
            } else {
                let x = prev.last().push(s.last());
                assert(cur[i] == x);
                assert(!prev[prev.len() - 1].contains('/'));
                if x.contains('/') {
                    let k = choose|k: int| 0 <= k < x.len() && x[k] == '/';
                    if k < prev.last().len() {
                        assert(prev[prev.len() - 1][k] == '/');
                    }
                }
            }
        }
    }
}

proof fn lemma_norm_basics(segs: Seq<Seq<char>>, s: Seq<char>)
    requires
        forall|i: int| 0 <= i < segs.len() ==> !(#[trigger] segs[i]).contains('/'),
        chars_within(segs, s),
    ensures
        all_normal(norm(segs)),
        chars_within(norm(segs), s),
    decreases segs.len(),
{
    if segs.len() > 0 {
        let rest = segs.drop_last();
        assert forall|i: int| 0 <= i < rest.len() implies !(#[trigger] rest[i]).contains('/') by {
            assert(rest[i] == segs[i]);
        }
        assert forall|i: int, j: int| 0 <= i < rest.len() && 0 <= j < rest[i].len() implies s.contains(#[trigger] rest[i][j]) by {
            assert(rest[i] == segs[i]);
        }
        lemma_norm_basics(rest, s);
        let p = norm(rest);
        let x = segs.last();
        assert(!segs[segs.len() - 1].contains('/'));
        let r = norm(segs);
        assert(r == norm_step(p, x));
        if x.len() == 0 || x == dot() {
        } else if x == dot_dot() {
            if p.len() > 0 {
                assert forall|i: int| 0 <= i < r.len() implies normal_name(#[trigger] r[i]) by {
                    assert(r[i] == p[i]);
                }
                assert forall|i: int, j: int| 0 <= i < r.len() && 0 <= j < r[i].len() implies s.contains(#[trigger] r[i][j]) by {
                    assert(r[i] == p[i]);
                }
            }
        } else {
            assert forall|i: int| 0 <= i < r.len() implies normal_name(#[trigger] r[i]) by {
                if i < p.len() {
                    assert(r[i] == p[i]);
                } else {
                    assert(r[i] == x);
                }
            }
            assert forall|i: int, j: int| 0 <= i < r.len() && 0 <= j < r[i].len() implies s.contains(#[trigger] r[i][j]) by {
                if i < p.len() {
                    assert(r[i] == p[i]);
                } else {
                    assert(r[i] == segs[segs.len() - 1]);
                }
            }
        }
    }
}

proof fn lemma_split_concat_slash(a: Seq<char>, b: Seq<char>)
    ensures
        split_slash(a + seq!['/'] + b) == split_slash(a) + split_slash(b),
    decreases b.len(),
{
    let ab = a + seq!['/'] + b;
    if b.len() == 0 {
        assert(ab.drop_last() =~= a);
        assert(ab.last() == '/');
        assert(split_slash(b) =~= seq![Seq::<char>::empty()]);
        assert(split_slash(ab) =~= split_slash(a) + split_slash(b));
    } else {
        let b2 = b.drop_last();
        lemma_split_concat_slash(a, b2);
        lemma_split_basics(b2);
        assert(ab.drop_last() =~= a + seq!['/'] + b2);
        assert(ab.last() == b.last());
        let sa = split_slash(a);
        let sb2 = split_slash(b2);
        if b.last() == '/' {
            assert(split_slash(ab) =~= split_slash(a) + split_slash(b));
        } else {
            let whole = sa + sb2;
            assert(whole.last() == sb2.last());
            assert(whole.update(whole.len() - 1, whole.last().push(b.last())) =~= sa + sb2.update(sb2.len() - 1, sb2.last().push(b.last())));
        }
    }
}

proof fn lemma_split_single(x: Seq<char>)
    requires
        !x.contains('/'),
    ensures
        split_slash(x) == seq![x],
    decreases x.len(),
{
    if x.len() == 0 {
        assert(x =~= Seq::<char>::empty());
    } else {
        let t = x.drop_last();
        assert(!t.contains('/')) by {
            if t.contains('/') {
                let k = choose|k: int| 0 <= k < t.len() && t[k] == '/';
                assert(x[k] == '/');
            }
        }
        lemma_split_single(t);
        assert(x.last() != '/') by {
            assert(x[x.len() - 1] == x.last());
        }
        assert(t.push(x.last()) =~= x);
        assert(seq![t].update(0, t.push(x.last())) =~= seq![x]);
    }
}

proof fn lemma_split_join(names: Seq<Seq<char>>)
    requires
        names.len() > 0,
        forall|i: int| 0 <= i < names.len() ==> !(#[trigger] names[i]).contains('/'),
    ensures
        split_slash(join_slash(names)) == names,
    decreases names.len(),
{
    if names.len() == 1 {
        lemma_split_single(names[0]);
        assert(seq![names[0]] =~= names);
    } else {
        let rest = names.drop_last();
        assert forall|i: int| 0 <= i < rest.len() implies !(#[trigger] rest[i]).contains('/') by {
            assert(rest[i] == names[i]);
        }
        lemma_split_join(rest);
        lemma_split_concat_slash(join_slash(rest), names.last());
        assert(!names[names.len() - 1].contains('/'));
        lemma_split_single(names.last());
        assert(rest + seq![names.last()] =~= names);
    }
}

proof fn lemma_norm_concat_normal(a: Seq<Seq<char>>, b: Seq<Seq<char>>)
    requires
        all_normal(b),
    ensures
        norm(a + b) == norm(a) + b,
    decreases b.len(),
{
    if b.len() == 0 {
        assert(a + b =~= a);
        assert(norm(a) + b =~= norm(a));
    } else {
        let b2 = b.drop_last();
        assert(all_normal(b2)) by {
            assert forall|i: int| 0 <= i < b2.len() implies normal_name(#[trigger] b2[i]) by {
                assert(b2[i] == b[i]);
            }
        }
        lemma_norm_concat_normal(a, b2);
        assert((a + b).drop_last() =~= a + b2);
        assert((a + b).last() == b.last());
        assert(normal_name(b[b.len() - 1]));
        assert((norm(a) + b2).push(b.last()) =~= norm(a) + b);
    }
}

proof fn lemma_join_first(names: Seq<Seq<char>>)
    requires
        names.len() > 0,
        names[0].len() > 0,
    ensures
        join_slash(names).len() > 0,
        join_slash(names)[0] == names[0][0],
    decreases names.len(),
{
    if names.len() > 1 {
        let rest = names.drop_last();
        assert(rest[0] == names[0]);
        lemma_join_first(rest);
    }
}

proof fn lemma_join_chars(names: Seq<Seq<char>>, s: Seq<char>)
    requires
        chars_within(names, s),
        !s.contains('\0'),
    ensures
        !join_slash(names).contains('\0'),
    decreases names.len(),
{
    if names.len() == 1 {
        if names[0].contains('\0') {
            let k = choose|k: int| 0 <= k < names[0].len() && names[0][k] == '\0';
            assert(s.contains(names[0][k]));
        }
    } else if names.len() > 1 {
        let rest = names.drop_last();
        assert forall|i: int, j: int| 0 <= i < rest.len() && 0 <= j < rest[i].len() implies s.contains(#[trigger] rest[i][j]) by {
            assert(rest[i] == names[i]);
        }
        lemma_join_chars(rest, s);
        let j = join_slash(names);
        let x = names.last();
        assert(j == join_slash(rest) + seq!['/'] + x);
        if j.contains('\0') {
            let k = choose|k: int| 0 <= k < j.len() && j[k] == '\0';
            let n = join_slash(rest).len();
            if k < n {
                assert(join_slash(rest)[k] == '\0');
            } else if k == n {
                assert(j[k] == '/');
            } else {
                assert(x[k - n - 1] == '\0');
                assert(names[names.len() - 1][k - n - 1] == x[k - n - 1]);
                assert(s.contains(names[names.len() - 1][k - n - 1]));
            }
        }
    }
}

/// Rendering normal components and reading them back gives the same model.
proof fn lemma_render_roundtrip(abs: bool, names: Seq<Seq<char>>)
    requires
        all_normal(names),
    ensures
        path_model(render(abs, names)) == (abs, names),
{
    assert forall|i: int| 0 <= i < names.len() implies !(#[trigger] names[i]).contains('/') by {
        assert(normal_name(names[i]));
    }
    let empty = Seq::<Seq<char>>::empty();
    let e = Seq::<char>::empty();
    assert(split_slash(e) == seq![e]);
    assert(norm(seq![e]) == norm_step(norm(seq![e].drop_last()), e));
    assert(seq![e].drop_last() =~= empty);
    assert(norm(seq![e]) =~= empty);
    if abs {
        let r = render(abs, names);
        if names.len() == 0 {
            assert(r =~= e + seq!['/'] + e);
            lemma_split_concat_slash(e, e);
            assert(seq![e] + seq![e] =~= seq![e].push(e));
            lemma_norm_concat_normal(empty, empty);
            assert((seq![e] + seq![e]).drop_last() =~= seq![e]);
            assert((seq![e] + seq![e]).last() == e);
            assert(norm(seq![e] + seq![e]) == norm_step(norm(seq![e]), e));
            assert(norm(split_slash(r)) =~= names);
        } else {
            assert(r =~= e + seq!['/'] + join_slash(names));
            lemma_split_concat_slash(e, join_slash(names));
            lemma_split_join(names);
            lemma_norm_concat_normal(seq![e], names);
            assert(empty + names =~= names);
        }
        assert(is_abs(r));
    } else {
        if names.len() == 0 {
            assert(render(abs, names) =~= e);
        } else {
            lemma_split_join(names);
            lemma_norm_concat_normal(empty, names);
            assert(empty + names =~= names);
            lemma_join_first(names);
            assert(normal_name(names[0]));
            assert(names[0][0] != '/') by {
                assert(!names[0].contains('/'));
            }
        }
    }
}

/// Confinement: a path accepted by `validate_path` is returned in a form
/// whose components start with the project root's components, so it can
/// never name a location outside the root.
pub proof fn law_validated_path_stays_in_root(input: Seq<char>, root: Seq<char>)
    requires
        validate_spec(input, root) is Ok,
    ensures
        model_starts_with(path_model(validate_spec(input, root)->Ok_0), path_model(root)),
        all_normal(path_model(validate_spec(input, root)->Ok_0).1),
{
    let joined = join_spec(root, input);
    let m = path_model(joined);
    lemma_split_basics(joined);
    lemma_norm_basics(split_slash(joined), joined);
    lemma_render_roundtrip(m.0, m.1);
}

/// Idempotence: under an absolute root free of NUL characters, validating
/// an already validated path gives that same path back.
pub proof fn law_validate_path_idempotent(input: Seq<char>, root: Seq<char>)
    requires
        is_abs(root),
        !has_nul(root),
        validate_spec(input, root) is Ok,
    ensures
        validate_spec(validate_spec(input, root)->Ok_0, root) == validate_spec(input, root),
{
    let joined = join_spec(root, input);
    let m = path_model(joined);
    let p = render(m.0, m.1);
    lemma_split_basics(joined);
    lemma_norm_basics(split_slash(joined), joined);
    lemma_render_roundtrip(m.0, m.1);
    assert(!has_nul(input));
    assert(is_abs(joined)) by {
        if !is_abs(input) {
            assert(joined[0] == root[0]);
        }
    }
    assert(!joined.contains('\0')) by {
        if joined.contains('\0') {
            let k = choose|k: int| 0 <= k < joined.len() && joined[k] == '\0';
            if is_abs(input) {
                assert(input[k] == '\0');
            } else if root.last() == '/' {
                if k < root.len() {
                    assert(root[k] == '\0');
                } else {
                    assert(input[k - root.len()] == '\0');
                }
            } else {
                if k < root.len() {
                    assert(root[k] == '\0');
                } else if k == root.len() {
                    assert(joined[k] == '/');
                } else {
                    assert(input[k - root.len() - 1] == '\0');
                }
            }
        }
    }
    lemma_join_chars(m.1, joined);
    assert(!has_nul(p)) by {
        let js = join_slash(m.1);
        assert(p == seq!['/'] + js);
        if p.contains('\0') {
            let k = choose|k: int| 0 <= k < p.len() && p[k] == '\0';
            if k > 0 {
                assert(js[k - 1] == '\0');
            }
        }
    }
    assert(is_abs(p));
    assert(join_spec(root, p) == p);
}

/// A NUL character in the requested path is always refused as an invalid
/// parameter, whatever the root.
pub proof fn law_nul_rejected(input: Seq<char>, root: Seq<char>)
    requires
        has_nul(input),
    ensures
        validate_spec(input, root) == Err::<Seq<char>, i32>(crate::protocol::INVALID_PARAMS),
{
}

} // verus!
