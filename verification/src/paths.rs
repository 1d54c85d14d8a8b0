//! Confinement of user-supplied paths to the project root.
//!
//! Paths follow Unix rules: `/` separates components, a leading `/` makes a
//! path absolute, `.` components are dropped and `..` removes the preceding
//! normal component (never the root).

use vstd::prelude::*;
use crate::protocol::{RpcError, INVALID_PARAMS, PATH_ESCAPE};
use crate::text::{chars_of, string_of};

verus! {

/// The pieces of `s` between `/` separators (always at least one piece).
pub open spec fn split_slash(s: Seq<char>) -> Seq<Seq<char>>
    decreases s.len(),
{
    if s.len() == 0 {
        seq![Seq::<char>::empty()]
    } else {
        let prev = split_slash(s.drop_last());
        if s.last() == '/' {
            prev.push(Seq::<char>::empty())
        } else {
            prev.update(prev.len() - 1, prev.last().push(s.last()))
        }
    }
}

pub open spec fn dot() -> Seq<char> {
    seq!['.']
}

pub open spec fn dot_dot() -> Seq<char> {
    seq!['.', '.']
}

/// Effect of one piece on the normalized component list: empty pieces and
/// `.` are dropped, `..` removes the last component if any, anything else is
/// appended.
pub open spec fn norm_step(acc: Seq<Seq<char>>, x: Seq<char>) -> Seq<Seq<char>> {
    if x.len() == 0 || x == dot() {
        acc
    } else if x == dot_dot() {
        if acc.len() > 0 {
            acc.drop_last()
        } else {
            acc
        }
    } else {
        acc.push(x)
    }
}

/// Normalization of a list of pieces, left to right.
pub open spec fn norm(segs: Seq<Seq<char>>) -> Seq<Seq<char>>
    decreases segs.len(),
{
    if segs.len() == 0 {
        Seq::empty()
    } else {
        norm_step(norm(segs.drop_last()), segs.last())
    }
}

/// A path is absolute when it starts with `/`.
pub open spec fn is_abs(s: Seq<char>) -> bool {
    s.len() > 0 && s[0] == '/'
}

/// The normalized components of a path: whether it is rooted, and its
/// normal components after resolving `.` and `..`.
pub open spec fn path_model(s: Seq<char>) -> (bool, Seq<Seq<char>>) {
    (is_abs(s), norm(split_slash(s)))
}

/// `Path::join`: an absolute `p` replaces `root`; otherwise `p` is appended
/// after a separator (none when `root` is empty or already ends with `/`).
pub open spec fn join_spec(root: Seq<char>, p: Seq<char>) -> Seq<char> {
    if is_abs(p) {
        p
    } else if root.len() == 0 {
        p
    } else if root.last() == '/' {
        root + p
    } else {
        root + seq!['/'] + p
    }
}

/// Components joined by `/`.
pub open spec fn join_slash(names: Seq<Seq<char>>) -> Seq<char>
    decreases names.len(),
{
    if names.len() == 0 {
        Seq::empty()
    } else if names.len() == 1 {
        names[0]
    } else {
        join_slash(names.drop_last()) + seq!['/'] + names.last()
    }
}

/// The text of a normalized path.
pub open spec fn render(abs: bool, names: Seq<Seq<char>>) -> Seq<char> {
    if abs {
        seq!['/'] + join_slash(names)
    } else {
        join_slash(names)
    }
}

/// `Path::starts_with` on normalized paths: the components of `base` (the
/// root marker included) are a prefix of those of `p`.
pub open spec fn model_starts_with(p: (bool, Seq<Seq<char>>), base: (bool, Seq<Seq<char>>)) -> bool {
    if base.0 {
        p.0 && base.1.len() <= p.1.len() && p.1.take(base.1.len() as int) == base.1
    } else if base.1.len() == 0 {
        true
    } else {
        !p.0 && base.1.len() <= p.1.len() && p.1.take(base.1.len() as int) == base.1
    }
}

pub open spec fn has_nul(s: Seq<char>) -> bool {
    s.contains('\0')
}

/// What `validate_path` answers: the normalized path, or the error code.
pub open spec fn validate_spec(input: Seq<char>, root: Seq<char>) -> Result<Seq<char>, i32> {
    if has_nul(input) {
        Err(INVALID_PARAMS)
    } else {
        let m = path_model(join_spec(root, input));
        if model_starts_with(m, path_model(root)) {
            Ok(render(m.0, m.1))
        } else {
            Err(PATH_ESCAPE)
        }
    }
}

pub open spec fn deep(v: Seq<Vec<char>>) -> Seq<Seq<char>> {
    v.map_values(|x: Vec<char>| x@)
}

pub(crate) fn vec_char_eq(a: &Vec<char>, b: &Vec<char>) -> (r: bool)
    ensures
        r == (a@ == b@),
{
    if a.len() != b.len() {
        return false;
    }
    let mut i: usize = 0;
    while i < a.len()
        invariant
            i <= a@.len(),
            a@.len() == b@.len(),
            forall|k: int| 0 <= k < i ==> a@[k] == b@[k],
        decreases a@.len() - i,
    {
        if a[i] != b[i] {
            return false;
        }
        i = i + 1;
    }
    assert(a@ =~= b@);
    true
}

/// Applies one piece to the normalized component stack.
fn apply_piece(stack: &mut Vec<Vec<char>>, cur: Vec<char>)
    ensures
        deep(final(stack)@) == norm_step(deep(old(stack)@), cur@),
{
    let ghost x = cur@;
    if cur.len() == 0 || (cur.len() == 1 && cur[0] == '.') {
        assert(x.len() == 0 || x =~= dot());
    } else if cur.len() == 2 && cur[0] == '.' && cur[1] == '.' {
        assert(x =~= dot_dot());
        if stack.len() > 0 {
            stack.pop();
            assert(deep(stack@) =~= deep(old(stack)@).drop_last());
        }
    } else {
        assert(x.len() != 0 && x != dot() && x != dot_dot()) by {
            if x == dot() {
                assert(x.len() == 1);
            }
            if x == dot_dot() {
                assert(x.len() == 2 && x[0] == '.' && x[1] == '.');
            }
        }
        stack.push(cur);
        assert(deep(stack@) =~= deep(old(stack)@).push(x));
    }
}

/// Splits and normalizes a path given as characters.
fn normalize_chars(s: &Vec<char>) -> (r: Vec<Vec<char>>)
    ensures
        deep(r@) == norm(split_slash(s@)),
{
    let mut stack: Vec<Vec<char>> = Vec::new();
    let mut cur: Vec<char> = Vec::new();
    let mut i: usize = 0;
    assert(s@.take(0) =~= Seq::<char>::empty());
    while i < s.len()
        invariant
            i <= s@.len(),
            deep(stack@) == norm(split_slash(s@.take(i as int)).drop_last()),
            cur@ == split_slash(s@.take(i as int)).last(),
            split_slash(s@.take(i as int)).len() > 0,
        decreases s@.len() - i,
    {
        let c = s[i];
        let ghost prev = split_slash(s@.take(i as int));
        assert(s@.take(i + 1).drop_last() =~= s@.take(i as int));
        assert(s@.take(i + 1).last() == c);
        if c == '/' {
            let piece = cur;
            cur = Vec::new();
            apply_piece(&mut stack, piece);
            assert(split_slash(s@.take(i + 1)) == prev.push(Seq::<char>::empty()));
            assert(prev.push(Seq::<char>::empty()).drop_last() =~= prev);
        } else {
            cur.push(c);
            let ghost next = prev.update(prev.len() - 1, prev.last().push(c));
            assert(split_slash(s@.take(i + 1)) == next);
            assert(next.drop_last() =~= prev.drop_last());
        }
        i = i + 1;
    }
    assert(s@.take(s@.len() as int) =~= s@);
    apply_piece(&mut stack, cur);
    stack
}

/// Renders normalized components as a path text.
pub(crate) fn render_exec(abs: bool, names: &Vec<Vec<char>>) -> (r: Vec<char>)
    ensures
        r@ == render(abs, deep(names@)),
{
    let mut out: Vec<char> = Vec::new();
    if abs {
        out.push('/');
    }
    let ghost prefix = out@;
    let mut i: usize = 0;
    while i < names.len()
        invariant
            i <= names@.len(),
            prefix == (if abs { seq!['/'] } else { Seq::<char>::empty() }),
            out@ == prefix + join_slash(deep(names@).take(i as int)),
        decreases names@.len() - i,
    {
        let ghost before = out@;
        if i > 0 {
            out.push('/');
        }
        let mut j: usize = 0;
        let piece = &names[i];
        while j < piece.len()
            invariant
                j <= piece@.len(),
                out@ == before + (if i > 0 { seq!['/'] } else { Seq::<char>::empty() }) + piece@.take(j as int),
            decreases piece@.len() - j,
        {
            out.push(piece[j]);
            j = j + 1;
            assert(out@ =~= before + (if i > 0 { seq!['/'] } else { Seq::<char>::empty() }) + piece@.take(j as int));
        }
        assert(piece@.take(piece@.len() as int) =~= piece@);
        let ghost d = deep(names@);
        assert(d.take(i + 1).drop_last() =~= d.take(i as int));
        assert(d.take(i + 1).last() == piece@);
        if i == 0 {
            assert(join_slash(d.take(1)) == d.take(1)[0]);
            assert(out@ =~= prefix + join_slash(d.take(i + 1)));
        } else {
            assert(out@ =~= prefix + join_slash(d.take(i + 1)));
        }
        i = i + 1;
    }
    assert(deep(names@).take(names@.len() as int) =~= deep(names@));
    out
}

fn is_abs_exec(s: &Vec<char>) -> (r: bool)
    ensures
        r == is_abs(s@),
{
    s.len() > 0 && s[0] == '/'
}

fn has_nul_exec(s: &Vec<char>) -> (r: bool)
    ensures
        r == has_nul(s@),
{
    let mut i: usize = 0;
    while i < s.len()
        invariant
            i <= s@.len(),
            forall|k: int| 0 <= k < i ==> s@[k] != '\0',
        decreases s@.len() - i,
    {
        if s[i] == '\0' {
            assert(s@[i as int] == '\0');
            return true;
        }
        i = i + 1;
    }
    false
}

fn join_exec(root: &Vec<char>, p: &Vec<char>) -> (r: Vec<char>)
    ensures
        r@ == join_spec(root@, p@),
{
    if is_abs_exec(p) || root.len() == 0 {
        return p.clone();
    }
    let mut out = root.clone();
    if root[root.len() - 1] != '/' {
        out.push('/');
    }
    let ghost base = out@;
    let mut i: usize = 0;
    while i < p.len()
        invariant
            i <= p@.len(),
            out@ == base + p@.take(i as int),
        decreases p@.len() - i,
    {
        out.push(p[i]);
        i = i + 1;
        assert(out@ =~= base + p@.take(i as int));
    }
    assert(p@.take(p@.len() as int) =~= p@);
    out
}

fn starts_with_exec(p_abs: bool, p: &Vec<Vec<char>>, b_abs: bool, b: &Vec<Vec<char>>) -> (r: bool)
    ensures
        r == model_starts_with((p_abs, deep(p@)), (b_abs, deep(b@))),
{
    if !b_abs && b.len() == 0 {
        return true;
    }
    if p_abs != b_abs || b.len() > p.len() {
        return false;
    }
    let mut i: usize = 0;
    while i < b.len()
        invariant
            i <= b@.len(),
            b@.len() <= p@.len(),
            forall|k: int| 0 <= k < i ==> deep(p@)[k] == deep(b@)[k],
        decreases b@.len() - i,
    {
        if !vec_char_eq(&p[i], &b[i]) {
            assert(deep(p@).take(b@.len() as int)[i as int] != deep(b@)[i as int]);
            return false;
        }
        i = i + 1;
    }
    assert(deep(p@).take(b@.len() as int) =~= deep(b@));
    true
}

/// Normalizes a path without reading the disk: `.` and empty pieces are
/// dropped and `..` removes the preceding component (never the root).
pub fn manual_normalize(path: &str) -> (r: String)
    ensures
        r@ == render(path_model(path@).0, path_model(path@).1),
{
    let cs = chars_of(path);
    let abs = is_abs_exec(&cs);
    let normalized = normalize_chars(&cs);
    let out = render_exec(abs, &normalized);
    string_of(out.as_slice())
}

/// Validate that a user-supplied path stays within the project root.
///
/// Works for both existing and non-existing paths: nothing is read from
/// disk. On success the normalized path is returned.
pub fn validate_path(input_path: &str, project_root: &str) -> (r: Result<String, RpcError>)
    ensures
        match validate_spec(input_path@, project_root@) {
            Ok(p) => r matches Ok(q) && q@ == p,
            Err(code) => r matches Err(e) && e.code == code && (if code == INVALID_PARAMS {
                e.message@ == "Path contains null bytes"@
            } else {
                e.message@ == "Path escapes workspace root"@
            }),
        },
{
    let input = chars_of(input_path);
    if has_nul_exec(&input) {
        return Err(RpcError::new(INVALID_PARAMS, "Path contains null bytes"));
    }
    let root = chars_of(project_root);
    let joined = join_exec(&root, &input);
    let abs = is_abs_exec(&joined);
    let normalized = normalize_chars(&joined);
    let root_abs = is_abs_exec(&root);
    let root_normalized = normalize_chars(&root);
    if !starts_with_exec(abs, &normalized, root_abs, &root_normalized) {
        return Err(RpcError::new(PATH_ESCAPE, "Path escapes workspace root"));
    }
    let out = render_exec(abs, &normalized);
    Ok(string_of(out.as_slice()))
}

} // verus!
