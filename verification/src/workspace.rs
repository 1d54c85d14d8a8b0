//! LSP workspace symbol search: every declaration of the listed files whose
//! lower-cased name contains the lower-cased, trimmed query, ranked by file
//! priority, then name, URI, container and range.

use vstd::prelude::*;
use crate::outline::opt_str;
use crate::text::{append_str, chars_of, string_of, concat2, contains_seq, contains_str, decimal, decimal_string, occurs_at};

verus! {

broadcast use vstd::string::group_string_axioms;

/// A declaration that the search may report, with its LSP symbol kind and
/// its range in the file (lines and characters).
pub struct SymbolCandidate {
    pub name: String,
    pub kind: u32,
    pub start_line: u32,
    pub start_character: u32,
    pub end_line: u32,
    pub end_character: u32,
    pub container_name: Option<String>,
}

/// An open file of the workspace: its URI, the search priority of its
/// project, whether its project lists it for an empty query and for a
/// non-empty one, and its declarations in order.
pub struct WorkspaceFile {
    pub uri: String,
    pub priority: i32,
    pub listed_on_empty_query: bool,
    pub listed_on_query: bool,
    pub symbols: Vec<SymbolCandidate>,
}

/// One search result.
pub struct SymbolInformation {
    pub name: String,
    pub kind: u32,
    pub uri: String,
    pub start_line: u32,
    pub start_character: u32,
    pub end_line: u32,
    pub end_character: u32,
    pub container_name: Option<String>,
}

/// A result together with the priority it is ranked by.
pub struct Ranked {
    pub priority: i32,
    pub info: SymbolInformation,
}

/// The value of a result.
pub struct InfoV {
    pub name: Seq<char>,
    pub kind: u32,
    pub uri: Seq<char>,
    pub start_line: u32,
    pub start_character: u32,
    pub end_line: u32,
    pub end_character: u32,
    pub container_name: Option<Seq<char>>,
}

/// The value of a ranked result.
pub struct RankedV {
    pub priority: int,
    pub info: InfoV,
}

impl View for SymbolInformation {
    type V = InfoV;

    open spec fn view(&self) -> InfoV {
        InfoV {
            name: self.name@,
            kind: self.kind,
            uri: self.uri@,
            start_line: self.start_line,
            start_character: self.start_character,
            end_line: self.end_line,
            end_character: self.end_character,
            container_name: opt_str(self.container_name),
        }
    }
}

impl View for Ranked {
    type V = RankedV;

    open spec fn view(&self) -> RankedV {
        RankedV { priority: self.priority as int, info: self.info@ }
    }
}

/// The characters that have the Unicode `White_Space` property.
pub open spec fn is_white_space(c: char) -> bool {
    ||| ('\u{9}' <= c && c <= '\u{d}')
    ||| c == ' '
    ||| c == '\u{85}'
    ||| c == '\u{a0}'
    ||| c == '\u{1680}'
    ||| ('\u{2000}' <= c && c <= '\u{200a}')
    ||| c == '\u{2028}'
    ||| c == '\u{2029}'
    ||| c == '\u{202f}'
    ||| c == '\u{205f}'
    ||| c == '\u{3000}'
}

/// `s` without its leading white space.
pub open spec fn trim_start_spec(s: Seq<char>) -> Seq<char>
    decreases s.len(),
{
    if s.len() > 0 && is_white_space(s[0]) {
        trim_start_spec(s.drop_first())
    } else {
        s
    }
}

/// `s` without its trailing white space.
pub open spec fn trim_end_spec(s: Seq<char>) -> Seq<char>
    decreases s.len(),
{
    if s.len() > 0 && is_white_space(s.last()) {
        trim_end_spec(s.drop_last())
    } else {
        s
    }
}

/// `s` without leading and trailing white space.
pub open spec fn trim_spec(s: Seq<char>) -> Seq<char> {
    trim_end_spec(trim_start_spec(s))
}

/// What `str::to_lowercase` returns for a string (full Unicode case mapping).
pub uninterp spec fn lowercase_of(s: Seq<char>) -> Seq<char>;

fn is_white_space_exec(c: char) -> (r: bool)
    ensures
        r == is_white_space(c),
{
    ('\u{9}' <= c && c <= '\u{d}') || c == ' ' || c == '\u{85}' || c == '\u{a0}' || c == '\u{1680}' || ('\u{2000}' <= c
        && c <= '\u{200a}') || c == '\u{2028}' || c == '\u{2029}' || c == '\u{202f}' || c == '\u{205f}' || c
        == '\u{3000}'
}

/// The text without leading and trailing characters of the Unicode
/// `White_Space` property (what `str::trim` gives).
pub(crate) fn trim_text(s: &str) -> (r: String)
    ensures
        r@ == trim_spec(s@),
{
    let cs = chars_of(s);
    let n = cs.len();
    let mut i: usize = 0;
    proof {
        assert(s@.subrange(0, n as int) =~= s@);
    }
    while i < n && is_white_space_exec(cs[i])
        invariant
            cs@ == s@,
            n == cs@.len(),
            i <= n,
            trim_start_spec(s@) == trim_start_spec(s@.subrange(i as int, n as int)),
        decreases n - i,
    {
        proof {
            assert(s@.subrange(i as int, n as int).drop_first() =~= s@.subrange(i + 1, n as int));
        }
        i = i + 1;
    }
    let mut j: usize = n;
    proof {
        assert(trim_start_spec(s@.subrange(i as int, n as int)) == s@.subrange(i as int, n as int));
    }
    while j > i && is_white_space_exec(cs[j - 1])
        invariant
            cs@ == s@,
            n == cs@.len(),
            i <= j <= n,
            trim_spec(s@) == trim_end_spec(s@.subrange(i as int, j as int)),
        decreases j,
    {
        proof {
            assert(s@.subrange(i as int, j as int).drop_last() =~= s@.subrange(i as int, j - 1));
        }
        j = j - 1;
    }
    proof {
        if j > i {
            assert(s@.subrange(i as int, j as int).last() == cs@[j - 1]);
        }
    }
    let mut out: Vec<char> = Vec::new();
    let mut k: usize = i;
    while k < j
        invariant
            cs@ == s@,
            i <= k <= j <= n,
            n == cs@.len(),
            out@ == s@.subrange(i as int, k as int),
        decreases j - k,
    {
        out.push(cs[k]);
        k = k + 1;
        assert(out@ =~= s@.subrange(i as int, k as int));
    }
    string_of(out.as_slice())
}

/// `str::to_lowercase`: the Unicode lower-case mapping of the string, named
/// by `lowercase_of`.
#[verifier::external_body]
fn to_lowercase_text(s: &str) -> (r: String)
    ensures
        r@ == lowercase_of(s@),
{
    s.to_lowercase()
}

/// The key a query is matched with: trimmed, then lower-cased.
pub open spec fn query_key(query: Seq<char>) -> Seq<char> {
    lowercase_of(trim_spec(query))
}

/// A name matches a query key when the key is empty or occurs in the
/// lower-cased name.
pub open spec fn query_matches(name: Seq<char>, key: Seq<char>) -> bool {
    key.len() == 0 || contains_seq(lowercase_of(name), key)
}

/// Whether a file's project lists it for a query of that emptiness.
pub open spec fn listed(f: WorkspaceFile, key_empty: bool) -> bool {
    if key_empty {
        f.listed_on_empty_query
    } else {
        f.listed_on_query
    }
}

/// The result that a declaration of a file gives.
pub open spec fn candidate_entry(f: WorkspaceFile, c: SymbolCandidate) -> RankedV {
    RankedV {
        priority: f.priority as int,
        info: InfoV {
            name: c.name@,
            kind: c.kind,
            uri: f.uri@,
            start_line: c.start_line,
            start_character: c.start_character,
            end_line: c.end_line,
            end_character: c.end_character,
            container_name: opt_str(c.container_name),
        },
    }
}

/// The matching declarations among `syms` of file `f`, in order.
pub open spec fn symbol_hits(f: WorkspaceFile, syms: Seq<SymbolCandidate>, key: Seq<char>) -> Seq<RankedV>
    decreases syms.len(),
{
    if syms.len() == 0 {
        Seq::empty()
    } else {
        symbol_hits(f, syms.drop_last(), key) + if query_matches(syms.last().name@, key) {
            seq![candidate_entry(f, syms.last())]
        } else {
            Seq::empty()
        }
    }
}

/// The matching declarations of the listed files, file after file.
pub open spec fn workspace_hits(files: Seq<WorkspaceFile>, key: Seq<char>) -> Seq<RankedV>
    decreases files.len(),
{
    if files.len() == 0 {
        Seq::empty()
    } else {
        workspace_hits(files.drop_last(), key) + if listed(files.last(), key.len() == 0) {
            symbol_hits(files.last(), files.last().symbols@, key)
        } else {
            Seq::empty()
        }
    }
}

/// Three-way comparison of integers.
pub open spec fn num_order(a: int, b: int) -> int {
    if a < b {
        -1
    } else if a > b {
        1
    } else {
        0
    }
}

/// Three-way lexicographic comparison of texts by code point.
pub open spec fn text_order(a: Seq<char>, b: Seq<char>) -> int
    decreases a.len(),
{
    if a.len() == 0 {
        if b.len() == 0 {
            0
        } else {
            -1
        }
    } else if b.len() == 0 {
        1
    } else if a[0] < b[0] {
        -1
    } else if a[0] > b[0] {
        1
    } else {
        text_order(a.drop_first(), b.drop_first())
    }
}

/// Three-way comparison of optional texts, absent first.
pub open spec fn opt_text_order(a: Option<Seq<char>>, b: Option<Seq<char>>) -> int {
    match (a, b) {
        (None, None) => 0,
        (None, Some(_)) => -1,
        (Some(_), None) => 1,
        (Some(x), Some(y)) => text_order(x, y),
    }
}

/// The ranking: higher priority first, then name, URI, container name,
/// start line, start character, end line and end character, each
/// ascending.
pub open spec fn entry_order(a: RankedV, b: RankedV) -> int {
    let p = num_order(b.priority, a.priority);
    let n = text_order(a.info.name, b.info.name);
    let u = text_order(a.info.uri, b.info.uri);
    let c = opt_text_order(a.info.container_name, b.info.container_name);
    let sl = num_order(a.info.start_line as int, b.info.start_line as int);
    let sc = num_order(a.info.start_character as int, b.info.start_character as int);
    let el = num_order(a.info.end_line as int, b.info.end_line as int);
    let ec = num_order(a.info.end_character as int, b.info.end_character as int);
    if p != 0 {
        p
    } else if n != 0 {
        n
    } else if u != 0 {
        u
    } else if c != 0 {
        c
    } else if sl != 0 {
        sl
    } else if sc != 0 {
        sc
    } else if el != 0 {
        el
    } else {
        ec
    }
}

/// Where a stable insertion puts `x` into `s`: after the last element that
/// does not rank after it, counting from the end.
pub open spec fn insert_pos(s: Seq<RankedV>, x: RankedV) -> int
    decreases s.len(),
{
    if s.len() == 0 {
        0
    } else if entry_order(s.last(), x) > 0 {
        insert_pos(s.drop_last(), x)
    } else {
        s.len() as int
    }
}

/// The stable sort of `s` by `entry_order`.
pub open spec fn sort_spec(s: Seq<RankedV>) -> Seq<RankedV>
    decreases s.len(),
{
    if s.len() == 0 {
        Seq::empty()
    } else {
        let t = sort_spec(s.drop_last());
        t.insert(insert_pos(t, s.last()), s.last())
    }
}

/// No element ranks after a later one.
pub open spec fn ranked_in_order(s: Seq<RankedV>) -> bool {
    forall|i: int, j: int| 0 <= i < j < s.len() ==> entry_order(#[trigger] s[i], #[trigger] s[j]) <= 0
}

pub open spec fn infos(s: Seq<RankedV>) -> Seq<InfoV> {
    s.map_values(|e: RankedV| e.info)
}

pub open spec fn infos_v(s: Seq<SymbolInformation>) -> Seq<InfoV> {
    s.map_values(|e: SymbolInformation| e@)
}

pub open spec fn ranked_v(s: Seq<Ranked>) -> Seq<RankedV> {
    s.map_values(|e: Ranked| e@)
}


proof fn lemma_text_order(a: Seq<char>, b: Seq<char>)
    ensures
        text_order(a, b) == -text_order(b, a),
        -1 <= text_order(a, b) <= 1,
        (text_order(a, b) == 0) == (a == b),
    decreases a.len(),
{
    if a.len() > 0 && b.len() > 0 && a[0] == b[0] {
        lemma_text_order(a.drop_first(), b.drop_first());
        if a.drop_first() == b.drop_first() {
            assert(a =~= seq![a[0]] + a.drop_first());
            assert(b =~= seq![b[0]] + b.drop_first());
        }
    }
    if a.len() == 0 && b.len() == 0 {
        assert(a =~= b);
    }
}

proof fn lemma_text_order_trans(a: Seq<char>, b: Seq<char>, c: Seq<char>)
    requires
        text_order(a, b) <= 0,
        text_order(b, c) <= 0,
    ensures
        text_order(a, c) <= 0,
    decreases a.len(),
{
    if a.len() > 0 && b.len() > 0 && c.len() > 0 && a[0] == b[0] && b[0] == c[0] {
        lemma_text_order_trans(a.drop_first(), b.drop_first(), c.drop_first());
    }
}

proof fn lemma_opt_text_order(a: Option<Seq<char>>, b: Option<Seq<char>>)
    ensures
        opt_text_order(a, b) == -opt_text_order(b, a),
        (opt_text_order(a, b) == 0) == (a == b),
{
    match (a, b) {
        (Some(x), Some(y)) => lemma_text_order(x, y),
        _ => {},
    }
}

proof fn lemma_opt_text_order_trans(a: Option<Seq<char>>, b: Option<Seq<char>>, c: Option<Seq<char>>)
    requires
        opt_text_order(a, b) <= 0,
        opt_text_order(b, c) <= 0,
    ensures
        opt_text_order(a, c) <= 0,
{
    match (a, b, c) {
        (Some(x), Some(y), Some(z)) => lemma_text_order_trans(x, y, z),
        _ => {},
    }
}

/// `entry_order` is antisymmetric.
pub proof fn lemma_entry_order_antisym(a: RankedV, b: RankedV)
    ensures
        entry_order(a, b) == -entry_order(b, a),
{
    lemma_text_order(a.info.name, b.info.name);
    lemma_text_order(a.info.uri, b.info.uri);
    lemma_opt_text_order(a.info.container_name, b.info.container_name);
}

/// `entry_order` ranks transitively.
pub proof fn lemma_entry_order_trans(a: RankedV, b: RankedV, c: RankedV)
    requires
        entry_order(a, b) <= 0,
        entry_order(b, c) <= 0,
    ensures
        entry_order(a, c) <= 0,
{
    lemma_text_order(a.info.name, b.info.name);
    lemma_text_order(b.info.name, c.info.name);
    lemma_text_order(a.info.name, c.info.name);
    lemma_text_order(a.info.uri, b.info.uri);
    lemma_text_order(b.info.uri, c.info.uri);
    lemma_text_order(a.info.uri, c.info.uri);
    lemma_opt_text_order(a.info.container_name, b.info.container_name);
    lemma_opt_text_order(b.info.container_name, c.info.container_name);
    lemma_opt_text_order(a.info.container_name, c.info.container_name);
    if text_order(a.info.name, b.info.name) <= 0 && text_order(b.info.name, c.info.name) <= 0 {
        lemma_text_order_trans(a.info.name, b.info.name, c.info.name);
    }
    if text_order(a.info.uri, b.info.uri) <= 0 && text_order(b.info.uri, c.info.uri) <= 0 {
        lemma_text_order_trans(a.info.uri, b.info.uri, c.info.uri);
    }
    if opt_text_order(a.info.container_name, b.info.container_name) <= 0 && opt_text_order(
        b.info.container_name,
        c.info.container_name,
    ) <= 0 {
        lemma_opt_text_order_trans(a.info.container_name, b.info.container_name, c.info.container_name);
    }
}

proof fn lemma_insert_pos(s: Seq<RankedV>, x: RankedV)
    ensures
        0 <= insert_pos(s, x) <= s.len(),
        forall|k: int| insert_pos(s, x) <= k < s.len() ==> entry_order(#[trigger] s[k], x) > 0,
        insert_pos(s, x) > 0 ==> entry_order(s[insert_pos(s, x) - 1], x) <= 0,
    decreases s.len(),
{
    if s.len() > 0 && entry_order(s.last(), x) > 0 {
        lemma_insert_pos(s.drop_last(), x);
        assert forall|k: int| insert_pos(s, x) <= k < s.len() implies entry_order(#[trigger] s[k], x) > 0 by {
            if k < s.len() - 1 {
                assert(s[k] == s.drop_last()[k]);
            }
        }
    }
}

/// The ranking puts no result after a later one that ranks before it, and
/// keeps every result exactly as often as the search found it.
pub proof fn law_ranking_orders_and_keeps_results(s: Seq<RankedV>)
    ensures
        ranked_in_order(sort_spec(s)),
        sort_spec(s).to_multiset() == s.to_multiset(),
        sort_spec(s).len() == s.len(),
    decreases s.len(),
{
    broadcast use vstd::seq_lib::group_to_multiset_ensures;
    if s.len() > 0 {
        let t = sort_spec(s.drop_last());
        let x = s.last();
        law_ranking_orders_and_keeps_results(s.drop_last());
        lemma_insert_pos(t, x);
        let p = insert_pos(t, x);
        let u = t.insert(p, x);
        assert(u == sort_spec(s));
        assert forall|i: int, j: int| 0 <= i < j < u.len() implies entry_order(#[trigger] u[i], #[trigger] u[j]) <= 0 by {
            if j < p {
                assert(u[i] == t[i] && u[j] == t[j]);
            } else if j == p {
                assert(u[i] == t[i]);
                if i < p - 1 {
                    assert(entry_order(t[i], t[p - 1]) <= 0);
                    lemma_entry_order_trans(t[i], t[p - 1], x);
                }
            } else if i < p {
                assert(u[i] == t[i] && u[j] == t[j - 1]);
            } else if i == p {
                assert(u[j] == t[j - 1]);
                assert(entry_order(t[j - 1], x) > 0);
                lemma_entry_order_antisym(t[j - 1], x);
            } else {
                assert(u[i] == t[i - 1] && u[j] == t[j - 1]);
            }
        }
        vstd::seq_lib::to_multiset_insert(t, p, x);
        assert(s =~= s.drop_last().push(x));
    }
}


/// Three-way lexicographic comparison of two texts.
pub fn compare_text(a: &str, b: &str) -> (r: i8)
    ensures
        r as int == text_order(a@, b@),
{
    let ac = chars_of(a);
    let bc = chars_of(b);
    let mut i: usize = 0;
    proof {
        assert(a@.subrange(0, a@.len() as int) =~= a@);
        assert(b@.subrange(0, b@.len() as int) =~= b@);
    }
    while i < ac.len() && i < bc.len()
        invariant
            ac@ == a@,
            bc@ == b@,
            i <= ac@.len(),
            i <= bc@.len(),
            text_order(a@, b@) == text_order(
                a@.subrange(i as int, a@.len() as int),
                b@.subrange(i as int, b@.len() as int),
            ),
        decreases ac@.len() - i,
    {
        let ghost sa = a@.subrange(i as int, a@.len() as int);
        let ghost sb = b@.subrange(i as int, b@.len() as int);
        assert(sa[0] == ac@[i as int] && sb[0] == bc@[i as int]);
        if ac[i] < bc[i] {
            return -1;
        }
        if ac[i] > bc[i] {
            return 1;
        }
        assert(sa.drop_first() =~= a@.subrange(i + 1, a@.len() as int));
        assert(sb.drop_first() =~= b@.subrange(i + 1, b@.len() as int));
        i = i + 1;
    }
    if i < ac.len() {
        1
    } else if i < bc.len() {
        -1
    } else {
        0
    }
}

fn compare_num(a: i64, b: i64) -> (r: i8)
    ensures
        r as int == num_order(a as int, b as int),
{
    if a < b {
        -1
    } else if a > b {
        1
    } else {
        0
    }
}

fn compare_opt_text(a: &Option<String>, b: &Option<String>) -> (r: i8)
    ensures
        r as int == opt_text_order(opt_str(*a), opt_str(*b)),
{
    match (a, b) {
        (None, None) => 0,
        (None, Some(_)) => -1,
        (Some(_), None) => 1,
        (Some(x), Some(y)) => compare_text(x.as_str(), y.as_str()),
    }
}

/// Three-way comparison of two ranked results by `entry_order`.
pub fn compare_entries(a: &Ranked, b: &Ranked) -> (r: i8)
    ensures
        r as int == entry_order(a@, b@),
{
    let p = compare_num(b.priority as i64, a.priority as i64);
    if p != 0 {
        return p;
    }
    let n = compare_text(a.info.name.as_str(), b.info.name.as_str());
    if n != 0 {
        return n;
    }
    let u = compare_text(a.info.uri.as_str(), b.info.uri.as_str());
    if u != 0 {
        return u;
    }
    let c = compare_opt_text(&a.info.container_name, &b.info.container_name);
    if c != 0 {
        return c;
    }
    let sl = compare_num(a.info.start_line as i64, b.info.start_line as i64);
    if sl != 0 {
        return sl;
    }
    let sc = compare_num(a.info.start_character as i64, b.info.start_character as i64);
    if sc != 0 {
        return sc;
    }
    let el = compare_num(a.info.end_line as i64, b.info.end_line as i64);
    if el != 0 {
        return el;
    }
    compare_num(a.info.end_character as i64, b.info.end_character as i64)
}

fn clone_opt_text(o: &Option<String>) -> (r: Option<String>)
    ensures
        opt_str(r) == opt_str(*o),
{
    match o {
        Some(s) => Some(s.clone()),
        None => None,
    }
}

fn clone_info(i: &SymbolInformation) -> (r: SymbolInformation)
    ensures
        r@ == i@,
{
    SymbolInformation {
        name: i.name.clone(),
        kind: i.kind,
        uri: i.uri.clone(),
        start_line: i.start_line,
        start_character: i.start_character,
        end_line: i.end_line,
        end_character: i.end_character,
        container_name: clone_opt_text(&i.container_name),
    }
}

/// Inserts `x` into `out` after the last element that does not rank after
/// it (a stable insertion).
pub fn insert_ranked(out: &mut Vec<Ranked>, x: Ranked)
    ensures
        ranked_v(final(out)@) == ranked_v(old(out)@).insert(insert_pos(ranked_v(old(out)@), x@), x@),
{
    let ghost s = ranked_v(out@);
    let mut p: usize = out.len();
    proof {
        assert(s.take(p as int) =~= s);
    }
    while p > 0 && compare_entries(&out[p - 1], &x) > 0
        invariant
            p <= out@.len(),
            ranked_v(out@) == s,
            insert_pos(s, x@) == insert_pos(s.take(p as int), x@),
        decreases p,
    {
        proof {
            assert(s.take(p as int).drop_last() =~= s.take(p - 1));
            assert(s.take(p as int).last() == out@[p - 1]@);
        }
        p = p - 1;
    }
    proof {
        if p > 0 {
            assert(s.take(p as int).last() == out@[p - 1]@);
        } else {
            assert(s.take(0) =~= Seq::<RankedV>::empty());
        }
    }
    out.insert(p, x);
    proof {
        assert(ranked_v(out@) =~= s.insert(p as int, x@));
    }
}

/// The cancellation checks one file costs the search: one before the file,
/// and, when the file is listed for the query, one before each of its
/// declarations.
pub open spec fn file_checks(f: WorkspaceFile, key: Seq<char>) -> nat {
    1 + if listed(f, key.len() == 0) {
        f.symbols@.len()
    } else {
        0
    }
}

/// The cancellation checks the files cost, in order.
pub open spec fn files_checks(files: Seq<WorkspaceFile>, key: Seq<char>) -> nat
    decreases files.len(),
{
    if files.len() == 0 {
        0
    } else {
        files_checks(files.drop_last(), key) + file_checks(files.last(), key)
    }
}

/// The number of cancellation checks of a whole search: one at entry, then
/// those of the files.
pub open spec fn search_checks(files: Seq<WorkspaceFile>, key: Seq<char>) -> nat {
    1 + files_checks(files, key)
}

/// One of the first `n` checks saw the request cancelled (checks past the
/// end of `seen` saw it running).
pub open spec fn cancelled_within(seen: Seq<bool>, n: int) -> bool {
    exists|c: int| 0 <= c < n && c < seen.len() && #[trigger] seen[c]
}

proof fn lemma_files_checks_prefix(files: Seq<WorkspaceFile>, key: Seq<char>, i: int)
    requires
        0 <= i <= files.len(),
    ensures
        files_checks(files.take(i), key) <= files_checks(files, key),
    decreases files.len() - i,
{
    if i < files.len() {
        lemma_files_checks_prefix(files, key, i + 1);
        assert(files.take(i + 1).drop_last() =~= files.take(i));
    } else {
        assert(files.take(i) =~= files);
    }
}

fn saw_cancelled(seen: &Vec<bool>, c: usize) -> (r: bool)
    ensures
        r == (c < seen@.len() && seen@[c as int]),
{
    c < seen.len() && seen[c]
}

fn next_check(seen: &Vec<bool>, c: usize) -> (r: usize)
    requires
        c <= seen@.len(),
    ensures
        r as int == if c < seen@.len() { c + 1 } else { c as int },
{
    if c < seen.len() {
        c + 1
    } else {
        c
    }
}

/// The workspace symbol search of one request. The search checks whether
/// the request was cancelled at entry, before each file and, in a listed
/// file, before each declaration; `seen` holds what those checks saw, in
/// that order. It answers `None` as soon as a check sees the request
/// cancelled (never a partial list), else the matching declarations of the
/// listed files ranked by `entry_order`, equal ones in file and declaration
/// order.
pub fn workspace_symbol_with_ticket(files: &Vec<WorkspaceFile>, query: &str, seen: &Vec<bool>) -> (r: Option<
    Vec<SymbolInformation>,
>)
    ensures
        cancelled_within(seen@, search_checks(files@, query_key(query@)) as int) ==> r is None,
        !cancelled_within(seen@, search_checks(files@, query_key(query@)) as int) ==> (r matches Some(v) && infos_v(v@)
            == infos(sort_spec(workspace_hits(files@, query_key(query@))))),
{
    if saw_cancelled(seen, 0) {
        return None;
    }
    let mut c: usize = next_check(seen, 0);
    let trimmed = trim_text(query);
    let key = to_lowercase_text(trimmed.as_str());
    let key_empty = key.as_str().is_empty();
    let ghost k = key@;
    let ghost total: int = search_checks(files@, k) as int;
    proof {
        lemma_files_checks_prefix(files@, k, 0);
        assert(files@.take(0) =~= Seq::<WorkspaceFile>::empty());
    }
    let mut out: Vec<Ranked> = Vec::new();
    let mut i: usize = 0;
    while i < files.len()
        invariant
            i <= files@.len(),
            k == query_key(query@),
            key@ == k,
            key_empty == (k.len() == 0),
            total == search_checks(files@, k),
            ranked_v(out@) == sort_spec(workspace_hits(files@.take(i as int), k)),
            c as int == if (1 + files_checks(files@.take(i as int), k)) as int <= seen@.len() {
                (1 + files_checks(files@.take(i as int), k)) as int
            } else {
                seen@.len() as int
            },
            !cancelled_within(seen@, (1 + files_checks(files@.take(i as int), k)) as int),
            (1 + files_checks(files@.take(i as int), k)) as int <= total,
        decreases files@.len() - i,
    {
        let f = &files[i];
        let ghost before = workspace_hits(files@.take(i as int), k);
        let ghost done: int = (1 + files_checks(files@.take(i as int), k)) as int;
        proof {
            assert(files@.take(i + 1).drop_last() =~= files@.take(i as int));
            assert(files@.take(i + 1).last() == *f);
            lemma_files_checks_prefix(files@, k, i + 1);
        }
        if saw_cancelled(seen, c) {
            assert(cancelled_within(seen@, total)) by {
                assert(seen@[c as int]);
            }
            return None;
        }
        c = next_check(seen, c);
        assert(!cancelled_within(seen@, done + 1)) by {
            if cancelled_within(seen@, done + 1) {
                let w = choose|w: int| 0 <= w < done + 1 && w < seen@.len() && #[trigger] seen@[w];
                assert(w == done);
            }
        }
        let shown = if key_empty {
            f.listed_on_empty_query
        } else {
            f.listed_on_query
        };
        if shown {
            let mut j: usize = 0;
            proof {
                assert(f.symbols@.take(0) =~= Seq::<SymbolCandidate>::empty());
                assert(before + symbol_hits(*f, f.symbols@.take(0), k) =~= before);
            }
            while j < f.symbols.len()
                invariant
                    j <= f.symbols@.len(),
                    key@ == k,
                    key_empty == (k.len() == 0),
                    listed(*f, k.len() == 0),
                    ranked_v(out@) == sort_spec(before + symbol_hits(*f, f.symbols@.take(j as int), k)),
                    c as int == if done + 1 + j <= seen@.len() { done + 1 + j } else { seen@.len() as int },
                    !cancelled_within(seen@, done + 1 + j),
                    done + file_checks(*f, k) <= total,
                    total == search_checks(files@, k) as int,
                    k == query_key(query@),
                decreases f.symbols@.len() - j,
            {
                let cand = &f.symbols[j];
                let ghost acc = before + symbol_hits(*f, f.symbols@.take(j as int), k);
                proof {
                    assert(f.symbols@.take(j + 1).drop_last() =~= f.symbols@.take(j as int));
                    assert(f.symbols@.take(j + 1).last() == *cand);
                }
                if saw_cancelled(seen, c) {
                    assert(cancelled_within(seen@, total)) by {
                        assert(file_checks(*f, k) == 1 + f.symbols@.len());
                        assert(c as int == done + 1 + j);
                        assert(seen@[c as int]);
                    }
                    return None;
                }
                c = next_check(seen, c);
                assert(!cancelled_within(seen@, done + 1 + j + 1)) by {
                    if cancelled_within(seen@, done + 1 + j + 1) {
                        let w = choose|w: int| 0 <= w < done + 1 + j + 1 && w < seen@.len() && #[trigger] seen@[w];
                        assert(w == done + 1 + j);
                    }
                }
                let lname = to_lowercase_text(cand.name.as_str());
                let hit = key_empty || contains_str(lname.as_str(), key.as_str());
                if hit {
                    let x = Ranked {
                        priority: f.priority,
                        info: SymbolInformation {
                            name: cand.name.clone(),
                            kind: cand.kind,
                            uri: f.uri.clone(),
                            start_line: cand.start_line,
                            start_character: cand.start_character,
                            end_line: cand.end_line,
                            end_character: cand.end_character,
                            container_name: clone_opt_text(&cand.container_name),
                        },
                    };
                    assert(x@ == candidate_entry(*f, *cand));
                    insert_ranked(&mut out, x);
                    proof {
                        let nxt = acc + seq![candidate_entry(*f, *cand)];
                        assert(nxt.drop_last() =~= acc);
                        assert(before + symbol_hits(*f, f.symbols@.take(j + 1), k) =~= nxt);
                    }
                } else {
                    proof {
                        assert(before + symbol_hits(*f, f.symbols@.take(j + 1), k) =~= acc);
                    }
                }
                j = j + 1;
            }
            proof {
                assert(f.symbols@.take(f.symbols@.len() as int) =~= f.symbols@);
            }
        } else {
            proof {
                assert(before + Seq::<RankedV>::empty() =~= before);
            }
        }
        i = i + 1;
    }
    proof {
        assert(files@.take(files@.len() as int) =~= files@);
    }
    let mut res: Vec<SymbolInformation> = Vec::new();
    let mut m: usize = 0;
    while m < out.len()
        invariant
            m <= out@.len(),
            res@.len() == m,
            infos_v(res@) == infos(ranked_v(out@)).take(m as int),
        decreases out@.len() - m,
    {
        let e = clone_info(&out[m].info);
        let ghost ev = e@;
        assert(ranked_v(out@)[m as int] == out@[m as int]@);
        assert(infos(ranked_v(out@))[m as int] == ev);
        res.push(e);
        proof {
            assert(res@[m as int]@ == ev);
            assert(infos_v(res@)[m as int] == ev);
            assert(infos_v(res@) =~= infos(ranked_v(out@)).take(m + 1));
        }
        m = m + 1;
    }
    proof {
        assert(infos(ranked_v(out@)).take(out@.len() as int) =~= infos(ranked_v(out@)));
    }
    Some(res)
}

/// The workspace symbol search: the matching declarations of the listed
/// files ranked by `entry_order` (see `law_ranking_orders_and_keeps_results` for what the ranking
/// guarantees).
pub fn workspace_symbol(files: &Vec<WorkspaceFile>, query: &str) -> (r: Option<Vec<SymbolInformation>>)
    ensures
        r matches Some(v) && infos_v(v@) == infos(sort_spec(workspace_hits(files@, query_key(query@)))),
{
    let seen: Vec<bool> = Vec::new();
    workspace_symbol_with_ticket(files, query, &seen)
}

/// The message that opens the progress report of a search: none for a
/// blank query, else `Query: ` and the query as given.
pub fn progress_query_message(query: &str) -> (r: Option<String>)
    ensures
        trim_spec(query@).len() == 0 ==> r is None,
        trim_spec(query@).len() != 0 ==> (r matches Some(m) && m@ == "Query: "@ + query@),
{
    let trimmed = trim_text(query);
    if trimmed.as_str().is_empty() {
        None
    } else {
        Some(concat2("Query: ", query))
    }
}

proof fn lemma_symbol_hits_match(f: WorkspaceFile, syms: Seq<SymbolCandidate>, key: Seq<char>, e: RankedV)
    requires
        symbol_hits(f, syms, key).contains(e),
    ensures
        query_matches(e.info.name, key),
        e.info.uri == f.uri@,
        e.priority == f.priority as int,
    decreases syms.len(),
{
    if syms.len() > 0 {
        let prev = symbol_hits(f, syms.drop_last(), key);
        let k = choose|k: int| 0 <= k < symbol_hits(f, syms, key).len() && symbol_hits(f, syms, key)[k] == e;
        if k < prev.len() {
            assert(prev[k] == e);
            lemma_symbol_hits_match(f, syms.drop_last(), key, e);
        }
    }
}

/// Every result of a search is a declaration whose lower-cased name
/// contains the query key (any declaration when the key is empty), in a
/// file listed for that query, and carries that file's URI and priority.
pub proof fn law_workspace_results_match_query(files: Seq<WorkspaceFile>, key: Seq<char>, e: RankedV)
    requires
        sort_spec(workspace_hits(files, key)).contains(e),
    ensures
        query_matches(e.info.name, key),
        exists|k: int| #![trigger files[k]]
            0 <= k < files.len() && listed(files[k], key.len() == 0) && e.info.uri == files[k].uri@ && e.priority
                == files[k].priority as int,
{
    broadcast use vstd::seq_lib::group_to_multiset_ensures;
    law_ranking_orders_and_keeps_results(workspace_hits(files, key));
    let h = workspace_hits(files, key);
    assert(sort_spec(h).to_multiset().count(e) > 0);
    assert(h.to_multiset().count(e) > 0);
    assert(h.contains(e));
    lemma_hits_match(files, key, e);
}

proof fn lemma_hits_match(files: Seq<WorkspaceFile>, key: Seq<char>, e: RankedV)
    requires
        workspace_hits(files, key).contains(e),
    ensures
        query_matches(e.info.name, key),
        exists|k: int| #![trigger files[k]]
            0 <= k < files.len() && listed(files[k], key.len() == 0) && e.info.uri == files[k].uri@ && e.priority
                == files[k].priority as int,
    decreases files.len(),
{
    if files.len() > 0 {
        let prev = workspace_hits(files.drop_last(), key);
        let h = workspace_hits(files, key);
        let k = choose|k: int| 0 <= k < h.len() && h[k] == e;
        if k < prev.len() {
            assert(prev[k] == e);
            lemma_hits_match(files.drop_last(), key, e);
            let j = choose|j: int| #![trigger files.drop_last()[j]]
                0 <= j < files.drop_last().len() && listed(files.drop_last()[j], key.len() == 0) && e.info.uri
                    == files.drop_last()[j].uri@ && e.priority == files.drop_last()[j].priority as int;
            assert(files[j] == files.drop_last()[j]);
        } else {
            let last = files.last();
            assert(listed(last, key.len() == 0));
            let sh = symbol_hits(last, last.symbols@, key);
            assert(sh[k - prev.len()] == e);
            lemma_symbol_hits_match(last, last.symbols@, key, e);
            assert(files[files.len() - 1] == last);
        }
    }
}

proof fn lemma_contains_trans(s: Seq<char>, p2: Seq<char>, p1: Seq<char>)
    requires
        contains_seq(s, p2),
        contains_seq(p2, p1),
    ensures
        contains_seq(s, p1),
{
    let i = choose|i: int| occurs_at(s, p2, i);
    let j = choose|j: int| occurs_at(p2, p1, j);
    assert(s.subrange(i + j, i + j + p1.len()) =~= p2.subrange(j, j + p1.len()));
    assert(occurs_at(s, p1, i + j));
}

proof fn lemma_symbol_hits_refine(f: WorkspaceFile, syms: Seq<SymbolCandidate>, k1: Seq<char>, k2: Seq<char>, e: RankedV)
    requires
        k1.len() > 0,
        contains_seq(k2, k1),
        symbol_hits(f, syms, k2).contains(e),
    ensures
        symbol_hits(f, syms, k1).contains(e),
    decreases syms.len(),
{
    if syms.len() > 0 {
        let p2 = symbol_hits(f, syms.drop_last(), k2);
        let p1 = symbol_hits(f, syms.drop_last(), k1);
        let h2 = symbol_hits(f, syms, k2);
        let h1 = symbol_hits(f, syms, k1);
        let m = choose|m: int| 0 <= m < h2.len() && h2[m] == e;
        if m < p2.len() {
            assert(p2[m] == e);
            lemma_symbol_hits_refine(f, syms.drop_last(), k1, k2, e);
            let n = choose|n: int| 0 <= n < p1.len() && p1[n] == e;
            assert(h1[n] == e);
        } else {
            let last = syms.last();
            assert(query_matches(last.name@, k2));
            assert(k2.len() > 0);
            lemma_contains_trans(lowercase_of(last.name@), k2, k1);
            assert(h1[p1.len() as int] == e);
        }
    }
}

proof fn lemma_hits_refine(files: Seq<WorkspaceFile>, k1: Seq<char>, k2: Seq<char>, e: RankedV)
    requires
        k1.len() > 0,
        contains_seq(k2, k1),
        workspace_hits(files, k2).contains(e),
    ensures
        workspace_hits(files, k1).contains(e),
    decreases files.len(),
{
    if files.len() > 0 {
        assert(k2.len() >= k1.len()) by {
            let i = choose|i: int| occurs_at(k2, k1, i);
        }
        let p2 = workspace_hits(files.drop_last(), k2);
        let p1 = workspace_hits(files.drop_last(), k1);
        let h2 = workspace_hits(files, k2);
        let h1 = workspace_hits(files, k1);
        let m = choose|m: int| 0 <= m < h2.len() && h2[m] == e;
        if m < p2.len() {
            assert(p2[m] == e);
            lemma_hits_refine(files.drop_last(), k1, k2, e);
            let n = choose|n: int| 0 <= n < p1.len() && p1[n] == e;
            assert(h1[n] == e);
        } else {
            let last = files.last();
            let s2 = symbol_hits(last, last.symbols@, k2);
            let s1 = symbol_hits(last, last.symbols@, k1);
            assert(s2[m - p2.len()] == e);
            lemma_symbol_hits_refine(last, last.symbols@, k1, k2, e);
            let n = choose|n: int| 0 <= n < s1.len() && s1[n] == e;
            assert(h1[p1.len() + n] == e);
        }
    }
}

/// Refining a query never adds results: when the key of one query is
/// non-empty and occurs in the key of another, every result of the other
/// is a result of the first. (Two queries with the same key get the same
/// results, as `workspace_symbol` states them from the key alone.)
pub proof fn law_refined_query_adds_no_results(files: Seq<WorkspaceFile>, q1: Seq<char>, q2: Seq<char>, e: RankedV)
    requires
        query_key(q1).len() > 0,
        contains_seq(query_key(q2), query_key(q1)),
        sort_spec(workspace_hits(files, query_key(q2))).contains(e),
    ensures
        sort_spec(workspace_hits(files, query_key(q1))).contains(e),
{
    broadcast use vstd::seq_lib::group_to_multiset_ensures;
    law_ranking_orders_and_keeps_results(workspace_hits(files, query_key(q2)));
    law_ranking_orders_and_keeps_results(workspace_hits(files, query_key(q1)));
    let h2 = workspace_hits(files, query_key(q2));
    assert(sort_spec(h2).to_multiset().count(e) > 0);
    assert(h2.contains(e));
    lemma_hits_refine(files, query_key(q1), query_key(q2), e);
    let h1 = workspace_hits(files, query_key(q1));
    assert(h1.to_multiset().count(e) > 0);
}

/// The numbers of results reported after each chunk when `count` results
/// are streamed in chunks of `chunk`, starting after `done` of them.
pub open spec fn chunk_ends(count: nat, chunk: nat, done: nat) -> Seq<nat>
    decreases count - done,
{
    if chunk == 0 || done >= count {
        Seq::empty()
    } else {
        let e = if done + chunk <= count { done + chunk } else { count };
        seq![e] + chunk_ends(count, chunk, e)
    }
}

/// `Symbols: <emitted>/<total>`.
pub open spec fn chunk_message(emitted: nat, total: nat) -> Seq<char> {
    "Symbols: "@ + decimal(emitted) + "/"@ + decimal(total)
}

/// `r` are the reports of streaming `count` results in chunks of `chunk`:
/// one per chunk, with the number emitted so far, the total (at least 1)
/// and the message.
pub open spec fn steps_render(r: Seq<ProgressStep>, count: nat, chunk: nat) -> bool {
    &&& r.len() == chunk_ends(count, chunk, 0).len()
    &&& forall|k: int|
        0 <= k < r.len() ==> {
            &&& (#[trigger] r[k]).emitted == chunk_ends(count, chunk, 0)[k]
            &&& r[k].total == if count == 0 { 1 } else { count }
            &&& r[k].message@ == chunk_message(r[k].emitted as nat, r[k].total as nat)
        }
}

/// One progress report of a streamed search.
pub struct ProgressStep {
    pub emitted: usize,
    pub total: usize,
    pub message: String,
}

/// The progress reports of streaming `count` results in chunks of `chunk`:
/// after each chunk, the number emitted so far out of the total (at least
/// 1), with its message. The percentage each report shows is left to the
/// caller.
pub fn progress_steps(count: usize, chunk: usize) -> (r: Vec<ProgressStep>)
    requires
        chunk > 0,
    ensures
        steps_render(r@, count as nat, chunk as nat),
{
    let total: usize = if count == 0 { 1 } else { count };
    let mut out: Vec<ProgressStep> = Vec::new();
    let mut done: usize = 0;
    let ghost all = chunk_ends(count as nat, chunk as nat, 0);
    while done < count
        invariant
            done <= count,
            chunk > 0,
            total == if count == 0 { 1 } else { count },
            all == chunk_ends(count as nat, chunk as nat, 0),
            all == out@.map_values(|p: ProgressStep| p.emitted as nat) + chunk_ends(count as nat, chunk as nat, done as nat),
            forall|k: int|
                0 <= k < out@.len() ==> {
                    &&& (#[trigger] out@[k]).total == total
                    &&& out@[k].message@ == chunk_message(out@[k].emitted as nat, total as nat)
                },
        decreases count - done,
    {
        let e: usize = if chunk <= count - done { done + chunk } else { count };
        let mut message = String::from_str("Symbols: ");
        let es = decimal_string(e as u64);
        append_str(&mut message, es.as_str());
        append_str(&mut message, "/");
        let ts = decimal_string(total as u64);
        append_str(&mut message, ts.as_str());
        let ghost before = out@;
        out.push(ProgressStep { emitted: e, total, message });
        proof {
            assert(chunk_ends(count as nat, chunk as nat, done as nat) == seq![e as nat] + chunk_ends(count as nat, chunk as nat, e as nat));
            assert(out@.map_values(|p: ProgressStep| p.emitted as nat) =~= before.map_values(|p: ProgressStep| p.emitted as nat).push(e as nat));
            assert(all =~= out@.map_values(|p: ProgressStep| p.emitted as nat) + chunk_ends(count as nat, chunk as nat, e as nat));
        }
        done = e;
    }
    assert(chunk_ends(count as nat, chunk as nat, done as nat) =~= Seq::<nat>::empty());
    assert(all =~= out@.map_values(|p: ProgressStep| p.emitted as nat));
    assert forall|k: int| 0 <= k < out@.len() implies (#[trigger] out@[k]).emitted == all[k] by {
        assert(out@.map_values(|p: ProgressStep| p.emitted as nat)[k] == out@[k].emitted as nat);
    }
    out
}

/// `Found <count> symbol(s)`: the closing message of a streamed search.
pub fn found_message(count: usize) -> (r: String)
    ensures
        r@ == "Found "@ + decimal(count as nat) + " symbol(s)"@,
{
    let mut m = String::from_str("Found ");
    let c = decimal_string(count as u64);
    append_str(&mut m, c.as_str());
    append_str(&mut m, " symbol(s)");
    m
}

/// What a search that reports its progress does: it opens a report titled
/// `Searching workspace symbols` (with the query as message unless it is
/// blank), runs the search, streams the results in chunks when the client
/// asked for partial results (one progress report after each chunk; chunk
/// `k` holds the results from the end of chunk `k - 1` up to the
/// `emitted` count of report `k`), and closes with the number found.
pub struct SearchProgress {
    pub title: String,
    pub begin_message: Option<String>,
    pub result: Option<Vec<SymbolInformation>>,
    pub reports: Vec<ProgressStep>,
    pub partials: Vec<Vec<SymbolInformation>>,
    pub end_message: String,
}

/// Where chunk `k` of a stream starts, when the first chunk starts at
/// `from` and the chunks end at `ends`.
pub open spec fn chunk_start(ends: Seq<nat>, from: nat, k: int) -> nat {
    if k == 0 {
        from
    } else {
        ends[k - 1]
    }
}

/// `parts` are the chunks of `v` when it is streamed in chunks of `chunk`:
/// chunk `k` is `v` from the end of chunk `k - 1` to the end that report
/// `k` counts.
pub open spec fn chunks_of<A>(parts: Seq<Seq<A>>, v: Seq<A>, chunk: nat) -> bool {
    let ends = chunk_ends(v.len(), chunk, 0);
    &&& parts.len() == ends.len()
    &&& forall|k: int| 0 <= k < parts.len() ==> #[trigger] parts[k] == v.subrange(chunk_start(ends, 0, k) as int, ends[k] as int)
}

/// The views of a list of partial results.
pub open spec fn partials_v(p: Seq<Vec<SymbolInformation>>) -> Seq<Seq<InfoV>> {
    p.map_values(|c: Vec<SymbolInformation>| infos_v(c@))
}

fn copy_range(v: &Vec<SymbolInformation>, from: usize, to: usize) -> (r: Vec<SymbolInformation>)
    requires
        from <= to <= v@.len(),
    ensures
        infos_v(r@) == infos_v(v@).subrange(from as int, to as int),
{
    let mut out: Vec<SymbolInformation> = Vec::new();
    let mut j: usize = from;
    while j < to
        invariant
            from <= j <= to <= v@.len(),
            infos_v(out@) == infos_v(v@).subrange(from as int, j as int),
        decreases to - j,
    {
        let e = clone_info(&v[j]);
        let ghost before = out@;
        let ghost ev = e@;
        assert(infos_v(v@)[j as int] == ev);
        out.push(e);
        proof {
            assert(out@ == before.push(e));
            assert(infos_v(out@)[out@.len() - 1] == ev);
            assert(infos_v(out@) =~= infos_v(before).push(ev));
            assert(infos_v(out@) =~= infos_v(v@).subrange(from as int, j + 1));
        }
        j = j + 1;
    }
    out
}

/// The partial results of streaming `v` in chunks of `chunk`.
fn split_chunks(v: &Vec<SymbolInformation>, chunk: usize) -> (r: Vec<Vec<SymbolInformation>>)
    requires
        chunk > 0,
    ensures
        chunks_of(partials_v(r@), infos_v(v@), chunk as nat),
{
    let count = v.len();
    let ghost all = chunk_ends(count as nat, chunk as nat, 0);
    let mut out: Vec<Vec<SymbolInformation>> = Vec::new();
    let mut done: usize = 0;
    proof {
        lemma_chunk_ends(count as nat, chunk as nat, 0);
        assert(all.take(0) + all =~= all);
    }
    while done < count
        invariant
            done <= count == v@.len(),
            chunk > 0,
            all == chunk_ends(count as nat, chunk as nat, 0),
            out@.len() <= all.len(),
            all == all.take(out@.len() as int) + chunk_ends(count as nat, chunk as nat, done as nat),
            done == chunk_start(all, 0, out@.len() as int),
            forall|k: int| 0 <= k < out@.len() ==> #[trigger] partials_v(out@)[k] == infos_v(v@).subrange(
                chunk_start(all, 0, k) as int,
                all[k] as int,
            ),
        decreases count - done,
    {
        let e: usize = if chunk <= count - done { done + chunk } else { count };
        let part = copy_range(v, done, e);
        let ghost n = out@.len() as int;
        let ghost before = out@;
        proof {
            assert(chunk_ends(count as nat, chunk as nat, done as nat) == seq![e as nat] + chunk_ends(count as nat, chunk as nat, e as nat));
            assert(all[n] == e);
        }
        out.push(part);
        proof {
            assert(all.take(n + 1) =~= all.take(n).push(e as nat));
            assert(all =~= all.take(n + 1) + chunk_ends(count as nat, chunk as nat, e as nat));
            assert forall|k: int| 0 <= k < out@.len() implies #[trigger] partials_v(out@)[k] == infos_v(v@).subrange(
                chunk_start(all, 0, k) as int,
                all[k] as int,
            ) by {
                if k < n {
                    assert(out@[k] == before[k]);
                    assert(partials_v(before)[k] == infos_v(before[k]@));
                }
            }
        }
        done = e;
    }
    proof {
        assert(chunk_ends(count as nat, chunk as nat, done as nat) =~= Seq::<nat>::empty());
        assert(all.take(out@.len() as int) =~= all);
    }
    out
}

/// The number of results of a search (none when it was cancelled).
pub open spec fn result_count(r: Option<Vec<SymbolInformation>>) -> nat {
    match r {
        Some(v) => v@.len(),
        None => 0,
    }
}

/// The workspace symbol search with progress reports (see
/// `SearchProgress`): its result is that of `workspace_symbol_with_ticket`
/// on the same files, query and cancellation checks.
pub fn workspace_symbol_with_progress(
    files: &Vec<WorkspaceFile>,
    query: &str,
    seen: &Vec<bool>,
    partial: bool,
    chunk: usize,
) -> (r: SearchProgress)
    requires
        chunk > 0,
    ensures
        r.title@ == "Searching workspace symbols"@,
        trim_spec(query@).len() == 0 ==> r.begin_message is None,
        trim_spec(query@).len() != 0 ==> (r.begin_message matches Some(m) && m@ == "Query: "@ + query@),
        cancelled_within(seen@, search_checks(files@, query_key(query@)) as int) ==> r.result is None,
        !cancelled_within(seen@, search_checks(files@, query_key(query@)) as int) ==> (r.result matches Some(v)
            && infos_v(v@) == infos(sort_spec(workspace_hits(files@, query_key(query@))))),
        (partial && r.result is Some) ==> steps_render(r.reports@, result_count(r.result), chunk as nat),
        !(partial && r.result is Some) ==> r.reports@.len() == 0,
        (partial && r.result is Some) ==> chunks_of(partials_v(r.partials@), infos_v(r.result->0@), chunk as nat),
        !(partial && r.result is Some) ==> r.partials@.len() == 0,
        (forall|c: int| 0 <= c < seen@.len() ==> !#[trigger] seen@[c]) ==> (r.result matches Some(v) && infos_v(v@)
            == infos(sort_spec(workspace_hits(files@, query_key(query@))))),
        r.end_message@ == "Found "@ + decimal(result_count(r.result)) + " symbol(s)"@,
{
    let begin_message = progress_query_message(query);
    let result = workspace_symbol_with_ticket(files, query, seen);
    let count: usize = match &result {
        Some(v) => v.len(),
        None => 0,
    };
    let (reports, partials) = match &result {
        Some(v) => if partial {
            (progress_steps(count, chunk), split_chunks(v, chunk))
        } else {
            (Vec::new(), Vec::new())
        },
        None => (Vec::new(), Vec::new()),
    };
    SearchProgress {
        title: String::from_str("Searching workspace symbols"),
        begin_message,
        result,
        reports,
        partials,
        end_message: found_message(count),
    }
}

proof fn lemma_chunk_ends(count: nat, chunk: nat, done: nat)
    requires
        chunk > 0,
        done <= count,
    ensures
        forall|k: int| 0 <= k < chunk_ends(count, chunk, done).len() ==> done < #[trigger] chunk_ends(count, chunk, done)[k] <= count,
        forall|k: int, l: int| 0 <= k < l < chunk_ends(count, chunk, done).len() ==> #[trigger] chunk_ends(count, chunk, done)[k] < #[trigger] chunk_ends(count, chunk, done)[l],
        chunk_ends(count, chunk, done).len() > 0 ==> chunk_ends(count, chunk, done)[0] <= done + chunk,
        forall|k: int| 0 < k < chunk_ends(count, chunk, done).len() ==> #[trigger] chunk_ends(count, chunk, done)[k] <= chunk_ends(count, chunk, done)[k - 1] + chunk,
        done < count ==> chunk_ends(count, chunk, done).len() > 0 && chunk_ends(count, chunk, done).last() == count,
    decreases count - done,
{
    if done < count {
        let e: nat = if done + chunk <= count { done + chunk } else { count };
        lemma_chunk_ends(count, chunk, e);
        let rest = chunk_ends(count, chunk, e);
        let all = chunk_ends(count, chunk, done);
        assert(all == seq![e] + rest);
        assert forall|k: int| 0 <= k < all.len() implies done < #[trigger] all[k] <= count by {
            if k > 0 {
                assert(all[k] == rest[k - 1]);
            }
        }
        assert forall|k: int, l: int| 0 <= k < l < all.len() implies #[trigger] all[k] < #[trigger] all[l] by {
            assert(all[l] == rest[l - 1]);
            if k > 0 {
                assert(all[k] == rest[k - 1]);
            }
        }
        assert forall|k: int| 0 < k < all.len() implies #[trigger] all[k] <= all[k - 1] + chunk by {
            assert(all[k] == rest[k - 1]);
            if k > 1 {
                assert(all[k - 1] == rest[k - 2]);
            }
        }
        if e < count {
            assert(all.last() == rest.last());
        } else {
            assert(rest.len() == 0);
        }
    }
}

/// The chunks of a streamed search cover its results in order: each report
/// counts more results than the one before, at most `chunk` more, and the
/// last one counts them all.
pub proof fn law_chunks_cover_results(count: nat, chunk: nat)
    requires
        chunk > 0,
    ensures
        forall|k: int, l: int| 0 <= k < l < chunk_ends(count, chunk, 0).len() ==> #[trigger] chunk_ends(count, chunk, 0)[k] < #[trigger] chunk_ends(count, chunk, 0)[l],
        chunk_ends(count, chunk, 0).len() > 0 ==> chunk_ends(count, chunk, 0)[0] <= chunk,
        forall|k: int| 0 < k < chunk_ends(count, chunk, 0).len() ==> #[trigger] chunk_ends(count, chunk, 0)[k] <= chunk_ends(count, chunk, 0)[k - 1] + chunk,
        count > 0 ==> chunk_ends(count, chunk, 0).last() == count,
        count == 0 ==> chunk_ends(count, chunk, 0).len() == 0,
{
    lemma_chunk_ends(count, chunk, 0);
}

proof fn lemma_flatten_chunks<A>(v: Seq<A>, parts: Seq<Seq<A>>, chunk: nat, from: nat)
    requires
        chunk > 0,
        from <= v.len(),
        parts.len() == chunk_ends(v.len(), chunk, from).len(),
        forall|k: int|
            0 <= k < parts.len() ==> #[trigger] parts[k] == v.subrange(
                chunk_start(chunk_ends(v.len(), chunk, from), from, k) as int,
                chunk_ends(v.len(), chunk, from)[k] as int,
            ),
    ensures
        parts.flatten() == v.subrange(from as int, v.len() as int),
    decreases v.len() - from,
{
    let ends = chunk_ends(v.len(), chunk, from);
    if from < v.len() {
        let e: nat = if from + chunk <= v.len() { from + chunk } else { v.len() };
        let rest = chunk_ends(v.len(), chunk, e);
        assert(ends == seq![e] + rest);
        let tail = parts.drop_first();
        assert forall|k: int|
            0 <= k < tail.len() implies #[trigger] tail[k] == v.subrange(chunk_start(rest, e, k) as int, rest[k] as int) by {
            assert(tail[k] == parts[k + 1]);
            assert(ends[k + 1] == rest[k]);
            if k > 0 {
                assert(ends[k] == rest[k - 1]);
            }
        }
        lemma_flatten_chunks(v, tail, chunk, e);
        assert(parts[0] == v.subrange(from as int, e as int));
        assert(parts.flatten() == parts[0] + tail.flatten());
        assert(v.subrange(from as int, e as int) + v.subrange(e as int, v.len() as int) =~= v.subrange(
            from as int,
            v.len() as int,
        ));
    } else {
        assert(parts.len() == 0);
        assert(v.subrange(from as int, v.len() as int) =~= Seq::<A>::empty());
    }
}

/// The partial results of a streamed search put back together are its
/// result, in order; no partial result is empty or longer than a chunk.
pub proof fn law_partial_results_rebuild_result<A>(v: Seq<A>, parts: Seq<Seq<A>>, chunk: nat)
    requires
        chunk > 0,
        chunks_of(parts, v, chunk),
    ensures
        parts.flatten() == v,
        forall|k: int| 0 <= k < parts.len() ==> 0 < (#[trigger] parts[k]).len() <= chunk,
{
    let ends = chunk_ends(v.len(), chunk, 0);
    lemma_chunk_ends(v.len(), chunk, 0);
    lemma_flatten_chunks(v, parts, chunk, 0);
    assert(v.subrange(0, v.len() as int) =~= v);
    assert forall|k: int| 0 <= k < parts.len() implies 0 < (#[trigger] parts[k]).len() <= chunk by {
        assert(parts[k] == v.subrange(chunk_start(ends, 0, k) as int, ends[k] as int));
        if k > 0 {
            assert(ends[k - 1] < ends[k]);
        }
    }
}

} // verus!
