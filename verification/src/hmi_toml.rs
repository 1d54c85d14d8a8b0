//! Diagnostics of HMI TOML files in the language server: which files are
//! configuration or HMI descriptors, where the HMI root lies, and the
//! parse errors that TOML reports.
//!
//! Paths are read as `std::path::Path` reads them on Unix: empty pieces and
//! `.` pieces between separators are no components (a leading `.` of a
//! relative path is kept as the current directory), `..` is a component.

use vstd::prelude::*;
use crate::paths::{deep, dot, dot_dot, is_abs, join_slash, render_exec, split_slash, vec_char_eq};
use crate::index::strings_v;
use crate::project::Severity;
use crate::text::{chars_of, string_of};

verus! {

broadcast use vstd::string::group_string_axioms;

/// A piece between separators that is a component of its own.
pub open spec fn keeps_piece(x: Seq<char>) -> bool {
    x.len() > 0 && x != dot()
}

/// The components of a list of pieces, in order.
pub open spec fn kept_pieces(segs: Seq<Seq<char>>) -> Seq<Seq<char>>
    decreases segs.len(),
{
    if segs.len() == 0 {
        Seq::empty()
    } else {
        kept_pieces(segs.drop_last()) + if keeps_piece(segs.last()) {
            seq![segs.last()]
        } else {
            Seq::empty()
        }
    }
}

/// The named components of a path (`..` included, the root and `.` not).
pub open spec fn names_of(s: Seq<char>) -> Seq<Seq<char>> {
    kept_pieces(split_slash(s))
}

/// A relative path that starts with a `.` piece.
pub open spec fn leading_cur(s: Seq<char>) -> bool {
    !is_abs(s) && split_slash(s)[0] == dot()
}

/// `Path::file_name`: the last component unless it is `..`.
pub open spec fn file_name_spec(s: Seq<char>) -> Option<Seq<char>> {
    let n = names_of(s);
    if n.len() == 0 || n.last() == dot_dot() {
        None
    } else {
        Some(n.last())
    }
}

/// The index of the last `.` of a name.
pub open spec fn last_dot(name: Seq<char>) -> Option<int>
    decreases name.len(),
{
    if name.len() == 0 {
        None
    } else if name.last() == '.' {
        Some(name.len() - 1)
    } else {
        last_dot(name.drop_last())
    }
}

/// `Path::extension` of a file name: what follows its last `.`, unless
/// there is none or the only one starts the name.
pub open spec fn extension_spec(name: Seq<char>) -> Option<Seq<char>> {
    match last_dot(name) {
        None => None,
        Some(i) => if i == 0 {
            None
        } else {
            Some(name.subrange(i + 1, name.len() as int))
        },
    }
}

/// A path written from its root marker, leading `.` and names.
pub open spec fn render_root(abs: bool, cur: bool, names: Seq<Seq<char>>) -> Seq<char> {
    if abs {
        seq!['/'] + join_slash(names)
    } else if cur {
        if names.len() == 0 {
            dot()
        } else {
            seq!['.', '/'] + join_slash(names)
        }
    } else {
        join_slash(names)
    }
}

/// The HMI root of a file: the directory that holds the `hmi` directory the
/// file is directly in.
pub open spec fn hmi_root_spec(s: Seq<char>) -> Option<Seq<char>> {
    let n = names_of(s);
    if n.len() >= 2 && n[n.len() - 2] == "hmi"@ {
        Some(render_root(is_abs(s), leading_cur(s), n.take(n.len() - 2)))
    } else {
        None
    }
}

/// A configuration file: its file name is one of `config_files`.
pub open spec fn config_path_spec(path: Option<Seq<char>>, config_files: Seq<Seq<char>>) -> bool {
    match path {
        None => false,
        Some(p) => match file_name_spec(p) {
            None => false,
            Some(n) => config_files.contains(n),
        },
    }
}

/// An HMI descriptor: a `.toml` file with an `hmi` component in its path.
pub open spec fn hmi_toml_path_spec(path: Option<Seq<char>>) -> bool {
    match path {
        None => false,
        Some(p) => match file_name_spec(p) {
            None => false,
            Some(n) => extension_spec(n) == Some("toml"@) && names_of(p).contains("hmi"@),
        },
    }
}

fn keep_piece(stack: &mut Vec<Vec<char>>, cur: Vec<char>)
    ensures
        deep(final(stack)@) == deep(old(stack)@) + if keeps_piece(cur@) {
            seq![cur@]
        } else {
            Seq::empty()
        },
{
    let ghost x = cur@;
    if cur.len() == 0 || (cur.len() == 1 && cur[0] == '.') {
        assert(x.len() == 0 || x =~= dot());
        assert(deep(stack@) =~= deep(old(stack)@) + Seq::<Seq<char>>::empty());
    } else {
        assert(keeps_piece(x)) by {
            if x == dot() {
                assert(x.len() == 1);
            }
        }
        stack.push(cur);
        assert(deep(stack@) =~= deep(old(stack)@) + seq![x]);
    }
}

/// The named components of a path given as characters.
fn path_names(s: &Vec<char>) -> (r: Vec<Vec<char>>)
    ensures
        deep(r@) == names_of(s@),
{
    let mut stack: Vec<Vec<char>> = Vec::new();
    let mut cur: Vec<char> = Vec::new();
    let mut i: usize = 0;
    assert(s@.take(0) =~= Seq::<char>::empty());
    while i < s.len()
        invariant
            i <= s@.len(),
            deep(stack@) == kept_pieces(split_slash(s@.take(i as int)).drop_last()),
            cur@ == split_slash(s@.take(i as int)).last(),
            split_slash(s@.take(i as int)).len() > 0,
        decreases s@.len() - i,
    {
        let c = s[i];
        let ghost prev = split_slash(s@.take(i as int));
        assert(s@.take(i + 1).drop_last() =~= s@.take(i as int));
        assert(s@.take(i + 1).last() == c);
        if c == '/' {
            let piece = cur;
            cur = Vec::new();
            keep_piece(&mut stack, piece);
            assert(split_slash(s@.take(i + 1)) == prev.push(Seq::<char>::empty()));
            assert(prev.push(Seq::<char>::empty()).drop_last() =~= prev);
        } else {
            cur.push(c);
            let ghost next = prev.update(prev.len() - 1, prev.last().push(c));
            assert(split_slash(s@.take(i + 1)) == next);
            assert(next.drop_last() =~= prev.drop_last());
        }
        i = i + 1;
    }
    assert(s@.take(s@.len() as int) =~= s@);
    keep_piece(&mut stack, cur);
    stack
}

proof fn lemma_no_slash(s: Seq<char>)
    requires
        forall|i: int| 0 <= i < s.len() ==> s[i] != '/',
    ensures
        split_slash(s) == seq![s],
    decreases s.len(),
{
    if s.len() > 0 {
        lemma_no_slash(s.drop_last());
        assert(s.drop_last().push(s.last()) =~= s);
    } else {
        assert(s =~= Seq::<char>::empty());
    }
}

proof fn lemma_first_piece(s: Seq<char>, k: int)
    requires
        0 <= k <= s.len(),
        forall|i: int| 0 <= i < k ==> s[i] != '/',
    ensures
        split_slash(s).len() >= 1,
        split_slash(s)[0].len() >= k,
        split_slash(s)[0].take(k) == s.take(k),
        k < s.len() && s[k] == '/' ==> split_slash(s)[0] == s.take(k) && split_slash(s).len() >= 2,
    decreases s.len(),
{
    if k == s.len() {
        lemma_no_slash(s);
        assert(s.take(k) =~= s);
    } else {
        let p = s.drop_last();
        lemma_first_piece(p, k);
        assert(p.take(k) =~= s.take(k));
        let prev = split_slash(p);
        if s.last() == '/' {
            assert(split_slash(s) == prev.push(Seq::<char>::empty()));
            if k == p.len() {
                lemma_no_slash(p);
                assert(p.take(k) =~= p);
            }
        } else {
            let nxt = prev.update(prev.len() - 1, prev.last().push(s.last()));
            assert(split_slash(s) == nxt);
            if prev.len() == 1 {
                assert(nxt[0] == prev[0].push(s.last()));
                assert(nxt[0].take(k) =~= prev[0].take(k));
            }
        }
    }
}

/// Whether a relative path starts with a `.` piece.
fn leading_cur_exec(s: &Vec<char>) -> (r: bool)
    ensures
        r == leading_cur(s@),
{
    if s.len() == 0 {
        assert(split_slash(s@)[0] =~= Seq::<char>::empty());
        return false;
    }
    if s[0] == '/' {
        return false;
    }
    if s[0] != '.' {
        proof {
            lemma_first_piece(s@, 1);
            assert(split_slash(s@)[0].take(1)[0] == s@[0]);
        }
        return false;
    }
    if s.len() == 1 {
        proof {
            lemma_no_slash(s@);
            assert(s@ =~= dot());
        }
        return true;
    }
    if s[1] == '/' {
        proof {
            lemma_first_piece(s@, 1);
            assert(s@.take(1) =~= dot());
        }
        true
    } else {
        proof {
            lemma_first_piece(s@, 2);
        }
        false
    }
}


/// The file name of a path, if it has one.
pub(crate) fn file_name_exec(s: &Vec<char>) -> (r: Option<Vec<char>>)
    ensures
        match r {
            None => file_name_spec(s@) is None,
            Some(v) => file_name_spec(s@) == Some(v@),
        },
{
    let mut names = path_names(s);
    let ghost n = deep(names@);
    match names.pop() {
        None => None,
        Some(last) => {
            assert(last@ == n.last());
            if last.len() == 2 && last[0] == '.' && last[1] == '.' {
                assert(last@ =~= dot_dot());
                None
            } else {
                assert(last@ != dot_dot()) by {
                    if last@ == dot_dot() {
                        assert(last@.len() == 2 && last@[0] == '.' && last@[1] == '.');
                    }
                }
                Some(last)
            }
        },
    }
}

/// The extension of a file name, if it has one.
pub(crate) fn extension_exec(name: &Vec<char>) -> (r: Option<Vec<char>>)
    ensures
        match r {
            None => extension_spec(name@) is None,
            Some(e) => extension_spec(name@) == Some(e@),
        },
{
    let mut i: usize = name.len();
    proof {
        assert(name@.take(i as int) =~= name@);
    }
    while i > 0 && name[i - 1] != '.'
        invariant
            i <= name@.len(),
            last_dot(name@) == last_dot(name@.take(i as int)),
        decreases i,
    {
        proof {
            assert(name@.take(i as int).drop_last() =~= name@.take(i - 1));
        }
        i = i - 1;
    }
    if i == 0 {
        assert(name@.take(0) =~= Seq::<char>::empty());
        return None;
    }
    assert(name@.take(i as int).last() == '.');
    if i == 1 {
        return None;
    }
    let mut ext: Vec<char> = Vec::new();
    let mut j: usize = i;
    while j < name.len()
        invariant
            i <= j <= name@.len(),
            ext@ == name@.subrange(i as int, j as int),
        decreases name@.len() - j,
    {
        ext.push(name[j]);
        j = j + 1;
        assert(ext@ =~= name@.subrange(i as int, j as int));
    }
    Some(ext)
}

/// Whether the extension of a file name is `toml`.
fn has_toml_extension(name: &Vec<char>) -> (r: bool)
    ensures
        r == (extension_spec(name@) == Some("toml"@)),
{
    match extension_exec(name) {
        None => false,
        Some(ext) => {
            let t = chars_of("toml");
            vec_char_eq(&ext, &t)
        },
    }
}

/// Whether one of the components is `hmi`.
fn has_hmi_component(names: &Vec<Vec<char>>) -> (r: bool)
    ensures
        r == deep(names@).contains("hmi"@),
{
    let h = chars_of("hmi");
    let mut i: usize = 0;
    while i < names.len()
        invariant
            i <= names@.len(),
            h@ == "hmi"@,
            forall|k: int| 0 <= k < i ==> deep(names@)[k] != "hmi"@,
        decreases names@.len() - i,
    {
        if vec_char_eq(&names[i], &h) {
            assert(deep(names@)[i as int] == "hmi"@);
            return true;
        }
        i = i + 1;
    }
    false
}

/// Whether a file (given by its path, if its URI has one) is a project
/// configuration file: its file name is one of `config_files`.
pub fn is_config_uri(path: Option<&str>, config_files: &Vec<String>) -> (r: bool)
    ensures
        r == config_path_spec(
            match path {
                Some(p) => Some(p@),
                None => None,
            },
            strings_v(config_files@),
        ),
{
    let p = match path {
        None => return false,
        Some(p) => p,
    };
    let cs = chars_of(p);
    let name = match file_name_exec(&cs) {
        None => return false,
        Some(n) => n,
    };
    let ghost files = strings_v(config_files@);
    let mut i: usize = 0;
    while i < config_files.len()
        invariant
            i <= config_files@.len(),
            files == strings_v(config_files@),
            file_name_spec(p@) == Some(name@),
            path == Some(p),
            forall|k: int| 0 <= k < i ==> files[k] != name@,
        decreases config_files@.len() - i,
    {
        let c = chars_of(config_files[i].as_str());
        if vec_char_eq(&c, &name) {
            assert(files[i as int] == name@);
            assert(files.contains(name@));
            assert(file_name_spec(p@) == Some(name@));
            return true;
        }
        i = i + 1;
    }
    false
}

/// Whether a file (given by its path, if its URI has one) is an HMI
/// descriptor: a `.toml` file with an `hmi` component in its path.
pub fn is_hmi_toml_uri(path: Option<&str>) -> (r: bool)
    ensures
        r == hmi_toml_path_spec(
            match path {
                Some(p) => Some(p@),
                None => None,
            },
        ),
{
    let p = match path {
        None => return false,
        Some(p) => p,
    };
    let cs = chars_of(p);
    let name = match file_name_exec(&cs) {
        None => return false,
        Some(n) => n,
    };
    if !has_toml_extension(&name) {
        return false;
    }
    let names = path_names(&cs);
    has_hmi_component(&names)
}

/// The HMI root of a file: when the file lies directly in a directory named
/// `hmi`, the directory that holds it.
pub fn infer_hmi_root_from_path(path: &str) -> (r: Option<String>)
    ensures
        match r {
            None => hmi_root_spec(path@) is None,
            Some(root) => hmi_root_spec(path@) == Some(root@),
        },
{
    let cs = chars_of(path);
    let mut names = path_names(&cs);
    let n = names.len();
    if n < 2 {
        return None;
    }
    let h = chars_of("hmi");
    if !vec_char_eq(&names[n - 2], &h) {
        return None;
    }
    let ghost all = deep(names@);
    names.truncate(n - 2);
    assert(deep(names@) =~= all.take(n - 2));
    let abs = cs.len() > 0 && cs[0] == '/';
    let cur = leading_cur_exec(&cs);
    let text = if abs {
        render_exec(true, &names)
    } else if cur {
        let body = render_exec(false, &names);
        if names.len() == 0 {
            let mut v: Vec<char> = Vec::new();
            v.push('.');
            assert(v@ =~= dot());
            v
        } else {
            let mut v: Vec<char> = Vec::new();
            v.push('.');
            v.push('/');
            let mut k: usize = 0;
            while k < body.len()
                invariant
                    k <= body@.len(),
                    v@ == seq!['.', '/'] + body@.take(k as int),
                decreases body@.len() - k,
            {
                v.push(body[k]);
                k = k + 1;
                assert(v@ =~= seq!['.', '/'] + body@.take(k as int));
            }
            assert(body@.take(body@.len() as int) =~= body@);
            v
        }
    } else {
        render_exec(false, &names)
    };
    Some(string_of(text.as_slice()))
}

/// The TOML reading of a text: `None` when it parses as a TOML document,
/// else the byte span of the error, when TOML gives one, and its message.
pub uninterp spec fn toml_failure_of(content: Seq<char>) -> Option<(Option<(usize, usize)>, Seq<char>)>;

/// `toml::from_str::<toml::Value>`: parses the text as a TOML document; on
/// failure, the error's `span()` and its `Display` text. The outcome is
/// named by `toml_failure_of`.
#[verifier::external_body]
fn parse_toml_value(content: &str) -> (r: Option<(Option<(usize, usize)>, String)>)
    ensures
        match r {
            None => toml_failure_of(content@) is None,
            Some((span, message)) => toml_failure_of(content@) == Some((span, message@)),
        },
{
    match toml::from_str::<toml::Value>(content) {
        Ok(_) => None,
        Err(e) => {
            let span = match e.span() {
                Some(s) => Some((s.start, s.end)),
                None => None,
            };
            Some((span, e.to_string()))
        },
    }
}

/// A diagnostic of an HMI TOML file: its severity, code, source and
/// message, and the byte span it covers (none when the whole-file fallback
/// range applies).
pub struct HmiTomlDiagnostic {
    pub span: Option<(usize, usize)>,
    pub severity: Severity,
    pub code: String,
    pub source: String,
    pub message: String,
}

/// What a TOML failure is reported as.
pub open spec fn parse_diagnostic_renders(d: HmiTomlDiagnostic, span: Option<(usize, usize)>, message: Seq<char>) -> bool {
    &&& d.span == span
    &&& d.severity == Severity::Error
    &&& d.code@ == "HMI_TOML_PARSE"@
    &&& d.source@ == "trust-lsp"@
    &&& d.message@ == message
}

/// The diagnostics of a TOML reading: none when it parsed, else one error.
pub open spec fn parse_diagnostics_render(r: Seq<HmiTomlDiagnostic>, failure: Option<(Option<(usize, usize)>, Seq<char>)>) -> bool {
    match failure {
        None => r.len() == 0,
        Some((span, message)) => r.len() == 1 && parse_diagnostic_renders(r[0], span, message),
    }
}

/// The diagnostics that a TOML failure (or its absence) gives.
pub fn parse_failure_diagnostics(failure: Option<(Option<(usize, usize)>, String)>) -> (r: Vec<HmiTomlDiagnostic>)
    ensures
        parse_diagnostics_render(
            r@,
            match failure {
                None => None,
                Some((span, m)) => Some((span, m@)),
            },
        ),
{
    let mut diagnostics: Vec<HmiTomlDiagnostic> = Vec::new();
    if let Some((span, message)) = failure {
        diagnostics.push(
            HmiTomlDiagnostic {
                span,
                severity: Severity::Error,
                code: String::from_str("HMI_TOML_PARSE"),
                source: String::from_str("trust-lsp"),
                message,
            },
        );
    }
    diagnostics
}

/// The parse diagnostics of an HMI TOML text.
pub fn collect_hmi_toml_parse_diagnostics(content: &str) -> (r: Vec<HmiTomlDiagnostic>)
    ensures
        parse_diagnostics_render(r@, toml_failure_of(content@)),
{
    let failure = parse_toml_value(content);
    parse_failure_diagnostics(failure)
}

/// Semantic checks of HMI TOML files have moved to the HMI generator: none
/// are reported here.
pub fn collect_hmi_toml_semantic_diagnostics(root: &str, current_file: &str, content: &str) -> (r: Vec<HmiTomlDiagnostic>)
    ensures
        r@.len() == 0,
{
    Vec::new()
}

/// The diagnostics of an HMI TOML file: its parse diagnostics; when it
/// parses and its root is known (from its project configuration, else
/// inferred from its path), the semantic ones too.
pub fn collect_hmi_toml_diagnostics(path: Option<&str>, config_root: Option<&str>, content: &str) -> (r: Vec<HmiTomlDiagnostic>)
    ensures
        parse_diagnostics_render(r@, toml_failure_of(content@)),
{
    let mut diagnostics = collect_hmi_toml_parse_diagnostics(content);
    if diagnostics.len() > 0 {
        return diagnostics;
    }
    let p = match path {
        None => return diagnostics,
        Some(p) => p,
    };
    let root = match config_root {
        Some(r) => String::from_str(r),
        None => match infer_hmi_root_from_path(p) {
            Some(r) => r,
            None => return diagnostics,
        },
    };
    let mut semantic = collect_hmi_toml_semantic_diagnostics(root.as_str(), p, content);
    diagnostics.append(&mut semantic);
    diagnostics
}

} // verus!
