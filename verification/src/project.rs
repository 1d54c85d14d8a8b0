//! Project-wide queries of the HIR daemon over the loaded source files:
//! symbols, types, diagnostics, references and the snapshot export.

use vstd::prelude::*;
use crate::positions::{build_range, line_col, offset_to_line_col, position_of, RangeOut};
use crate::protocol::{RpcError, NOT_INITIALIZED};
use crate::symbol_tree::{build_symbol_tree, forest_renders, ids_unique, opt_view, SymbolOut};
use crate::symbols::{type_index, type_name_of, FieldInfo, HirType, Symbol, SymbolKind, SymbolTable, TypeShape};
use crate::text::{append_str, decimal, decimal_string, eq_ignore_ascii_case, eq_ignore_case_spec};

verus! {

/// Diagnostic severity.
#[derive(PartialEq, Eq, Structural, Clone, Copy, Debug)]
pub enum Severity {
    Error,
    Warning,
    Info,
    Hint,
}

/// A diagnostic reported for a file: severity, code, message and the byte
/// offset where it starts.
pub struct HirDiagnostic {
    pub severity: Severity,
    pub code: String,
    pub message: String,
    pub start: u32,
}

/// One loaded source file: its display path (none when the file has no
/// source key), its text, its symbol table and its diagnostics.
pub struct SourceFile {
    pub path: Option<String>,
    pub content: String,
    pub table: SymbolTable,
    pub diagnostics: Vec<HirDiagnostic>,
}

/// A diagnostic of the answer.
pub struct DiagnosticOut {
    pub path: String,
    pub severity: String,
    pub line: u32,
    pub col: u32,
    pub message: String,
    pub code: Option<String>,
}

/// A field of a type of the answer (`field_type` names the field's type).
pub struct TypeFieldOut {
    pub name: String,
    pub field_type: String,
}

/// A type definition of the answer.
pub struct TypeOut {
    pub name: String,
    pub kind: String,
    pub file_path: String,
    pub fields: Option<Vec<TypeFieldOut>>,
}

/// The display path of a file, empty when it has none.
pub open spec fn path_or_empty(f: SourceFile) -> Seq<char> {
    match f.path {
        Some(p) => p@,
        None => Seq::empty(),
    }
}

pub fn file_path_or_default(f: &SourceFile) -> (r: String)
    ensures
        r@ == path_or_empty(*f),
{
    match &f.path {
        Some(p) => p.clone(),
        None => String::new(),
    }
}

/// Lower-case name of a severity.
pub open spec fn severity_name(s: Severity) -> Seq<char> {
    match s {
        Severity::Error => "error"@,
        Severity::Warning => "warning"@,
        Severity::Info => "info"@,
        Severity::Hint => "hint"@,
    }
}

pub fn severity_to_string(s: Severity) -> (r: &'static str)
    ensures
        r@ == severity_name(s),
{
    match s {
        Severity::Error => "error",
        Severity::Warning => "warning",
        Severity::Info => "info",
        Severity::Hint => "hint",
    }
}

/// `o` reports diagnostic `d` of a file with path `path` and text `content`.
pub open spec fn diagnostic_renders(o: DiagnosticOut, d: HirDiagnostic, path: Seq<char>, content: Seq<char>) -> bool {
    &&& o.path@ == path
    &&& o.severity@ == severity_name(d.severity)
    &&& o.line == line_col(content, d.start as int).0
    &&& o.col == line_col(content, d.start as int).1
    &&& o.message@ == d.message@
    &&& o.code matches Some(c) && c@ == d.code@
}

/// `r` reports the diagnostics of file `f`, in order.
pub open spec fn file_diagnostics_render(r: Seq<DiagnosticOut>, f: SourceFile) -> bool {
    &&& r.len() == f.diagnostics@.len()
    &&& forall|k: int| 0 <= k < r.len() ==> diagnostic_renders(#[trigger] r[k], f.diagnostics@[k], path_or_empty(f), f.content@)
}

/// Converts one diagnostic.
pub fn render_diagnostic(d: &HirDiagnostic, path: &str, content: &str) -> (o: DiagnosticOut)
    ensures
        diagnostic_renders(o, *d, path@, content@),
{
    let (line, col) = offset_to_line_col(content, d.start);
    DiagnosticOut {
        path: String::from_str(path),
        severity: String::from_str(severity_to_string(d.severity)),
        line,
        col,
        message: d.message.clone(),
        code: Some(d.code.clone()),
    }
}

/// The diagnostics of one file, positioned in its text.
pub fn collect_file_diagnostics(f: &SourceFile) -> (r: Result<Vec<DiagnosticOut>, RpcError>)
    ensures
        r matches Ok(v) && file_diagnostics_render(v@, *f),
{
    let path = file_path_or_default(f);
    let mut out: Vec<DiagnosticOut> = Vec::new();
    let mut k: usize = 0;
    while k < f.diagnostics.len()
        invariant
            k <= f.diagnostics@.len(),
            out@.len() == k,
            path@ == path_or_empty(*f),
            forall|m: int| 0 <= m < k ==> diagnostic_renders(#[trigger] out@[m], f.diagnostics@[m], path_or_empty(*f), f.content@),
        decreases f.diagnostics@.len() - k,
    {
        let o = render_diagnostic(&f.diagnostics[k], path.as_str(), f.content.as_str());
        out.push(o);
        k = k + 1;
    }
    Ok(out)
}

/// `r` is, file after file, the per-file answers `parts` in order.
pub open spec fn concatenates<A>(r: Seq<A>, parts: Seq<Seq<A>>) -> bool {
    r == parts.fold_left(Seq::<A>::empty(), |acc: Seq<A>, p: Seq<A>| acc + p)
}

/// The diagnostics of every file, file after file.
pub fn collect_all_diagnostics(files: &Vec<SourceFile>) -> (r: Result<Vec<DiagnosticOut>, RpcError>)
    ensures
        r matches Ok(v) && exists|parts: Seq<Seq<DiagnosticOut>>| #![trigger concatenates(v@, parts)] {
            &&& parts.len() == files@.len()
            &&& concatenates(v@, parts)
            &&& forall|k: int| 0 <= k < files@.len() ==> file_diagnostics_render(#[trigger] parts[k], files@[k])
        },
{
    let mut all: Vec<DiagnosticOut> = Vec::new();
    let ghost mut parts: Seq<Seq<DiagnosticOut>> = Seq::empty();
    let mut k: usize = 0;
    while k < files.len()
        invariant
            k <= files@.len(),
            parts.len() == k,
            concatenates(all@, parts),
            forall|m: int| 0 <= m < k ==> file_diagnostics_render(#[trigger] parts[m], files@[m]),
        decreases files@.len() - k,
    {
        let res = collect_file_diagnostics(&files[k]);
        match res {
            Ok(part) => {
                let ghost before = all@;
                let mut part = part;
                let ghost pv = part@;
                all.append(&mut part);
                proof {
                    assert(parts.push(pv).drop_last() =~= parts);
                    parts = parts.push(pv);
                    assert(all@ =~= before + pv);
                }
            },
            Err(e) => {
                return Err(e);
            },
        }
        k = k + 1;
    }
    assert(parts.len() == files@.len() && concatenates(all@, parts)
        && forall|m: int| 0 <= m < files@.len() ==> file_diagnostics_render(#[trigger] parts[m], files@[m]));
    let r: Result<Vec<DiagnosticOut>, RpcError> = Ok(all);
    assert(r matches Ok(v) && v@ == all@);
    r
}

/// The symbol trees of every file, file after file.
pub fn collect_all_symbols(
    files: &Vec<SourceFile>,
    kind_filter: Option<&str>,
    scope_filter: Option<&str>,
    name_filter: Option<&str>,
) -> (r: Result<Vec<SymbolOut>, RpcError>)
    requires
        forall|k: int| 0 <= k < files@.len() ==> ids_unique(#[trigger] files@[k].table.symbols@),
    ensures
        r matches Ok(v) && exists|parts: Seq<Seq<SymbolOut>>| #![trigger concatenates(v@, parts)] {
            &&& parts.len() == files@.len()
            &&& concatenates(v@, parts)
            &&& forall|k: int| 0 <= k < files@.len() ==> forest_renders(#[trigger] files@[k].table.symbols@, files@[k].content@, path_or_empty(files@[k]), opt_view(kind_filter), opt_view(scope_filter), opt_view(name_filter), parts[k])
        },
{
    let mut all: Vec<SymbolOut> = Vec::new();
    let ghost mut parts: Seq<Seq<SymbolOut>> = Seq::empty();
    let mut k: usize = 0;
    while k < files.len()
        invariant
            k <= files@.len(),
            parts.len() == k,
            concatenates(all@, parts),
            forall|m: int| 0 <= m < files@.len() ==> ids_unique(#[trigger] files@[m].table.symbols@),
            forall|m: int| 0 <= m < k ==> forest_renders(#[trigger] files@[m].table.symbols@, files@[m].content@, path_or_empty(files@[m]), opt_view(kind_filter), opt_view(scope_filter), opt_view(name_filter), parts[m]),
        decreases files@.len() - k,
    {
        let f = &files[k];
        let path = file_path_or_default(f);
        assert(ids_unique(files@[k as int].table.symbols@));
        let res = build_symbol_tree(&f.table, f.content.as_str(), path.as_str(), kind_filter, scope_filter, name_filter);
        match res {
            Ok(part) => {
                let ghost before = all@;
                let mut part = part;
                let ghost pv = part@;
                all.append(&mut part);
                proof {
                    assert(parts.push(pv).drop_last() =~= parts);
                    parts = parts.push(pv);
                    assert(all@ =~= before + pv);
                }
            },
            Err(e) => {
                return Err(e);
            },
        }
        k = k + 1;
    }
    assert(parts.len() == files@.len() && concatenates(all@, parts)
        && forall|m: int| 0 <= m < files@.len() ==> forest_renders(#[trigger] files@[m].table.symbols@, files@[m].content@, path_or_empty(files@[m]), opt_view(kind_filter), opt_view(scope_filter), opt_view(name_filter), parts[m]));
    let r: Result<Vec<SymbolOut>, RpcError> = Ok(all);
    assert(r matches Ok(v) && v@ == all@);
    r
}

/// A symbol answers a type query: a type declaration whose name equals the
/// name filter (if any) up to ASCII case.
pub open spec fn type_selected(s: Symbol, name_filter: Option<Seq<char>>) -> bool {
    s.kind == SymbolKind::Type && (name_filter matches Some(f) ==> eq_ignore_case_spec(s.name@, f))
}

pub open spec fn name_or_empty(n: Option<Seq<char>>) -> Seq<char> {
    match n {
        Some(x) => x,
        None => Seq::empty(),
    }
}

/// `o` describes the type declared by `s`: structures list their fields with
/// the field types' names, enumerations their values (typed `INT`); other
/// shapes have no field list.
pub open spec fn type_renders(o: TypeOut, s: Symbol, table: SymbolTable, path: Seq<char>) -> bool {
    &&& o.name@ == s.name@
    &&& o.file_path@ == path
    &&& match type_index(table.types@, s.type_id) {
        Some(ti) => match table.types@[ti].ty.shape {
            TypeShape::Struct { fields } => {
                &&& o.kind@ == "struct"@
                &&& o.fields matches Some(fs) && fs@.len() == fields@.len()
                    && forall|j: int| 0 <= j < fields@.len() ==> (#[trigger] fs@[j]).name@ == fields@[j].name@
                        && fs@[j].field_type@ == name_or_empty(type_name_of(table.type_names@, fields@[j].type_id))
            },
            TypeShape::Enum { values } => {
                &&& o.kind@ == "enum"@
                &&& o.fields matches Some(fs) && fs@.len() == values@.len()
                    && forall|j: int| 0 <= j < values@.len() ==> (#[trigger] fs@[j]).name@ == values@[j]@
                        && fs@[j].field_type@ == "INT"@
            },
            TypeShape::Union => o.kind@ == "union"@ && o.fields is None,
            TypeShape::Alias { .. } => o.kind@ == "alias"@ && o.fields is None,
            TypeShape::Array => o.kind@ == "array"@ && o.fields is None,
            TypeShape::Pointer => o.kind@ == "pointer"@ && o.fields is None,
            _ => o.kind@ == "type"@ && o.fields is None,
        },
        None => o.kind@ == "type"@ && o.fields is None,
    }
}

/// `r` describes, in declaration order, the types of file `f` that the
/// name filter selects.
pub open spec fn file_types_render(r: Seq<TypeOut>, f: SourceFile, name_filter: Option<Seq<char>>) -> bool {
    let sel = f.table.symbols@.filter(|s: Symbol| type_selected(s, name_filter));
    &&& r.len() == sel.len()
    &&& forall|k: int| 0 <= k < r.len() ==> type_renders(#[trigger] r[k], sel[k], f.table, path_or_empty(f))
}

fn render_type(s: &Symbol, table: &SymbolTable, path: &str) -> (o: TypeOut)
    ensures
        type_renders(o, *s, *table, path@),
{
    let (kind, fields): (&str, Option<Vec<TypeFieldOut>>) = match table.type_by_id(s.type_id) {
        Some(ty) => match &ty.shape {
            TypeShape::Struct { fields } => {
                let mut outs: Vec<TypeFieldOut> = Vec::new();
                let mut j: usize = 0;
                while j < fields.len()
                    invariant
                        j <= fields@.len(),
                        outs@.len() == j,
                        forall|m: int| 0 <= m < j ==> (#[trigger] outs@[m]).name@ == fields@[m].name@
                            && outs@[m].field_type@ == name_or_empty(type_name_of(table.type_names@, fields@[m].type_id)),
                    decreases fields@.len() - j,
                {
                    let tn = match table.name_of_type(fields[j].type_id) {
                        Some(n) => n,
                        None => String::new(),
                    };
                    outs.push(TypeFieldOut { name: fields[j].name.clone(), field_type: tn });
                    j = j + 1;
                }
                ("struct", Some(outs))
            },
            TypeShape::Enum { values } => {
                let mut outs: Vec<TypeFieldOut> = Vec::new();
                let mut j: usize = 0;
                while j < values.len()
                    invariant
                        j <= values@.len(),
                        outs@.len() == j,
                        forall|m: int| 0 <= m < j ==> (#[trigger] outs@[m]).name@ == values@[m]@
                            && outs@[m].field_type@ == "INT"@,
                    decreases values@.len() - j,
                {
                    outs.push(TypeFieldOut { name: values[j].clone(), field_type: String::from_str("INT") });
                    j = j + 1;
                }
                ("enum", Some(outs))
            },
            TypeShape::Union => ("union", None),
            TypeShape::Alias { .. } => ("alias", None),
            TypeShape::Array => ("array", None),
            TypeShape::Pointer => ("pointer", None),
            _ => ("type", None),
        },
        None => ("type", None),
    };
    TypeOut { name: s.name.clone(), kind: String::from_str(kind), file_path: String::from_str(path), fields }
}

/// The type declarations of one file, optionally narrowed to a name.
pub fn collect_file_types(f: &SourceFile, name_filter: Option<&str>) -> (r: Result<Vec<TypeOut>, RpcError>)
    ensures
        r matches Ok(v) && file_types_render(v@, *f, opt_view(name_filter)),
{
    let path = file_path_or_default(f);
    let syms = &f.table.symbols;
    let ghost nf = opt_view(name_filter);
    let ghost pred = |s: Symbol| type_selected(s, nf);
    let mut out: Vec<TypeOut> = Vec::new();
    let mut i: usize = 0;
    assert(syms@.take(0) =~= Seq::<Symbol>::empty());
    while i < syms.len()
        invariant
            i <= syms@.len(),
            syms@ == f.table.symbols@,
            path@ == path_or_empty(*f),
            nf == opt_view(name_filter),
            pred == (|s: Symbol| type_selected(s, nf)),
            out@.len() == syms@.take(i as int).filter(pred).len(),
            forall|k: int| 0 <= k < out@.len() ==> type_renders(#[trigger] out@[k], syms@.take(i as int).filter(pred)[k], f.table, path_or_empty(*f)),
        decreases syms@.len() - i,
    {
        reveal_with_fuel(Seq::filter, 1);
        let s = &syms[i];
        assert(syms@.take(i + 1).drop_last() =~= syms@.take(i as int));
        let name_ok = match name_filter {
            Some(nm) => eq_ignore_ascii_case(s.name.as_str(), nm),
            None => true,
        };
        if matches!(s.kind, SymbolKind::Type) && name_ok {
            let o = render_type(s, &f.table, path.as_str());
            out.push(o);
        }
        i = i + 1;
    }
    assert(syms@.take(syms@.len() as int) =~= syms@);
    Ok(out)
}

/// The type declarations of every file, file after file.
pub fn collect_all_types(files: &Vec<SourceFile>, name_filter: Option<&str>) -> (r: Result<Vec<TypeOut>, RpcError>)
    ensures
        r matches Ok(v) && exists|parts: Seq<Seq<TypeOut>>| #![trigger concatenates(v@, parts)] {
            &&& parts.len() == files@.len()
            &&& concatenates(v@, parts)
            &&& forall|k: int| 0 <= k < files@.len() ==> file_types_render(#[trigger] parts[k], files@[k], opt_view(name_filter))
        },
{
    let mut all: Vec<TypeOut> = Vec::new();
    let ghost mut parts: Seq<Seq<TypeOut>> = Seq::empty();
    let mut k: usize = 0;
    while k < files.len()
        invariant
            k <= files@.len(),
            parts.len() == k,
            concatenates(all@, parts),
            forall|m: int| 0 <= m < k ==> file_types_render(#[trigger] parts[m], files@[m], opt_view(name_filter)),
        decreases files@.len() - k,
    {
        let res = collect_file_types(&files[k], name_filter);
        match res {
            Ok(part) => {
                let ghost before = all@;
                let mut part = part;
                let ghost pv = part@;
                all.append(&mut part);
                proof {
                    assert(parts.push(pv).drop_last() =~= parts);
                    parts = parts.push(pv);
                    assert(all@ =~= before + pv);
                }
            },
            Err(e) => {
                return Err(e);
            },
        }
        k = k + 1;
    }
    assert(parts.len() == files@.len() && concatenates(all@, parts)
        && forall|m: int| 0 <= m < files@.len() ==> file_types_render(#[trigger] parts[m], files@[m], opt_view(name_filter)));
    let r: Result<Vec<TypeOut>, RpcError> = Ok(all);
    assert(r matches Ok(v) && v@ == all@);
    r
}

/// A reference found by the reference search: the file (an index into the
/// project's files) and the byte range.
pub struct ReferenceHit {
    pub file: usize,
    pub start: u32,
    pub end: u32,
}

/// A reference of the answer.
pub struct ReferenceOut {
    pub file_path: String,
    pub range: RangeOut,
}

/// `o` reports reference `h` of the project `files`.
pub open spec fn reference_renders(o: ReferenceOut, h: ReferenceHit, files: Seq<SourceFile>) -> bool {
    let f = files[h.file as int];
    &&& o.file_path@ == path_or_empty(f)
    &&& o.range.start == position_of(f.content@, h.start as int)
    &&& o.range.end == position_of(f.content@, h.end as int)
}

/// Positions the references found by the search in their files' texts.
pub fn render_references(files: &Vec<SourceFile>, hits: &Vec<ReferenceHit>) -> (r: Vec<ReferenceOut>)
    requires
        forall|k: int| 0 <= k < hits@.len() ==> (#[trigger] hits@[k]).file < files@.len(),
    ensures
        r@.len() == hits@.len(),
        forall|k: int| 0 <= k < r@.len() ==> reference_renders(#[trigger] r@[k], hits@[k], files@),
{
    let mut out: Vec<ReferenceOut> = Vec::new();
    let mut k: usize = 0;
    while k < hits.len()
        invariant
            k <= hits@.len(),
            out@.len() == k,
            forall|m: int| 0 <= m < hits@.len() ==> (#[trigger] hits@[m]).file < files@.len(),
            forall|m: int| 0 <= m < k ==> reference_renders(#[trigger] out@[m], hits@[m], files@),
        decreases hits@.len() - k,
    {
        let h = &hits[k];
        let f = &files[h.file];
        let path = file_path_or_default(f);
        let range = build_range(f.content.as_str(), h.start, h.end);
        out.push(ReferenceOut { file_path: path, range });
        k = k + 1;
    }
    out
}

/// The pieces of `s` between `.` separators (always at least one piece).
pub open spec fn split_dots(s: Seq<char>) -> Seq<Seq<char>>
    decreases s.len(),
{
    if s.len() == 0 {
        seq![Seq::<char>::empty()]
    } else {
        let prev = split_dots(s.drop_last());
        if s.last() == '.' {
            prev.push(Seq::<char>::empty())
        } else {
            prev.update(prev.len() - 1, prev.last().push(s.last()))
        }
    }
}

/// `str::split('.')`: the parts of a qualified symbol name.
pub fn split_qualified_name(symbol_id: &str) -> (r: Vec<String>)
    ensures
        r@.len() == split_dots(symbol_id@).len(),
        forall|k: int| 0 <= k < r@.len() ==> (#[trigger] r@[k])@ == split_dots(symbol_id@)[k],
{
    let cs = crate::text::chars_of(symbol_id);
    let mut parts: Vec<String> = Vec::new();
    let mut cur: Vec<char> = Vec::new();
    let mut i: usize = 0;
    assert(cs@.take(0) =~= Seq::<char>::empty());
    while i < cs.len()
        invariant
            i <= cs@.len(),
            cs@ == symbol_id@,
            parts@.len() + 1 == split_dots(cs@.take(i as int)).len(),
            forall|k: int| 0 <= k < parts@.len() ==> (#[trigger] parts@[k])@ == split_dots(cs@.take(i as int))[k],
            cur@ == split_dots(cs@.take(i as int)).last(),
        decreases cs@.len() - i,
    {
        let c = cs[i];
        let ghost prev = split_dots(cs@.take(i as int));
        assert(cs@.take(i + 1).drop_last() =~= cs@.take(i as int));
        assert(cs@.take(i + 1).last() == c);
        if c == '.' {
            let piece = crate::text::string_of(cur.as_slice());
            parts.push(piece);
            cur = Vec::new();
            assert(split_dots(cs@.take(i + 1)) == prev.push(Seq::<char>::empty()));
        } else {
            cur.push(c);
            assert(split_dots(cs@.take(i + 1)) == prev.update(prev.len() - 1, prev.last().push(c)));
        }
        i = i + 1;
    }
    assert(cs@.take(cs@.len() as int) =~= cs@);
    let last = crate::text::string_of(cur.as_slice());
    parts.push(last);
    parts
}

/// The symbol the reference search starts from: the first file (in file
/// order) where the name resolved, with the declaration's file and offset;
/// otherwise `Symbol not found: <name>`.
pub fn first_resolution(found: &Vec<Option<(usize, u32)>>, symbol_id: &str) -> (r: Result<(usize, u32), RpcError>)
    ensures
        match r {
            Ok(v) => exists|k: int| 0 <= k < found@.len() && found@[k] == Some(v)
                && forall|m: int| 0 <= m < k ==> found@[m] is None,
            Err(e) => (forall|m: int| 0 <= m < found@.len() ==> found@[m] is None)
                && e.code == NOT_INITIALIZED && e.message@ == "Symbol not found: "@ + symbol_id@,
        },
{
    let mut k: usize = 0;
    while k < found.len()
        invariant
            k <= found@.len(),
            forall|m: int| 0 <= m < k ==> found@[m] is None,
        decreases found@.len() - k,
    {
        match found[k] {
            Some(v) => {
                assert(found@[k as int] == Some(v));
                return Ok(v);
            },
            None => {},
        }
        k = k + 1;
    }
    let message = crate::text::concat2("Symbol not found: ", symbol_id);
    Err(RpcError { code: NOT_INITIALIZED, message })
}

/// Metadata of a snapshot export.
pub struct SnapshotMetadata {
    pub project_path: String,
    pub export_time: String,
    pub entity_count: usize,
    pub edge_count: usize,
}

/// A full export of the project's symbols, types and diagnostics.
pub struct SnapshotOut {
    pub metadata: SnapshotMetadata,
    pub symbols: Vec<SymbolOut>,
    pub types: Vec<TypeOut>,
    pub diagnostics: Vec<DiagnosticOut>,
}

/// `snap` is the snapshot of `files` loaded from `project_path`, exported
/// at `export_secs`: every file's symbol tree, types and diagnostics, file
/// after file, counted (top-level symbols plus types, capped at
/// `usize::MAX`) and stamped `<seconds>Z`.
pub open spec fn snapshot_renders(snap: SnapshotOut, files: Seq<SourceFile>, project_path: Seq<char>, export_secs: u64) -> bool {
            &&& snap.metadata.project_path@ == project_path
            &&& snap.metadata.export_time@ == decimal(export_secs as nat).push('Z')
            &&& snap.metadata.entity_count == if snap.symbols@.len() + snap.types@.len() <= usize::MAX {
                snap.symbols@.len() + snap.types@.len()
            } else {
                usize::MAX as nat
            }
            &&& snap.metadata.edge_count == 0
            &&& exists|parts: Seq<Seq<SymbolOut>>| #![trigger concatenates(snap.symbols@, parts)] {
                &&& parts.len() == files.len()
                &&& concatenates(snap.symbols@, parts)
                &&& forall|k: int| 0 <= k < files.len() ==> forest_renders(#[trigger] files[k].table.symbols@, files[k].content@, path_or_empty(files[k]), None, None, None, parts[k])
            }
            &&& exists|parts: Seq<Seq<TypeOut>>| #![trigger concatenates(snap.types@, parts)] {
                &&& parts.len() == files.len()
                &&& concatenates(snap.types@, parts)
                &&& forall|k: int| 0 <= k < files.len() ==> file_types_render(#[trigger] parts[k], files[k], None)
            }
            &&& exists|parts: Seq<Seq<DiagnosticOut>>| #![trigger concatenates(snap.diagnostics@, parts)] {
                &&& parts.len() == files.len()
                &&& concatenates(snap.diagnostics@, parts)
                &&& forall|k: int| 0 <= k < files.len() ==> file_diagnostics_render(#[trigger] parts[k], files[k])
            }
        }

/// Builds the snapshot of the project (see `snapshot_renders`).
pub fn build_snapshot(files: &Vec<SourceFile>, project_path: &str, export_secs: u64) -> (r: Result<SnapshotOut, RpcError>)
    requires
        forall|k: int| 0 <= k < files@.len() ==> ids_unique(#[trigger] files@[k].table.symbols@),
    ensures
        r matches Ok(snap) && snapshot_renders(snap, files@, project_path@, export_secs),
{
    let symbols = match collect_all_symbols(files, None, None, None) {
        Ok(v) => v,
        Err(e) => return Err(e),
    };
    let types = match collect_all_types(files, None) {
        Ok(v) => v,
        Err(e) => return Err(e),
    };
    let diagnostics = match collect_all_diagnostics(files) {
        Ok(v) => v,
        Err(e) => return Err(e),
    };
    let ghost dparts = choose|parts: Seq<Seq<DiagnosticOut>>| #![trigger concatenates(diagnostics@, parts)] {
        &&& parts.len() == files@.len()
        &&& concatenates(diagnostics@, parts)
        &&& forall|k: int| 0 <= k < files@.len() ==> file_diagnostics_render(#[trigger] parts[k], files@[k])
    };
    assert(concatenates(diagnostics@, dparts));
    let ghost dv = diagnostics@;
    assert(dparts.len() == files@.len());
    assert(forall|k: int| 0 <= k < files@.len() ==> file_diagnostics_render(#[trigger] dparts[k], files@[k]));
    let entity_count = symbols.len().saturating_add(types.len());
    let mut export_time = decimal_string(export_secs);
    append_str(&mut export_time, "Z");
    assert(export_time@ =~= decimal(export_secs as nat).push('Z')) by {
        reveal_strlit("Z");
    }
    let metadata = SnapshotMetadata {
        project_path: String::from_str(project_path),
        export_time,
        entity_count,
        edge_count: 0,
    };
    let snap = SnapshotOut { metadata, symbols, types, diagnostics };
    assert(snap.metadata.entity_count == if snap.symbols@.len() + snap.types@.len() <= usize::MAX {
        snap.symbols@.len() + snap.types@.len()
    } else {
        usize::MAX as nat
    });
    assert(exists|parts: Seq<Seq<SymbolOut>>| #![trigger concatenates(snap.symbols@, parts)] {
                &&& parts.len() == files@.len()
                &&& concatenates(snap.symbols@, parts)
                &&& forall|k: int| 0 <= k < files@.len() ==> forest_renders(#[trigger] files@[k].table.symbols@, files@[k].content@, path_or_empty(files@[k]), None, None, None, parts[k])
            });
    assert(snap.diagnostics@ == dv);
    assert(snap.metadata.project_path@ == project_path@);
    assert(snap.metadata.export_time@ == decimal(export_secs as nat).push('Z'));
    assert(exists|parts: Seq<Seq<TypeOut>>| #![trigger concatenates(snap.types@, parts)] {
                &&& parts.len() == files@.len()
                &&& concatenates(snap.types@, parts)
                &&& forall|k: int| 0 <= k < files@.len() ==> file_types_render(#[trigger] parts[k], files@[k], None)
            });
    assert(exists|parts: Seq<Seq<DiagnosticOut>>| #![trigger concatenates(snap.diagnostics@, parts)] {
                &&& parts.len() == files@.len()
                &&& concatenates(snap.diagnostics@, parts)
                &&& forall|k: int| 0 <= k < files@.len() ==> file_diagnostics_render(#[trigger] parts[k], files@[k])
            });
    let r: Result<SnapshotOut, RpcError> = Ok(snap);
    r
}

/// The fields of the structure type that symbol `s` declares (none when its
/// type is not a registered structure).
pub open spec fn struct_fields(table: SymbolTable, s: Symbol) -> Option<Seq<FieldInfo>> {
    match type_index(table.types@, s.type_id) {
        Some(ti) => match table.types@[ti].ty.shape {
            TypeShape::Struct { fields } => Some(fields@),
            _ => None,
        },
        None => None,
    }
}

/// In the answer for a structure type, field `j` is listed under its own
/// name and, when the type table registers a display name `n` for that
/// field's type id, with type `n`.
pub proof fn law_struct_fields_carry_type_names(o: TypeOut, s: Symbol, table: SymbolTable, path: Seq<char>, j: int, n: Seq<char>)
    requires
        type_renders(o, s, table, path),
        struct_fields(table, s) is Some,
        0 <= j < struct_fields(table, s)->0.len(),
        type_name_of(table.type_names@, struct_fields(table, s)->0[j].type_id) == Some(n),
    ensures
        o.kind@ == "struct"@,
        o.fields matches Some(fs) && fs@.len() == struct_fields(table, s)->0.len() && fs@[j].name@ == struct_fields(table, s)->0[j].name@
            && fs@[j].field_type@ == n,
{
    let fs = o.fields->0;
    assert(fs@[j].name@ == struct_fields(table, s)->0[j].name@);
}

/// Severities are reported as `error`, `warning`, `info` and `hint`; two
/// reported diagnostics show the same severity text exactly when their
/// severities are the same.
pub proof fn law_severity_text(o1: DiagnosticOut, d1: HirDiagnostic, o2: DiagnosticOut, d2: HirDiagnostic, path: Seq<char>, content: Seq<char>)
    requires
        diagnostic_renders(o1, d1, path, content),
        diagnostic_renders(o2, d2, path, content),
    ensures
        d1.severity == Severity::Error ==> o1.severity@ == "error"@,
        d1.severity == Severity::Warning ==> o1.severity@ == "warning"@,
        d1.severity == Severity::Info ==> o1.severity@ == "info"@,
        d1.severity == Severity::Hint ==> o1.severity@ == "hint"@,
        (o1.severity@ == o2.severity@) <==> (d1.severity == d2.severity),
{
    reveal_strlit("error");
    reveal_strlit("warning");
    reveal_strlit("info");
    reveal_strlit("hint");
    assert("info"@[0] != "hint"@[0]);
    if o1.severity@ == o2.severity@ && d1.severity != d2.severity {
        match (d1.severity, d2.severity) {
            (Severity::Info, Severity::Hint) | (Severity::Hint, Severity::Info) => {
                assert(o1.severity@[0] != o2.severity@[0]);
            },
            _ => {
                assert(o1.severity@.len() != o2.severity@.len());
            },
        }
    }
}

/// The values of the enumeration type that symbol `s` declares (none when
/// its type is not a registered enumeration).
pub open spec fn enum_values_of(table: SymbolTable, s: Symbol) -> Option<Seq<String>> {
    match type_index(table.types@, s.type_id) {
        Some(ti) => match table.types@[ti].ty.shape {
            TypeShape::Enum { values } => Some(values@),
            _ => None,
        },
        None => None,
    }
}

/// The answer for an enumeration type has kind `enum` and lists its values,
/// in order, as fields of type `INT`; a type that is neither a structure
/// nor an enumeration lists no fields.
pub proof fn law_enum_values_are_int_fields(o: TypeOut, s: Symbol, table: SymbolTable, path: Seq<char>)
    requires
        type_renders(o, s, table, path),
    ensures
        o.name@ == s.name@,
        enum_values_of(table, s) matches Some(vs) ==> (o.kind@ == "enum"@ && (o.fields matches Some(fs) && fs@.len() == vs.len()
            && forall|j: int| 0 <= j < vs.len() ==> (#[trigger] fs@[j]).name@ == vs[j]@ && fs@[j].field_type@ == "INT"@)),
        (enum_values_of(table, s) is None && struct_fields(table, s) is None) ==> o.fields is None,
{
}

} // verus!
