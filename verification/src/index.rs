//! The `hir/index` query: graph entities (POUs, variables, types, fields)
//! and relationships (EXTENDS, IMPLEMENTS, CONTAINS, CALLS) of the project's
//! files, with their diagnostics.

use vstd::prelude::*;
use crate::daemon::{file_index_for, find_file, DaemonState, ProjectState};
use crate::kinds::{is_pou, pou_kind_name, pou_kind_to_string, qualifier_name, type_kind_name, type_to_kind_string, var_qualifier_to_string};
use crate::paths::{validate_path, validate_spec};
use crate::positions::{line_col, offset_to_line_col};
use crate::project::{diagnostic_renders, render_diagnostic, DiagnosticOut, SourceFile};
use crate::protocol::RpcError;
use crate::symbol_tree::{ids_unique, index_of};
use crate::symbols::{implements_index, extends_of, lemma_symbol_index_bounds, range_empty, symbol_index, type_index, HirType, Symbol, SymbolKind, SymbolTable, TypeShape};
use crate::text::{append_str, decimal, decimal_string};

verus! {

/// A program organisation unit of the graph.
pub struct PouEntity {
    pub id: String,
    pub name: String,
    pub kind: String,
    pub line: u32,
}

/// A variable declared in a POU.
pub struct VariableEntity {
    pub id: String,
    pub name: String,
    pub direction: String,
    pub pou_id: String,
    pub line: u32,
}

/// A type declaration.
pub struct TypeEntity {
    pub id: String,
    pub name: String,
    pub type_kind: String,
    pub line: u32,
}

/// A field of a structure type.
pub struct FieldEntity {
    pub id: String,
    pub name: String,
    pub type_id: String,
}

/// An edge of the graph.
pub struct Relationship {
    pub id: String,
    pub from: String,
    pub to: String,
    pub kind: String,
    pub line: u32,
}

/// The entities and relationships of one file.
pub struct FileIndex {
    pub file_path: String,
    pub pous: Vec<PouEntity>,
    pub variables: Vec<VariableEntity>,
    pub types: Vec<TypeEntity>,
    pub fields: Vec<FieldEntity>,
    pub relationships: Vec<Relationship>,
}

/// A call found by the call-hierarchy search: caller and callee as
/// (file index, symbol id), and the line of the call.
pub struct CallEdge {
    pub caller_file: usize,
    pub caller_symbol: u32,
    pub callee_file: usize,
    pub callee_symbol: u32,
    pub line: u32,
}

pub type PouV = (Seq<char>, Seq<char>, Seq<char>, u32);
pub type VarV = (Seq<char>, Seq<char>, Seq<char>, Seq<char>, u32);
pub type TypeV = (Seq<char>, Seq<char>, Seq<char>, u32);
pub type FieldV = (Seq<char>, Seq<char>, Seq<char>);
pub type RelV = (Seq<char>, Seq<char>, Seq<char>, Seq<char>, u32);

pub open spec fn pou_v(e: PouEntity) -> PouV {
    (e.id@, e.name@, e.kind@, e.line)
}

pub open spec fn var_v(e: VariableEntity) -> VarV {
    (e.id@, e.name@, e.direction@, e.pou_id@, e.line)
}

pub open spec fn type_v(e: TypeEntity) -> TypeV {
    (e.id@, e.name@, e.type_kind@, e.line)
}

pub open spec fn field_v(e: FieldEntity) -> FieldV {
    (e.id@, e.name@, e.type_id@)
}

pub open spec fn rel_v(e: Relationship) -> RelV {
    (e.id@, e.from@, e.to@, e.kind@, e.line)
}

/// `st:<path>:<name>`: the graph id of a POU (or of any named node).
pub open spec fn node_id(path: Seq<char>, name: Seq<char>) -> Seq<char> {
    "st:"@ + path + ":"@ + name
}

/// Line of a symbol's start.
pub open spec fn line_of(content: Seq<char>, s: Symbol) -> u32 {
    line_col(content, s.start as int).0 as u32
}

/// The name of the declared (nonempty-range) symbol with id `id`.
pub open spec fn declared_name(t: Seq<Symbol>, id: u32) -> Option<Seq<char>> {
    match symbol_index(t, id) {
        Some(j) => if !range_empty(t[j]) { Some(t[j].name@) } else { None },
        None => None,
    }
}

/// The graph id of the declared POU with id `id`.
pub open spec fn pou_id_of(path: Seq<char>, t: Seq<Symbol>, id: u32) -> Option<Seq<char>> {
    match symbol_index(t, id) {
        Some(j) => if !range_empty(t[j]) && is_pou(t[j].kind) { Some(node_id(path, t[j].name@)) } else { None },
        None => None,
    }
}

pub open spec fn pous_spec(path: Seq<char>, content: Seq<char>, syms: Seq<Symbol>) -> Seq<PouV>
    decreases syms.len(),
{
    if syms.len() == 0 {
        Seq::empty()
    } else {
        let s = syms.last();
        pous_spec(path, content, syms.drop_last()) + if !range_empty(s) && is_pou(s.kind) {
            seq![(node_id(path, s.name@), s.name@, pou_kind_name(s.kind), line_of(content, s))]
        } else {
            Seq::empty()
        }
    }
}

pub open spec fn vars_spec(path: Seq<char>, content: Seq<char>, all: Seq<Symbol>, syms: Seq<Symbol>) -> Seq<VarV>
    decreases syms.len(),
{
    if syms.len() == 0 {
        Seq::empty()
    } else {
        let s = syms.last();
        vars_spec(path, content, all, syms.drop_last()) + match s.kind {
            SymbolKind::Variable { qualifier } => match s.parent {
                Some(pid) => match pou_id_of(path, all, pid) {
                    Some(pou) => if !range_empty(s) {
                        seq![("st:var:"@ + pou + ":"@ + s.name@, s.name@, qualifier_name(qualifier), pou, line_of(content, s))]
                    } else {
                        Seq::empty()
                    },
                    None => Seq::empty(),
                },
                None => Seq::empty(),
            },
            _ => Seq::empty(),
        }
    }
}

pub open spec fn type_of(table: SymbolTable, s: Symbol) -> Option<HirType> {
    match type_index(table.types@, s.type_id) {
        Some(i) => Some(table.types@[i].ty),
        None => None,
    }
}

pub open spec fn type_node_id(path: Seq<char>, name: Seq<char>) -> Seq<char> {
    "st:"@ + path + ":type:"@ + name
}

pub open spec fn types_spec(path: Seq<char>, content: Seq<char>, table: SymbolTable, syms: Seq<Symbol>) -> Seq<TypeV>
    decreases syms.len(),
{
    if syms.len() == 0 {
        Seq::empty()
    } else {
        let s = syms.last();
        types_spec(path, content, table, syms.drop_last()) + if !range_empty(s) && s.kind == SymbolKind::Type {
            seq![(type_node_id(path, s.name@), s.name@, type_kind_name(type_of(table, s)), line_of(content, s))]
        } else {
            Seq::empty()
        }
    }
}

/// The field entities of one type symbol.
pub open spec fn fields_of(path: Seq<char>, table: SymbolTable, s: Symbol) -> Seq<FieldV> {
    if !range_empty(s) && s.kind == SymbolKind::Type {
        match type_of(table, s) {
            Some(ty) => match ty.shape {
                TypeShape::Struct { fields } => {
                    let tid = type_node_id(path, s.name@);
                    Seq::new(fields@.len(), |j: int| ("st:"@ + tid + ":field:"@ + fields@[j].name@, fields@[j].name@, tid))
                },
                _ => Seq::empty(),
            },
            None => Seq::empty(),
        }
    } else {
        Seq::empty()
    }
}

pub open spec fn fields_spec(path: Seq<char>, table: SymbolTable, syms: Seq<Symbol>) -> Seq<FieldV>
    decreases syms.len(),
{
    if syms.len() == 0 {
        Seq::empty()
    } else {
        fields_spec(path, table, syms.drop_last()) + fields_of(path, table, syms.last())
    }
}

/// `st:rel:<path>:<a>:<b>:<KIND>:<line>`.
pub open spec fn rel_id(path: Seq<char>, a: Seq<char>, b: Seq<char>, kind: Seq<char>, line: u32) -> Seq<char> {
    "st:rel:"@ + path + ":"@ + a + ":"@ + b + ":"@ + kind + ":"@ + decimal(line as nat)
}

/// The EXTENDS, IMPLEMENTS and CONTAINS edges of one declared POU.
pub open spec fn rels_of(path: Seq<char>, content: Seq<char>, table: SymbolTable, s: Symbol) -> Seq<RelV> {
    if !range_empty(s) && is_pou(s.kind) {
        let from = node_id(path, s.name@);
        let line = line_of(content, s);
        let ext = match extends_of(table.extends@, s.id) {
            Some(e) => seq![(rel_id(path, s.name@, e, "EXTENDS"@, line), from, node_id(path, e), "EXTENDS"@, line)],
            None => Seq::empty(),
        };
        let imp = match implements_index(table.implements@, s.id) {
            Some(k) => {
                let names = table.implements@[k].interfaces@;
                Seq::new(names.len(), |j: int| (rel_id(path, s.name@, names[j]@, "IMPLEMENTS"@, line), from, node_id(path, names[j]@), "IMPLEMENTS"@, line))
            },
            None => Seq::empty(),
        };
        let con = match s.parent {
            Some(pid) => match declared_name(table.symbols@, pid) {
                Some(pn) => seq![(rel_id(path, pn, s.name@, "CONTAINS"@, line), node_id(path, pn), from, "CONTAINS"@, line)],
                None => Seq::empty(),
            },
            None => Seq::empty(),
        };
        ext + imp + con
    } else {
        Seq::empty()
    }
}

pub open spec fn rels_spec(path: Seq<char>, content: Seq<char>, table: SymbolTable, syms: Seq<Symbol>) -> Seq<RelV>
    decreases syms.len(),
{
    if syms.len() == 0 {
        Seq::empty()
    } else {
        rels_spec(path, content, table, syms.drop_last()) + rels_of(path, content, table, syms.last())
    }
}

/// The name of the symbol with id `id` in a table (any symbol).
pub open spec fn any_name(t: Seq<Symbol>, id: u32) -> Seq<char> {
    match symbol_index(t, id) {
        Some(j) => t[j].name@,
        None => Seq::empty(),
    }
}

pub open spec fn or_empty(o: Option<Seq<char>>) -> Seq<char> {
    match o {
        Some(x) => x,
        None => Seq::empty(),
    }
}

/// The CALLS edge of one call of file `fi`, if both ends have a name.
pub open spec fn call_rel(path: Seq<char>, files: Seq<SourceFile>, fi: int, e: CallEdge) -> Seq<RelV> {
    let t = files[fi].table.symbols@;
    let caller = or_empty(declared_name(t, e.caller_symbol));
    let callee = if e.callee_file == fi {
        or_empty(declared_name(t, e.callee_symbol))
    } else {
        any_name(files[e.callee_file as int].table.symbols@, e.callee_symbol)
    };
    if e.caller_file == fi && caller.len() > 0 && callee.len() > 0 {
        seq![(rel_id(path, caller, callee, "CALLS"@, e.line), node_id(path, caller), node_id(path, callee), "CALLS"@, e.line)]
    } else {
        Seq::empty()
    }
}

pub open spec fn calls_spec(path: Seq<char>, files: Seq<SourceFile>, fi: int, edges: Seq<CallEdge>) -> Seq<RelV>
    decreases edges.len(),
{
    if edges.len() == 0 {
        Seq::empty()
    } else {
        calls_spec(path, files, fi, edges.drop_last()) + call_rel(path, files, fi, edges.last())
    }
}

/// `x` describes file `fi` (which has display path `path`) as the index
/// answer does.
pub open spec fn file_index_renders(x: FileIndex, files: Seq<SourceFile>, fi: int, edges: Seq<CallEdge>, path: Seq<char>) -> bool {
    let f = files[fi];
    let t = f.table.symbols@;
    &&& x.file_path@ == path
    &&& x.pous@.map_values(|e: PouEntity| pou_v(e)) == pous_spec(path, f.content@, t)
    &&& x.variables@.map_values(|e: VariableEntity| var_v(e)) == vars_spec(path, f.content@, t, t)
    &&& x.types@.map_values(|e: TypeEntity| type_v(e)) == types_spec(path, f.content@, f.table, t)
    &&& x.fields@.map_values(|e: FieldEntity| field_v(e)) == fields_spec(path, f.table, t)
    &&& x.relationships@.map_values(|e: Relationship| rel_v(e)) == rels_spec(path, f.content@, f.table, t) + calls_spec(path, files, fi, edges)
}

fn str_node_id(path: &str, name: &str) -> (r: String)
    ensures
        r@ == node_id(path@, name@),
{
    let mut s = String::from_str("st:");
    append_str(&mut s, path);
    append_str(&mut s, ":");
    append_str(&mut s, name);
    s
}

fn str_rel_id(path: &str, a: &str, b: &str, kind: &str, line: u32) -> (r: String)
    ensures
        r@ == rel_id(path@, a@, b@, kind@, line),
{
    let mut s = String::from_str("st:rel:");
    append_str(&mut s, path);
    append_str(&mut s, ":");
    append_str(&mut s, a);
    append_str(&mut s, ":");
    append_str(&mut s, b);
    append_str(&mut s, ":");
    append_str(&mut s, kind);
    append_str(&mut s, ":");
    let l = decimal_string(line as u64);
    append_str(&mut s, l.as_str());
    s
}

fn pous_of_file(path: &str, content: &str, syms: &Vec<Symbol>) -> (r: Vec<PouEntity>)
    ensures
        r@.map_values(|e: PouEntity| pou_v(e)) == pous_spec(path@, content@, syms@),
{
    let mut out: Vec<PouEntity> = Vec::new();
    let mut i: usize = 0;
    assert(syms@.take(0) =~= Seq::<Symbol>::empty());
    assert(out@.map_values(|e: PouEntity| pou_v(e)) =~= Seq::<PouV>::empty());
    while i < syms.len()
        invariant
            i <= syms@.len(),
            out@.map_values(|e: PouEntity| pou_v(e)) == pous_spec(path@, content@, syms@.take(i as int)),
        decreases syms@.len() - i,
    {
        let s = &syms[i];
        let ghost before = out@;
        assert(syms@.take(i + 1).drop_last() =~= syms@.take(i as int));
        assert(syms@.take(i + 1).last() == *s);
        if s.start < s.end && crate::kinds::is_pou_kind(s.kind) {
            let (line, _) = offset_to_line_col(content, s.start);
            let e = PouEntity {
                id: str_node_id(path, s.name.as_str()),
                name: s.name.clone(),
                kind: String::from_str(pou_kind_to_string(s.kind)),
                line,
            };
            out.push(e);
            assert(out@.map_values(|e: PouEntity| pou_v(e)) =~= before.map_values(|e: PouEntity| pou_v(e)).push(pou_v(e)));
        } else {
            assert(out@ == before);
        }
        assert(out@.map_values(|e: PouEntity| pou_v(e)) =~= pous_spec(path@, content@, syms@.take(i + 1)));
        i = i + 1;
    }
    assert(syms@.take(syms@.len() as int) =~= syms@);
    out
}

fn lookup_pou_id(path: &str, syms: &Vec<Symbol>, id: u32) -> (r: Option<String>)
    ensures
        match pou_id_of(path@, syms@, id) {
            Some(x) => r matches Some(v) && v@ == x,
            None => r is None,
        },
{
    proof {
        lemma_symbol_index_bounds(syms@, id);
    }
    match index_of(syms, id) {
        Some(j) => {
            let s = &syms[j];
            if s.start < s.end && crate::kinds::is_pou_kind(s.kind) {
                Some(str_node_id(path, s.name.as_str()))
            } else {
                None
            }
        },
        None => None,
    }
}

fn lookup_declared_name(syms: &Vec<Symbol>, id: u32) -> (r: Option<String>)
    ensures
        match declared_name(syms@, id) {
            Some(x) => r matches Some(v) && v@ == x,
            None => r is None,
        },
{
    proof {
        lemma_symbol_index_bounds(syms@, id);
    }
    match index_of(syms, id) {
        Some(j) => {
            let s = &syms[j];
            if s.start < s.end {
                Some(s.name.clone())
            } else {
                None
            }
        },
        None => None,
    }
}

fn variables_of_file(path: &str, content: &str, syms: &Vec<Symbol>) -> (r: Vec<VariableEntity>)
    ensures
        r@.map_values(|e: VariableEntity| var_v(e)) == vars_spec(path@, content@, syms@, syms@),
{
    let mut out: Vec<VariableEntity> = Vec::new();
    let mut i: usize = 0;
    assert(syms@.take(0) =~= Seq::<Symbol>::empty());
    assert(out@.map_values(|e: VariableEntity| var_v(e)) =~= Seq::<VarV>::empty());
    while i < syms.len()
        invariant
            i <= syms@.len(),
            out@.map_values(|e: VariableEntity| var_v(e)) == vars_spec(path@, content@, syms@, syms@.take(i as int)),
        decreases syms@.len() - i,
    {
        let s = &syms[i];
        let ghost before = out@;
        assert(syms@.take(i + 1).drop_last() =~= syms@.take(i as int));
        assert(syms@.take(i + 1).last() == *s);
        let mut pushed = false;
        match s.kind {
            SymbolKind::Variable { qualifier } => {
                match s.parent {
                    Some(pid) => {
                        match lookup_pou_id(path, syms, pid) {
                            Some(pou) => {
                                if s.start < s.end {
                                    let (line, _) = offset_to_line_col(content, s.start);
                                    let mut id = String::from_str("st:var:");
                                    append_str(&mut id, pou.as_str());
                                    append_str(&mut id, ":");
                                    append_str(&mut id, s.name.as_str());
                                    let e = VariableEntity {
                                        id,
                                        name: s.name.clone(),
                                        direction: String::from_str(var_qualifier_to_string(qualifier)),
                                        pou_id: pou,
                                        line,
                                    };
                                    out.push(e);
                                    pushed = true;
                                    assert(out@.map_values(|e: VariableEntity| var_v(e)) =~= before.map_values(|e: VariableEntity| var_v(e)).push(var_v(e)));
                                }
                            },
                            None => {},
                        }
                    },
                    None => {},
                }
            },
            _ => {},
        }
        if !pushed {
            assert(out@ == before);
        }
        assert(out@.map_values(|e: VariableEntity| var_v(e)) =~= vars_spec(path@, content@, syms@, syms@.take(i + 1)));
        i = i + 1;
    }
    assert(syms@.take(syms@.len() as int) =~= syms@);
    out
}

fn types_of_file(path: &str, content: &str, table: &SymbolTable) -> (r: Vec<TypeEntity>)
    ensures
        r@.map_values(|e: TypeEntity| type_v(e)) == types_spec(path@, content@, *table, table.symbols@),
{
    let syms = &table.symbols;
    let mut out: Vec<TypeEntity> = Vec::new();
    let mut i: usize = 0;
    assert(syms@.take(0) =~= Seq::<Symbol>::empty());
    assert(out@.map_values(|e: TypeEntity| type_v(e)) =~= Seq::<TypeV>::empty());
    while i < syms.len()
        invariant
            i <= syms@.len(),
            syms@ == table.symbols@,
            out@.map_values(|e: TypeEntity| type_v(e)) == types_spec(path@, content@, *table, syms@.take(i as int)),
        decreases syms@.len() - i,
    {
        let s = &syms[i];
        let ghost before = out@;
        assert(syms@.take(i + 1).drop_last() =~= syms@.take(i as int));
        assert(syms@.take(i + 1).last() == *s);
        if s.start < s.end && matches!(s.kind, SymbolKind::Type) {
            let (line, _) = offset_to_line_col(content, s.start);
            let mut id = String::from_str("st:");
            append_str(&mut id, path);
            append_str(&mut id, ":type:");
            append_str(&mut id, s.name.as_str());
            let ty = table.type_by_id(s.type_id);
            let kind = type_to_kind_string(ty);
            let e = TypeEntity { id, name: s.name.clone(), type_kind: String::from_str(kind), line };
            assert(type_kind_name(type_of(*table, *s)) == type_kind_name(match ty { Some(t) => Some(*t), None => None }));
            out.push(e);
            assert(out@.map_values(|e: TypeEntity| type_v(e)) =~= before.map_values(|e: TypeEntity| type_v(e)).push(type_v(e)));
        } else {
            assert(out@ == before);
        }
        assert(out@.map_values(|e: TypeEntity| type_v(e)) =~= types_spec(path@, content@, *table, syms@.take(i + 1)));
        i = i + 1;
    }
    assert(syms@.take(syms@.len() as int) =~= syms@);
    out
}

fn fields_of_file(path: &str, table: &SymbolTable) -> (r: Vec<FieldEntity>)
    ensures
        r@.map_values(|e: FieldEntity| field_v(e)) == fields_spec(path@, *table, table.symbols@),
{
    let syms = &table.symbols;
    let mut out: Vec<FieldEntity> = Vec::new();
    let mut i: usize = 0;
    assert(syms@.take(0) =~= Seq::<Symbol>::empty());
    assert(out@.map_values(|e: FieldEntity| field_v(e)) =~= Seq::<FieldV>::empty());
    while i < syms.len()
        invariant
            i <= syms@.len(),
            syms@ == table.symbols@,
            out@.map_values(|e: FieldEntity| field_v(e)) == fields_spec(path@, *table, syms@.take(i as int)),
        decreases syms@.len() - i,
    {
        let s = &syms[i];
        let ghost before = out@.map_values(|e: FieldEntity| field_v(e));
        assert(syms@.take(i + 1).drop_last() =~= syms@.take(i as int));
        assert(syms@.take(i + 1).last() == *s);
        if s.start < s.end && matches!(s.kind, SymbolKind::Type) {
            match table.type_by_id(s.type_id) {
                Some(ty) => match &ty.shape {
                    TypeShape::Struct { fields } => {
                        let mut tid = String::from_str("st:");
                        append_str(&mut tid, path);
                        append_str(&mut tid, ":type:");
                        append_str(&mut tid, s.name.as_str());
                        let ghost spec_fields = fields_of(path@, *table, *s);
                        let mut j: usize = 0;
                        while j < fields.len()
                            invariant
                                j <= fields@.len(),
                                tid@ == type_node_id(path@, s.name@),
                                spec_fields == Seq::new(fields@.len(), |m: int| ("st:"@ + tid@ + ":field:"@ + fields@[m].name@, fields@[m].name@, tid@)),
                                out@.map_values(|e: FieldEntity| field_v(e)) == before + spec_fields.take(j as int),
                            decreases fields@.len() - j,
                        {
                            let ghost prev = out@;
                            let mut id = String::from_str("st:");
                            append_str(&mut id, tid.as_str());
                            append_str(&mut id, ":field:");
                            append_str(&mut id, fields[j].name.as_str());
                            let e = FieldEntity { id, name: fields[j].name.clone(), type_id: tid.clone() };
                            out.push(e);
                            assert(out@.map_values(|e: FieldEntity| field_v(e)) =~= prev.map_values(|e: FieldEntity| field_v(e)).push(field_v(e)));
                            assert(spec_fields.take(j + 1) =~= spec_fields.take(j as int).push(spec_fields[j as int]));
                            j = j + 1;
                        }
                        assert(spec_fields.take(fields@.len() as int) =~= spec_fields);
                    },
                    _ => {},
                },
                None => {},
            }
        }
        assert(out@.map_values(|e: FieldEntity| field_v(e)) =~= fields_spec(path@, *table, syms@.take(i + 1)));
        i = i + 1;
    }
    assert(syms@.take(syms@.len() as int) =~= syms@);
    out
}

fn make_rel(id: String, from: String, to: String, kind: &str, line: u32) -> (r: Relationship)
    ensures
        rel_v(r) == (id@, from@, to@, kind@, line),
{
    Relationship { id, from, to, kind: String::from_str(kind), line }
}

fn push_rel(out: &mut Vec<Relationship>, e: Relationship)
    ensures
        final(out)@.map_values(|x: Relationship| rel_v(x)) == old(out)@.map_values(|x: Relationship| rel_v(x)).push(rel_v(e)),
{
    out.push(e);
    assert(out@.map_values(|x: Relationship| rel_v(x)) =~= old(out)@.map_values(|x: Relationship| rel_v(x)).push(rel_v(e)));
}

fn relationships_of_symbol(path: &str, content: &str, table: &SymbolTable, s: &Symbol, out: &mut Vec<Relationship>)
    ensures
        final(out)@.map_values(|x: Relationship| rel_v(x)) == old(out)@.map_values(|x: Relationship| rel_v(x)) + rels_of(path@, content@, *table, *s),
{
    let ghost base = old(out)@.map_values(|x: Relationship| rel_v(x));
    if !(s.start < s.end && crate::kinds::is_pou_kind(s.kind)) {
        assert(rels_of(path@, content@, *table, *s) =~= Seq::<RelV>::empty());
        assert(base + Seq::<RelV>::empty() =~= base);
        return;
    }
    let from = str_node_id(path, s.name.as_str());
    let (line, _) = offset_to_line_col(content, s.start);
    let ghost ext = match extends_of(table.extends@, s.id) {
        Some(e) => seq![(rel_id(path@, s.name@, e, "EXTENDS"@, line), from@, node_id(path@, e), "EXTENDS"@, line)],
        None => Seq::<RelV>::empty(),
    };
    let ghost imp = match implements_index(table.implements@, s.id) {
        Some(k) => {
            let names = table.implements@[k].interfaces@;
            Seq::new(names.len(), |j: int| (rel_id(path@, s.name@, names[j]@, "IMPLEMENTS"@, line), from@, node_id(path@, names[j]@), "IMPLEMENTS"@, line))
        },
        None => Seq::<RelV>::empty(),
    };
    let ghost con = match s.parent {
        Some(pid) => match declared_name(table.symbols@, pid) {
            Some(pn) => seq![(rel_id(path@, pn, s.name@, "CONTAINS"@, line), node_id(path@, pn), from@, "CONTAINS"@, line)],
            None => Seq::<RelV>::empty(),
        },
        None => Seq::<RelV>::empty(),
    };
    assert(rels_of(path@, content@, *table, *s) == ext + imp + con);
    match table.extends_name(s.id) {
        Some(e) => {
            let r = make_rel(str_rel_id(path, s.name.as_str(), e.as_str(), "EXTENDS", line), from.clone(), str_node_id(path, e.as_str()), "EXTENDS", line);
            push_rel(out, r);
        },
        None => {},
    }
    assert(out@.map_values(|x: Relationship| rel_v(x)) =~= base + ext);
    match table.implements_names(s.id) {
        Some(names) => {
            let mut j: usize = 0;
            while j < names.len()
                invariant
                    j <= names@.len(),
                    implements_index(table.implements@, s.id) is Some,
                    names@ == table.implements@[implements_index(table.implements@, s.id)->Some_0].interfaces@,
                    imp == Seq::new(names@.len(), |m: int| (rel_id(path@, s.name@, names@[m]@, "IMPLEMENTS"@, line), from@, node_id(path@, names@[m]@), "IMPLEMENTS"@, line)),
                    out@.map_values(|x: Relationship| rel_v(x)) == base + ext + imp.take(j as int),
                decreases names@.len() - j,
            {
                let r = make_rel(str_rel_id(path, s.name.as_str(), names[j].as_str(), "IMPLEMENTS", line), from.clone(), str_node_id(path, names[j].as_str()), "IMPLEMENTS", line);
                push_rel(out, r);
                assert(imp.take(j + 1) =~= imp.take(j as int).push(imp[j as int]));
                j = j + 1;
            }
            assert(imp.take(names@.len() as int) =~= imp);
        },
        None => {
            assert(base + ext + imp =~= base + ext);
        },
    }
    assert(out@.map_values(|x: Relationship| rel_v(x)) =~= base + ext + imp);
    let mut pushed = false;
    match s.parent {
        Some(pid) => match lookup_declared_name(&table.symbols, pid) {
            Some(pn) => {
                let r = make_rel(str_rel_id(path, pn.as_str(), s.name.as_str(), "CONTAINS", line), str_node_id(path, pn.as_str()), from.clone(), "CONTAINS", line);
                push_rel(out, r);
                pushed = true;
            },
            None => {},
        },
        None => {},
    }
    if !pushed {
        assert(base + ext + imp + con =~= base + ext + imp);
    }
    assert(out@.map_values(|x: Relationship| rel_v(x)) =~= base + (ext + imp + con));
}

fn calls_of_file(path: &str, files: &Vec<SourceFile>, fi: usize, edges: &Vec<CallEdge>, out: &mut Vec<Relationship>)
    requires
        fi < files@.len(),
        forall|k: int| 0 <= k < edges@.len() ==> (#[trigger] edges@[k]).callee_file < files@.len(),
    ensures
        final(out)@.map_values(|x: Relationship| rel_v(x)) == old(out)@.map_values(|x: Relationship| rel_v(x)) + calls_spec(path@, files@, fi as int, edges@),
{
    let ghost base = old(out)@.map_values(|x: Relationship| rel_v(x));
    let t = &files[fi].table.symbols;
    let mut k: usize = 0;
    assert(edges@.take(0) =~= Seq::<CallEdge>::empty());
    assert(base + Seq::<RelV>::empty() =~= base);
    while k < edges.len()
        invariant
            k <= edges@.len(),
            fi < files@.len(),
            *t == files@[fi as int].table.symbols,
            forall|m: int| 0 <= m < edges@.len() ==> (#[trigger] edges@[m]).callee_file < files@.len(),
            out@.map_values(|x: Relationship| rel_v(x)) == base + calls_spec(path@, files@, fi as int, edges@.take(k as int)),
        decreases edges@.len() - k,
    {
        let e = &edges[k];
        assert(edges@.take(k + 1).drop_last() =~= edges@.take(k as int));
        assert(edges@.take(k + 1).last() == *e);
        let ghost prev = out@.map_values(|x: Relationship| rel_v(x));
        let caller = match lookup_declared_name(t, e.caller_symbol) {
            Some(n) => n,
            None => String::new(),
        };
        let callee = if e.callee_file == fi {
            match lookup_declared_name(t, e.callee_symbol) {
                Some(n) => n,
                None => String::new(),
            }
        } else {
            match files[e.callee_file].table.get(e.callee_symbol) {
                Some(sym) => sym.name.clone(),
                None => String::new(),
            }
        };
        assert(callee@ == (if e.callee_file == fi {
            or_empty(declared_name(files@[fi as int].table.symbols@, e.callee_symbol))
        } else {
            any_name(files@[e.callee_file as int].table.symbols@, e.callee_symbol)
        }));
        if e.caller_file == fi && !caller.as_str().is_empty() && !callee.as_str().is_empty() {
            let r = make_rel(
                str_rel_id(path, caller.as_str(), callee.as_str(), "CALLS", e.line),
                str_node_id(path, caller.as_str()),
                str_node_id(path, callee.as_str()),
                "CALLS",
                e.line,
            );
            push_rel(out, r);
        } else {
            assert(call_rel(path@, files@, fi as int, *e) =~= Seq::<RelV>::empty());
        }
        assert(out@.map_values(|x: Relationship| rel_v(x)) =~= base + calls_spec(path@, files@, fi as int, edges@.take(k + 1)));
        k = k + 1;
    }
    assert(edges@.take(edges@.len() as int) =~= edges@);
}

fn relationships_of_file(path: &str, files: &Vec<SourceFile>, fi: usize, edges: &Vec<CallEdge>) -> (r: Vec<Relationship>)
    requires
        fi < files@.len(),
        forall|k: int| 0 <= k < edges@.len() ==> (#[trigger] edges@[k]).callee_file < files@.len(),
    ensures
        r@.map_values(|x: Relationship| rel_v(x)) == rels_spec(path@, files@[fi as int].content@, files@[fi as int].table, files@[fi as int].table.symbols@) + calls_spec(path@, files@, fi as int, edges@),
{
    let f = &files[fi];
    let syms = &f.table.symbols;
    let mut out: Vec<Relationship> = Vec::new();
    let mut i: usize = 0;
    assert(syms@.take(0) =~= Seq::<Symbol>::empty());
    assert(out@.map_values(|x: Relationship| rel_v(x)) =~= Seq::<RelV>::empty());
    while i < syms.len()
        invariant
            i <= syms@.len(),
            syms@ == f.table.symbols@,
            out@.map_values(|x: Relationship| rel_v(x)) == rels_spec(path@, f.content@, f.table, syms@.take(i as int)),
        decreases syms@.len() - i,
    {
        assert(syms@.take(i + 1).drop_last() =~= syms@.take(i as int));
        assert(syms@.take(i + 1).last() == syms@[i as int]);
        relationships_of_symbol(path, f.content.as_str(), &f.table, &syms[i], &mut out);
        i = i + 1;
    }
    assert(syms@.take(syms@.len() as int) =~= syms@);
    calls_of_file(path, files, fi, edges, &mut out);
    out
}

/// The entities and relationships of file `fi`; none when the file has no
/// display path.
pub fn index_file(files: &Vec<SourceFile>, fi: usize, edges: &Vec<CallEdge>) -> (r: Option<FileIndex>)
    requires
        fi < files@.len(),
        forall|k: int| 0 <= k < edges@.len() ==> (#[trigger] edges@[k]).callee_file < files@.len(),
    ensures
        match files@[fi as int].path {
            Some(p) => r matches Some(x) && file_index_renders(x, files@, fi as int, edges@, p@),
            None => r is None,
        },
{
    let f = &files[fi];
    let path = match &f.path {
        Some(p) => p,
        None => return None,
    };
    let p = path.as_str();
    let x = FileIndex {
        file_path: path.clone(),
        pous: pous_of_file(p, f.content.as_str(), &f.table.symbols),
        variables: variables_of_file(p, f.content.as_str(), &f.table.symbols),
        types: types_of_file(p, f.content.as_str(), &f.table),
        fields: fields_of_file(p, &f.table),
        relationships: relationships_of_file(p, files, fi, edges),
    };
    Some(x)
}

/// The `filePaths` parameter of `hir/index`: absent (or null), an array of
/// entries (a string or something else), or any other value.
pub enum FilePathsParam {
    Absent,
    Entries(Vec<Option<String>>),
    Invalid,
}

/// What one entry of `filePaths` selects: a file, or a warning.
pub open spec fn entry_outcome(files: Seq<SourceFile>, root: Seq<char>, e: Option<Seq<char>>) -> Result<int, Seq<char>> {
    match e {
        None => Err("Non-string entry in filePaths array"@),
        Some(s) => match validate_spec(s, root) {
            Err(code) => Err("Invalid path '"@ + s + "': "@ + crate::daemon::path_error_message(code)),
            Ok(p) => match file_index_for(files, p) {
                Some(i) => Ok(i),
                None => Err("File not found in project: "@ + s),
            },
        },
    }
}

pub open spec fn entry_view(e: Option<String>) -> Option<Seq<char>> {
    match e {
        Some(s) => Some(s@),
        None => None,
    }
}

/// The files and warnings that a list of entries gives, in entry order.
pub open spec fn selection(files: Seq<SourceFile>, root: Seq<char>, es: Seq<Option<String>>) -> (Seq<usize>, Seq<Seq<char>>)
    decreases es.len(),
{
    if es.len() == 0 {
        (Seq::empty(), Seq::empty())
    } else {
        let (ids, ws) = selection(files, root, es.drop_last());
        match entry_outcome(files, root, entry_view(es.last())) {
            Ok(i) => (ids.push(i as usize), ws),
            Err(w) => (ids, ws.push(w)),
        }
    }
}

/// Every file of the project, in order.
pub open spec fn all_files(n: nat) -> Seq<usize> {
    Seq::new(n, |i: int| i as usize)
}

pub open spec fn strings_v(v: Seq<String>) -> Seq<Seq<char>> {
    v.map_values(|s: String| s@)
}

/// The files to index and the warnings, for a `filePaths` parameter.
pub open spec fn select_spec(files: Seq<SourceFile>, root: Seq<char>, param: FilePathsParam) -> (Seq<usize>, Seq<Seq<char>>) {
    match param {
        FilePathsParam::Absent => (all_files(files.len()), Seq::empty()),
        FilePathsParam::Entries(es) => if es@.len() == 0 {
            (all_files(files.len()), Seq::empty())
        } else {
            selection(files, root, es@)
        },
        FilePathsParam::Invalid => (all_files(files.len()), seq!["Invalid filePaths parameter; indexing all files"@]),
    }
}

proof fn lemma_selection_bounds(files: Seq<SourceFile>, root: Seq<char>, es: Seq<Option<String>>)
    requires
        files.len() <= usize::MAX,
    ensures
        forall|k: int| 0 <= k < selection(files, root, es).0.len() ==> (#[trigger] selection(files, root, es).0[k]) < files.len(),
    decreases es.len(),
{
    if es.len() > 0 {
        lemma_selection_bounds(files, root, es.drop_last());
        let prev = selection(files, root, es.drop_last());
        let cur = selection(files, root, es);
        match entry_outcome(files, root, entry_view(es.last())) {
            Ok(i) => {
                match entry_view(es.last()) {
                    Some(s) => crate::daemon::lemma_file_index_bounds_pub(files, validate_spec(s, root)->Ok_0),
                    None => {},
                }
                assert(0 <= i < files.len());
                assert(cur.0 == prev.0.push(i as usize));
                assert forall|k: int| 0 <= k < cur.0.len() implies (#[trigger] cur.0[k]) < files.len() by {
                    if k < prev.0.len() {
                        assert(cur.0[k] == prev.0[k]);
                    } else {
                        assert(cur.0[k] == i as usize);
                    }
                }
            },
            Err(_) => {
                assert(cur.0 == prev.0);
            },
        }
    }
}

fn all_file_ids(n: usize) -> (r: Vec<usize>)
    ensures
        r@ == all_files(n as nat),
{
    let mut r: Vec<usize> = Vec::new();
    let mut i: usize = 0;
    while i < n
        invariant
            i <= n,
            r@ == all_files(i as nat),
        decreases n - i,
    {
        r.push(i);
        i = i + 1;
        assert(r@ =~= all_files(i as nat));
    }
    r
}

/// The files that `hir/index` indexes and the warnings it reports.
pub fn select_index_files(project: &ProjectState, param: &FilePathsParam) -> (r: (Vec<usize>, Vec<String>))
    ensures
        r.0@ == select_spec(project.files@, project.root@, *param).0,
        strings_v(r.1@) == select_spec(project.files@, project.root@, *param).1,
        forall|k: int| 0 <= k < r.0@.len() ==> r.0@[k] < project.files@.len(),
{
    let n = project.files.len();
    match param {
        FilePathsParam::Absent => {
            let v: Vec<String> = Vec::new();
            assert(strings_v(v@) =~= Seq::<Seq<char>>::empty());
            (all_file_ids(n), v)
        },
        FilePathsParam::Invalid => {
            let mut v: Vec<String> = Vec::new();
            v.push(String::from_str("Invalid filePaths parameter; indexing all files"));
            assert(strings_v(v@) =~= seq!["Invalid filePaths parameter; indexing all files"@]);
            (all_file_ids(n), v)
        },
        FilePathsParam::Entries(es) => {
            if es.len() == 0 {
                let v: Vec<String> = Vec::new();
                assert(strings_v(v@) =~= Seq::<Seq<char>>::empty());
                return (all_file_ids(n), v);
            }
            let mut ids: Vec<usize> = Vec::new();
            let mut ws: Vec<String> = Vec::new();
            let mut k: usize = 0;
            assert(es@.take(0) =~= Seq::<Option<String>>::empty());
            assert(strings_v(ws@) =~= Seq::<Seq<char>>::empty());
            while k < es.len()
                invariant
                    k <= es@.len(),
                    ids@ == selection(project.files@, project.root@, es@.take(k as int)).0,
                    strings_v(ws@) == selection(project.files@, project.root@, es@.take(k as int)).1,
                decreases es@.len() - k,
            {
                assert(es@.take(k + 1).drop_last() =~= es@.take(k as int));
                assert(es@.take(k + 1).last() == es@[k as int]);
                let ghost wprev = strings_v(ws@);
                match &es[k] {
                    None => {
                        ws.push(String::from_str("Non-string entry in filePaths array"));
                        assert(strings_v(ws@) =~= wprev.push("Non-string entry in filePaths array"@));
                    },
                    Some(s) => {
                        match validate_path(s.as_str(), project.root.as_str()) {
                            Ok(path) => {
                                match find_file(&project.files, path.as_str()) {
                                    Some(i) => {
                                        proof {
                                            let j = file_index_for(project.files@, path@)->Some_0;
                                            assert(project.files@.len() == project.files.len());
                                            assert(i as int == j);
                                        }
                                        ids.push(i);
                                    },
                                    None => {
                                        let w = crate::text::concat2("File not found in project: ", s.as_str());
                                        ws.push(w);
                                        assert(strings_v(ws@) =~= wprev.push(w@));
                                    },
                                }
                            },
                            Err(e) => {
                                let mut w = String::from_str("Invalid path '");
                                append_str(&mut w, s.as_str());
                                append_str(&mut w, "': ");
                                append_str(&mut w, e.message.as_str());
                                ws.push(w);
                                assert(strings_v(ws@) =~= wprev.push(w@));
                            },
                        }
                    },
                }
                k = k + 1;
            }
            assert(es@.take(es@.len() as int) =~= es@);
            proof {
                assert(project.files@.len() == project.files.len());
                lemma_selection_bounds(project.files@, project.root@, es@);
            }
            (ids, ws)
        },
    }
}

/// The answer of `hir/index`.
pub struct IndexOut {
    pub files: Vec<FileIndex>,
    pub diagnostics: Vec<DiagnosticOut>,
    pub warnings: Vec<String>,
    pub total_files: usize,
    pub indexed_files: usize,
}

/// Among the selected files, those with a display path are indexed.
pub open spec fn indexed_ids(files: Seq<SourceFile>, ids: Seq<usize>) -> Seq<usize> {
    ids.filter(|i: usize| files[i as int].path is Some)
}

/// `hir/index`: the entities and relationships of the selected files (see
/// `select_index_files`), file by file, their diagnostics, the warnings and
/// the counts of selected and indexed files.
pub fn handle_index(state: &DaemonState, param: &FilePathsParam, edges: &Vec<CallEdge>) -> (r: Result<IndexOut, RpcError>)
    requires
        state.project_state matches Some(p) ==> forall|k: int| 0 <= k < edges@.len() ==> (#[trigger] edges@[k]).callee_file < p.files@.len(),
    ensures
        state.project_state is None ==> (r matches Err(e) && e.code == crate::protocol::NOT_INITIALIZED && e.message@ == "Project not initialized"@),
        state.project_state matches Some(p) ==> (r matches Ok(out) && {
            let sel = select_spec(p.files@, p.root@, *param);
            let done = indexed_ids(p.files@, sel.0);
            &&& strings_v(out.warnings@) == sel.1
            &&& out.total_files == sel.0.len()
            &&& out.indexed_files == done.len()
            &&& out.files@.len() == done.len()
            &&& forall|k: int| 0 <= k < done.len() ==> file_index_renders(#[trigger] out.files@[k], p.files@, done[k] as int, edges@, p.files@[done[k] as int].path->Some_0@)
            &&& exists|parts: Seq<Seq<DiagnosticOut>>| #![trigger crate::project::concatenates(out.diagnostics@, parts)] {
                &&& parts.len() == done.len()
                &&& crate::project::concatenates(out.diagnostics@, parts)
                &&& forall|k: int| 0 <= k < done.len() ==> crate::project::file_diagnostics_render(#[trigger] parts[k], p.files@[done[k] as int])
            }
        }),
{
    let project = match &state.project_state {
        Some(p) => p,
        None => return Err(RpcError::new(crate::protocol::NOT_INITIALIZED, "Project not initialized")),
    };
    let (ids, warnings) = select_index_files(project, param);
    let ghost pred = |i: usize| project.files@[i as int].path is Some;
    let mut files_out: Vec<FileIndex> = Vec::new();
    let mut diagnostics: Vec<DiagnosticOut> = Vec::new();
    let ghost mut parts: Seq<Seq<DiagnosticOut>> = Seq::empty();
    let mut indexed: usize = 0;
    let mut k: usize = 0;
    assert(ids@.take(0) =~= Seq::<usize>::empty());
    while k < ids.len()
        invariant
            k <= ids@.len(),
            forall|m: int| 0 <= m < ids@.len() ==> ids@[m] < project.files@.len(),
            forall|m: int| 0 <= m < edges@.len() ==> (#[trigger] edges@[m]).callee_file < project.files@.len(),
            pred == (|i: usize| project.files@[i as int].path is Some),
            files_out@.len() == ids@.take(k as int).filter(pred).len(),
            indexed == files_out@.len(),
            parts.len() == files_out@.len(),
            crate::project::concatenates(diagnostics@, parts),
            forall|m: int| 0 <= m < files_out@.len() ==> file_index_renders(#[trigger] files_out@[m], project.files@, ids@.take(k as int).filter(pred)[m] as int, edges@, project.files@[ids@.take(k as int).filter(pred)[m] as int].path->Some_0@),
            forall|m: int| 0 <= m < files_out@.len() ==> crate::project::file_diagnostics_render(#[trigger] parts[m], project.files@[ids@.take(k as int).filter(pred)[m] as int]),
        decreases ids@.len() - k,
    {
        reveal_with_fuel(Seq::filter, 1);
        let fi = ids[k];
        assert(ids@.take(k + 1).drop_last() =~= ids@.take(k as int));
        assert(ids@.take(k + 1).last() == fi);
        let ghost prev_sel = ids@.take(k as int).filter(pred);
        match index_file(&project.files, fi, edges) {
            Some(x) => {
                let f = &project.files[fi];
                let part = match crate::project::collect_file_diagnostics(f) {
                    Ok(v) => v,
                    Err(e) => return Err(e),
                };
                let ghost pv = part@;
                let ghost before = diagnostics@;
                let mut part = part;
                diagnostics.append(&mut part);
                proof {
                    assert(parts.push(pv).drop_last() =~= parts);
                    parts = parts.push(pv);
                    assert(diagnostics@ =~= before + pv);
                }
                files_out.push(x);
                indexed = indexed + 1;
                assert(ids@.take(k + 1).filter(pred) == prev_sel.push(fi));
            },
            None => {
                assert(ids@.take(k + 1).filter(pred) == prev_sel);
            },
        }
        k = k + 1;
    }
    assert(ids@.take(ids@.len() as int) =~= ids@);
    let total = ids.len();
    let out = IndexOut { files: files_out, diagnostics, warnings, total_files: total, indexed_files: indexed };
    assert(crate::project::concatenates(out.diagnostics@, parts));
    let r: Result<IndexOut, RpcError> = Ok(out);
    r
}

/// `r` is a CONTAINS edge of the index of file `path` (text `content`,
/// table `table`) going from the declared POU named `pn` to the POU `c`
/// declared in it.
pub open spec fn contains_edge_from_parent(r: RelV, path: Seq<char>, content: Seq<char>, table: SymbolTable, c: Symbol) -> bool {
    c.parent matches Some(pid) && declared_name(table.symbols@, pid) matches Some(pn) && {
        &&& r.0 == "st:rel:"@ + path + ":"@ + pn + ":"@ + c.name@ + ":CONTAINS:"@ + decimal(line_of(content, c) as nat)
        &&& r.1 == "st:"@ + path + ":"@ + pn
        &&& r.2 == "st:"@ + path + ":"@ + c.name@
        &&& r.4 == line_of(content, c)
    }
}

proof fn lemma_contains_of_symbol(path: Seq<char>, content: Seq<char>, table: SymbolTable, c: Symbol, r: RelV)
    requires
        rels_of(path, content, table, c).contains(r),
        r.3 == "CONTAINS"@,
    ensures
        contains_edge_from_parent(r, path, content, table, c),
{
    reveal_strlit("CONTAINS");
    reveal_strlit("EXTENDS");
    reveal_strlit("IMPLEMENTS");
    reveal_strlit(":CONTAINS:");
    reveal_strlit(":");
    let all = rels_of(path, content, table, c);
    let k = choose|k: int| 0 <= k < all.len() && all[k] == r;
    let from = node_id(path, c.name@);
    let line = line_of(content, c);
    let ext = match extends_of(table.extends@, c.id) {
        Some(e) => seq![(rel_id(path, c.name@, e, "EXTENDS"@, line), from, node_id(path, e), "EXTENDS"@, line)],
        None => Seq::<RelV>::empty(),
    };
    let imp = match implements_index(table.implements@, c.id) {
        Some(m) => {
            let names = table.implements@[m].interfaces@;
            Seq::new(names.len(), |j: int| (rel_id(path, c.name@, names[j]@, "IMPLEMENTS"@, line), from, node_id(path, names[j]@), "IMPLEMENTS"@, line))
        },
        None => Seq::<RelV>::empty(),
    };
    assert(all == ext + imp + match c.parent {
        Some(pid) => match declared_name(table.symbols@, pid) {
            Some(pn) => seq![(rel_id(path, pn, c.name@, "CONTAINS"@, line), node_id(path, pn), from, "CONTAINS"@, line)],
            None => Seq::<RelV>::empty(),
        },
        None => Seq::<RelV>::empty(),
    });
    assert("EXTENDS"@.len() != "CONTAINS"@.len());
    assert("IMPLEMENTS"@.len() != "CONTAINS"@.len());
    if k < ext.len() {
        assert(all[k] == ext[k]);
        assert(false);
    } else if k < ext.len() + imp.len() {
        assert(all[k] == imp[k - ext.len()]);
        assert(false);
    }
    let pid = c.parent->0;
    let pn = declared_name(table.symbols@, pid)->0;
    assert(r == all[k]);
    assert(r.0 == "st:rel:"@ + path + ":"@ + pn + ":"@ + c.name@ + ":"@ + "CONTAINS"@ + ":"@ + decimal(line as nat));
    assert(":"@ + "CONTAINS"@ + ":"@ =~= ":CONTAINS:"@);
    assert("st:rel:"@ + path + ":"@ + pn + ":"@ + c.name@ + ":"@ + "CONTAINS"@ + ":"@ + decimal(line as nat)
        =~= "st:rel:"@ + path + ":"@ + pn + ":"@ + c.name@ + ":CONTAINS:"@ + decimal(line as nat));
}

/// Every CONTAINS edge that the index of a file lists for its declarations
/// goes from the containing POU to the POU declared in it: from
/// `st:<path>:<parent>` to `st:<path>:<child>`, with the id
/// `st:rel:<path>:<parent>:<child>:CONTAINS:<line>` and the child's line.
pub proof fn law_contains_goes_from_parent_to_child(
    path: Seq<char>,
    content: Seq<char>,
    table: SymbolTable,
    syms: Seq<Symbol>,
    r: RelV,
)
    requires
        rels_spec(path, content, table, syms).contains(r),
        r.3 == "CONTAINS"@,
    ensures
        exists|k: int| 0 <= k < syms.len() && contains_edge_from_parent(r, path, content, table, #[trigger] syms[k]),
    decreases syms.len(),
{
    let prev = rels_spec(path, content, table, syms.drop_last());
    let last = rels_of(path, content, table, syms.last());
    assert(rels_spec(path, content, table, syms) == prev + last);
    let k = choose|k: int| 0 <= k < (prev + last).len() && (prev + last)[k] == r;
    if k < prev.len() {
        assert(prev[k] == r);
        law_contains_goes_from_parent_to_child(path, content, table, syms.drop_last(), r);
        let j = choose|j: int| 0 <= j < syms.drop_last().len() && contains_edge_from_parent(r, path, content, table, #[trigger] syms.drop_last()[j]);
        assert(syms.drop_last()[j] == syms[j]);
    } else {
        assert(last[k - prev.len()] == r);
        lemma_contains_of_symbol(path, content, table, syms.last(), r);
        assert(syms[syms.len() - 1] == syms.last());
    }
}

/// The EXTENDS and IMPLEMENTS edges of a POU go from that POU to its base
/// and to the interfaces it implements: from `st:<path>:<pou>` to
/// `st:<path>:<base>` (resp. `st:<path>:<interface>`), with the id
/// `st:rel:<path>:<pou>:<other>:<KIND>:<line>`; every edge of a POU is of
/// one of the kinds EXTENDS, IMPLEMENTS and CONTAINS.
pub proof fn law_pou_edges_start_at_the_pou(path: Seq<char>, content: Seq<char>, table: SymbolTable, c: Symbol, r: RelV)
    requires
        rels_of(path, content, table, c).contains(r),
    ensures
        r.3 == "EXTENDS"@ || r.3 == "IMPLEMENTS"@ || r.3 == "CONTAINS"@,
        r.3 == "EXTENDS"@ ==> (extends_of(table.extends@, c.id) matches Some(e) && r.1 == "st:"@ + path + ":"@ + c.name@ && r.2
            == "st:"@ + path + ":"@ + e && r.0 == "st:rel:"@ + path + ":"@ + c.name@ + ":"@ + e + ":EXTENDS:"@ + decimal(
            line_of(content, c) as nat,
        )),
        r.3 == "IMPLEMENTS"@ ==> (implements_index(table.implements@, c.id) matches Some(m) && r.1 == "st:"@ + path + ":"@ + c.name@
            && exists|j: int|
            0 <= j < table.implements@[m].interfaces@.len() && r.2 == "st:"@ + path + ":"@ + (#[trigger] table.implements@[m].interfaces@[j])@
                && r.0 == "st:rel:"@ + path + ":"@ + c.name@ + ":"@ + table.implements@[m].interfaces@[j]@ + ":IMPLEMENTS:"@
                + decimal(line_of(content, c) as nat)),
{
    reveal_strlit("CONTAINS");
    reveal_strlit("EXTENDS");
    reveal_strlit("IMPLEMENTS");
    reveal_strlit(":EXTENDS:");
    reveal_strlit(":IMPLEMENTS:");
    reveal_strlit(":");
    let all = rels_of(path, content, table, c);
    let k = choose|k: int| 0 <= k < all.len() && all[k] == r;
    let from = node_id(path, c.name@);
    let line = line_of(content, c);
    let ext = match extends_of(table.extends@, c.id) {
        Some(e) => seq![(rel_id(path, c.name@, e, "EXTENDS"@, line), from, node_id(path, e), "EXTENDS"@, line)],
        None => Seq::<RelV>::empty(),
    };
    let imp = match implements_index(table.implements@, c.id) {
        Some(m) => {
            let names = table.implements@[m].interfaces@;
            Seq::new(names.len(), |j: int| (rel_id(path, c.name@, names[j]@, "IMPLEMENTS"@, line), from, node_id(path, names[j]@), "IMPLEMENTS"@, line))
        },
        None => Seq::<RelV>::empty(),
    };
    let con = match c.parent {
        Some(pid) => match declared_name(table.symbols@, pid) {
            Some(pn) => seq![(rel_id(path, pn, c.name@, "CONTAINS"@, line), node_id(path, pn), from, "CONTAINS"@, line)],
            None => Seq::<RelV>::empty(),
        },
        None => Seq::<RelV>::empty(),
    };
    assert(all == ext + imp + con);
    assert("EXTENDS"@.len() != "CONTAINS"@.len());
    assert("IMPLEMENTS"@.len() != "CONTAINS"@.len());
    assert("IMPLEMENTS"@.len() != "EXTENDS"@.len());
    if k < ext.len() {
        assert(r == ext[k]);
        let e = extends_of(table.extends@, c.id)->0;
        assert(":"@ + "EXTENDS"@ + ":"@ =~= ":EXTENDS:"@);
        assert(r.0 =~= "st:rel:"@ + path + ":"@ + c.name@ + ":"@ + e + ":EXTENDS:"@ + decimal(line as nat));
    } else if k < ext.len() + imp.len() {
        let m = implements_index(table.implements@, c.id)->0;
        let names = table.implements@[m].interfaces@;
        let j = k - ext.len();
        assert(r == imp[j]);
        assert(":"@ + "IMPLEMENTS"@ + ":"@ =~= ":IMPLEMENTS:"@);
        assert(r.0 =~= "st:rel:"@ + path + ":"@ + c.name@ + ":"@ + names[j]@ + ":IMPLEMENTS:"@ + decimal(line as nat));
        assert(r.2 == "st:"@ + path + ":"@ + (names[j])@);
    } else {
        assert(r == con[k - ext.len() - imp.len()]);
    }
}

/// A CALLS edge goes from the calling POU to the called one: from
/// `st:<path>:<caller>`, the declared name of the edge's caller in this
/// file, to `st:<path>:<callee>`, with the id
/// `st:rel:<path>:<caller>:<callee>:CALLS:<line>` and the call's line.
pub proof fn law_calls_go_from_caller_to_callee(path: Seq<char>, files: Seq<SourceFile>, fi: int, e: CallEdge, r: RelV)
    requires
        call_rel(path, files, fi, e).contains(r),
    ensures
        r.3 == "CALLS"@,
        r.4 == e.line,
        e.caller_file == fi,
        declared_name(files[fi].table.symbols@, e.caller_symbol) matches Some(caller) && r.1 == "st:"@ + path + ":"@ + caller
            && exists|callee: Seq<char>|
            r.2 == "st:"@ + path + ":"@ + callee && r.0 == "st:rel:"@ + path + ":"@ + caller + ":"@ + callee + ":CALLS:"@ + decimal(
                e.line as nat,
            ),
{
    reveal_strlit(":CALLS:");
    reveal_strlit("CALLS");
    reveal_strlit(":");
    let t = files[fi].table.symbols@;
    let caller = or_empty(declared_name(t, e.caller_symbol));
    let callee = if e.callee_file == fi {
        or_empty(declared_name(t, e.callee_symbol))
    } else {
        any_name(files[e.callee_file as int].table.symbols@, e.callee_symbol)
    };
    let all = call_rel(path, files, fi, e);
    assert(all.len() == 1);
    assert(r == all[0]);
    assert(declared_name(t, e.caller_symbol) is Some);
    assert(":"@ + "CALLS"@ + ":"@ =~= ":CALLS:"@);
    assert(r.0 =~= "st:rel:"@ + path + ":"@ + caller + ":"@ + callee + ":CALLS:"@ + decimal(e.line as nat));
    assert(r.2 == "st:"@ + path + ":"@ + callee);
}

} // verus!
