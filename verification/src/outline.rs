//! The LSP document outline: a file's declarations as a tree, each with a
//! short detail line, and enumeration values under enum-typed variables.

use vstd::prelude::*;
use crate::kinds::{is_outline_kind, qualifier_name, var_qualifier_to_string};
use crate::ordering::{
    lemma_source_order_exists, pos_lt, declared_in_source_order, filter_indices, in_source_order, is_declared, lemma_filter_contains_iff, lemma_filter_ext,
    lemma_filter_in_order, lemma_is_source_order, source_order,
};
use crate::symbols::{
    range_empty, type_index, type_name_of, ParamDirection, Symbol, SymbolKind, SymbolTable, TypeShape, VarQualifier,
};
use crate::text::append_str;

verus! {

/// The keyword of a variable section (same as `VarQualifier` names).
pub fn qualifier_label(q: VarQualifier) -> (r: &'static str)
    ensures
        r@ == qualifier_name(q),
{
    var_qualifier_to_string(q)
}

/// The keyword of a parameter direction.
pub open spec fn direction_name(d: ParamDirection) -> Seq<char> {
    match d {
        ParamDirection::In => "VAR_INPUT"@,
        ParamDirection::Out => "VAR_OUTPUT"@,
        ParamDirection::InOut => "VAR_IN_OUT"@,
    }
}

pub open spec fn opt_str(o: Option<String>) -> Option<Seq<char>> {
    match o {
        Some(s) => Some(s@),
        None => None,
    }
}

/// `qual`, then the persistence and edge keywords when present, separated
/// by single spaces.
pub open spec fn detail_prefix(qual: Seq<char>, pers: Option<Seq<char>>, edge: Option<Seq<char>>) -> Seq<char> {
    qual + match pers {
        Some(p) => " "@ + p,
        None => Seq::empty(),
    } + match edge {
        Some(e) => " "@ + e,
        None => Seq::empty(),
    }
}

/// The display name of a type id, empty when it has none.
pub open spec fn type_text(table: SymbolTable, id: u32) -> Seq<char> {
    match type_name_of(table.type_names@, id) {
        Some(n) => n,
        None => Seq::empty(),
    }
}

/// `: <type>` when the type has a name, nothing otherwise.
pub open spec fn typed_suffix_detail(tn: Seq<char>) -> Option<Seq<char>> {
    if tn.len() == 0 {
        None
    } else {
        Some(": "@ + tn)
    }
}

/// A declaration line: the prefix, then ` : <type>` when the type has a
/// name.
pub open spec fn declaration_detail(prefix: Seq<char>, tn: Seq<char>) -> Option<Seq<char>> {
    if tn.len() == 0 {
        if prefix.len() == 0 {
            None
        } else {
            Some(prefix)
        }
    } else {
        Some(prefix + " : "@ + tn)
    }
}

/// The outline detail of a symbol.
pub open spec fn detail_spec(table: SymbolTable, s: Symbol) -> Option<Seq<char>> {
    match s.kind {
        SymbolKind::Variable { qualifier } => declaration_detail(
            detail_prefix(qualifier_name(qualifier), opt_str(s.persistence), opt_str(s.edge)),
            type_text(table, s.type_id),
        ),
        SymbolKind::Parameter { direction } => declaration_detail(
            detail_prefix(direction_name(direction), opt_str(s.persistence), opt_str(s.edge)),
            type_text(table, s.type_id),
        ),
        SymbolKind::Field { field_type } => typed_suffix_detail(type_text(table, field_type)),
        SymbolKind::Action => Some("ACTION"@),
        SymbolKind::Function | SymbolKind::Method | SymbolKind::Property => typed_suffix_detail(type_text(table, s.type_id)),
        _ => None,
    }
}

fn type_text_exec(table: &SymbolTable, id: u32) -> (r: String)
    ensures
        r@ == type_text(*table, id),
{
    match table.name_of_type(id) {
        Some(n) => n,
        None => String::new(),
    }
}

fn prefix_exec(qual: &str, pers: &Option<String>, edge: &Option<String>) -> (r: String)
    ensures
        r@ == detail_prefix(qual@, opt_str(*pers), opt_str(*edge)),
{
    let mut s = String::from_str(qual);
    match pers {
        Some(p) => {
            append_str(&mut s, " ");
            append_str(&mut s, p.as_str());
        },
        None => {},
    }
    let ghost mid = s@;
    match edge {
        Some(e) => {
            append_str(&mut s, " ");
            append_str(&mut s, e.as_str());
        },
        None => {},
    }
    assert(s@ =~= detail_prefix(qual@, opt_str(*pers), opt_str(*edge)));
    s
}

fn declaration_detail_exec(prefix: String, tn: String) -> (r: Option<String>)
    ensures
        opt_str(r) == declaration_detail(prefix@, tn@),
{
    if tn.as_str().is_empty() {
        if prefix.as_str().is_empty() {
            None
        } else {
            Some(prefix)
        }
    } else {
        let mut s = prefix;
        append_str(&mut s, " : ");
        append_str(&mut s, tn.as_str());
        Some(s)
    }
}

fn typed_suffix_exec(tn: String) -> (r: Option<String>)
    ensures
        opt_str(r) == typed_suffix_detail(tn@),
{
    if tn.as_str().is_empty() {
        None
    } else {
        let mut s = String::from_str(": ");
        append_str(&mut s, tn.as_str());
        Some(s)
    }
}

/// The detail line shown next to a symbol in the outline.
pub fn symbol_detail_string(symbols: &SymbolTable, symbol: &Symbol) -> (r: Option<String>)
    ensures
        opt_str(r) == detail_spec(*symbols, *symbol),
{
    match symbol.kind {
        SymbolKind::Variable { qualifier } => {
            let tn = type_text_exec(symbols, symbol.type_id);
            let prefix = prefix_exec(qualifier_label(qualifier), &symbol.persistence, &symbol.edge);
            declaration_detail_exec(prefix, tn)
        },
        SymbolKind::Parameter { direction } => {
            let tn = type_text_exec(symbols, symbol.type_id);
            let qual = match direction {
                ParamDirection::In => "VAR_INPUT",
                ParamDirection::Out => "VAR_OUTPUT",
                ParamDirection::InOut => "VAR_IN_OUT",
            };
            let prefix = prefix_exec(qual, &symbol.persistence, &symbol.edge);
            declaration_detail_exec(prefix, tn)
        },
        SymbolKind::Field { field_type } => typed_suffix_exec(type_text_exec(symbols, field_type)),
        SymbolKind::Action => Some(String::from_str("ACTION")),
        SymbolKind::Function | SymbolKind::Method | SymbolKind::Property => typed_suffix_exec(type_text_exec(symbols, symbol.type_id)),
        _ => None,
    }
}

/// What an outline entry shows: a declaration of some kind, or a value of
/// an enumeration (which has no range of its own).
#[derive(PartialEq, Eq, Structural, Clone, Copy, Debug)]
pub enum OutlineKind {
    Symbol(SymbolKind),
    EnumMember,
}

/// An entry of the outline; `start..end` is the byte range of the
/// declaration (both 0 for enumeration values).
pub struct OutlineNode {
    pub name: String,
    pub detail: Option<String>,
    pub kind: OutlineKind,
    pub start: u32,
    pub end: u32,
    pub children: Option<Vec<OutlineNode>>,
}

/// Symbols of the outline: declared ones of an outline kind.
pub open spec fn outline_kept(t: Seq<Symbol>, x: usize) -> bool {
    is_declared(t, x) && is_outline_kind(t[x as int].kind)
}

/// Which symbols the outline shows.
pub open spec fn outline_pred(t: Seq<Symbol>) -> spec_fn(usize) -> bool {
    |x: usize| outline_kept(t, x)
}

/// The outline symbols in source order.
pub open spec fn outline_order(t: Seq<Symbol>) -> Seq<usize> {
    source_order(t, outline_pred(t))
}

/// The outline symbols whose parent is `p`, in source order.
pub open spec fn outline_children(t: Seq<Symbol>, p: Option<u32>) -> Seq<usize> {
    outline_order(t).filter(|x: usize| t[x as int].parent == p)
}

/// The values listed under a variable of an enumeration type (none for
/// other symbols, other types and empty enumerations).
pub open spec fn enum_children_spec(table: SymbolTable, s: Symbol) -> Option<Seq<Seq<char>>> {
    if s.kind matches SymbolKind::Variable { .. } {
        match type_index(table.types@, s.type_id) {
            Some(ti) => match table.types@[ti].ty.shape {
                TypeShape::Enum { values } => if values@.len() > 0 {
                    Some(values@.map_values(|v: String| v@))
                } else {
                    None
                },
                _ => None,
            },
            None => None,
        }
    } else {
        None
    }
}

/// `n` is an enumeration value entry named `v`.
pub open spec fn enum_member_renders(n: OutlineNode, v: Seq<char>) -> bool {
    n.name@ == v && n.detail is None && n.kind == OutlineKind::EnumMember && n.start == 0 && n.end == 0 && n.children is None
}

/// `n` renders symbol `i` of the table and its subtree, to `depth` levels.
pub open spec fn outline_renders(table: SymbolTable, n: OutlineNode, i: usize, depth: nat) -> bool
    decreases depth,
{
    let t = table.symbols@;
    let s = t[i as int];
    let kids = outline_children(t, Some(s.id));
    let en = enum_children_spec(table, s);
    let nk = if depth == 0 { 0 } else { kids.len() };
    &&& n.name@ == s.name@
    &&& opt_str(n.detail) == detail_spec(table, s)
    &&& n.kind == OutlineKind::Symbol(s.kind)
    &&& n.start == s.start
    &&& n.end == s.end
    &&& if kids.len() == 0 && en is None {
        n.children is None
    } else {
        n.children matches Some(cs) && {
            &&& cs@.len() == nk + match en { Some(vs) => vs.len(), None => 0 }
            &&& forall|k: int| 0 <= k < nk ==> outline_renders(table, #[trigger] cs@[k], kids[k], (depth - 1) as nat)
            &&& en matches Some(vs) ==> forall|j: int| nk <= j < cs@.len() ==> enum_member_renders(#[trigger] cs@[j], vs[j - nk])
        }
    }
}

/// The whole outline: one tree per top-level symbol, in source order.
pub open spec fn outline_forest(table: SymbolTable, r: Seq<OutlineNode>) -> bool {
    let roots = outline_children(table.symbols@, None);
    &&& r.len() == roots.len()
    &&& forall|k: int| 0 <= k < r.len() ==> outline_renders(table, #[trigger] r[k], roots[k], outline_order(table.symbols@).len())
}

fn outline_children_of(t: &Vec<Symbol>, order: &Vec<usize>, p: Option<u32>) -> (r: Vec<usize>)
    requires
        order@ == outline_order(t@),
        forall|k: int| 0 <= k < order@.len() ==> order@[k] < t@.len(),
    ensures
        r@ == outline_children(t@, p),
        forall|m: int| 0 <= m < r@.len() ==> r@[m] < t@.len(),
{
    let mut keep: Vec<bool> = Vec::new();
    let mut x: usize = 0;
    while x < t.len()
        invariant
            x <= t@.len(),
            keep@.len() == x,
            forall|y: int| 0 <= y < x ==> #[trigger] keep@[y] == (t@[y].parent == p),
        decreases t@.len() - x,
    {
        let same = match (t[x].parent, p) {
            (Some(a), Some(b)) => a == b,
            (None, None) => true,
            _ => false,
        };
        keep.push(same);
        x = x + 1;
    }
    let r = filter_indices(order, &keep);
    proof {
        let f = |y: usize| keep@[y as int];
        let g = |y: usize| t@[y as int].parent == p;
        assert forall|m: int| 0 <= m < order@.len() implies f(order@[m]) == g(order@[m]) by {
            assert(order@[m] < t@.len());
        }
        lemma_filter_ext(order@, f, g);
        lemma_filter_contains_iff(order@, f);
        assert forall|m: int| 0 <= m < r@.len() implies r@[m] < t@.len() by {
            assert(r@.contains(r@[m]));
            assert(order@.contains(r@[m]));
        }
    }
    r
}

/// Creates the enumeration value entries under an enum-typed variable.
pub fn enum_value_children(symbols: &SymbolTable, sym: &Symbol) -> (r: Option<Vec<OutlineNode>>)
    ensures
        match enum_children_spec(*symbols, *sym) {
            Some(vs) => r matches Some(cs) && cs@.len() == vs.len() && forall|j: int| 0 <= j < vs.len() ==> enum_member_renders(#[trigger] cs@[j], vs[j]),
            None => r is None,
        },
{
    if !matches!(sym.kind, SymbolKind::Variable { .. }) {
        return None;
    }
    let ty = match symbols.type_by_id(sym.type_id) {
        Some(t) => t,
        None => return None,
    };
    let values = match &ty.shape {
        TypeShape::Enum { values } => values,
        _ => return None,
    };
    let mut out: Vec<OutlineNode> = Vec::new();
    let mut j: usize = 0;
    while j < values.len()
        invariant
            j <= values@.len(),
            out@.len() == j,
            forall|m: int| 0 <= m < j ==> enum_member_renders(#[trigger] out@[m], values@[m]@),
        decreases values@.len() - j,
    {
        out.push(OutlineNode { name: values[j].clone(), detail: None, kind: OutlineKind::EnumMember, start: 0, end: 0, children: None });
        j = j + 1;
    }
    if out.len() == 0 {
        None
    } else {
        Some(out)
    }
}

fn build_outline_node(table: &SymbolTable, order: &Vec<usize>, i: usize, depth: usize) -> (n: OutlineNode)
    requires
        i < table.symbols@.len(),
        order@ == outline_order(table.symbols@),
        forall|k: int| 0 <= k < order@.len() ==> order@[k] < table.symbols@.len(),
    ensures
        outline_renders(*table, n, i, depth as nat),
    decreases depth,
{
    let t = &table.symbols;
    let s = &t[i];
    let kids = outline_children_of(t, order, Some(s.id));
    let ghost spec_kids = outline_children(t@, Some(s.id));
    let mut cs: Vec<OutlineNode> = Vec::new();
    if depth > 0 {
        let mut k: usize = 0;
        while k < kids.len()
            invariant
                kids@ == spec_kids,
                k <= kids@.len(),
                cs@.len() == k,
                depth > 0,
                order@ == outline_order(table.symbols@),
                forall|m: int| 0 <= m < order@.len() ==> order@[m] < table.symbols@.len(),
                forall|m: int| 0 <= m < kids@.len() ==> kids@[m] < table.symbols@.len(),
                forall|m: int| 0 <= m < k ==> outline_renders(*table, #[trigger] cs@[m], spec_kids[m], (depth - 1) as nat),
            decreases kids@.len() - k,
        {
            let c = build_outline_node(table, order, kids[k], depth - 1);
            cs.push(c);
            k = k + 1;
        }
    }
    let ghost nk = cs@.len();
    let has_kids = kids.len() > 0;
    let en = enum_value_children(table, s);
    let children = match en {
        Some(mut ev) => {
            let ghost before = cs@;
            let ghost evs = ev@;
            cs.append(&mut ev);
            assert(cs@ =~= before + evs);
            Some(cs)
        },
        None => if has_kids { Some(cs) } else { None },
    };
    OutlineNode {
        name: s.name.clone(),
        detail: symbol_detail_string(table, s),
        kind: OutlineKind::Symbol(s.kind),
        start: s.start,
        end: s.end,
        children,
    }
}

/// The outline of a file: its declarations as a tree (children under their
/// parent, in source order), with details and enumeration values.
pub fn document_symbol(table: &SymbolTable) -> (r: Vec<OutlineNode>)
    ensures
        outline_forest(*table, r@),
{
    let t = &table.symbols;
    let n = t.len();
    let declared = declared_in_source_order(t);
    let mut keep: Vec<bool> = Vec::new();
    let mut i: usize = 0;
    while i < n
        invariant
            n == t@.len(),
            i <= n,
            keep@.len() == i,
            forall|k: int| 0 <= k < i ==> #[trigger] keep@[k] == outline_kept(t@, k as usize),
        decreases n - i,
    {
        keep.push(crate::kinds::is_outline_symbol_kind(t[i].kind) && t[i].start < t[i].end);
        i = i + 1;
    }
    let order = filter_indices(&declared, &keep);
    proof {
        let f = |x: usize| keep@[x as int];
        let pred = outline_pred(t@);
        lemma_filter_in_order(t@, declared@, f);
        lemma_filter_contains_iff(declared@, f);
        assert forall|x: usize| order@.contains(x) <==> pred(x) by {
            if order@.contains(x) {
                assert(declared@.contains(x));
            }
            if pred(x) {
                assert(is_declared(t@, x));
                assert(declared@.contains(x));
            }
        }
        lemma_is_source_order(t@, pred, order@);
        assert forall|k: int| 0 <= k < order@.len() implies order@[k] < t@.len() by {
            assert(order@.contains(order@[k]));
        }
    }
    let roots = outline_children_of(t, &order, None);
    let mut out: Vec<OutlineNode> = Vec::new();
    let mut k: usize = 0;
    while k < roots.len()
        invariant
            roots@ == outline_children(t@, None),
            *t == table.symbols,
            k <= roots@.len(),
            out@.len() == k,
            order@ == outline_order(t@),
            forall|m: int| 0 <= m < order@.len() ==> order@[m] < t@.len(),
            forall|m: int| 0 <= m < roots@.len() ==> roots@[m] < t@.len(),
            forall|m: int| 0 <= m < k ==> outline_renders(*table, #[trigger] out@[m], roots@[m], order@.len() as nat),
        decreases roots@.len() - k,
    {
        let node = build_outline_node(table, &order, roots[k], order.len());
        out.push(node);
        k = k + 1;
    }
    out
}

/// The shape an outline is expected to have: the names of its entries in
/// order, and for the entries that give children, the expected children
/// (entries without expected children are not looked into).
pub struct ExpectedNode<'a> {
    pub name: &'a str,
    pub children: Option<Vec<ExpectedNode<'a>>>,
}

/// An outline has the expected shape: as many entries as expected, each
/// with the expected name and, where children are expected, children of the
/// expected shape.
pub open spec fn tree_matches<'a>(ns: Seq<OutlineNode>, es: Seq<ExpectedNode<'a>>) -> bool
    decreases es,
{
    &&& ns.len() == es.len()
    &&& forall|i: int|
        0 <= i < es.len() ==> {
            &&& (#[trigger] ns[i]).name@ == (#[trigger] es[i]).name@
            &&& match es[i].children {
                None => true,
                Some(ek) => match ns[i].children {
                    None => false,
                    Some(nk) => tree_matches(nk@, ek@),
                },
            }
        }
}

/// Whether an outline has the expected shape.
pub fn document_symbol_tree_matches(symbols: &Vec<OutlineNode>, expected: &Vec<ExpectedNode>) -> (r: bool)
    ensures
        r == tree_matches(symbols@, expected@),
    decreases expected@,
{
    if symbols.len() != expected.len() {
        return false;
    }
    let mut i: usize = 0;
    while i < expected.len()
        invariant
            i <= expected@.len(),
            symbols@.len() == expected@.len(),
            forall|k: int|
                0 <= k < i ==> {
                    &&& (#[trigger] symbols@[k]).name@ == (#[trigger] expected@[k]).name@
                    &&& match expected@[k].children {
                        None => true,
                        Some(ek) => match symbols@[k].children {
                            None => false,
                            Some(nk) => tree_matches(nk@, ek@),
                        },
                    }
                },
        decreases expected@.len() - i,
    {
        let sym = &symbols[i];
        let exp = &expected[i];
        if !crate::text::str_eq(sym.name.as_str(), exp.name) {
            return false;
        }
        match &exp.children {
            None => {},
            Some(ek) => match &sym.children {
                None => {
                    return false;
                },
                Some(nk) => {
                    assert(decreases_to!(expected@ => ek@));
                    if !document_symbol_tree_matches(nk, ek) {
                        return false;
                    }
                },
            },
        }
        i = i + 1;
    }
    true
}

proof fn lemma_outline_order(t: Seq<Symbol>)
    ensures
        in_source_order(t, outline_order(t)),
{
    assert forall|x: usize| #[trigger] outline_pred(t)(x) implies x < t.len() by {}
    lemma_source_order_exists(t, outline_pred(t));
}

proof fn lemma_outline_children_order(t: Seq<Symbol>, p: Option<u32>)
    ensures
        in_source_order(t, outline_children(t, p)),
{
    lemma_outline_order(t);
    lemma_filter_in_order(t, outline_order(t), |x: usize| t[x as int].parent == p);
}

/// The outline lists its top-level entries in source order: no entry
/// starts after a later one.
pub proof fn law_outline_roots_in_source_order(table: SymbolTable, r: Seq<OutlineNode>)
    requires
        outline_forest(table, r),
    ensures
        forall|i: int, j: int| 0 <= i < j < r.len() ==> (#[trigger] r[i]).start <= (#[trigger] r[j]).start,
{
    let t = table.symbols@;
    let roots = outline_children(t, None);
    lemma_outline_children_order(t, None);
    assert forall|i: int, j: int| 0 <= i < j < r.len() implies (#[trigger] r[i]).start <= (#[trigger] r[j]).start by {
        assert(outline_renders(table, r[i], roots[i], outline_order(t).len()));
        assert(outline_renders(table, r[j], roots[j], outline_order(t).len()));
        assert(pos_lt(t, roots[i], roots[j]));
    }
}

/// Under every entry, the children that are declarations come in source
/// order (enumeration values, which have no range, follow them).
pub proof fn law_outline_children_in_source_order(table: SymbolTable, n: OutlineNode, i: usize, depth: nat)
    requires
        outline_renders(table, n, i, depth),
        depth > 0,
    ensures
        n.children matches Some(cs) ==> forall|k: int, l: int|
            0 <= k < l < outline_children(table.symbols@, Some(table.symbols@[i as int].id)).len() ==> (#[trigger] cs@[k]).start
                <= (#[trigger] cs@[l]).start,
{
    let t = table.symbols@;
    let kids = outline_children(t, Some(t[i as int].id));
    lemma_outline_children_order(t, Some(t[i as int].id));
    if let Some(cs) = n.children {
        assert forall|k: int, l: int| 0 <= k < l < kids.len() implies (#[trigger] cs@[k]).start <= (#[trigger] cs@[l]).start by {
            assert(outline_renders(table, cs@[k], kids[k], (depth - 1) as nat));
            assert(outline_renders(table, cs@[l], kids[l], (depth - 1) as nat));
            assert(pos_lt(t, kids[k], kids[l]));
        }
    }
}

/// In the text `content` of the file, the outline's top-level entries
/// start line by line: no entry starts on a later line than an entry after
/// it.
pub proof fn law_outline_roots_by_line(table: SymbolTable, content: Seq<char>, r: Seq<OutlineNode>)
    requires
        outline_forest(table, r),
    ensures
        forall|i: int, j: int| 0 <= i < j < r.len() ==> crate::positions::position_of(content, (#[trigger] r[i]).start as int).line
            <= crate::positions::position_of(content, (#[trigger] r[j]).start as int).line,
{
    law_outline_roots_in_source_order(table, r);
    assert forall|i: int, j: int| 0 <= i < j < r.len() implies crate::positions::position_of(content, (#[trigger] r[i]).start as int).line
        <= crate::positions::position_of(content, (#[trigger] r[j]).start as int).line by {
        crate::positions::lemma_line_monotone(content, r[i].start as int, r[j].start as int);
    }
}

/// In the text `content` of the file, the children of every outline entry
/// start line by line, but for a declaration child followed by an
/// enumeration value: the values have no range of their own and are put on
/// the first line, after the declarations. So the children of an entry
/// that lists no enumeration values, or nothing but them, are sorted by
/// line.
pub proof fn law_outline_children_by_line(table: SymbolTable, content: Seq<char>, n: OutlineNode, i: usize, depth: nat)
    requires
        outline_renders(table, n, i, depth),
        depth > 0,
    ensures
        n.children matches Some(cs) ==> forall|k: int, l: int|
            0 <= k < l < cs@.len() && !(k < outline_children(table.symbols@, Some(table.symbols@[i as int].id)).len() <= l)
                ==> crate::positions::position_of(content, (#[trigger] cs@[k]).start as int).line
                <= crate::positions::position_of(content, (#[trigger] cs@[l]).start as int).line,
{
    law_outline_children_in_source_order(table, n, i, depth);
    let t = table.symbols@;
    let kids = outline_children(t, Some(t[i as int].id));
    let en = enum_children_spec(table, t[i as int]);
    if let Some(cs) = n.children {
        assert forall|k: int, l: int|
            0 <= k < l < cs@.len() && !(k < kids.len() <= l) implies crate::positions::position_of(content, (#[trigger] cs@[k]).start as int).line
            <= crate::positions::position_of(content, (#[trigger] cs@[l]).start as int).line by {
            if l < kids.len() {
                assert(cs@[k].start <= cs@[l].start);
                crate::positions::lemma_line_monotone(content, cs@[k].start as int, cs@[l].start as int);
            } else {
                let nk = if depth == 0 { 0 } else { kids.len() };
                assert(nk == kids.len());
                assert(cs@.len() == nk + match en { Some(vs) => vs.len() as int, None => 0 });
                assert(en is Some);
                let vs = en->0;
                assert(enum_member_renders(cs@[k], vs[k - nk]));
                assert(enum_member_renders(cs@[l], vs[l - nk]));
                assert(cs@[k].start == 0 && cs@[l].start == 0);
            }
        }
    }
}

/// The section keyword a parameter of direction `d` is declared under.
pub open spec fn section_of_direction(d: ParamDirection) -> VarQualifier {
    match d {
        ParamDirection::In => VarQualifier::Input,
        ParamDirection::Out => VarQualifier::Output,
        ParamDirection::InOut => VarQualifier::InOut,
    }
}

/// The outline detail of a parameter begins with the keyword of the section
/// it is declared in: `VAR_INPUT` for an input, `VAR_OUTPUT` for an output,
/// `VAR_IN_OUT` for an in-out parameter (three different keywords). It is
/// the detail that a variable of that section, with the same type,
/// persistence and edge keywords, shows.
pub proof fn law_parameter_detail_names_its_section(table: SymbolTable, p: Symbol, v: Symbol)
    requires
        p.kind matches SymbolKind::Parameter { .. },
    ensures
        detail_spec(table, p) matches Some(m) && {
            &&& p.kind == (SymbolKind::Parameter { direction: ParamDirection::In }) ==> m.len() >= 9 && m.take(9) == "VAR_INPUT"@
            &&& p.kind == (SymbolKind::Parameter { direction: ParamDirection::Out }) ==> m.len() >= 10 && m.take(10) == "VAR_OUTPUT"@
            &&& p.kind == (SymbolKind::Parameter { direction: ParamDirection::InOut }) ==> m.len() >= 10 && m.take(10) == "VAR_IN_OUT"@
        },
        (v.kind == SymbolKind::Variable { qualifier: section_of_direction(p.kind->direction) } && v.type_id == p.type_id
            && v.persistence == p.persistence && v.edge == p.edge) ==> detail_spec(table, v) == detail_spec(table, p),
{
    reveal_strlit("VAR_INPUT");
    reveal_strlit("VAR_OUTPUT");
    reveal_strlit("VAR_IN_OUT");
    let d = p.kind->direction;
    let kw = direction_name(d);
    let pre = detail_prefix(kw, opt_str(p.persistence), opt_str(p.edge));
    let tn = type_text(table, p.type_id);
    assert(pre.len() >= kw.len());
    assert(pre.take(kw.len() as int) =~= kw);
    if tn.len() != 0 {
        let m = pre + " : "@ + tn;
        assert(m.take(kw.len() as int) =~= kw);
    }
}

} // verus!
