//! The HMI binding catalog of a loaded project: the variables of each
//! program and the global variables, with their inferred presentation.

use vstd::prelude::*;
use crate::hmi::{
    enum_values_spec, extract_enum_values, hmi_named, included, infer_unit_and_range, is_hmi_export_symbol_by_name,
    is_writable_qualifier, opt_ty, qualifier_from_kind, should_include_variable, symbol_qualifier_name,
    type_display_name, type_name_for_symbol, unit_inference, widget_for_hir_type, widget_name, writable,
};
use crate::symbols::{range_empty, type_index, HirType, Symbol, SymbolKind, SymbolTable, VarQualifier};
use crate::index::strings_v;
use crate::text::{append_str, concat2, concat3, str_eq};

verus! {

/// The loaded project of the HMI generator: its root and the symbol table
/// of each source file, in load order.
pub struct ProjectLoader {
    pub root: String,
    pub tables: Vec<SymbolTable>,
}

/// A declared symbol together with the file (table) it comes from.
pub struct SymbolRef {
    pub name: String,
    pub id: u32,
    pub kind: SymbolKind,
    pub type_id: u32,
    pub parent: Option<u32>,
    pub file: usize,
}

/// A program and the variables declared in it.
pub struct ProgramRef {
    pub name: String,
    pub id: u32,
    pub variables: Vec<SymbolRef>,
}

pub type RefV = (Seq<char>, u32, SymbolKind, u32, Option<u32>, usize);

pub open spec fn ref_v(r: SymbolRef) -> RefV {
    (r.name@, r.id, r.kind, r.type_id, r.parent, r.file)
}

pub open spec fn refs_v(v: Seq<SymbolRef>) -> Seq<RefV> {
    v.map_values(|r: SymbolRef| ref_v(r))
}

/// The declared symbols of table `fi`, as references.
pub open spec fn table_refs(syms: Seq<Symbol>, fi: usize) -> Seq<RefV>
    decreases syms.len(),
{
    if syms.len() == 0 {
        Seq::empty()
    } else {
        let s = syms.last();
        table_refs(syms.drop_last(), fi) + if !range_empty(s) {
            seq![(s.name@, s.id, s.kind, s.type_id, s.parent, fi)]
        } else {
            Seq::empty()
        }
    }
}

/// The declared symbols of every table, table after table.
pub open spec fn all_refs(tables: Seq<SymbolTable>) -> Seq<RefV>
    decreases tables.len(),
{
    if tables.len() == 0 {
        Seq::empty()
    } else {
        all_refs(tables.drop_last()) + table_refs(tables.last().symbols@, (tables.len() - 1) as usize)
    }
}

pub open spec fn is_variable(k: SymbolKind) -> bool {
    k matches SymbolKind::Variable { .. }
}

/// Global variables: variables without a parent.
pub open spec fn globals_spec(tables: Seq<SymbolTable>) -> Seq<RefV> {
    all_refs(tables).filter(|r: RefV| is_variable(r.2) && r.4 is None)
}

/// The variables whose parent is `pid`.
pub open spec fn program_vars_spec(all: Seq<RefV>, pid: u32) -> Seq<RefV> {
    all.filter(|r: RefV| r.4 == Some(pid) && is_variable(r.2))
}

/// The programs, in order.
pub open spec fn programs_spec(all: Seq<RefV>) -> Seq<RefV> {
    all.filter(|r: RefV| r.2 == SymbolKind::Program)
}

/// The name of the first symbol with id `id`.
pub open spec fn first_name_with_id(all: Seq<RefV>, id: u32) -> Option<Seq<char>>
    decreases all.len(),
{
    if all.len() == 0 {
        None
    } else {
        match first_name_with_id(all.drop_last(), id) {
            Some(n) => Some(n),
            None => if all.last().1 == id { Some(all.last().0) } else { None },
        }
    }
}

proof fn lemma_first_name_step(all: Seq<RefV>, id: u32, i: int)
    requires
        0 <= i < all.len(),
        first_name_with_id(all.take(i), id) is None,
    ensures
        first_name_with_id(all.take(i + 1), id) == (if all[i].1 == id { Some(all[i].0) } else { None::<Seq<char>> }),
{
    assert(all.take(i + 1).drop_last() =~= all.take(i));
}

proof fn lemma_first_name_found(all: Seq<RefV>, id: u32, i: int)
    requires
        0 <= i <= all.len(),
        first_name_with_id(all.take(i), id) is Some,
    ensures
        first_name_with_id(all, id) == first_name_with_id(all.take(i), id),
    decreases all.len() - i,
{
    if i < all.len() {
        assert(all.take(i + 1).drop_last() =~= all.take(i));
        lemma_first_name_found(all, id, i + 1);
    } else {
        assert(all.take(i) =~= all);
    }
}

fn clone_ref(r: &SymbolRef) -> (c: SymbolRef)
    ensures
        ref_v(c) == ref_v(*r),
{
    SymbolRef { name: r.name.clone(), id: r.id, kind: r.kind, type_id: r.type_id, parent: r.parent, file: r.file }
}

/// Keeps the references that satisfy a test given as flags.
fn filter_refs(v: &Vec<SymbolRef>, keep: &Vec<bool>, Ghost(f): Ghost<spec_fn(RefV) -> bool>) -> (r: Vec<SymbolRef>)
    requires
        keep@.len() == v@.len(),
        forall|k: int| 0 <= k < v@.len() ==> #[trigger] keep@[k] == f(ref_v(v@[k])),
    ensures
        refs_v(r@) == refs_v(v@).filter(f),
{
    let mut out: Vec<SymbolRef> = Vec::new();
    let mut i: usize = 0;
    assert(refs_v(v@).take(0) =~= Seq::<RefV>::empty());
    assert(refs_v(out@) =~= Seq::<RefV>::empty());
    while i < v.len()
        invariant
            i <= v@.len(),
            keep@.len() == v@.len(),
            forall|k: int| 0 <= k < v@.len() ==> #[trigger] keep@[k] == f(ref_v(v@[k])),
            refs_v(out@) == refs_v(v@).take(i as int).filter(f),
        decreases v@.len() - i,
    {
        reveal_with_fuel(Seq::filter, 1);
        let ghost before = out@;
        assert(refs_v(v@).take(i + 1).drop_last() =~= refs_v(v@).take(i as int));
        assert(refs_v(v@).take(i + 1).last() == ref_v(v@[i as int]));
        if keep[i] {
            let c = clone_ref(&v[i]);
            out.push(c);
            assert(refs_v(out@) =~= refs_v(before).push(ref_v(c)));
        }
        i = i + 1;
    }
    assert(refs_v(v@).take(v@.len() as int) =~= refs_v(v@));
    out
}

impl ProjectLoader {
    /// A loaded project, or the error of a root without any source file.
    pub fn from_tables(root: String, tables: Vec<SymbolTable>) -> (r: Result<ProjectLoader, String>)
        ensures
            tables@.len() == 0 ==> (r matches Err(m) && m@ == "no ST source files found in '"@ + root@ + "'"@),
            tables@.len() > 0 ==> (r matches Ok(l) && l.root == root && l.tables@ == tables@),
    {
        if tables.len() == 0 {
            let mut m = String::from_str("no ST source files found in '");
            append_str(&mut m, root.as_str());
            append_str(&mut m, "'");
            return Err(m);
        }
        Ok(ProjectLoader { root, tables })
    }

    /// Access the project root path.
    pub fn project_root(&self) -> (r: &str)
        ensures
            r@ == self.root@,
    {
        self.root.as_str()
    }

    /// Collect all declared symbols across all files.
    pub fn all_symbols(&self) -> (r: Vec<SymbolRef>)
        ensures
            refs_v(r@) == all_refs(self.tables@),
    {
        let mut out: Vec<SymbolRef> = Vec::new();
        let mut f: usize = 0;
        assert(self.tables@.take(0) =~= Seq::<SymbolTable>::empty());
        assert(refs_v(out@) =~= Seq::<RefV>::empty());
        while f < self.tables.len()
            invariant
                f <= self.tables@.len(),
                refs_v(out@) == all_refs(self.tables@.take(f as int)),
            decreases self.tables@.len() - f,
        {
            let syms = &self.tables[f].symbols;
            let ghost base = refs_v(out@);
            let mut i: usize = 0;
            assert(syms@.take(0) =~= Seq::<Symbol>::empty());
            assert(base + Seq::<RefV>::empty() =~= base);
            while i < syms.len()
                invariant
                    i <= syms@.len(),
                    refs_v(out@) == base + table_refs(syms@.take(i as int), f),
                decreases syms@.len() - i,
            {
                let s = &syms[i];
                let ghost prev = out@;
                assert(syms@.take(i + 1).drop_last() =~= syms@.take(i as int));
                assert(syms@.take(i + 1).last() == *s);
                if s.start < s.end {
                    let r = SymbolRef { name: s.name.clone(), id: s.id, kind: s.kind, type_id: s.type_id, parent: s.parent, file: f };
                    out.push(r);
                    assert(refs_v(out@) =~= refs_v(prev).push(ref_v(r)));
                }
                assert(refs_v(out@) =~= base + table_refs(syms@.take(i + 1), f));
                i = i + 1;
            }
            assert(syms@.take(syms@.len() as int) =~= syms@);
            assert(self.tables@.take(f + 1).drop_last() =~= self.tables@.take(f as int));
            f = f + 1;
        }
        assert(self.tables@.take(self.tables@.len() as int) =~= self.tables@);
        out
    }

    /// Collect global variables (variables without a parent).
    pub fn global_variables(&self) -> (r: Vec<SymbolRef>)
        ensures
            refs_v(r@) == globals_spec(self.tables@),
    {
        let all = self.all_symbols();
        let mut keep: Vec<bool> = Vec::new();
        let mut i: usize = 0;
        let ghost f = |r: RefV| is_variable(r.2) && r.4 is None;
        while i < all.len()
            invariant
                i <= all@.len(),
                keep@.len() == i,
                f == (|r: RefV| is_variable(r.2) && r.4 is None),
                forall|k: int| 0 <= k < i ==> #[trigger] keep@[k] == f(ref_v(all@[k])),
            decreases all@.len() - i,
        {
            keep.push(matches!(all[i].kind, SymbolKind::Variable { .. }) && all[i].parent.is_none());
            i = i + 1;
        }
        filter_refs(&all, &keep, Ghost(f))
    }

    /// Collect the programs with the variables declared in them.
    pub fn programs_with_variables(&self) -> (r: Vec<ProgramRef>)
        ensures
            ({
                let all = all_refs(self.tables@);
                let progs = programs_spec(all);
                &&& r@.len() == progs.len()
                &&& forall|k: int| 0 <= k < r@.len() ==> {
                    &&& (#[trigger] r@[k]).id == progs[k].1
                    &&& first_name_with_id(all, progs[k].1) == Some(r@[k].name@)
                    &&& refs_v(r@[k].variables@) == program_vars_spec(all, progs[k].1)
                }
            }),
    {
        let all = self.all_symbols();
        let ghost allv = refs_v(all@);
        let mut pkeep: Vec<bool> = Vec::new();
        let mut i: usize = 0;
        let ghost pf = |r: RefV| r.2 == SymbolKind::Program;
        while i < all.len()
            invariant
                i <= all@.len(),
                pkeep@.len() == i,
                pf == (|r: RefV| r.2 == SymbolKind::Program),
                forall|k: int| 0 <= k < i ==> #[trigger] pkeep@[k] == pf(ref_v(all@[k])),
            decreases all@.len() - i,
        {
            pkeep.push(matches!(all[i].kind, SymbolKind::Program));
            i = i + 1;
        }
        let programs = filter_refs(&all, &pkeep, Ghost(pf));
        let mut out: Vec<ProgramRef> = Vec::new();
        let mut k: usize = 0;
        while k < programs.len()
            invariant
                k <= programs@.len(),
                allv == refs_v(all@),
                allv == all_refs(self.tables@),
                refs_v(programs@) == programs_spec(allv),
                out@.len() == k,
                forall|m: int| 0 <= m < k ==> {
                    &&& (#[trigger] out@[m]).id == programs_spec(allv)[m].1
                    &&& first_name_with_id(allv, programs_spec(allv)[m].1) == Some(out@[m].name@)
                    &&& refs_v(out@[m].variables@) == program_vars_spec(allv, programs_spec(allv)[m].1)
                },
            decreases programs@.len() - k,
        {
            let pid = programs[k].id;
            assert(refs_v(programs@)[k as int].1 == pid);
            proof {
                reveal_with_fuel(Seq::filter, 1);
                let pf2 = |r: RefV| r.2 == SymbolKind::Program;
                crate::ordering::lemma_filter_contains_iff(allv, pf2);
                assert(programs_spec(allv).contains(programs_spec(allv)[k as int]));
            }
            // the program's own symbol (the first with its id)
            let mut j: usize = 0;
            let mut name: Option<String> = None;
            assert(allv.take(0) =~= Seq::<RefV>::empty());
            while j < all.len()
                invariant_except_break
                    name is None,
                    first_name_with_id(allv.take(j as int), pid) is None,
                invariant
                    j <= all@.len(),
                    allv == refs_v(all@),
                ensures
                    name matches Some(n) ==> first_name_with_id(allv, pid) == Some(n@),
                    name is None ==> first_name_with_id(allv.take(all@.len() as int), pid) is None,
                decreases all@.len() - j,
            {
                proof {
                    lemma_first_name_step(allv, pid, j as int);
                }
                if all[j].id == pid {
                    proof {
                        lemma_first_name_found(allv, pid, j + 1);
                    }
                    name = Some(all[j].name.clone());
                    break;
                }
                j = j + 1;
            }
            proof {
                if name is None {
                    assert(allv.take(all@.len() as int) =~= allv);
                }
            }
            let pname = match name {
                Some(n) => n,
                None => {
                    // a program always finds its own symbol
                    proof {
                        lemma_first_name_some(allv, pid, programs_spec(allv)[k as int]);
                    }
                    String::new()
                },
            };
            let mut vkeep: Vec<bool> = Vec::new();
            let mut i: usize = 0;
            let ghost vf = |r: RefV| r.4 == Some(pid) && is_variable(r.2);
            while i < all.len()
                invariant
                    i <= all@.len(),
                    vkeep@.len() == i,
                    vf == (|r: RefV| r.4 == Some(pid) && is_variable(r.2)),
                    forall|m: int| 0 <= m < i ==> #[trigger] vkeep@[m] == vf(ref_v(all@[m])),
                decreases all@.len() - i,
            {
                let same = match all[i].parent {
                    Some(p) => p == pid,
                    None => false,
                };
                vkeep.push(same && matches!(all[i].kind, SymbolKind::Variable { .. }));
                i = i + 1;
            }
            let variables = filter_refs(&all, &vkeep, Ghost(vf));
            out.push(ProgramRef { name: pname, id: pid, variables });
            k = k + 1;
        }
        out
    }
}

/// A symbol of `all` with id `id` gives it a first name.
proof fn lemma_first_name_some(all: Seq<RefV>, id: u32, x: RefV)
    requires
        all.contains(x),
        x.1 == id,
    ensures
        first_name_with_id(all, id) is Some,
    decreases all.len(),
{
    let k = choose|k: int| 0 <= k < all.len() && all[k] == x;
    if k < all.len() - 1 {
        assert(all.drop_last()[k] == x);
        lemma_first_name_some(all.drop_last(), id, x);
    }
}

/// A single variable binding. The range bounds are whole numbers.
pub struct HmiBindingsVariable {
    pub name: String,
    pub path: String,
    pub data_type: String,
    pub qualifier: String,
    pub writable: bool,
    pub widget: String,
    pub inferred_interface: bool,
    pub unit: Option<String>,
    pub min: Option<i64>,
    pub max: Option<i64>,
    pub enum_values: Vec<String>,
}

/// A program's HMI binding entry.
pub struct HmiBindingsProgram {
    pub name: String,
    pub file: Option<String>,
    pub variables: Vec<HmiBindingsVariable>,
}

/// Generated HMI binding catalog.
pub struct HmiBindingsCatalog {
    pub programs: Vec<HmiBindingsProgram>,
    pub globals: Vec<HmiBindingsVariable>,
}

/// A validation issue found during HMI config checking.
pub struct HmiValidationIssue {
    pub code: String,
    pub message: String,
    pub path: Option<String>,
}

pub open spec fn kind_writable(k: SymbolKind) -> bool {
    match k {
        SymbolKind::Variable { qualifier } => writable(qualifier),
        _ => false,
    }
}

pub open spec fn kind_qualifier(k: SymbolKind) -> VarQualifier {
    match k {
        SymbolKind::Variable { qualifier } => qualifier,
        _ => VarQualifier::Local,
    }
}

/// The type a reference declares, looked up in its file's table.
pub open spec fn ref_type(tables: Seq<SymbolTable>, r: RefV) -> Option<HirType> {
    let t = tables[r.5 as int];
    match type_index(t.types@, r.3) {
        Some(i) => Some(t.types@[i].ty),
        None => None,
    }
}

/// `b` is the binding of reference `r` under `scope` (`Program.Var` or
/// `global.Var`).
pub open spec fn binding_renders(b: HmiBindingsVariable, r: RefV, tables: Seq<SymbolTable>, scope: Seq<char>) -> bool {
    let table = tables[r.5 as int];
    let tn = type_display_name(table, r.3);
    let w = kind_writable(r.2);
    &&& b.name@ == r.0
    &&& b.path@ == scope + "."@ + r.0
    &&& b.data_type@ == tn
    &&& b.qualifier@ == symbol_qualifier_name(r.2)
    &&& b.writable == w
    &&& b.widget@ == match ref_type(tables, r) {
        Some(t) => widget_name(t, w),
        None => "value"@,
    }
    &&& b.inferred_interface == !hmi_named(r.0)
    &&& match unit_inference(tn, r.0) {
        Some((u, lo, hi)) => b.unit matches Some(s) && s@ == u && b.min == Some(lo as i64) && b.max == Some(hi as i64),
        None => b.unit is None && b.min is None && b.max is None,
    }
    &&& b.enum_values@.map_values(|v: String| v@) == enum_values_spec(table, ref_type(tables, r), table.types@.len())
}

impl ProjectLoader {
    /// The binding of one variable reference under a scope name.
    pub fn make_variable_binding(&self, sym: &SymbolRef, scope: &str) -> (b: HmiBindingsVariable)
        requires
            sym.file < self.tables@.len(),
        ensures
            binding_renders(b, ref_v(*sym), self.tables@, scope@),
    {
        let table = &self.tables[sym.file];
        let type_text = type_name_for_symbol(table, sym.type_id);
        let qualifier = qualifier_from_kind(sym.kind);
        let w = match sym.kind {
            SymbolKind::Variable { qualifier } => is_writable_qualifier(qualifier),
            _ => false,
        };
        let ty = table.type_by_id(sym.type_id);
        let widget = match ty {
            Some(t) => widget_for_hir_type(t, w),
            None => "value",
        };
        let mut path = String::from_str(scope);
        append_str(&mut path, ".");
        append_str(&mut path, sym.name.as_str());
        let (unit, min, max) = infer_unit_and_range(type_text.as_str(), sym.name.as_str());
        let enum_values = extract_enum_values(ty, table);
        assert(opt_ty(ty) == ref_type(self.tables@, ref_v(*sym)));
        HmiBindingsVariable {
            name: sym.name.clone(),
            path,
            data_type: type_text,
            qualifier,
            writable: w,
            widget: String::from_str(widget),
            inferred_interface: !is_hmi_export_symbol_by_name(sym.name.as_str()),
            unit,
            min,
            max,
            enum_values,
        }
    }
}

/// The variables of a list of references that the HMI shows.
pub open spec fn shown(v: Seq<RefV>, scope: Seq<char>, cfg: Option<HmiConfig>) -> Seq<RefV> {
    v.filter(shown_pred(scope, cfg))
}

/// An HMI configuration: the binding paths it names (`Program.Var` or
/// `global.Var`) and the paths it excludes.
pub struct HmiConfig {
    pub bindings: Vec<String>,
    pub exclude: Vec<String>,
}

pub open spec fn cfg_v(cfg: Option<&HmiConfig>) -> Option<HmiConfig> {
    match cfg {
        Some(c) => Some(*c),
        None => None,
    }
}

/// What a configuration lets through: with bindings named, only those
/// paths; never an excluded path. Without a configuration, every path.
pub open spec fn config_allows(cfg: Option<HmiConfig>, path: Seq<char>) -> bool {
    match cfg {
        None => true,
        Some(c) => (c.bindings@.len() == 0 || strings_v(c.bindings@).contains(path)) && !strings_v(c.exclude@).contains(path),
    }
}

/// The binding path of a variable under a scope.
pub open spec fn binding_path(scope: Seq<char>, name: Seq<char>) -> Seq<char> {
    scope + "."@ + name
}

/// A variable is exported when the naming and section rules include it and
/// the configuration lets its path through.
pub open spec fn shown_pred(scope: Seq<char>, cfg: Option<HmiConfig>) -> spec_fn(RefV) -> bool {
    |r: RefV| included(r.0, kind_qualifier(r.2)) && config_allows(cfg, binding_path(scope, r.0))
}

fn contains_string(v: &Vec<String>, p: &str) -> (r: bool)
    ensures
        r == strings_v(v@).contains(p@),
{
    let mut i: usize = 0;
    while i < v.len()
        invariant
            i <= v@.len(),
            forall|k: int| 0 <= k < i ==> strings_v(v@)[k] != p@,
        decreases v@.len() - i,
    {
        if str_eq(v[i].as_str(), p) {
            assert(strings_v(v@)[i as int] == p@);
            return true;
        }
        i = i + 1;
    }
    false
}

fn config_allows_exec(cfg: Option<&HmiConfig>, path: &str) -> (r: bool)
    ensures
        r == config_allows(cfg_v(cfg), path@),
{
    match cfg {
        None => true,
        Some(c) => (c.bindings.len() == 0 || contains_string(&c.bindings, path)) && !contains_string(&c.exclude, path),
    }
}

/// `bs` are the bindings of the shown variables of `v`, in order.
pub open spec fn bindings_render(bs: Seq<HmiBindingsVariable>, v: Seq<RefV>, tables: Seq<SymbolTable>, scope: Seq<char>, cfg: Option<HmiConfig>) -> bool {
    let s = shown(v, scope, cfg);
    &&& bs.len() == s.len()
    &&& forall|k: int| 0 <= k < bs.len() ==> binding_renders(#[trigger] bs[k], s[k], tables, scope)
}

impl ProjectLoader {
    /// The bindings of the shown variables among `vars`.
    fn bindings_of(&self, vars: &Vec<SymbolRef>, scope: &str, cfg: Option<&HmiConfig>) -> (r: Vec<HmiBindingsVariable>)
        requires
            forall|k: int| 0 <= k < vars@.len() ==> (#[trigger] vars@[k]).file < self.tables@.len(),
        ensures
            bindings_render(r@, refs_v(vars@), self.tables@, scope@, cfg_v(cfg)),
    {
        let ghost f = shown_pred(scope@, cfg_v(cfg));
        let mut out: Vec<HmiBindingsVariable> = Vec::new();
        let mut i: usize = 0;
        assert(refs_v(vars@).take(0) =~= Seq::<RefV>::empty());
        while i < vars.len()
            invariant
                i <= vars@.len(),
                f == shown_pred(scope@, cfg_v(cfg)),
                forall|k: int| 0 <= k < vars@.len() ==> (#[trigger] vars@[k]).file < self.tables@.len(),
                out@.len() == refs_v(vars@).take(i as int).filter(f).len(),
                forall|k: int| 0 <= k < out@.len() ==> binding_renders(#[trigger] out@[k], refs_v(vars@).take(i as int).filter(f)[k], self.tables@, scope@),
            decreases vars@.len() - i,
        {
            reveal_with_fuel(Seq::filter, 1);
            let v = &vars[i];
            assert(refs_v(vars@).take(i + 1).drop_last() =~= refs_v(vars@).take(i as int));
            assert(refs_v(vars@).take(i + 1).last() == ref_v(*v));
            let q = match v.kind {
                SymbolKind::Variable { qualifier } => qualifier,
                _ => VarQualifier::Local,
            };
            let path = concat3(scope, ".", v.name.as_str());
            if should_include_variable(v.name.as_str(), q) && config_allows_exec(cfg, path.as_str()) {
                let b = self.make_variable_binding(v, scope);
                out.push(b);
            }
            i = i + 1;
        }
        assert(refs_v(vars@).take(vars@.len() as int) =~= refs_v(vars@));
        out
    }
}

proof fn lemma_refs_files(tables: Seq<SymbolTable>)
    ensures
        forall|k: int| 0 <= k < all_refs(tables).len() ==> (#[trigger] all_refs(tables)[k]).5 < tables.len(),
    decreases tables.len(),
{
    if tables.len() > 0 {
        lemma_refs_files(tables.drop_last());
        lemma_table_refs_file(tables.last().symbols@, (tables.len() - 1) as usize);
        let a = all_refs(tables.drop_last());
        let b = table_refs(tables.last().symbols@, (tables.len() - 1) as usize);
        assert forall|k: int| 0 <= k < all_refs(tables).len() implies (#[trigger] all_refs(tables)[k]).5 < tables.len() by {
            if k < a.len() {
                assert(all_refs(tables)[k] == a[k]);
            } else {
                assert(all_refs(tables)[k] == b[k - a.len()]);
            }
        }
    }
}

proof fn lemma_table_refs_file(syms: Seq<Symbol>, fi: usize)
    ensures
        forall|k: int| 0 <= k < table_refs(syms, fi).len() ==> (#[trigger] table_refs(syms, fi)[k]).5 == fi,
    decreases syms.len(),
{
    if syms.len() > 0 {
        lemma_table_refs_file(syms.drop_last(), fi);
        let a = table_refs(syms.drop_last(), fi);
        assert forall|k: int| 0 <= k < table_refs(syms, fi).len() implies (#[trigger] table_refs(syms, fi)[k]).5 == fi by {
            if k < a.len() {
                assert(table_refs(syms, fi)[k] == a[k]);
            }
        }
    }
}

proof fn lemma_filter_files(all: Seq<RefV>, f: spec_fn(RefV) -> bool, n: nat)
    requires
        forall|k: int| 0 <= k < all.len() ==> (#[trigger] all[k]).5 < n,
    ensures
        forall|k: int| 0 <= k < all.filter(f).len() ==> (#[trigger] all.filter(f)[k]).5 < n,
{
    crate::ordering::lemma_filter_contains_iff(all, f);
    assert forall|k: int| 0 <= k < all.filter(f).len() implies (#[trigger] all.filter(f)[k]).5 < n by {
        assert(all.filter(f).contains(all.filter(f)[k]));
        let m = choose|m: int| 0 <= m < all.len() && all[m] == all.filter(f)[k];
    }
}

/// The catalog entries: the programs (in order) that have exported
/// variables, with their bindings; and the bindings of the exported global
/// variables (under the scope `global`).
pub open spec fn catalog_renders(c: HmiBindingsCatalog, tables: Seq<SymbolTable>, cfg: Option<HmiConfig>) -> bool {
    let all = all_refs(tables);
    let progs = programs_spec(all);
    let shown_progs = progs.filter(prog_shown(all, cfg));
    &&& c.programs@.len() == shown_progs.len()
    &&& forall|k: int| 0 <= k < c.programs@.len() ==> {
        let p = shown_progs[k];
        &&& first_name_with_id(all, p.1) == Some((#[trigger] c.programs@[k]).name@)
        &&& c.programs@[k].file is None
        &&& bindings_render(c.programs@[k].variables@, program_vars_spec(all, p.1), tables, c.programs@[k].name@, cfg)
    }
    &&& bindings_render(c.globals@, globals_spec(tables), tables, "global"@, cfg)
}

/// The scope name of a program.
pub open spec fn prog_scope(all: Seq<RefV>, id: u32) -> Seq<char> {
    match first_name_with_id(all, id) {
        Some(n) => n,
        None => Seq::empty(),
    }
}

/// A program with exported variables.
pub open spec fn prog_shown(all: Seq<RefV>, cfg: Option<HmiConfig>) -> spec_fn(RefV) -> bool {
    |p: RefV| shown(program_vars_spec(all, p.1), prog_scope(all, p.1), cfg).len() > 0
}

/// Generate the HMI binding catalog of a loaded project; a configuration,
/// when given, filters the export (see `config_allows`).
pub fn generate_bindings(loader: &ProjectLoader, config: Option<&HmiConfig>) -> (r: HmiBindingsCatalog)
    ensures
        catalog_renders(r, loader.tables@, cfg_v(config)),
{
    let programs = loader.programs_with_variables();
    let ghost all = all_refs(loader.tables@);
    let ghost progs = programs_spec(all);
    let ghost pf = prog_shown(all, cfg_v(config));
    proof {
        lemma_refs_files(loader.tables@);
    }
    let mut out: Vec<HmiBindingsProgram> = Vec::new();
    let mut k: usize = 0;
    assert(progs.take(0) =~= Seq::<RefV>::empty());
    while k < programs.len()
        invariant
            k <= programs@.len(),
            all == all_refs(loader.tables@),
            progs == programs_spec(all),
            pf == prog_shown(all, cfg_v(config)),
            forall|m: int| 0 <= m < all.len() ==> (#[trigger] all[m]).5 < loader.tables@.len(),
            programs@.len() == progs.len(),
            forall|m: int| 0 <= m < programs@.len() ==> {
                &&& (#[trigger] programs@[m]).id == progs[m].1
                &&& first_name_with_id(all, progs[m].1) == Some(programs@[m].name@)
                &&& refs_v(programs@[m].variables@) == program_vars_spec(all, progs[m].1)
            },
            out@.len() == progs.take(k as int).filter(pf).len(),
            forall|m: int| 0 <= m < out@.len() ==> {
                let p = progs.take(k as int).filter(pf)[m];
                &&& first_name_with_id(all, p.1) == Some((#[trigger] out@[m]).name@)
                &&& out@[m].file is None
                &&& bindings_render(out@[m].variables@, program_vars_spec(all, p.1), loader.tables@, out@[m].name@, cfg_v(config))
            },
        decreases programs@.len() - k,
    {
        reveal_with_fuel(Seq::filter, 1);
        let pr = &programs[k];
        assert(progs.take(k + 1).drop_last() =~= progs.take(k as int));
        assert(progs.take(k + 1).last() == progs[k as int]);
        proof {
            let vf = |r: RefV| r.4 == Some(progs[k as int].1) && is_variable(r.2);
            lemma_filter_files(all, vf, loader.tables@.len());
            assert forall|m: int| 0 <= m < pr.variables@.len() implies (#[trigger] pr.variables@[m]).file < loader.tables@.len() by {
                assert(refs_v(pr.variables@)[m] == ref_v(pr.variables@[m]));
            }
        }
        let vars = loader.bindings_of(&pr.variables, pr.name.as_str(), config);
        if vars.len() > 0 {
            out.push(HmiBindingsProgram { name: pr.name.clone(), file: None, variables: vars });
        }
        k = k + 1;
    }
    assert(progs.take(progs.len() as int) =~= progs);
    let globals_refs = loader.global_variables();
    proof {
        let gf = |r: RefV| is_variable(r.2) && r.4 is None;
        lemma_filter_files(all, gf, loader.tables@.len());
        assert forall|m: int| 0 <= m < globals_refs@.len() implies (#[trigger] globals_refs@[m]).file < loader.tables@.len() by {
            assert(refs_v(globals_refs@)[m] == ref_v(globals_refs@[m]));
        }
    }
    let globals = loader.bindings_of(&globals_refs, "global", config);
    HmiBindingsCatalog { programs: out, globals }
}

/// The catalog binds no variable at all.
pub open spec fn catalog_empty(c: HmiBindingsCatalog) -> bool {
    c.globals@.len() == 0 && forall|k: int| 0 <= k < c.programs@.len() ==> (#[trigger] c.programs@[k]).variables@.len() == 0
}

/// The catalog binds a variable at path `p`.
pub open spec fn catalog_has_path(c: HmiBindingsCatalog, p: Seq<char>) -> bool {
    ||| exists|k: int, j: int|
        0 <= k < c.programs@.len() && 0 <= j < c.programs@[k].variables@.len()
            && (#[trigger] c.programs@[k].variables@[j]).path@ == p
    ||| exists|j: int| 0 <= j < c.globals@.len() && (#[trigger] c.globals@[j]).path@ == p
}

/// The paths a configuration binds that the catalog does not, in order.
pub open spec fn unknown_paths(bound: Seq<Seq<char>>, c: HmiBindingsCatalog) -> Seq<Seq<char>> {
    bound.filter(|p: Seq<char>| !catalog_has_path(c, p))
}

/// The issues of a configuration against a catalog: one
/// `HMI_BIND_UNKNOWN_PATH` issue per bound path that the catalog lacks, in
/// configuration order, then one more when the catalog binds nothing.
pub open spec fn issues_render(r: Seq<HmiValidationIssue>, cfg: HmiConfig, c: HmiBindingsCatalog) -> bool {
    let u = unknown_paths(strings_v(cfg.bindings@), c);
    &&& r.len() == u.len() + if catalog_empty(c) { 1int } else { 0int }
    &&& forall|k: int|
        0 <= k < u.len() ==> {
            &&& (#[trigger] r[k]).code@ == "HMI_BIND_UNKNOWN_PATH"@
            &&& r[k].message@ == "unknown binding path: "@ + u[k]
            &&& r[k].path matches Some(p) && p@ == u[k]
        }
    &&& catalog_empty(c) ==> {
        &&& r[u.len() as int].code@ == "HMI_BIND_UNKNOWN_PATH"@
        &&& r[u.len() as int].message@ == "no HMI-exportable symbols found in project"@
        &&& r[u.len() as int].path is None
    }
}

fn catalog_has_path_exec(c: &HmiBindingsCatalog, p: &str) -> (r: bool)
    ensures
        r == catalog_has_path(*c, p@),
{
    let mut k: usize = 0;
    while k < c.programs.len()
        invariant
            k <= c.programs@.len(),
            forall|a: int, j: int|
                0 <= a < k && 0 <= j < c.programs@[a].variables@.len() ==> (#[trigger] c.programs@[a].variables@[j]).path@ != p@,
        decreases c.programs@.len() - k,
    {
        let vars = &c.programs[k].variables;
        let mut j: usize = 0;
        while j < vars.len()
            invariant
                j <= vars@.len(),
                k < c.programs@.len(),
                *vars == c.programs@[k as int].variables,
                forall|b: int| 0 <= b < j ==> (#[trigger] vars@[b]).path@ != p@,
            decreases vars@.len() - j,
        {
            if str_eq(vars[j].path.as_str(), p) {
                assert(c.programs@[k as int].variables@[j as int].path@ == p@);
                return true;
            }
            j = j + 1;
        }
        k = k + 1;
    }
    let mut j: usize = 0;
    while j < c.globals.len()
        invariant
            j <= c.globals@.len(),
            forall|b: int| 0 <= b < j ==> (#[trigger] c.globals@[b]).path@ != p@,
            forall|a: int, i: int|
                0 <= a < c.programs@.len() && 0 <= i < c.programs@[a].variables@.len() ==> (#[trigger] c.programs@[a].variables@[i]).path@ != p@,
        decreases c.globals@.len() - j,
    {
        if str_eq(c.globals[j].path.as_str(), p) {
            assert(c.globals@[j as int].path@ == p@);
            return true;
        }
        j = j + 1;
    }
    false
}

/// Validation of an HMI configuration against a catalog (see
/// `issues_render`).
pub fn validate_catalog(catalog: &HmiBindingsCatalog, config: &HmiConfig) -> (r: Vec<HmiValidationIssue>)
    ensures
        issues_render(r@, *config, *catalog),
{
    let ghost f = |p: Seq<char>| !catalog_has_path(*catalog, p);
    let ghost bound = strings_v(config.bindings@);
    let mut issues: Vec<HmiValidationIssue> = Vec::new();
    let mut i: usize = 0;
    assert(bound.take(0) =~= Seq::<Seq<char>>::empty());
    while i < config.bindings.len()
        invariant
            i <= config.bindings@.len(),
            bound == strings_v(config.bindings@),
            f == (|p: Seq<char>| !catalog_has_path(*catalog, p)),
            issues@.len() == bound.take(i as int).filter(f).len(),
            forall|k: int|
                0 <= k < issues@.len() ==> {
                    &&& (#[trigger] issues@[k]).code@ == "HMI_BIND_UNKNOWN_PATH"@
                    &&& issues@[k].message@ == "unknown binding path: "@ + bound.take(i as int).filter(f)[k]
                    &&& issues@[k].path matches Some(p) && p@ == bound.take(i as int).filter(f)[k]
                },
        decreases config.bindings@.len() - i,
    {
        reveal_with_fuel(Seq::filter, 1);
        let p = &config.bindings[i];
        assert(bound.take(i + 1).drop_last() =~= bound.take(i as int));
        assert(bound.take(i + 1).last() == p@);
        if !catalog_has_path_exec(catalog, p.as_str()) {
            issues.push(HmiValidationIssue {
                code: String::from_str("HMI_BIND_UNKNOWN_PATH"),
                message: concat2("unknown binding path: ", p.as_str()),
                path: Some(p.clone()),
            });
        }
        i = i + 1;
    }
    assert(bound.take(bound.len() as int) =~= bound);
    let mut any = catalog.globals.len() > 0;
    let mut k: usize = 0;
    while k < catalog.programs.len()
        invariant
            k <= catalog.programs@.len(),
            any == (catalog.globals@.len() > 0 || exists|m: int| 0 <= m < k && (#[trigger] catalog.programs@[m]).variables@.len() > 0),
        decreases catalog.programs@.len() - k,
    {
        if catalog.programs[k].variables.len() > 0 {
            any = true;
        }
        k = k + 1;
    }
    if !any {
        issues.push(HmiValidationIssue {
            code: String::from_str("HMI_BIND_UNKNOWN_PATH"),
            message: String::from_str("no HMI-exportable symbols found in project"),
            path: None,
        });
    }
    issues
}

/// Validate an HMI configuration against the project's symbols: its bound
/// paths are checked against the catalog the naming and section rules give
/// (without the configuration).
pub fn validate_config(loader: &ProjectLoader, config: &HmiConfig) -> (r: Vec<HmiValidationIssue>)
    ensures
        exists|c: HmiBindingsCatalog| #![trigger catalog_renders(c, loader.tables@, None)]
            catalog_renders(c, loader.tables@, None) && issues_render(r@, *config, c),
{
    let catalog = generate_bindings(loader, None);
    validate_catalog(&catalog, config)
}

/// Whether a flag is unset (flags that are unset are left out of the
/// serialized catalog).
pub fn is_false(b: &bool) -> (r: bool)
    ensures
        r == !*b,
{
    !*b
}

/// The number of variable bindings of the programs of a catalog.
pub open spec fn program_variable_total(ps: Seq<HmiBindingsProgram>) -> int
    decreases ps.len(),
{
    if ps.len() == 0 {
        0
    } else {
        program_variable_total(ps.drop_last()) + ps.last().variables@.len()
    }
}

/// The counts of the generation manifest.
pub struct ManifestCounts {
    pub program_count: usize,
    pub global_count: usize,
    pub total_variables: usize,
}

/// The counts of the generation manifest: programs, globals, and all
/// variable bindings (those of the programs and the globals).
pub fn manifest_counts(catalog: &HmiBindingsCatalog) -> (r: ManifestCounts)
    requires
        program_variable_total(catalog.programs@) + catalog.globals@.len() <= usize::MAX,
    ensures
        r.program_count == catalog.programs@.len(),
        r.global_count == catalog.globals@.len(),
        r.total_variables == program_variable_total(catalog.programs@) + catalog.globals@.len(),
{
    let mut total: usize = 0;
    let mut i: usize = 0;
    while i < catalog.programs.len()
        invariant
            i <= catalog.programs@.len(),
            total == program_variable_total(catalog.programs@.take(i as int)),
            program_variable_total(catalog.programs@) + catalog.globals@.len() <= usize::MAX,
        decreases catalog.programs@.len() - i,
    {
        proof {
            assert(catalog.programs@.take(i + 1).drop_last() =~= catalog.programs@.take(i as int));
            lemma_total_prefix(catalog.programs@, i + 1);
        }
        total = total + catalog.programs[i].variables.len();
        i = i + 1;
    }
    assert(catalog.programs@.take(catalog.programs@.len() as int) =~= catalog.programs@);
    ManifestCounts {
        program_count: catalog.programs.len(),
        global_count: catalog.globals.len(),
        total_variables: total + catalog.globals.len(),
    }
}

proof fn lemma_total_prefix(ps: Seq<HmiBindingsProgram>, k: int)
    requires
        0 <= k <= ps.len(),
    ensures
        program_variable_total(ps.take(k)) <= program_variable_total(ps),
    decreases ps.len() - k,
{
    if k < ps.len() {
        lemma_total_prefix(ps, k + 1);
        assert(ps.take(k + 1).drop_last() =~= ps.take(k));
    } else {
        assert(ps.take(k) =~= ps);
    }
}

} // verus!
