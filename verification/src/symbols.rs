//! The symbol-table model that the queries of the library read: symbols
//! with their kinds, source ranges and parents, and the types they refer to.

use vstd::prelude::*;

verus! {

/// Variable declaration section.
#[derive(PartialEq, Eq, Structural, Clone, Copy, Debug)]
pub enum VarQualifier {
    Local,
    Input,
    Output,
    InOut,
    Temp,
    Global,
    External,
    Access,
    Static,
}

/// Parameter direction.
#[derive(PartialEq, Eq, Structural, Clone, Copy, Debug)]
pub enum ParamDirection {
    In,
    Out,
    InOut,
}

/// What a symbol declares.
#[derive(PartialEq, Eq, Structural, Clone, Copy, Debug)]
pub enum SymbolKind {
    Program,
    Configuration,
    Resource,
    Task,
    ProgramInstance,
    Namespace,
    Function,
    FunctionBlock,
    Class,
    Method,
    Property,
    Interface,
    Variable { qualifier: VarQualifier },
    Constant,
    Type,
    EnumValue,
    Parameter { direction: ParamDirection },
    Action,
    Field { field_type: u32 },
}

/// One declared symbol. `start..end` is its byte range in the source text;
/// built-in symbols have an empty range.
pub struct Symbol {
    pub id: u32,
    pub name: String,
    pub kind: SymbolKind,
    pub type_id: u32,
    pub start: u32,
    pub end: u32,
    pub parent: Option<u32>,
    pub persistence: Option<String>,
    pub edge: Option<String>,
}

/// A field of a structured type.
pub struct FieldInfo {
    pub name: String,
    pub type_id: u32,
}

/// The shape of a type.
pub enum TypeShape {
    Bool,
    Struct { fields: Vec<FieldInfo> },
    Union,
    Enum { values: Vec<String> },
    Alias { target: u32 },
    Array,
    Pointer,
    Subrange,
    FunctionBlock,
    Class,
    Interface,
    Other,
}

/// How a value of the type is shown: as text (strings and characters), as a
/// number (numeric, bit-string and time types), or plainly.
#[derive(PartialEq, Eq, Structural, Clone, Copy, Debug)]
pub enum ValueClass {
    Text,
    Numeric,
    Plain,
}

/// A type: its shape and value class.
pub struct HirType {
    pub shape: TypeShape,
    pub class: ValueClass,
}

/// A type registered under a type id.
pub struct TypeEntry {
    pub id: u32,
    pub ty: HirType,
}

/// A display name registered for a type id.
pub struct TypeName {
    pub id: u32,
    pub name: String,
}

/// The base named in `EXTENDS` by a symbol.
pub struct ExtendsEntry {
    pub symbol: u32,
    pub base: String,
}

/// The interfaces named in `IMPLEMENTS` by a symbol.
pub struct ImplementsEntry {
    pub symbol: u32,
    pub interfaces: Vec<String>,
}

/// The symbols of one file, in declaration order, with the types they use.
pub struct SymbolTable {
    pub symbols: Vec<Symbol>,
    pub types: Vec<TypeEntry>,
    pub type_names: Vec<TypeName>,
    pub extends: Vec<ExtendsEntry>,
    pub implements: Vec<ImplementsEntry>,
}

/// Range emptiness.
pub open spec fn range_empty(s: Symbol) -> bool {
    s.start >= s.end
}

/// Index of the first symbol with id `id`.
pub open spec fn symbol_index(syms: Seq<Symbol>, id: u32) -> Option<int>
    decreases syms.len(),
{
    if syms.len() == 0 {
        None
    } else {
        match symbol_index(syms.drop_last(), id) {
            Some(i) => Some(i),
            None => if syms.last().id == id { Some(syms.len() - 1) } else { None },
        }
    }
}

/// Index of the first type entry for `id`.
pub open spec fn type_index(tys: Seq<TypeEntry>, id: u32) -> Option<int>
    decreases tys.len(),
{
    if tys.len() == 0 {
        None
    } else {
        match type_index(tys.drop_last(), id) {
            Some(i) => Some(i),
            None => if tys.last().id == id { Some(tys.len() - 1) } else { None },
        }
    }
}

/// The display name registered for `id`, if any.
pub open spec fn type_name_of(names: Seq<TypeName>, id: u32) -> Option<Seq<char>>
    decreases names.len(),
{
    if names.len() == 0 {
        None
    } else {
        match type_name_of(names.drop_last(), id) {
            Some(n) => Some(n),
            None => if names.last().id == id { Some(names.last().name@) } else { None },
        }
    }
}

/// The `EXTENDS` base of a symbol, if any.
pub open spec fn extends_of(es: Seq<ExtendsEntry>, id: u32) -> Option<Seq<char>>
    decreases es.len(),
{
    if es.len() == 0 {
        None
    } else {
        match extends_of(es.drop_last(), id) {
            Some(n) => Some(n),
            None => if es.last().symbol == id { Some(es.last().base@) } else { None },
        }
    }
}

/// Index of the `IMPLEMENTS` entry of a symbol, if any.
pub open spec fn implements_index(es: Seq<ImplementsEntry>, id: u32) -> Option<int>
    decreases es.len(),
{
    if es.len() == 0 {
        None
    } else {
        match implements_index(es.drop_last(), id) {
            Some(i) => Some(i),
            None => if es.last().symbol == id { Some(es.len() - 1) } else { None },
        }
    }
}

proof fn lemma_symbol_index_step(syms: Seq<Symbol>, id: u32, i: int)
    requires
        0 <= i < syms.len(),
        symbol_index(syms.take(i), id) is None,
    ensures
        symbol_index(syms.take(i + 1), id) == (if syms[i].id == id { Some(i) } else { None::<int> }),
{
    assert(syms.take(i + 1).drop_last() =~= syms.take(i));
}

proof fn lemma_symbol_index_found(syms: Seq<Symbol>, id: u32, i: int)
    requires
        0 <= i <= syms.len(),
        symbol_index(syms.take(i), id) is Some,
    ensures
        symbol_index(syms, id) == symbol_index(syms.take(i), id),
    decreases syms.len() - i,
{
    if i < syms.len() {
        assert(syms.take(i + 1).drop_last() =~= syms.take(i));
        lemma_symbol_index_found(syms, id, i + 1);
    } else {
        assert(syms.take(i) =~= syms);
    }
}

pub proof fn lemma_symbol_index_bounds(syms: Seq<Symbol>, id: u32)
    ensures
        symbol_index(syms, id) matches Some(i) ==> 0 <= i < syms.len() && syms[i].id == id,
    decreases syms.len(),
{
    if syms.len() > 0 {
        lemma_symbol_index_bounds(syms.drop_last(), id);
    }
}

impl SymbolTable {
    /// The symbol with id `id` (the first one, if several share it).
    pub fn get(&self, id: u32) -> (r: Option<&Symbol>)
        ensures
            match symbol_index(self.symbols@, id) {
                Some(i) => r == Some(&self.symbols@[i]),
                None => r is None,
            },
            symbol_index(self.symbols@, id) matches Some(i) ==> 0 <= i < self.symbols@.len() && self.symbols@[i].id == id,
    {
        proof {
            lemma_symbol_index_bounds(self.symbols@, id);
        }
        let mut i: usize = 0;
        assert(self.symbols@.take(0) =~= Seq::<Symbol>::empty());
        while i < self.symbols.len()
            invariant
                i <= self.symbols@.len(),
                symbol_index(self.symbols@.take(i as int), id) is None,
            decreases self.symbols@.len() - i,
        {
            proof {
                lemma_symbol_index_step(self.symbols@, id, i as int);
            }
            if self.symbols[i].id == id {
                proof {
                    lemma_symbol_index_found(self.symbols@, id, i + 1);
                }
                return Some(&self.symbols[i]);
            }
            i = i + 1;
        }
        assert(self.symbols@.take(self.symbols@.len() as int) =~= self.symbols@);
        None
    }

    /// The type registered under `id`.
    pub fn type_by_id(&self, id: u32) -> (r: Option<&HirType>)
        ensures
            match type_index(self.types@, id) {
                Some(i) => 0 <= i < self.types@.len() && r == Some(&self.types@[i].ty),
                None => r is None,
            },
    {
        let mut i: usize = 0;
        assert(self.types@.take(0) =~= Seq::<TypeEntry>::empty());
        while i < self.types.len()
            invariant
                i <= self.types@.len(),
                type_index(self.types@.take(i as int), id) is None,
            decreases self.types@.len() - i,
        {
            assert(self.types@.take(i + 1).drop_last() =~= self.types@.take(i as int));
            if self.types[i].id == id {
                proof {
                    lemma_type_index_found(self.types@, id, i + 1);
                }
                return Some(&self.types[i].ty);
            }
            i = i + 1;
        }
        assert(self.types@.take(self.types@.len() as int) =~= self.types@);
        None
    }

    /// The display name of a type id.
    pub fn name_of_type(&self, id: u32) -> (r: Option<String>)
        ensures
            match type_name_of(self.type_names@, id) {
                Some(n) => r matches Some(s) && s@ == n,
                None => r is None,
            },
    {
        let mut i: usize = 0;
        assert(self.type_names@.take(0) =~= Seq::<TypeName>::empty());
        while i < self.type_names.len()
            invariant
                i <= self.type_names@.len(),
                type_name_of(self.type_names@.take(i as int), id) is None,
            decreases self.type_names@.len() - i,
        {
            assert(self.type_names@.take(i + 1).drop_last() =~= self.type_names@.take(i as int));
            if self.type_names[i].id == id {
                proof {
                    lemma_type_name_found(self.type_names@, id, i + 1);
                }
                return Some(self.type_names[i].name.clone());
            }
            i = i + 1;
        }
        assert(self.type_names@.take(self.type_names@.len() as int) =~= self.type_names@);
        None
    }

    /// The `EXTENDS` base named by a symbol.
    pub fn extends_name(&self, id: u32) -> (r: Option<String>)
        ensures
            match extends_of(self.extends@, id) {
                Some(n) => r matches Some(s) && s@ == n,
                None => r is None,
            },
    {
        let mut i: usize = 0;
        assert(self.extends@.take(0) =~= Seq::<ExtendsEntry>::empty());
        while i < self.extends.len()
            invariant
                i <= self.extends@.len(),
                extends_of(self.extends@.take(i as int), id) is None,
            decreases self.extends@.len() - i,
        {
            assert(self.extends@.take(i + 1).drop_last() =~= self.extends@.take(i as int));
            if self.extends[i].symbol == id {
                proof {
                    lemma_extends_found(self.extends@, id, i + 1);
                }
                return Some(self.extends[i].base.clone());
            }
            i = i + 1;
        }
        assert(self.extends@.take(self.extends@.len() as int) =~= self.extends@);
        None
    }

    /// The interfaces named in `IMPLEMENTS` by a symbol.
    pub fn implements_names(&self, id: u32) -> (r: Option<&Vec<String>>)
        ensures
            match implements_index(self.implements@, id) {
                Some(i) => 0 <= i < self.implements@.len() && r == Some(&self.implements@[i].interfaces),
                None => r is None,
            },
    {
        let mut i: usize = 0;
        assert(self.implements@.take(0) =~= Seq::<ImplementsEntry>::empty());
        while i < self.implements.len()
            invariant
                i <= self.implements@.len(),
                implements_index(self.implements@.take(i as int), id) is None,
            decreases self.implements@.len() - i,
        {
            assert(self.implements@.take(i + 1).drop_last() =~= self.implements@.take(i as int));
            if self.implements[i].symbol == id {
                proof {
                    lemma_implements_found(self.implements@, id, i + 1);
                }
                return Some(&self.implements[i].interfaces);
            }
            i = i + 1;
        }
        assert(self.implements@.take(self.implements@.len() as int) =~= self.implements@);
        None
    }
}

proof fn lemma_type_index_found(tys: Seq<TypeEntry>, id: u32, i: int)
    requires
        0 <= i <= tys.len(),
        type_index(tys.take(i), id) is Some,
    ensures
        type_index(tys, id) == type_index(tys.take(i), id),
        type_index(tys, id) matches Some(k) ==> 0 <= k < i && tys[k].id == id,
    decreases tys.len() - i,
{
    lemma_type_index_bounds(tys.take(i), id);
    if i < tys.len() {
        assert(tys.take(i + 1).drop_last() =~= tys.take(i));
        lemma_type_index_found(tys, id, i + 1);
    } else {
        assert(tys.take(i) =~= tys);
    }
}

proof fn lemma_type_index_bounds(tys: Seq<TypeEntry>, id: u32)
    ensures
        type_index(tys, id) matches Some(i) ==> 0 <= i < tys.len() && tys[i].id == id,
    decreases tys.len(),
{
    if tys.len() > 0 {
        lemma_type_index_bounds(tys.drop_last(), id);
    }
}

proof fn lemma_type_name_found(ns: Seq<TypeName>, id: u32, i: int)
    requires
        0 <= i <= ns.len(),
        type_name_of(ns.take(i), id) is Some,
    ensures
        type_name_of(ns, id) == type_name_of(ns.take(i), id),
    decreases ns.len() - i,
{
    if i < ns.len() {
        assert(ns.take(i + 1).drop_last() =~= ns.take(i));
        lemma_type_name_found(ns, id, i + 1);
    } else {
        assert(ns.take(i) =~= ns);
    }
}

proof fn lemma_extends_found(es: Seq<ExtendsEntry>, id: u32, i: int)
    requires
        0 <= i <= es.len(),
        extends_of(es.take(i), id) is Some,
    ensures
        extends_of(es, id) == extends_of(es.take(i), id),
    decreases es.len() - i,
{
    if i < es.len() {
        assert(es.take(i + 1).drop_last() =~= es.take(i));
        lemma_extends_found(es, id, i + 1);
    } else {
        assert(es.take(i) =~= es);
    }
}

proof fn lemma_implements_bounds(es: Seq<ImplementsEntry>, id: u32)
    ensures
        implements_index(es, id) matches Some(i) ==> 0 <= i < es.len(),
    decreases es.len(),
{
    if es.len() > 0 {
        lemma_implements_bounds(es.drop_last(), id);
    }
}

proof fn lemma_implements_found(es: Seq<ImplementsEntry>, id: u32, i: int)
    requires
        0 <= i <= es.len(),
        implements_index(es.take(i), id) is Some,
    ensures
        implements_index(es, id) == implements_index(es.take(i), id),
        implements_index(es, id) matches Some(k) ==> 0 <= k < i,
    decreases es.len() - i,
{
    lemma_implements_bounds(es.take(i), id);
    if i < es.len() {
        assert(es.take(i + 1).drop_last() =~= es.take(i));
        lemma_implements_found(es, id, i + 1);
    } else {
        assert(es.take(i) =~= es);
    }
}

} // verus!
