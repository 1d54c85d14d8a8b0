//! The `hir/getSymbols` query: the declared symbols of a file as a tree,
//! narrowed to a scope and a kind.

use vstd::prelude::*;
use crate::kinds::{kind_name, symbol_kind_to_string};
use crate::ordering::{
    lemma_source_order_exists, pos_lt, declared_in_source_order, filter_indices, in_source_order, is_declared, lemma_filter_contains_iff,
    lemma_filter_ext, lemma_filter_in_order, lemma_is_source_order, source_order,
};
use crate::positions::{build_range, position_of, RangeOut};
use crate::protocol::RpcError;
use crate::symbols::{lemma_symbol_index_bounds, range_empty, symbol_index, Symbol, SymbolTable};
use crate::text::{concat3, decimal, decimal_string, eq_ignore_ascii_case, eq_ignore_case_spec};

verus! {

/// A symbol of the tree answer.
pub struct SymbolOut {
    pub id: String,
    pub name: String,
    pub kind: String,
    pub file_path: String,
    pub range: RangeOut,
    pub children: Vec<SymbolOut>,
}

/// Symbol ids name one symbol each.
pub open spec fn ids_unique(t: Seq<Symbol>) -> bool {
    forall|i: int, j: int| 0 <= i < t.len() && 0 <= j < t.len() && t[i].id == t[j].id ==> i == j
}

/// A declared symbol whose name equals the scope name up to ASCII case.
pub open spec fn scope_match(t: Seq<Symbol>, i: int, scope: Seq<char>) -> bool {
    0 <= i < t.len() && !range_empty(t[i]) && eq_ignore_case_spec(t[i].name@, scope)
}

/// Symbol `i` is a scope symbol or reaches one by following at most `r`
/// parent links.
pub open spec fn reach(t: Seq<Symbol>, i: int, scope: Seq<char>, r: nat) -> bool
    decreases r,
{
    scope_match(t, i, scope) || (r > 0 && match t[i].parent {
        Some(p) => match symbol_index(t, p) {
            Some(j) => reach(t, j, scope, (r - 1) as nat),
            None => false,
        },
        None => false,
    })
}

/// Symbol `i` lies in the scope: it is a scope symbol or one of its
/// descendants.
pub open spec fn in_scope(t: Seq<Symbol>, i: int, scope: Seq<char>) -> bool {
    reach(t, i, scope, t.len())
}

/// Symbol `i` belongs to the answer: declared, within the scope filter (if
/// any), of the kind filter (if any; kind names compare up to ASCII case)
/// and named as the name filter says (if any; up to ASCII case).
pub open spec fn kept(t: Seq<Symbol>, i: int, kind: Option<Seq<char>>, scope: Option<Seq<char>>, name: Option<Seq<char>>) -> bool {
    &&& 0 <= i < t.len()
    &&& !range_empty(t[i])
    &&& (scope matches Some(sc) ==> in_scope(t, i, sc))
    &&& (kind matches Some(k) ==> eq_ignore_case_spec(kind_name(t[i].kind), k))
    &&& (name matches Some(nm) ==> eq_ignore_case_spec(t[i].name@, nm))
}

/// The parent of a kept symbol in the tree: its parent when that parent is
/// kept too, otherwise none (it becomes a root).
pub open spec fn tree_parent(t: Seq<Symbol>, i: int, kind: Option<Seq<char>>, scope: Option<Seq<char>>, name: Option<Seq<char>>) -> Option<u32> {
    match t[i].parent {
        Some(p) => match symbol_index(t, p) {
            Some(j) => if kept(t, j, kind, scope, name) { Some(p) } else { None },
            None => None,
        },
        None => None,
    }
}

/// Which symbols the answer keeps.
pub open spec fn kept_pred(t: Seq<Symbol>, kind: Option<Seq<char>>, scope: Option<Seq<char>>, name: Option<Seq<char>>) -> spec_fn(usize) -> bool {
    |x: usize| kept(t, x as int, kind, scope, name)
}

/// The kept symbols in source order.
pub open spec fn kept_order(t: Seq<Symbol>, kind: Option<Seq<char>>, scope: Option<Seq<char>>, name: Option<Seq<char>>) -> Seq<usize> {
    source_order(t, kept_pred(t, kind, scope, name))
}

/// The kept symbols, in source order, whose tree parent is `p`.
pub open spec fn children_in(t: Seq<Symbol>, kind: Option<Seq<char>>, scope: Option<Seq<char>>, name: Option<Seq<char>>, p: Option<u32>) -> Seq<usize> {
    kept_order(t, kind, scope, name).filter(|x: usize| tree_parent(t, x as int, kind, scope, name) == p)
}

/// `n` renders symbol `i` with its subtree, down to `depth` levels of
/// children.
pub open spec fn node_renders(
    t: Seq<Symbol>,
    content: Seq<char>,
    path: Seq<char>,
    kind: Option<Seq<char>>,
    scope: Option<Seq<char>>,
    name: Option<Seq<char>>,
    n: SymbolOut,
    i: usize,
    depth: nat,
) -> bool
    decreases depth,
{
    let s = t[i as int];
    let kids = children_in(t, kind, scope, name, Some(s.id));
    &&& n.id@ == path + ":"@ + decimal(s.start as nat)
    &&& n.name@ == s.name@
    &&& n.kind@ == kind_name(s.kind)
    &&& n.file_path@ == path
    &&& n.range.start == position_of(content, s.start as int)
    &&& n.range.end == position_of(content, s.end as int)
    &&& if depth == 0 {
        n.children@.len() == 0
    } else {
        &&& n.children@.len() == kids.len()
        &&& forall|k: int| 0 <= k < kids.len() ==> node_renders(t, content, path, kind, scope, name, #[trigger] n.children@[k], kids[k], (depth - 1) as nat)
    }
}

/// The answer: one rendered tree per root, in source order, each to the
/// depth of the number of kept symbols.
pub open spec fn forest_renders(
    t: Seq<Symbol>,
    content: Seq<char>,
    path: Seq<char>,
    kind: Option<Seq<char>>,
    scope: Option<Seq<char>>,
    name: Option<Seq<char>>,
    r: Seq<SymbolOut>,
) -> bool {
    let roots = children_in(t, kind, scope, name, None);
    &&& r.len() == roots.len()
    &&& forall|k: int| 0 <= k < roots.len() ==> node_renders(t, content, path, kind, scope, name, #[trigger] r[k], roots[k], kept_order(t, kind, scope, name).len())
}

pub open spec fn opt_view(o: Option<&str>) -> Option<Seq<char>> {
    match o {
        Some(s) => Some(s@),
        None => None,
    }
}

/// Index of the symbol with id `id`.
pub fn index_of(t: &Vec<Symbol>, id: u32) -> (r: Option<usize>)
    ensures
        match symbol_index(t@, id) {
            Some(i) => r == Some(i as usize),
            None => r is None,
        },
        r matches Some(i) ==> i < t@.len() && t@[i as int].id == id && symbol_index(t@, id) == Some(i as int),
        r is None ==> symbol_index(t@, id) is None,
{
    proof {
        lemma_symbol_index_bounds(t@, id);
    }
    let mut i: usize = 0;
    assert(t@.take(0) =~= Seq::<Symbol>::empty());
    while i < t.len()
        invariant
            i <= t@.len(),
            symbol_index(t@.take(i as int), id) is None,
        decreases t@.len() - i,
    {
        assert(t@.take(i + 1).drop_last() =~= t@.take(i as int));
        if t[i].id == id {
            proof {
                lemma_index_found(t@, id, i as int + 1);
                assert(t@.len() == t.len());
            }
            return Some(i);
        }
        i = i + 1;
    }
    assert(t@.take(t@.len() as int) =~= t@);
    None
}

proof fn lemma_index_found(t: Seq<Symbol>, id: u32, i: int)
    requires
        0 <= i <= t.len(),
        symbol_index(t.take(i), id) is Some,
    ensures
        symbol_index(t, id) == symbol_index(t.take(i), id),
    decreases t.len() - i,
{
    if i < t.len() {
        assert(t.take(i + 1).drop_last() =~= t.take(i));
        lemma_index_found(t, id, i + 1);
    } else {
        assert(t.take(i) =~= t);
    }
}

/// For each symbol, the index of its parent symbol (if it has one in the
/// table).
fn parent_indices(t: &Vec<Symbol>) -> (r: Vec<Option<usize>>)
    ensures
        r@.len() == t@.len(),
        forall|i: int| 0 <= i < t@.len() ==> #[trigger] r@[i] == match t@[i].parent {
            Some(p) => match symbol_index(t@, p) {
                Some(j) => Some(j as usize),
                None => None,
            },
            None => None,
        },
        forall|i: int| 0 <= i < t@.len() ==> (#[trigger] r@[i] matches Some(j) ==> j < t@.len()),
{
    let mut r: Vec<Option<usize>> = Vec::new();
    let mut i: usize = 0;
    while i < t.len()
        invariant
            i <= t@.len(),
            r@.len() == i,
            forall|k: int| 0 <= k < i ==> #[trigger] r@[k] == match t@[k].parent {
                Some(p) => match symbol_index(t@, p) {
                    Some(j) => Some(j as usize),
                    None => None,
                },
                None => None,
            },
            forall|k: int| 0 <= k < i ==> (#[trigger] r@[k] matches Some(j) ==> j < t@.len()),
        decreases t@.len() - i,
    {
        let v = match t[i].parent {
            Some(p) => index_of(t, p),
            None => None,
        };
        r.push(v);
        i = i + 1;
    }
    r
}

/// Marks the symbols that lie in the scope named `scope`.
fn scope_marks(t: &Vec<Symbol>, parents: &Vec<Option<usize>>, scope: &str) -> (r: Vec<bool>)
    requires
        parents@.len() == t@.len(),
        forall|i: int| 0 <= i < t@.len() ==> #[trigger] parents@[i] == match t@[i].parent {
            Some(p) => match symbol_index(t@, p) {
                Some(j) => Some(j as usize),
                None => None,
            },
            None => None,
        },
        forall|i: int| 0 <= i < t@.len() ==> (#[trigger] parents@[i] matches Some(j) ==> j < t@.len()),
    ensures
        r@.len() == t@.len(),
        forall|i: int| 0 <= i < t@.len() ==> #[trigger] r@[i] == in_scope(t@, i, scope@),
{
    let n = t.len();
    let mut base: Vec<bool> = Vec::new();
    let mut i: usize = 0;
    while i < n
        invariant
            n == t@.len(),
            i <= n,
            base@.len() == i,
            forall|k: int| 0 <= k < i ==> #[trigger] base@[k] == scope_match(t@, k, scope@),
        decreases n - i,
    {
        let m = t[i].start < t[i].end && eq_ignore_ascii_case(t[i].name.as_str(), scope);
        base.push(m);
        i = i + 1;
    }
    let mut marks = base.clone();
    assert forall|k: int| 0 <= k < n implies #[trigger] marks@[k] == reach(t@, k, scope@, 0) by {}
    let mut round: usize = 0;
    while round < n
        invariant
            n == t@.len(),
            round <= n,
            base@.len() == n,
            marks@.len() == n,
            parents@.len() == n,
            forall|k: int| 0 <= k < n ==> #[trigger] base@[k] == scope_match(t@, k, scope@),
            forall|k: int| 0 <= k < n ==> #[trigger] marks@[k] == reach(t@, k, scope@, round as nat),
            forall|k: int| 0 <= k < t@.len() ==> #[trigger] parents@[k] == match t@[k].parent {
                Some(p) => match symbol_index(t@, p) {
                    Some(j) => Some(j as usize),
                    None => None,
                },
                None => None,
            },
            forall|k: int| 0 <= k < t@.len() ==> (#[trigger] parents@[k] matches Some(j) ==> j < t@.len()),
        decreases n - round,
    {
        let mut next: Vec<bool> = Vec::new();
        let mut k: usize = 0;
        while k < n
            invariant
                n == t@.len(),
                k <= n,
                next@.len() == k,
                base@.len() == n,
                marks@.len() == n,
                parents@.len() == n,
                forall|j: int| 0 <= j < n ==> #[trigger] base@[j] == scope_match(t@, j, scope@),
                forall|j: int| 0 <= j < n ==> #[trigger] marks@[j] == reach(t@, j, scope@, round as nat),
                forall|j: int| 0 <= j < t@.len() ==> #[trigger] parents@[j] == match t@[j].parent {
                    Some(p) => match symbol_index(t@, p) {
                        Some(jj) => Some(jj as usize),
                        None => None,
                    },
                    None => None,
                },
                forall|j: int| 0 <= j < t@.len() ==> (#[trigger] parents@[j] matches Some(jj) ==> jj < t@.len()),
                forall|j: int| 0 <= j < k ==> #[trigger] next@[j] == reach(t@, j, scope@, (round + 1) as nat),
            decreases n - k,
        {
            let v = base[k] || match parents[k] {
                Some(j) => marks[j],
                None => false,
            };
            proof {
                let pk = parents@[k as int];
                assert(pk == match t@[k as int].parent {
                    Some(p) => match symbol_index(t@, p) {
                        Some(jj) => Some(jj as usize),
                        None => None,
                    },
                    None => None,
                });
                match t@[k as int].parent {
                    Some(p) => {
                        lemma_symbol_index_bounds(t@, p);
                        match symbol_index(t@, p) {
                            Some(jj) => {
                                assert(jj < t@.len());
                                assert(marks@[jj] == reach(t@, jj, scope@, round as nat));
                            },
                            None => {},
                        }
                    },
                    None => {},
                }
            }
            next.push(v);
            k = k + 1;
        }
        marks = next;
        round = round + 1;
    }
    marks
}

/// Builds the rendered node of symbol `i` and its subtree.
fn build_node(
    t: &Vec<Symbol>,
    content: &str,
    path: &str,
    order: &Vec<usize>,
    tree_parents: &Vec<Option<u32>>,
    i: usize,
    depth: usize,
    Ghost(kind): Ghost<Option<Seq<char>>>,
    Ghost(scope): Ghost<Option<Seq<char>>>,
    Ghost(name): Ghost<Option<Seq<char>>>,
) -> (n: SymbolOut)
    requires
        i < t@.len(),
        tree_parents@.len() == t@.len(),
        forall|x: int| 0 <= x < t@.len() ==> #[trigger] tree_parents@[x] == tree_parent(t@, x, kind, scope, name),
        order@ == kept_order(t@, kind, scope, name),
        forall|k: int| 0 <= k < order@.len() ==> order@[k] < t@.len(),
    ensures
        node_renders(t@, content@, path@, kind, scope, name, n, i, depth as nat),
    decreases depth,
{
    let s = &t[i];
    let mut children: Vec<SymbolOut> = Vec::new();
    if depth > 0 {
        let kids = children_of(order, tree_parents, Some(s.id), t, Ghost(kind), Ghost(scope), Ghost(name));
        let ghost spec_kids = children_in(t@, kind, scope, name, Some(s.id));
        let mut k: usize = 0;
        while k < kids.len()
            invariant
                kids@ == spec_kids,
                spec_kids == children_in(t@, kind, scope, name, Some(t@[i as int].id)),
                k <= kids@.len(),
                children@.len() == k,
                depth > 0,
                tree_parents@.len() == t@.len(),
                forall|x: int| 0 <= x < t@.len() ==> #[trigger] tree_parents@[x] == tree_parent(t@, x, kind, scope, name),
                order@ == kept_order(t@, kind, scope, name),
                forall|m: int| 0 <= m < order@.len() ==> order@[m] < t@.len(),
                forall|m: int| 0 <= m < kids@.len() ==> kids@[m] < t@.len(),
                forall|m: int| 0 <= m < k ==> node_renders(t@, content@, path@, kind, scope, name, #[trigger] children@[m], spec_kids[m], (depth - 1) as nat),
            decreases kids@.len() - k,
        {
            let c = build_node(t, content, path, order, tree_parents, kids[k], depth - 1, Ghost(kind), Ghost(scope), Ghost(name));
            children.push(c);
            k = k + 1;
        }
    }
    let start_text = decimal_string(s.start as u64);
    let id = concat3(path, ":", start_text.as_str());
    let kind_text = String::from_str(symbol_kind_to_string(s.kind));
    SymbolOut {
        id,
        name: s.name.clone(),
        kind: kind_text,
        file_path: String::from_str(path),
        range: build_range(content, s.start, s.end),
        children,
    }
}

/// The kept symbols (from `order`) whose tree parent is `p`.
fn children_of(
    order: &Vec<usize>,
    tree_parents: &Vec<Option<u32>>,
    p: Option<u32>,
    t: &Vec<Symbol>,
    Ghost(kind): Ghost<Option<Seq<char>>>,
    Ghost(scope): Ghost<Option<Seq<char>>>,
    Ghost(name): Ghost<Option<Seq<char>>>,
) -> (r: Vec<usize>)
    requires
        tree_parents@.len() == t@.len(),
        forall|x: int| 0 <= x < t@.len() ==> #[trigger] tree_parents@[x] == tree_parent(t@, x, kind, scope, name),
        order@ == kept_order(t@, kind, scope, name),
        forall|k: int| 0 <= k < order@.len() ==> order@[k] < t@.len(),
    ensures
        r@ == children_in(t@, kind, scope, name, p),
        forall|m: int| 0 <= m < r@.len() ==> r@[m] < t@.len(),
{
    let mut keep: Vec<bool> = Vec::new();
    let mut x: usize = 0;
    while x < tree_parents.len()
        invariant
            x <= tree_parents@.len(),
            keep@.len() == x,
            forall|y: int| 0 <= y < x ==> #[trigger] keep@[y] == (tree_parents@[y] == p),
        decreases tree_parents@.len() - x,
    {
        let same = match (tree_parents[x], p) {
            (Some(a), Some(b)) => a == b,
            (None, None) => true,
            _ => false,
        };
        keep.push(same);
        x = x + 1;
    }
    let r = filter_indices(order, &keep);
    proof {
        let f = |y: usize| keep@[y as int];
        let g = |y: usize| tree_parent(t@, y as int, kind, scope, name) == p;
        assert forall|m: int| 0 <= m < order@.len() implies f(order@[m]) == g(order@[m]) by {
            assert(order@[m] < t@.len());
        }
        lemma_filter_ext(order@, f, g);
        lemma_filter_contains_iff(order@, f);
        assert forall|m: int| 0 <= m < r@.len() implies r@[m] < t@.len() by {
            assert(r@.contains(r@[m]));
            assert(order@.contains(r@[m]));
        }
    }
    r
}

/// The symbols of one file as a tree.
///
/// Built-in symbols (empty range) are skipped. With a scope filter, only the
/// symbols named like the scope (up to ASCII case) and their descendants are
/// kept; with a kind filter, only the symbols of that kind (up to ASCII
/// case). A kept symbol hangs under its parent when the parent is kept too
/// and is a root otherwise; siblings come in source order.
pub fn build_symbol_tree(
    symbols: &SymbolTable,
    content: &str,
    path_str: &str,
    kind_filter: Option<&str>,
    scope_filter: Option<&str>,
    name_filter: Option<&str>,
) -> (r: Result<Vec<SymbolOut>, RpcError>)
    requires
        ids_unique(symbols.symbols@),
    ensures
        r matches Ok(v) && forest_renders(
            symbols.symbols@,
            content@,
            path_str@,
            opt_view(kind_filter),
            opt_view(scope_filter),
            opt_view(name_filter),
            v@,
        ),
{
    let t = &symbols.symbols;
    let n = t.len();
    let ghost kind = opt_view(kind_filter);
    let ghost scope = opt_view(scope_filter);
    let ghost name = opt_view(name_filter);
    let declared = declared_in_source_order(t);
    let parents = parent_indices(t);
    let marks: Vec<bool> = match scope_filter {
        Some(sc) => scope_marks(t, &parents, sc),
        None => {
            let mut all: Vec<bool> = Vec::new();
            let mut i: usize = 0;
            while i < n
                invariant
                    n == t@.len(),
                    i <= n,
                    all@.len() == i,
                    forall|k: int| 0 <= k < i ==> #[trigger] all@[k],
                decreases n - i,
            {
                all.push(true);
                i = i + 1;
            }
            all
        },
    };
    let mut keep: Vec<bool> = Vec::new();
    let mut i: usize = 0;
    while i < n
        invariant
            n == t@.len(),
            i <= n,
            keep@.len() == i,
            marks@.len() == n,
            scope == opt_view(scope_filter),
            kind == opt_view(kind_filter),
            name == opt_view(name_filter),
            forall|k: int| 0 <= k < n ==> #[trigger] marks@[k] == (scope matches Some(sc) ==> in_scope(t@, k, sc)),
            forall|k: int| 0 <= k < i ==> #[trigger] keep@[k] == kept(t@, k, kind, scope, name),
        decreases n - i,
    {
        let kind_ok = match kind_filter {
            Some(k) => eq_ignore_ascii_case(symbol_kind_to_string(t[i].kind), k),
            None => true,
        };
        let name_ok = match name_filter {
            Some(nm) => eq_ignore_ascii_case(t[i].name.as_str(), nm),
            None => true,
        };
        keep.push(t[i].start < t[i].end && marks[i] && kind_ok && name_ok);
        i = i + 1;
    }
    let order = filter_indices(&declared, &keep);
    proof {
        let f = |x: usize| keep@[x as int];
        let pred = kept_pred(t@, kind, scope, name);
        lemma_filter_in_order(t@, declared@, f);
        lemma_filter_contains_iff(declared@, f);
        assert forall|x: usize| order@.contains(x) <==> pred(x) by {
            if order@.contains(x) {
                assert(declared@.contains(x));
            }
            if pred(x) {
                assert(is_declared(t@, x));
                assert(declared@.contains(x));
            }
        }
        lemma_is_source_order(t@, pred, order@);
        assert forall|k: int| 0 <= k < order@.len() implies order@[k] < t@.len() by {
            assert(order@.contains(order@[k]));
        }
    }
    let mut tree_parents: Vec<Option<u32>> = Vec::new();
    let mut x: usize = 0;
    while x < n
        invariant
            n == t@.len(),
            x <= n,
            tree_parents@.len() == x,
            keep@.len() == n,
            parents@.len() == n,
            forall|k: int| 0 <= k < n ==> #[trigger] keep@[k] == kept(t@, k, kind, scope, name),
            forall|k: int| 0 <= k < t@.len() ==> #[trigger] parents@[k] == match t@[k].parent {
                Some(p) => match symbol_index(t@, p) {
                    Some(j) => Some(j as usize),
                    None => None,
                },
                None => None,
            },
            forall|k: int| 0 <= k < t@.len() ==> (#[trigger] parents@[k] matches Some(j) ==> j < t@.len()),
            forall|k: int| 0 <= k < x ==> #[trigger] tree_parents@[k] == tree_parent(t@, k, kind, scope, name),
        decreases n - x,
    {
        let tp = match t[x].parent {
            Some(p) => match parents[x] {
                Some(j) => if keep[j] { Some(p) } else { None },
                None => None,
            },
            None => None,
        };
        proof {
            match t@[x as int].parent {
                Some(p) => lemma_symbol_index_bounds(t@, p),
                None => {},
            }
            assert(parents@[x as int] == match t@[x as int].parent {
                Some(p) => match symbol_index(t@, p) {
                    Some(j) => Some(j as usize),
                    None => None,
                },
                None => None,
            });
        }
        tree_parents.push(tp);
        x = x + 1;
    }
    let roots = children_of(&order, &tree_parents, None, t, Ghost(kind), Ghost(scope), Ghost(name));
    let mut out: Vec<SymbolOut> = Vec::new();
    let mut k: usize = 0;
    while k < roots.len()
        invariant
            roots@ == children_in(t@, kind, scope, name, None),
            k <= roots@.len(),
            out@.len() == k,
            tree_parents@.len() == t@.len(),
            forall|z: int| 0 <= z < t@.len() ==> #[trigger] tree_parents@[z] == tree_parent(t@, z, kind, scope, name),
            order@ == kept_order(t@, kind, scope, name),
            forall|m: int| 0 <= m < order@.len() ==> order@[m] < t@.len(),
            forall|m: int| 0 <= m < roots@.len() ==> roots@[m] < t@.len(),
            forall|m: int| 0 <= m < k ==> node_renders(t@, content@, path_str@, kind, scope, name, #[trigger] out@[m], roots@[m], order@.len() as nat),
        decreases roots@.len() - k,
    {
        let node = build_node(t, content, path_str, &order, &tree_parents, roots[k], order.len(), Ghost(kind), Ghost(scope), Ghost(name));
        out.push(node);
        k = k + 1;
    }
    Ok(out)
}

/// The answer of `hir/getSymbols` lists its roots in source order: no root
/// starts after a later one.
pub proof fn law_symbol_tree_roots_in_source_order(
    t: Seq<Symbol>,
    content: Seq<char>,
    path: Seq<char>,
    kind: Option<Seq<char>>,
    scope: Option<Seq<char>>,
    name: Option<Seq<char>>,
    r: Seq<SymbolOut>,
)
    requires
        forest_renders(t, content, path, kind, scope, name, r),
    ensures
        forall|i: int, j: int| 0 <= i < j < r.len() ==> (#[trigger] r[i]).range.start == position_of(content, t[children_in(t, kind, scope, name, None)[i] as int].start as int)
            && (#[trigger] r[j]).range.start == position_of(content, t[children_in(t, kind, scope, name, None)[j] as int].start as int)
            && t[children_in(t, kind, scope, name, None)[i] as int].start <= t[children_in(t, kind, scope, name, None)[j] as int].start,
{
    let roots = children_in(t, kind, scope, name, None);
    assert forall|x: usize| #[trigger] kept_pred(t, kind, scope, name)(x) implies x < t.len() by {}
    lemma_source_order_exists(t, kept_pred(t, kind, scope, name));
    lemma_filter_in_order(t, kept_order(t, kind, scope, name), |x: usize| tree_parent(t, x as int, kind, scope, name) == None::<u32>);
    assert forall|i: int, j: int| 0 <= i < j < r.len() implies (#[trigger] r[i]).range.start == position_of(content, t[roots[i] as int].start as int)
        && (#[trigger] r[j]).range.start == position_of(content, t[roots[j] as int].start as int)
        && t[roots[i] as int].start <= t[roots[j] as int].start by {
        assert(node_renders(t, content, path, kind, scope, name, r[i], roots[i], kept_order(t, kind, scope, name).len()));
        assert(node_renders(t, content, path, kind, scope, name, r[j], roots[j], kept_order(t, kind, scope, name).len()));
        assert(pos_lt(t, roots[i], roots[j]));
    }
}

/// The roots of a `hir/getSymbols` answer come line by line: no root
/// starts on a later line than a root after it.
pub proof fn law_symbol_tree_roots_by_line(
    t: Seq<Symbol>,
    content: Seq<char>,
    path: Seq<char>,
    kind: Option<Seq<char>>,
    scope: Option<Seq<char>>,
    name: Option<Seq<char>>,
    r: Seq<SymbolOut>,
)
    requires
        forest_renders(t, content, path, kind, scope, name, r),
    ensures
        forall|i: int, j: int| 0 <= i < j < r.len() ==> (#[trigger] r[i]).range.start.line <= (#[trigger] r[j]).range.start.line,
{
    law_symbol_tree_roots_in_source_order(t, content, path, kind, scope, name, r);
    let roots = children_in(t, kind, scope, name, None);
    assert forall|i: int, j: int| 0 <= i < j < r.len() implies (#[trigger] r[i]).range.start.line <= (#[trigger] r[j]).range.start.line by {
        let ri = r[i];
        let rj = r[j];
        assert(ri.range.start == position_of(content, t[roots[i] as int].start as int));
        assert(t[roots[i] as int].start <= t[roots[j] as int].start);
        crate::positions::lemma_line_monotone(content, t[roots[i] as int].start as int, t[roots[j] as int].start as int);
    }
}

} // verus!
