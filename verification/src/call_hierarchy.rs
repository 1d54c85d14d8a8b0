//! The HIR daemon's `hir/getCallHierarchy`, `hir/getFileSymbols`,
//! `hir/getProjectSymbols` and `hir/health` methods.

use vstd::prelude::*;
use crate::daemon::{handle_get_symbols, project_wf, resolve_spec, DaemonState};
use crate::index::{any_name, CallEdge};
use crate::project::{concatenates, file_path_or_default, path_or_empty, SourceFile};
use crate::protocol::{RpcError, INVALID_PARAMS, NOT_INITIALIZED};
use crate::symbol_tree::{forest_renders, SymbolOut};
use crate::text::{eq_ignore_ascii_case, eq_ignore_case_spec};

verus! {

broadcast use vstd::string::group_string_axioms;

/// One call: the calling and the called symbol, the files they are
/// declared in, and the line of the call.
pub struct CallOut {
    pub caller: String,
    pub callee: String,
    pub caller_file: String,
    pub callee_file: String,
    pub line: u32,
}

/// The calls into a symbol and the calls out of it.
pub struct CallHierarchyOut {
    pub incoming: Vec<CallOut>,
    pub outgoing: Vec<CallOut>,
}

pub type CallV = (Seq<char>, Seq<char>, Seq<char>, Seq<char>, u32);

pub open spec fn call_v(c: CallOut) -> CallV {
    (c.caller@, c.callee@, c.caller_file@, c.callee_file@, c.line)
}

pub open spec fn calls_v(s: Seq<CallOut>) -> Seq<CallV> {
    s.map_values(|c: CallOut| call_v(c))
}

/// A call's ends are declared in files of the project.
pub open spec fn edge_in(files: Seq<SourceFile>, e: CallEdge) -> bool {
    e.caller_file < files.len() && e.callee_file < files.len()
}

/// The value of a call: both ends by name, with their files' paths.
pub open spec fn edge_view(files: Seq<SourceFile>, e: CallEdge) -> CallV {
    (
        any_name(files[e.caller_file as int].table.symbols@, e.caller_symbol),
        any_name(files[e.callee_file as int].table.symbols@, e.callee_symbol),
        path_or_empty(files[e.caller_file as int]),
        path_or_empty(files[e.callee_file as int]),
        e.line,
    )
}

/// The calls, in order, whose callee (`incoming`) or caller (otherwise) is
/// named `name` up to ASCII case.
pub open spec fn calls_named(files: Seq<SourceFile>, edges: Seq<CallEdge>, name: Seq<char>, incoming: bool) -> Seq<CallV>
    decreases edges.len(),
{
    if edges.len() == 0 {
        Seq::empty()
    } else {
        let v = edge_view(files, edges.last());
        let end = if incoming { v.1 } else { v.0 };
        calls_named(files, edges.drop_last(), name, incoming) + if eq_ignore_case_spec(end, name) {
            seq![v]
        } else {
            Seq::empty()
        }
    }
}

fn name_in(f: &SourceFile, id: u32) -> (r: String)
    ensures
        r@ == any_name(f.table.symbols@, id),
{
    match f.table.get(id) {
        Some(s) => s.name.clone(),
        None => String::new(),
    }
}

fn collect_calls(files: &Vec<SourceFile>, edges: &Vec<CallEdge>, name: &str, incoming: bool) -> (r: Vec<CallOut>)
    requires
        forall|k: int| 0 <= k < edges@.len() ==> edge_in(files@, #[trigger] edges@[k]),
    ensures
        calls_v(r@) == calls_named(files@, edges@, name@, incoming),
{
    let mut out: Vec<CallOut> = Vec::new();
    let mut k: usize = 0;
    while k < edges.len()
        invariant
            k <= edges@.len(),
            forall|m: int| 0 <= m < edges@.len() ==> edge_in(files@, #[trigger] edges@[m]),
            calls_v(out@) == calls_named(files@, edges@.take(k as int), name@, incoming),
        decreases edges@.len() - k,
    {
        let e = &edges[k];
        assert(edge_in(files@, edges@[k as int]));
        proof {
            assert(edges@.take(k + 1).drop_last() =~= edges@.take(k as int));
            assert(edges@.take(k + 1).last() == *e);
        }
        let caller = name_in(&files[e.caller_file], e.caller_symbol);
        let callee = name_in(&files[e.callee_file], e.callee_symbol);
        let hit = if incoming {
            eq_ignore_ascii_case(callee.as_str(), name)
        } else {
            eq_ignore_ascii_case(caller.as_str(), name)
        };
        let ghost before = calls_v(out@);
        if hit {
            let c = CallOut {
                caller,
                callee,
                caller_file: file_path_or_default(&files[e.caller_file]),
                callee_file: file_path_or_default(&files[e.callee_file]),
                line: e.line,
            };
            assert(call_v(c) == edge_view(files@, *e));
            out.push(c);
            assert(calls_v(out@) =~= before + seq![edge_view(files@, *e)]);
        } else {
            assert(calls_v(out@) =~= before + Seq::<CallV>::empty());
        }
        k = k + 1;
    }
    assert(edges@.take(edges@.len() as int) =~= edges@);
    out
}

/// `hir/getCallHierarchy`: the calls into the symbol named `symbolId` (up
/// to ASCII case) and the calls out of it, among the project's calls
/// `edges`, in edge order.
pub fn handle_get_call_hierarchy(state: &DaemonState, symbol_id: Option<&str>, edges: &Vec<CallEdge>) -> (r: Result<
    CallHierarchyOut,
    RpcError,
>)
    requires
        state.project_state matches Some(p) ==> forall|k: int|
            0 <= k < edges@.len() ==> edge_in(p.files@, #[trigger] edges@[k]),
    ensures
        match state.project_state {
            None => r matches Err(e) && e.code == NOT_INITIALIZED && e.message@ == "Project not initialized"@,
            Some(p) => match symbol_id {
                None => r matches Err(e) && e.code == INVALID_PARAMS && e.message@ == "Missing symbolId"@,
                Some(s) => r matches Ok(h) && calls_v(h.incoming@) == calls_named(p.files@, edges@, s@, true)
                    && calls_v(h.outgoing@) == calls_named(p.files@, edges@, s@, false),
            },
        },
{
    let project = match &state.project_state {
        Some(p) => p,
        None => return Err(RpcError::new(NOT_INITIALIZED, "Project not initialized")),
    };
    let name = match symbol_id {
        Some(s) => s,
        None => return Err(RpcError::new(INVALID_PARAMS, "Missing symbolId")),
    };
    let incoming = collect_calls(&project.files, edges, name, true);
    let outgoing = collect_calls(&project.files, edges, name, false);
    Ok(CallHierarchyOut { incoming, outgoing })
}

/// `hir/getFileSymbols`: every symbol of one file, as a tree.
pub fn handle_get_file_symbols(state: &DaemonState, file_path: Option<&str>) -> (r: Result<Vec<SymbolOut>, RpcError>)
    requires
        state.project_state matches Some(p) ==> project_wf(p),
    ensures
        match state.project_state {
            None => r matches Err(e) && e.code == NOT_INITIALIZED && e.message@ == "Project not initialized"@,
            Some(p) => match file_path {
                None => r matches Err(e) && e.code == INVALID_PARAMS && e.message@ == "Missing filePath"@,
                Some(fp) => match resolve_spec(p.files@, p.root@, fp@) {
                    Err((code, msg)) => r matches Err(e) && e.code == code && e.message@ == msg,
                    Ok(i) => r matches Ok(v) && forest_renders(
                        p.files@[i].table.symbols@,
                        p.files@[i].content@,
                        path_or_empty(p.files@[i]),
                        None,
                        None,
                        None,
                        v@,
                    ),
                },
            },
        },
{
    if state.project_state.is_none() {
        return Err(RpcError::new(NOT_INITIALIZED, "Project not initialized"));
    }
    match file_path {
        None => Err(RpcError::new(INVALID_PARAMS, "Missing filePath")),
        Some(fp) => handle_get_symbols(state, Some(fp), None, None, None),
    }
}

/// `hir/getProjectSymbols`: every symbol of the project, file after file.
pub fn handle_get_project_symbols(state: &DaemonState) -> (r: Result<Vec<SymbolOut>, RpcError>)
    requires
        state.project_state matches Some(p) ==> project_wf(p),
    ensures
        match state.project_state {
            None => r matches Err(e) && e.code == NOT_INITIALIZED && e.message@ == "Project not initialized"@,
            Some(p) => r matches Ok(v) && exists|parts: Seq<Seq<SymbolOut>>| #![trigger concatenates(v@, parts)] {
                &&& parts.len() == p.files@.len()
                &&& concatenates(v@, parts)
                &&& forall|k: int| 0 <= k < p.files@.len() ==> forest_renders(
                    #[trigger] p.files@[k].table.symbols@,
                    p.files@[k].content@,
                    path_or_empty(p.files@[k]),
                    None,
                    None,
                    None,
                    parts[k],
                )
            },
        },
{
    handle_get_symbols(state, None, None, None, None)
}

/// The answer of `hir/health`.
pub struct HealthOut {
    pub status: String,
    pub initialized: bool,
    pub file_count: usize,
}

/// `hir/health`: the daemon answers, whether a project is loaded, and how
/// many files it has (0 when none is loaded).
pub fn handle_health(state: &DaemonState) -> (r: HealthOut)
    ensures
        r.status@ == "ok"@,
        r.initialized == (state.project_state is Some),
        r.file_count == match state.project_state {
            Some(p) => p.files@.len(),
            None => 0,
        },
{
    let (initialized, file_count) = match &state.project_state {
        Some(p) => (true, p.files.len()),
        None => (false, 0),
    };
    HealthOut { status: String::from_str("ok"), initialized, file_count }
}

} // verus!
