//! The HIR daemon's request handlers over a loaded project: parameter
//! checks, path resolution and the queries they answer.

use vstd::prelude::*;
use crate::paths::{validate_path, validate_spec};
use crate::project::{
    build_snapshot, collect_all_diagnostics, collect_all_symbols, collect_all_types, collect_file_diagnostics,
    collect_file_types, concatenates, file_diagnostics_render, file_path_or_default, file_types_render, path_or_empty,
    DiagnosticOut, SnapshotOut, SourceFile, TypeOut,
};
use crate::protocol::{RpcError, INVALID_PARAMS, NOT_INITIALIZED};
use crate::symbol_tree::{build_symbol_tree, forest_renders, ids_unique, opt_view, SymbolOut};
use crate::hmi_toml::{extension_exec, extension_spec, file_name_exec, file_name_spec};
use crate::text::{chars_of, concat2, lower_seq, str_eq, string_of, to_ascii_lowercase};

verus! {

/// A loaded project: the root it was loaded from and its source files.
pub struct ProjectState {
    pub root: String,
    pub files: Vec<SourceFile>,
}

/// The project's symbol tables give each symbol its own id.
pub open spec fn project_wf(p: ProjectState) -> bool {
    forall|k: int| 0 <= k < p.files@.len() ==> ids_unique(#[trigger] p.files@[k].table.symbols@)
}

/// The error of a refused path, by code.
pub open spec fn path_error_message(code: i32) -> Seq<char> {
    if code == INVALID_PARAMS {
        "Path contains null bytes"@
    } else {
        "Path escapes workspace root"@
    }
}

/// Index of the first file whose display path is `p`.
pub open spec fn file_index_for(files: Seq<SourceFile>, p: Seq<char>) -> Option<int>
    decreases files.len(),
{
    if files.len() == 0 {
        None
    } else {
        match file_index_for(files.drop_last(), p) {
            Some(i) => Some(i),
            None => if files.last().path matches Some(q) && q@ == p { Some(files.len() - 1) } else { None },
        }
    }
}

/// The file a requested path names: the path is validated against the
/// root, then looked up among the files.
pub open spec fn resolve_spec(files: Seq<SourceFile>, root: Seq<char>, input: Seq<char>) -> Result<int, (i32, Seq<char>)> {
    match validate_spec(input, root) {
        Err(code) => Err((code, path_error_message(code))),
        Ok(p) => match file_index_for(files, p) {
            Some(i) => Ok(i),
            None => Err((NOT_INITIALIZED, "File not found in project"@)),
        },
    }
}

proof fn lemma_file_index_bounds(files: Seq<SourceFile>, p: Seq<char>)
    ensures
        file_index_for(files, p) matches Some(i) ==> 0 <= i < files.len(),
    decreases files.len(),
{
    if files.len() > 0 {
        lemma_file_index_bounds(files.drop_last(), p);
    }
}

proof fn lemma_file_index_found(files: Seq<SourceFile>, p: Seq<char>, i: int)
    requires
        0 <= i <= files.len(),
        file_index_for(files.take(i), p) is Some,
    ensures
        file_index_for(files, p) == file_index_for(files.take(i), p),
    decreases files.len() - i,
{
    if i < files.len() {
        assert(files.take(i + 1).drop_last() =~= files.take(i));
        lemma_file_index_found(files, p, i + 1);
    } else {
        assert(files.take(i) =~= files);
    }
}

/// The index of the first file whose display path is `p`.
pub fn find_file(files: &Vec<SourceFile>, p: &str) -> (r: Option<usize>)
    ensures
        match file_index_for(files@, p@) {
            Some(i) => r == Some(i as usize),
            None => r is None,
        },
        r matches Some(i) ==> i < files@.len(),
        file_index_for(files@, p@) matches Some(i) ==> 0 <= i < files@.len(),
{
    proof {
        lemma_file_index_bounds(files@, p@);
    }
    let mut i: usize = 0;
    assert(files@.take(0) =~= Seq::<SourceFile>::empty());
    while i < files.len()
        invariant
            i <= files@.len(),
            file_index_for(files@.take(i as int), p@) is None,
        decreases files@.len() - i,
    {
        assert(files@.take(i + 1).drop_last() =~= files@.take(i as int));
        let hit = match &files[i].path {
            Some(q) => crate::text::str_eq(q.as_str(), p),
            None => false,
        };
        if hit {
            proof {
                lemma_file_index_found(files@, p@, i + 1);
            }
            return Some(i);
        }
        i = i + 1;
    }
    assert(files@.take(files@.len() as int) =~= files@);
    None
}

/// Resolves a requested file path to one of the project's files.
pub fn resolve_file(project: &ProjectState, file_path: &str) -> (r: Result<usize, RpcError>)
    ensures
        match resolve_spec(project.files@, project.root@, file_path@) {
            Ok(i) => r == Ok::<usize, RpcError>(i as usize) && i < project.files@.len(),
            Err((code, msg)) => r matches Err(e) && e.code == code && e.message@ == msg,
        },
        r matches Ok(i) ==> i < project.files@.len() && resolve_spec(project.files@, project.root@, file_path@) == Ok::<int, (i32, Seq<char>)>(i as int),
{
    proof {
        lemma_file_index_bounds(project.files@, validate_spec(file_path@, project.root@)->Ok_0);
    }
    let path = match validate_path(file_path, project.root.as_str()) {
        Ok(p) => p,
        Err(e) => return Err(e),
    };
    assert(validate_spec(file_path@, project.root@) == Ok::<Seq<char>, i32>(path@));
    let ps = path.as_str();
    assert(ps@ == path@);
    match find_file(&project.files, ps) {
        Some(i) => {
            assert(file_index_for(project.files@, ps@) is Some);
            let ghost j = file_index_for(project.files@, ps@)->Some_0;
            assert(0 <= j < project.files@.len());
            assert(project.files@.len() == project.files.len());
            assert(j <= usize::MAX);
            assert(i == j as usize);
            assert(file_index_for(project.files@, ps@) == Some(j));
            assert(j == i as int);
            assert(resolve_spec(project.files@, project.root@, file_path@) == Ok::<int, (i32, Seq<char>)>(i as int));
            Ok(i)
        },
        None => Err(RpcError::new(NOT_INITIALIZED, "File not found in project")),
    }
}

/// The daemon's state: the loaded project, once `hir/initialize` succeeded.
pub struct DaemonState {
    pub project_state: Option<ProjectState>,
}

impl DaemonState {
    /// A daemon with no project loaded.
    pub fn new() -> (r: Self)
        ensures
            r.project_state is None,
    {
        DaemonState { project_state: None }
    }

    /// Installs a loaded project, replacing any earlier one.
    pub fn initialize(&mut self, project: ProjectState)
        ensures
            final(self).project_state == Some(project),
    {
        self.project_state = Some(project);
    }

    /// The loaded project, or `Project not initialized`.
    pub fn with_state(&self) -> (r: Result<&ProjectState, RpcError>)
        ensures
            match self.project_state {
                Some(p) => r == Ok::<&ProjectState, RpcError>(&p),
                None => r matches Err(e) && e.code == NOT_INITIALIZED && e.message@ == "Project not initialized"@,
            },
    {
        match &self.project_state {
            Some(p) => Ok(p),
            None => Err(RpcError::new(NOT_INITIALIZED, "Project not initialized")),
        }
    }
}

impl Default for DaemonState {
    fn default() -> (r: Self)
        ensures
            r.project_state is None,
    {
        DaemonState::new()
    }
}

impl ProjectState {
    /// The root the project was loaded from.
    pub fn project_root(&self) -> (r: &str)
        ensures
            r@ == self.root@,
    {
        self.root.as_str()
    }
}

/// The extensions of Structured Text sources (compared in lower case).
pub open spec fn source_extension(e: Seq<char>) -> bool {
    let l = lower_seq(e);
    l == "st"@ || l == "pou"@ || l == "gvl"@
}

/// A path that the project loaders read as a source file: its extension is
/// `st`, `pou` or `gvl`, in any case.
pub open spec fn source_path_spec(path: Seq<char>) -> bool {
    match file_name_spec(path) {
        None => false,
        Some(n) => match extension_spec(n) {
            None => false,
            Some(e) => source_extension(e),
        },
    }
}

/// Whether the project loaders read a file as a source file.
pub fn is_st_source_path(path: &str) -> (r: bool)
    ensures
        r == source_path_spec(path@),
{
    let cs = chars_of(path);
    let name = match file_name_exec(&cs) {
        None => return false,
        Some(n) => n,
    };
    let ext = match extension_exec(&name) {
        None => return false,
        Some(e) => e,
    };
    let s = string_of(ext.as_slice());
    let l = to_ascii_lowercase(s.as_str());
    str_eq(l.as_str(), "st") || str_eq(l.as_str(), "pou") || str_eq(l.as_str(), "gvl")
}

/// `hir/shutdown`: acknowledged with an empty answer.
pub fn handle_shutdown(state: &DaemonState) -> (r: Result<(), RpcError>)
    ensures
        r is Ok,
{
    Ok(())
}

/// `hir/getSymbols`: the symbol trees of one file (when `file_path` is
/// given) or of every file, narrowed by kind, scope and name.
pub fn handle_get_symbols(
    state: &DaemonState,
    file_path: Option<&str>,
    kind_filter: Option<&str>,
    scope_filter: Option<&str>,
    name_filter: Option<&str>,
) -> (r: Result<Vec<SymbolOut>, RpcError>)
    requires
        state.project_state matches Some(p) ==> project_wf(p),
    ensures
        match state.project_state {
            None => r matches Err(e) && e.code == NOT_INITIALIZED && e.message@ == "Project not initialized"@,
            Some(p) => match file_path {
                Some(fp) => match resolve_spec(p.files@, p.root@, fp@) {
                    Err((code, msg)) => r matches Err(e) && e.code == code && e.message@ == msg,
                    Ok(i) => r matches Ok(v) && forest_renders(p.files@[i].table.symbols@, p.files@[i].content@, path_or_empty(p.files@[i]), opt_view(kind_filter), opt_view(scope_filter), opt_view(name_filter), v@),
                },
                None => r matches Ok(v) && exists|parts: Seq<Seq<SymbolOut>>| #![trigger concatenates(v@, parts)] {
                    &&& parts.len() == p.files@.len()
                    &&& concatenates(v@, parts)
                    &&& forall|k: int| 0 <= k < p.files@.len() ==> forest_renders(#[trigger] p.files@[k].table.symbols@, p.files@[k].content@, path_or_empty(p.files@[k]), opt_view(kind_filter), opt_view(scope_filter), opt_view(name_filter), parts[k])
                },
            },
        },
{
    let project = match state.with_state() {
        Ok(p) => p,
        Err(e) => return Err(e),
    };
    match file_path {
        Some(fp) => {
            let i = match resolve_file(project, fp) {
                Ok(i) => i,
                Err(e) => return Err(e),
            };
            let f = &project.files[i];
            let path = file_path_or_default(f);
            assert(ids_unique(project.files@[i as int].table.symbols@));
            build_symbol_tree(&f.table, f.content.as_str(), path.as_str(), kind_filter, scope_filter, name_filter)
        },
        None => collect_all_symbols(&project.files, kind_filter, scope_filter, name_filter),
    }
}

/// `hir/getTypes`: the type declarations of one file or of every file,
/// narrowed by name.
pub fn handle_get_types(state: &DaemonState, file_path: Option<&str>, name_filter: Option<&str>) -> (r: Result<Vec<TypeOut>, RpcError>)
    ensures
        match state.project_state {
            None => r matches Err(e) && e.code == NOT_INITIALIZED && e.message@ == "Project not initialized"@,
            Some(p) => match file_path {
                Some(fp) => match resolve_spec(p.files@, p.root@, fp@) {
                    Err((code, msg)) => r matches Err(e) && e.code == code && e.message@ == msg,
                    Ok(i) => r matches Ok(v) && file_types_render(v@, p.files@[i], opt_view(name_filter)),
                },
                None => r matches Ok(v) && exists|parts: Seq<Seq<TypeOut>>| #![trigger concatenates(v@, parts)] {
                    &&& parts.len() == p.files@.len()
                    &&& concatenates(v@, parts)
                    &&& forall|k: int| 0 <= k < p.files@.len() ==> file_types_render(#[trigger] parts[k], p.files@[k], opt_view(name_filter))
                },
            },
        },
{
    let project = match state.with_state() {
        Ok(p) => p,
        Err(e) => return Err(e),
    };
    match file_path {
        Some(fp) => {
            let i = match resolve_file(project, fp) {
                Ok(i) => i,
                Err(e) => return Err(e),
            };
            collect_file_types(&project.files[i], name_filter)
        },
        None => collect_all_types(&project.files, name_filter),
    }
}

/// `hir/getDiagnostics`: the diagnostics of one file or of every file.
pub fn handle_get_diagnostics(state: &DaemonState, file_path: Option<&str>) -> (r: Result<Vec<DiagnosticOut>, RpcError>)
    ensures
        match state.project_state {
            None => r matches Err(e) && e.code == NOT_INITIALIZED && e.message@ == "Project not initialized"@,
            Some(p) => match file_path {
                Some(fp) => match resolve_spec(p.files@, p.root@, fp@) {
                    Err((code, msg)) => r matches Err(e) && e.code == code && e.message@ == msg,
                    Ok(i) => r matches Ok(v) && file_diagnostics_render(v@, p.files@[i]),
                },
                None => r matches Ok(v) && exists|parts: Seq<Seq<DiagnosticOut>>| #![trigger concatenates(v@, parts)] {
                    &&& parts.len() == p.files@.len()
                    &&& concatenates(v@, parts)
                    &&& forall|k: int| 0 <= k < p.files@.len() ==> file_diagnostics_render(#[trigger] parts[k], p.files@[k])
                },
            },
        },
{
    let project = match state.with_state() {
        Ok(p) => p,
        Err(e) => return Err(e),
    };
    match file_path {
        Some(fp) => {
            let i = match resolve_file(project, fp) {
                Ok(i) => i,
                Err(e) => return Err(e),
            };
            collect_file_diagnostics(&project.files[i])
        },
        None => collect_all_diagnostics(&project.files),
    }
}

/// `hir/updateFile`: checks the parameters and the path; on success gives
/// the validated path under which the new content is to be stored.
pub fn handle_update_file(state: &DaemonState, file_path: Option<&str>, content: Option<&str>) -> (r: Result<String, RpcError>)
    ensures
        match state.project_state {
            None => r matches Err(e) && e.code == NOT_INITIALIZED && e.message@ == "Project not initialized"@,
            Some(p) => match (file_path, content) {
                (None, _) => r matches Err(e) && e.code == INVALID_PARAMS && e.message@ == "Missing filePath"@,
                (Some(_), None) => r matches Err(e) && e.code == INVALID_PARAMS && e.message@ == "Missing content"@,
                (Some(fp), Some(_)) => match validate_spec(fp@, p.root@) {
                    Ok(path) => r matches Ok(s) && s@ == path,
                    Err(code) => r matches Err(e) && e.code == code && e.message@ == path_error_message(code),
                },
            },
        },
{
    let project = match state.with_state() {
        Ok(p) => p,
        Err(e) => return Err(e),
    };
    let fp = match file_path {
        Some(fp) => fp,
        None => return Err(RpcError::new(INVALID_PARAMS, "Missing filePath")),
    };
    match content {
        Some(_) => {},
        None => return Err(RpcError::new(INVALID_PARAMS, "Missing content")),
    }
    validate_path(fp, project.root.as_str())
}

/// `hir/getReferences`: checks the parameters; gives the qualified name's
/// parts and whether declarations count (default: yes).
pub fn handle_get_references(state: &DaemonState, symbol_id: Option<&str>, include_declaration: Option<bool>) -> (r: Result<(Vec<String>, bool), RpcError>)
    ensures
        match state.project_state {
            None => r matches Err(e) && e.code == NOT_INITIALIZED && e.message@ == "Project not initialized"@,
            Some(_) => match symbol_id {
                None => r matches Err(e) && e.code == INVALID_PARAMS && e.message@ == "Missing symbolId"@,
                Some(id) => r matches Ok((parts, incl)) && incl == (match include_declaration { Some(b) => b, None => true })
                    && parts@.len() == crate::project::split_dots(id@).len()
                    && forall|k: int| 0 <= k < parts@.len() ==> (#[trigger] parts@[k])@ == crate::project::split_dots(id@)[k],
            },
        },
{
    if let Err(e) = state.with_state() {
        return Err(e);
    }
    let id = match symbol_id {
        Some(id) => id,
        None => return Err(RpcError::new(INVALID_PARAMS, "Missing symbolId")),
    };
    let incl = match include_declaration {
        Some(b) => b,
        None => true,
    };
    Ok((crate::project::split_qualified_name(id), incl))
}

/// `hir/snapshot`: the project snapshot, stamped with the export time.
pub fn handle_snapshot(state: &DaemonState, export_secs: u64) -> (r: Result<SnapshotOut, RpcError>)
    requires
        state.project_state matches Some(p) ==> project_wf(p),
    ensures
        state.project_state is None ==> (r matches Err(e) && e.code == NOT_INITIALIZED && e.message@ == "Project not initialized"@),
        state.project_state matches Some(p) ==> (r matches Ok(snap) && crate::project::snapshot_renders(
            snap,
            p.files@,
            p.root@,
            export_secs,
        )),
{
    let project = match state.with_state() {
        Ok(p) => p,
        Err(e) => return Err(e),
    };
    build_snapshot(&project.files, project.root.as_str(), export_secs)
}

/// `hir/initialize`: the project path to load, or why not: a missing
/// parameter, or a path that does not exist (`exists` tells).
pub fn handle_initialize(project_path: Option<&str>, exists: bool) -> (r: Result<String, RpcError>)
    ensures
        match project_path {
            None => r matches Err(e) && e.code == INVALID_PARAMS && e.message@ == "Missing projectPath"@,
            Some(p) => if exists {
                r matches Ok(s) && s@ == p@
            } else {
                r matches Err(e) && e.code == NOT_INITIALIZED && e.message@ == "Project path does not exist: "@ + p@
            },
        },
{
    let p = match project_path {
        Some(p) => p,
        None => return Err(RpcError::new(INVALID_PARAMS, "Missing projectPath")),
    };
    if !exists {
        return Err(RpcError { code: NOT_INITIALIZED, message: concat2("Project path does not exist: ", p) });
    }
    Ok(String::from_str(p))
}

/// The error reported when loading the project failed.
pub fn initialize_failure(detail: &str) -> (e: RpcError)
    ensures
        e.code == NOT_INITIALIZED,
        e.message@ == "Failed to initialize project: "@ + detail@,
{
    RpcError { code: NOT_INITIALIZED, message: concat2("Failed to initialize project: ", detail) }
}

/// A file index found by path lookup is a valid index.
pub proof fn lemma_file_index_bounds_pub(files: Seq<SourceFile>, p: Seq<char>)
    ensures
        file_index_for(files, p) matches Some(i) ==> 0 <= i < files.len(),
{
    lemma_file_index_bounds(files, p);
}

} // verus!
