//! The language server's `workspace/executeCommand` decisions: which
//! command a name stands for, the argument lists they accept, which project
//! configurations `projectInfo` reports, and the reply of the retired HMI
//! commands.

use vstd::prelude::*;
use crate::text::str_eq;

verus! {

broadcast use vstd::string::group_string_axioms;

pub const MOVE_NAMESPACE_COMMAND: &'static str = "trust-lsp.moveNamespace";

pub const PROJECT_INFO_COMMAND: &'static str = "trust-lsp.projectInfo";

pub const HMI_INIT_COMMAND: &'static str = "trust-lsp.hmiInit";

pub const HMI_BINDINGS_COMMAND: &'static str = "trust-lsp.hmiBindings";

pub const HMI_DEPRECATION_MESSAGE: &'static str = "DEPRECATED: HMI commands moved to trust-hmi-gen. Will be removed in v2.1.";

/// The commands the server executes.
#[derive(PartialEq, Eq, Structural, Clone, Copy, Debug)]
pub enum WorkspaceCommand {
    MoveNamespace,
    ProjectInfo,
    HmiInit,
    HmiBindings,
}

/// The command a name stands for.
pub open spec fn command_spec(name: Seq<char>) -> Option<WorkspaceCommand> {
    if name == MOVE_NAMESPACE_COMMAND@ {
        Some(WorkspaceCommand::MoveNamespace)
    } else if name == PROJECT_INFO_COMMAND@ {
        Some(WorkspaceCommand::ProjectInfo)
    } else if name == HMI_INIT_COMMAND@ {
        Some(WorkspaceCommand::HmiInit)
    } else if name == HMI_BINDINGS_COMMAND@ {
        Some(WorkspaceCommand::HmiBindings)
    } else {
        None
    }
}

/// The command a name stands for; unknown names are answered with nothing.
pub fn command_for_name(name: &str) -> (r: Option<WorkspaceCommand>)
    ensures
        r == command_spec(name@),
{
    if str_eq(name, MOVE_NAMESPACE_COMMAND) {
        Some(WorkspaceCommand::MoveNamespace)
    } else if str_eq(name, PROJECT_INFO_COMMAND) {
        Some(WorkspaceCommand::ProjectInfo)
    } else if str_eq(name, HMI_INIT_COMMAND) {
        Some(WorkspaceCommand::HmiInit)
    } else if str_eq(name, HMI_BINDINGS_COMMAND) {
        Some(WorkspaceCommand::HmiBindings)
    } else {
        None
    }
}

/// The only argument of a list that holds exactly one.
pub fn sole_argument<T>(args: Vec<T>) -> (r: Option<T>)
    ensures
        args@.len() == 1 ==> r == Some(args@[0]),
        args@.len() != 1 ==> r is None,
{
    if args.len() != 1 {
        return None;
    }
    let mut args = args;
    args.pop()
}

/// Configurations rooted at `uri`.
pub open spec fn has_root<T>(uri: Seq<char>) -> spec_fn((String, T)) -> bool {
    |c: (String, T)| c.0@ == uri
}

/// The configurations rooted at `root_uri`, in order.
pub fn retain_root<T>(configs: Vec<(String, T)>, root_uri: &str) -> (r: Vec<(String, T)>)
    ensures
        r@ == configs@.filter(has_root::<T>(root_uri@)),
{
    let ghost orig = configs@;
    let ghost f = has_root::<T>(root_uri@);
    let mut rest = configs;
    let mut out: Vec<(String, T)> = Vec::new();
    let ghost mut k: int = 0;
    assert(orig.subrange(0, orig.len() as int) =~= orig);
    assert(orig.take(0) =~= Seq::<(String, T)>::empty());
    proof {
        reveal_with_fuel(Seq::filter, 1);
    }
    while rest.len() > 0
        invariant
            0 <= k <= orig.len(),
            f == has_root::<T>(root_uri@),
            rest@ == orig.subrange(k, orig.len() as int),
            out@ == orig.take(k).filter(f),
        decreases rest@.len(),
    {
        let c = rest.remove(0);
        proof {
            reveal_with_fuel(Seq::filter, 1);
            assert(orig.take(k + 1).drop_last() =~= orig.take(k));
            assert(orig.take(k + 1).last() == c);
        }
        if str_eq(c.0.as_str(), root_uri) {
            out.push(c);
        }
        proof {
            k = k + 1;
        }
        assert(rest@ =~= orig.subrange(k, orig.len() as int));
    }
    assert(orig.take(orig.len() as int) =~= orig);
    out
}

/// What the single argument of `projectInfo` asked for, once parsed: one
/// project root, the project of a document (with that project's root URI
/// and configuration when the document belongs to one), or nothing.
pub enum ProjectInfoSelection<T> {
    Root(String),
    Document(Option<(String, T)>),
    Unspecified,
}

/// The configurations that `projectInfo` reports.
pub open spec fn selected_configs<T>(configs: Seq<(String, T)>, selection: Option<ProjectInfoSelection<T>>) -> Seq<(String, T)> {
    match selection {
        Some(ProjectInfoSelection::Root(uri)) => configs.filter(has_root::<T>(uri@)),
        Some(ProjectInfoSelection::Document(Some(c))) => seq![c],
        _ => configs,
    }
}

/// The configurations that `projectInfo` reports: all of them, unless the
/// argument names a root (those rooted there) or a document that belongs to
/// a project (that project alone).
pub fn select_project_configs<T>(configs: Vec<(String, T)>, selection: Option<ProjectInfoSelection<T>>) -> (r: Vec<(String, T)>)
    ensures
        r@ == selected_configs(configs@, selection),
{
    match selection {
        Some(ProjectInfoSelection::Root(uri)) => retain_root(configs, uri.as_str()),
        Some(ProjectInfoSelection::Document(Some(c))) => {
            let mut v: Vec<(String, T)> = Vec::new();
            v.push(c);
            v
        },
        _ => configs,
    }
}

/// The answer of a retired command.
pub struct CommandReply {
    pub ok: bool,
    pub error: String,
}

/// `trust-lsp.hmiInit`: retired; always answers that it moved.
pub fn hmi_init_value() -> (r: CommandReply)
    ensures
        !r.ok,
        r.error@ == HMI_DEPRECATION_MESSAGE@,
{
    CommandReply { ok: false, error: String::from_str(HMI_DEPRECATION_MESSAGE) }
}

/// `trust-lsp.hmiBindings`: retired; always answers that it moved.
pub fn hmi_bindings_value() -> (r: CommandReply)
    ensures
        !r.ok,
        r.error@ == HMI_DEPRECATION_MESSAGE@,
{
    CommandReply { ok: false, error: String::from_str(HMI_DEPRECATION_MESSAGE) }
}

/// Build settings of a project configuration or of one of its targets.
pub struct BuildSettings {
    pub target: Option<String>,
    pub profile: Option<String>,
    pub flags: Vec<String>,
    pub defines: Vec<String>,
}

/// A named build target of a project configuration.
pub struct TargetSettings {
    pub name: String,
    pub profile: Option<String>,
    pub flags: Vec<String>,
    pub defines: Vec<String>,
}

/// What `projectInfo` reports of a project configuration: the file it was
/// read from, its build settings and its targets.
pub struct ProjectConfigView {
    pub config_path: Option<String>,
    pub build: BuildSettings,
    pub targets: Vec<TargetSettings>,
}

/// A dependency of a library: its name and the version asked for.
pub struct LibraryDependency {
    pub name: String,
    pub version: Option<String>,
}

/// A library of a project's library graph.
pub struct LibraryNode {
    pub name: String,
    pub version: Option<String>,
    pub path: String,
    pub dependencies: Vec<LibraryDependency>,
}

/// The `projectInfo` entry of one project.
pub struct ProjectInfo {
    pub root: String,
    pub config_path: Option<String>,
    pub build: BuildSettings,
    pub targets: Vec<TargetSettings>,
    pub libraries: Vec<LibraryNode>,
}

/// The `projectInfo` entry of a project: its root URI, its configuration's
/// path, build settings and targets (in order), and the libraries of its
/// library graph (in order, each with its dependencies).
pub fn project_info_for_config(root: String, config: ProjectConfigView, graph: Vec<LibraryNode>) -> (r: ProjectInfo)
    ensures
        r.root@ == root@,
        r.config_path == config.config_path,
        r.build == config.build,
        r.targets@ == config.targets@,
        r.libraries@ == graph@,
{
    ProjectInfo {
        root,
        config_path: config.config_path,
        build: config.build,
        targets: config.targets,
        libraries: graph,
    }
}

} // verus!
