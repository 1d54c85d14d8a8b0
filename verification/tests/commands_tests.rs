use trust_platform::lsp_commands::{
    command_for_name, hmi_bindings_value, hmi_init_value, project_info_for_config, retain_root, select_project_configs,
    sole_argument, BuildSettings, LibraryDependency, LibraryNode, ProjectConfigView, ProjectInfoSelection, TargetSettings,
    WorkspaceCommand, HMI_DEPRECATION_MESSAGE,
};

#[test]
fn command_names() {
    assert_eq!(command_for_name("trust-lsp.moveNamespace"), Some(WorkspaceCommand::MoveNamespace));
    assert_eq!(command_for_name("trust-lsp.projectInfo"), Some(WorkspaceCommand::ProjectInfo));
    assert_eq!(command_for_name("trust-lsp.hmiInit"), Some(WorkspaceCommand::HmiInit));
    assert_eq!(command_for_name("trust-lsp.hmiBindings"), Some(WorkspaceCommand::HmiBindings));
    assert_eq!(command_for_name("trust-lsp.other"), None);
}

#[test]
fn single_argument_lists() {
    assert_eq!(sole_argument(vec![7]), Some(7));
    assert_eq!(sole_argument::<i32>(vec![]), None);
    assert_eq!(sole_argument(vec![1, 2]), None);
}

fn configs() -> Vec<(String, u32)> {
    vec![
        ("file:///a".to_string(), 1),
        ("file:///b".to_string(), 2),
        ("file:///a".to_string(), 3),
    ]
}

#[test]
fn project_info_selection() {
    assert_eq!(retain_root(configs(), "file:///a"), vec![("file:///a".to_string(), 1), ("file:///a".to_string(), 3)]);
    assert_eq!(select_project_configs(configs(), None), configs());
    assert_eq!(
        select_project_configs(configs(), Some(ProjectInfoSelection::Root("file:///b".to_string()))),
        vec![("file:///b".to_string(), 2)]
    );
    assert_eq!(
        select_project_configs(configs(), Some(ProjectInfoSelection::Document(Some(("file:///c".to_string(), 9))))),
        vec![("file:///c".to_string(), 9)]
    );
    assert_eq!(select_project_configs(configs(), Some(ProjectInfoSelection::Document(None))), configs());
    assert_eq!(select_project_configs(configs(), Some(ProjectInfoSelection::Unspecified)), configs());
}

#[test]
fn retired_hmi_commands() {
    let a = hmi_init_value();
    let b = hmi_bindings_value();
    assert!(!a.ok && !b.ok);
    assert_eq!(a.error, "DEPRECATED: HMI commands moved to trust-hmi-gen. Will be removed in v2.1.");
    assert_eq!(b.error, HMI_DEPRECATION_MESSAGE);
}

#[test]
fn project_info_copies_config_and_graph() {
    let config = ProjectConfigView {
        config_path: Some("/ws/trust-lsp.toml".to_string()),
        build: BuildSettings {
            target: Some("x86_64".to_string()),
            profile: Some("release".to_string()),
            flags: vec!["-O".to_string()],
            defines: vec!["SIM".to_string()],
        },
        targets: vec![
            TargetSettings { name: "plc".to_string(), profile: None, flags: vec![], defines: vec!["HW".to_string()] },
            TargetSettings { name: "sim".to_string(), profile: Some("debug".to_string()), flags: vec![], defines: vec![] },
        ],
    };
    let graph = vec![LibraryNode {
        name: "std".to_string(),
        version: Some("1.0".to_string()),
        path: "/ws/libs/std".to_string(),
        dependencies: vec![LibraryDependency { name: "core".to_string(), version: None }],
    }];
    let info = project_info_for_config("file:///ws".to_string(), config, graph);
    assert_eq!(info.root, "file:///ws");
    assert_eq!(info.config_path.as_deref(), Some("/ws/trust-lsp.toml"));
    assert_eq!(info.build.profile.as_deref(), Some("release"));
    assert_eq!(info.build.defines, vec!["SIM".to_string()]);
    let names: Vec<&str> = info.targets.iter().map(|t| t.name.as_str()).collect();
    assert_eq!(names, vec!["plc", "sim"]);
    assert_eq!(info.libraries.len(), 1);
    assert_eq!(info.libraries[0].dependencies[0].name, "core");
}
