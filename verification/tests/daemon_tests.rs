use trust_platform::call_hierarchy::{
    handle_get_call_hierarchy, handle_get_file_symbols, handle_get_project_symbols, handle_health,
};
use trust_platform::daemon::{
    handle_get_diagnostics, handle_get_references, handle_get_symbols, handle_get_types, handle_initialize,
    handle_shutdown, handle_snapshot, handle_update_file, initialize_failure, is_st_source_path, resolve_file,
    DaemonState, ProjectState,
};
use trust_platform::index::{handle_index, select_index_files, CallEdge, FilePathsParam};
use trust_platform::positions::{build_range, offset_to_line_col};
use trust_platform::project::{split_qualified_name, HirDiagnostic, Severity, SourceFile};
use trust_platform::protocol::{INVALID_PARAMS, NOT_INITIALIZED, PATH_ESCAPE};
use trust_platform::symbols::{HirType, Symbol, SymbolKind, SymbolTable, TypeEntry, TypeName, TypeShape, ValueClass, VarQualifier};

const SOURCE: &str = "PROGRAM Main\nVAR x : INT; END_VAR\nEND_PROGRAM\nTYPE Color : (Red, Green); END_TYPE\n";

fn sym(id: u32, name: &str, kind: SymbolKind, type_id: u32, parent: Option<u32>) -> Symbol {
    let start = SOURCE.find(name).unwrap() as u32;
    Symbol { id, name: name.to_string(), kind, type_id, start, end: start + name.len() as u32, parent, persistence: None, edge: None }
}

fn project() -> ProjectState {
    let table = SymbolTable {
        symbols: vec![
            sym(1, "Main", SymbolKind::Program, 0, None),
            sym(2, "x", SymbolKind::Variable { qualifier: VarQualifier::Local }, 10, Some(1)),
            sym(3, "Color", SymbolKind::Type, 50, None),
            sym(4, "Red", SymbolKind::EnumValue, 50, Some(3)),
            sym(5, "Green", SymbolKind::EnumValue, 50, Some(3)),
        ],
        types: vec![
            TypeEntry { id: 10, ty: HirType { shape: TypeShape::Other, class: ValueClass::Numeric } },
            TypeEntry {
                id: 50,
                ty: HirType { shape: TypeShape::Enum { values: vec!["Red".to_string(), "Green".to_string()] }, class: ValueClass::Plain },
            },
        ],
        type_names: vec![TypeName { id: 10, name: "INT".to_string() }, TypeName { id: 50, name: "Color".to_string() }],
        extends: vec![],
        implements: vec![],
    };
    let diag = HirDiagnostic { severity: Severity::Warning, code: "W001".to_string(), message: "unused variable".to_string(), start: 17 };
    ProjectState {
        root: "/proj".to_string(),
        files: vec![SourceFile { path: Some("/proj/main.st".to_string()), content: SOURCE.to_string(), table, diagnostics: vec![diag] }],
    }
}

fn daemon() -> DaemonState {
    let mut d = DaemonState::new();
    d.initialize(project());
    d
}

#[test]
fn uninitialized_daemon_refuses_queries() {
    let d = DaemonState::default();
    let e = handle_get_symbols(&d, None, None, None, None).err().unwrap();
    assert_eq!(e.code, NOT_INITIALIZED);
    assert_eq!(e.message, "Project not initialized");
    assert_eq!(d.with_state().err().unwrap().code, NOT_INITIALIZED);
    assert!(handle_shutdown(&d).is_ok());
}

#[test]
fn project_root_is_kept() {
    let d = daemon();
    assert_eq!(d.with_state().ok().unwrap().project_root(), "/proj");
}

#[test]
fn symbols_of_a_file_form_a_tree() {
    let d = daemon();
    let tree = handle_get_symbols(&d, Some("main.st"), None, None, None).ok().unwrap();
    let names: Vec<_> = tree.iter().map(|s| s.name.as_str()).collect();
    assert_eq!(names, vec!["Main", "Color"]);
    assert_eq!(tree[0].id, "/proj/main.st:8");
    assert_eq!(tree[0].kind, "program");
    assert_eq!(tree[0].children.len(), 1);
    assert_eq!(tree[0].children[0].name, "x");
    assert_eq!(tree[0].children[0].kind, "variable");
    assert_eq!((tree[0].children[0].range.start.line, tree[0].children[0].range.start.col), (1, 4));
    assert_eq!(tree[1].children.len(), 2);
}

#[test]
fn symbol_filters() {
    let d = daemon();
    let programs = handle_get_symbols(&d, Some("main.st"), Some("PROGRAM"), None, None).ok().unwrap();
    assert_eq!(programs.len(), 1);
    assert!(programs[0].children.is_empty());
    let scoped = handle_get_symbols(&d, None, None, Some("COLOR"), None).ok().unwrap();
    let names: Vec<_> = scoped.iter().map(|s| s.name.as_str()).collect();
    assert_eq!(names, vec!["Color"]);
    assert_eq!(scoped[0].children.len(), 2);
    let vars_in_main = handle_get_symbols(&d, None, Some("variable"), Some("main"), None).ok().unwrap();
    assert_eq!(vars_in_main.len(), 1);
    assert_eq!(vars_in_main[0].name, "x");
}

#[test]
fn file_resolution_errors() {
    let d = daemon();
    let e = handle_get_symbols(&d, Some("../etc/passwd"), None, None, None).err().unwrap();
    assert_eq!((e.code, e.message.as_str()), (PATH_ESCAPE, "Path escapes workspace root"));
    let e = handle_get_types(&d, Some("other.st"), None).err().unwrap();
    assert_eq!((e.code, e.message.as_str()), (NOT_INITIALIZED, "File not found in project"));
    let e = handle_get_diagnostics(&d, Some("a\0b")).err().unwrap();
    assert_eq!((e.code, e.message.as_str()), (INVALID_PARAMS, "Path contains null bytes"));
    let p = project();
    assert_eq!(resolve_file(&p, "/proj/./main.st").ok(), Some(0));
}

#[test]
fn types_of_the_project() {
    let d = daemon();
    let types = handle_get_types(&d, None, None).ok().unwrap();
    assert_eq!(types.len(), 1);
    assert_eq!(types[0].name, "Color");
    assert_eq!(types[0].kind, "enum");
    assert_eq!(types[0].file_path, "/proj/main.st");
    let fields = types[0].fields.as_ref().unwrap();
    assert_eq!(fields.len(), 2);
    assert_eq!((fields[1].name.as_str(), fields[1].field_type.as_str()), ("Green", "INT"));
    assert!(handle_get_types(&d, None, Some("point")).ok().unwrap().is_empty());
    assert_eq!(handle_get_types(&d, None, Some("color")).ok().unwrap().len(), 1);
}

#[test]
fn diagnostics_of_the_project() {
    let d = daemon();
    let diags = handle_get_diagnostics(&d, None).ok().unwrap();
    assert_eq!(diags.len(), 1);
    assert_eq!(diags[0].path, "/proj/main.st");
    assert_eq!(diags[0].severity, "warning");
    assert_eq!((diags[0].line, diags[0].col), (1, 4));
    assert_eq!(diags[0].message, "unused variable");
    assert_eq!(diags[0].code.as_deref(), Some("W001"));
}

#[test]
fn update_and_references_parameters() {
    let d = daemon();
    assert_eq!(handle_update_file(&d, Some("main.st"), Some("PROGRAM Main END_PROGRAM")).ok().unwrap(), "/proj/main.st");
    let e = handle_update_file(&d, None, Some("")).err().unwrap();
    assert_eq!(e.code, INVALID_PARAMS);
    let (parts, with_declaration) = handle_get_references(&d, Some("Main.x"), None).ok().unwrap();
    assert_eq!(parts, vec!["Main".to_string(), "x".to_string()]);
    assert!(with_declaration);
    let e = handle_get_references(&d, None, Some(false)).err().unwrap();
    assert_eq!((e.code, e.message.as_str()), (INVALID_PARAMS, "Missing symbolId"));
    assert_eq!(split_qualified_name("a.b.c"), vec!["a".to_string(), "b".to_string(), "c".to_string()]);
}

#[test]
fn snapshot_counts_entities() {
    let d = daemon();
    let snap = handle_snapshot(&d, 1_700_000_000).ok().unwrap();
    assert_eq!(snap.metadata.project_path, "/proj");
    assert_eq!(snap.metadata.export_time, "1700000000Z");
    assert_eq!(snap.metadata.entity_count, 3);
    assert_eq!(snap.metadata.edge_count, 0);
    assert_eq!(snap.diagnostics.len(), 1);
}

#[test]
fn initialize_parameters() {
    let e = handle_initialize(None, true).err().unwrap();
    assert_eq!((e.code, e.message.as_str()), (INVALID_PARAMS, "Missing projectPath"));
    let e = handle_initialize(Some("/nope"), false).err().unwrap();
    assert_eq!((e.code, e.message.as_str()), (NOT_INITIALIZED, "Project path does not exist: /nope"));
    assert_eq!(handle_initialize(Some("/proj"), true).ok().unwrap(), "/proj");
    let f = initialize_failure("no ST source files");
    assert_eq!(f.code, NOT_INITIALIZED);
    assert_eq!(f.message, "Failed to initialize project: no ST source files");
}

#[test]
fn index_of_the_project() {
    let d = daemon();
    let edges: Vec<CallEdge> = vec![];
    let out = handle_index(&d, &FilePathsParam::Absent, &edges).ok().unwrap();
    assert_eq!((out.total_files, out.indexed_files), (1, 1));
    let f = &out.files[0];
    assert_eq!(f.file_path, "/proj/main.st");
    assert_eq!(f.pous.len(), 1);
    assert_eq!(f.pous[0].id, "st:/proj/main.st:Main");
    assert_eq!(f.pous[0].kind, "program");
    assert_eq!(f.variables.len(), 1);
    assert_eq!(f.variables[0].pou_id, "st:/proj/main.st:Main");
    assert_eq!(f.types.len(), 1);
    assert_eq!(out.diagnostics.len(), 1);
    assert!(out.warnings.is_empty());
}

#[test]
fn index_file_selection_warnings() {
    let p = project();
    let entries = FilePathsParam::Entries(vec![Some("main.st".to_string()), None, Some("../x.st".to_string()), Some("gone.st".to_string())]);
    let (ids, warnings) = select_index_files(&p, &entries);
    assert_eq!(ids, vec![0]);
    assert_eq!(
        warnings,
        vec![
            "Non-string entry in filePaths array".to_string(),
            "Invalid path '../x.st': Path escapes workspace root".to_string(),
            "File not found in project: gone.st".to_string(),
        ]
    );
    let (ids, warnings) = select_index_files(&p, &FilePathsParam::Invalid);
    assert_eq!(ids, vec![0]);
    assert_eq!(warnings, vec!["Invalid filePaths parameter; indexing all files".to_string()]);
}

#[test]
fn positions_count_characters() {
    assert_eq!(offset_to_line_col("ab\ncd", 4), (1, 1));
    assert_eq!(offset_to_line_col("ab\ncd", 100), (1, 2));
    assert_eq!(offset_to_line_col("äb", 2), (0, 1));
    let r = build_range("x\ny", 0, 3);
    assert_eq!((r.start.line, r.start.col, r.end.line, r.end.col), (0, 0, 1, 1));
}

#[test]
fn source_file_extensions() {
    assert!(is_st_source_path("/p/main.st"));
    assert!(is_st_source_path("/p/LIB.GVL"));
    assert!(is_st_source_path("/p/a.Pou"));
    assert!(!is_st_source_path("/p/a.txt"));
    assert!(!is_st_source_path("/p/.st"));
    assert!(!is_st_source_path("/p/st"));
}

#[test]
fn symbol_tree_roots_follow_the_source() {
    let mut p = project();
    // Declare the type before the program: the tree still lists the program first.
    p.files[0].table.symbols.rotate_left(2);
    let mut d = DaemonState::new();
    d.initialize(p);
    let tree = handle_get_symbols(&d, None, None, None, None).ok().unwrap();
    let names: Vec<_> = tree.iter().map(|s| s.name.as_str()).collect();
    assert_eq!(names, vec!["Main", "Color"]);
    assert!(tree[0].range.start.line <= tree[1].range.start.line);
}

#[test]
fn name_filter_keeps_matching_symbols() {
    let d = daemon();
    let named = handle_get_symbols(&d, None, None, None, Some("MAIN")).ok().unwrap();
    assert_eq!(named.len(), 1);
    assert_eq!(named[0].name, "Main");
    assert!(named[0].children.is_empty());
    let x = handle_get_symbols(&d, None, None, None, Some("x")).ok().unwrap();
    assert_eq!(x.len(), 1);
    assert_eq!(x[0].name, "x");
    assert!(handle_get_symbols(&d, None, None, None, Some("Other")).ok().unwrap().is_empty());
}

#[test]
fn file_and_project_symbols() {
    let d = daemon();
    let file = handle_get_file_symbols(&d, Some("main.st")).ok().unwrap();
    assert_eq!(file.len(), 2);
    let e = handle_get_file_symbols(&d, None).err().unwrap();
    assert_eq!((e.code, e.message.as_str()), (INVALID_PARAMS, "Missing filePath"));
    let all = handle_get_project_symbols(&d).ok().unwrap();
    assert_eq!(all.len(), 2);
    assert_eq!(handle_get_project_symbols(&DaemonState::new()).err().unwrap().code, NOT_INITIALIZED);
}

#[test]
fn health_reports_the_project() {
    let h = handle_health(&DaemonState::new());
    assert_eq!((h.status.as_str(), h.initialized, h.file_count), ("ok", false, 0));
    let h = handle_health(&daemon());
    assert_eq!((h.status.as_str(), h.initialized, h.file_count), ("ok", true, 1));
}

#[test]
fn call_hierarchy_by_name() {
    let d = daemon();
    // Main (id 1) calls Color (id 3), on line 2.
    let edges = vec![CallEdge { caller_file: 0, caller_symbol: 1, callee_file: 0, callee_symbol: 3, line: 2 }];
    let h = handle_get_call_hierarchy(&d, Some("color"), &edges).ok().unwrap();
    assert_eq!(h.incoming.len(), 1);
    assert_eq!((h.incoming[0].caller.as_str(), h.incoming[0].callee.as_str()), ("Main", "Color"));
    assert_eq!(h.incoming[0].caller_file, "/proj/main.st");
    assert_eq!(h.incoming[0].line, 2);
    assert!(h.outgoing.is_empty());
    let h = handle_get_call_hierarchy(&d, Some("Main"), &edges).ok().unwrap();
    assert!(h.incoming.is_empty());
    assert_eq!(h.outgoing.len(), 1);
    let e = handle_get_call_hierarchy(&d, None, &edges).err().unwrap();
    assert_eq!((e.code, e.message.as_str()), (INVALID_PARAMS, "Missing symbolId"));
}

#[test]
fn snapshot_holds_every_part() {
    let d = daemon();
    let snap = handle_snapshot(&d, 5).ok().unwrap();
    let names: Vec<_> = snap.symbols.iter().map(|s| s.name.as_str()).collect();
    assert_eq!(names, vec!["Main", "Color"]);
    assert_eq!(snap.types.len(), 1);
    assert_eq!(snap.types[0].name, "Color");
    assert_eq!(snap.diagnostics[0].message, "unused variable");
}
