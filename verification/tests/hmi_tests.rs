use trust_platform::bindings::{
    generate_bindings, is_false, manifest_counts, validate_catalog, validate_config, HmiBindingsCatalog, HmiConfig,
    ProjectLoader,
};
use trust_platform::hmi::{
    extract_enum_values, infer_unit_and_range, is_hmi_export_symbol, is_hmi_export_symbol_by_name,
    is_writable_qualifier, qualifier_for_symbol, qualifier_from_kind, should_include_variable, type_name_for_symbol,
    widget_for_hir_type,
};
use trust_platform::symbols::{
    HirType, Symbol, SymbolKind, SymbolTable, TypeEntry, TypeName, TypeShape, ValueClass, VarQualifier,
};

fn ty(shape: TypeShape, class: ValueClass) -> HirType {
    HirType { shape, class }
}

fn variable(id: u32, name: &str, qualifier: VarQualifier, type_id: u32, start: u32, parent: Option<u32>) -> Symbol {
    Symbol {
        id,
        name: name.to_string(),
        kind: SymbolKind::Variable { qualifier },
        type_id,
        start,
        end: start + name.len() as u32,
        parent,
        persistence: None,
        edge: None,
    }
}

fn empty_table(symbols: Vec<Symbol>) -> SymbolTable {
    SymbolTable { symbols, types: vec![], type_names: vec![], extends: vec![], implements: vec![] }
}

#[test]
fn unit_inference_temperature() {
    let (unit, min, max) = infer_unit_and_range("REAL", "MotorTemperature");
    assert_eq!(unit, Some("°C".to_string()));
    assert_eq!(min.map(|v| v as f64), Some(-40.0));
    assert_eq!(max.map(|v| v as f64), Some(150.0));
}

#[test]
fn unit_inference_pressure() {
    let (unit, min, max) = infer_unit_and_range("REAL", "SystemPressure");
    assert_eq!(unit, Some("bar".to_string()));
    assert_eq!(min.map(|v| v as f64), Some(0.0));
    assert_eq!(max.map(|v| v as f64), Some(10.0));
}

#[test]
fn unit_inference_bool_clears_range() {
    let (unit, min, max) = infer_unit_and_range("BOOL", "hmi_EnableMotor");
    assert_eq!(unit, None);
    assert_eq!(min, None);
    assert_eq!(max, None);
}

#[test]
fn unit_inference_other_rules() {
    assert_eq!(infer_unit_and_range("INT", "PumpSpeed"), (Some("rpm".to_string()), Some(0), Some(6000)));
    assert_eq!(infer_unit_and_range("REAL", "CoolantFLOW"), (Some("L/min".to_string()), Some(0), Some(100)));
    assert_eq!(infer_unit_and_range("REAL", "BusVoltage"), (Some("V".to_string()), Some(0), Some(480)));
    assert_eq!(infer_unit_and_range("REAL", "MotorCurrent"), (Some("A".to_string()), Some(0), Some(100)));
    assert_eq!(infer_unit_and_range("REAL", "Level"), (None, None, None));
    // The first matching rule wins: pressure comes before temperature.
    assert_eq!(infer_unit_and_range("REAL", "TempPressure"), (Some("bar".to_string()), Some(0), Some(10)));
    // The type name is compared ignoring ASCII case.
    assert_eq!(infer_unit_and_range("bool", "Speed"), (None, None, None));
}

#[test]
fn widget_mapping_bool() {
    assert_eq!(widget_for_hir_type(&ty(TypeShape::Bool, ValueClass::Plain), false), "indicator");
    assert_eq!(widget_for_hir_type(&ty(TypeShape::Bool, ValueClass::Plain), true), "toggle");
}

#[test]
fn widget_mapping_numeric() {
    assert_eq!(widget_for_hir_type(&ty(TypeShape::Other, ValueClass::Numeric), false), "value");
    assert_eq!(widget_for_hir_type(&ty(TypeShape::Other, ValueClass::Numeric), true), "slider");
}

#[test]
fn widget_mapping_string() {
    assert_eq!(widget_for_hir_type(&ty(TypeShape::Other, ValueClass::Text), false), "text");
    assert_eq!(widget_for_hir_type(&ty(TypeShape::Other, ValueClass::Text), true), "text");
}

#[test]
fn widget_mapping_array() {
    assert_eq!(widget_for_hir_type(&ty(TypeShape::Array, ValueClass::Plain), false), "table");
}

#[test]
fn widget_mapping_enum_and_struct() {
    let e = ty(TypeShape::Enum { values: vec!["A".to_string()] }, ValueClass::Plain);
    assert_eq!(widget_for_hir_type(&e, true), "selector");
    assert_eq!(widget_for_hir_type(&e, false), "readout");
    assert_eq!(widget_for_hir_type(&ty(TypeShape::Struct { fields: vec![] }, ValueClass::Plain), true), "tree");
    assert_eq!(widget_for_hir_type(&ty(TypeShape::Other, ValueClass::Plain), true), "value");
}

#[test]
fn hmi_naming_convention() {
    let sym = variable(0, "hmi_MotorSpeed", VarQualifier::Global, 10, 0, None);
    assert!(is_hmi_export_symbol(&sym));
    let sym2 = variable(0, "MotorSpeed_HMI", VarQualifier::Local, 10, 0, None);
    assert!(is_hmi_export_symbol(&sym2));
    let sym3 = variable(0, "InternalTemp", VarQualifier::Temp, 10, 0, None);
    assert!(!is_hmi_export_symbol(&sym3));
}

#[test]
fn naming_convention_edges() {
    assert!(is_hmi_export_symbol_by_name("HMI_"));
    assert!(!is_hmi_export_symbol_by_name("HMIX"));
    assert!(!is_hmi_export_symbol_by_name("hmi"));
    assert!(is_hmi_export_symbol_by_name("x_hmi"));
}

#[test]
fn inclusion_and_writability() {
    assert!(should_include_variable("x", VarQualifier::Local));
    assert!(!should_include_variable("x", VarQualifier::Temp));
    assert!(!should_include_variable("x", VarQualifier::External));
    assert!(should_include_variable("hmi_x", VarQualifier::Temp));
    assert!(is_writable_qualifier(VarQualifier::Input));
    assert!(is_writable_qualifier(VarQualifier::InOut));
    assert!(is_writable_qualifier(VarQualifier::Global));
    assert!(!is_writable_qualifier(VarQualifier::Output));
    assert!(!is_writable_qualifier(VarQualifier::Local));
}

#[test]
fn qualifiers_of_symbols() {
    let sym = variable(0, "x", VarQualifier::InOut, 0, 0, None);
    assert_eq!(qualifier_for_symbol(&sym), "VAR_IN_OUT");
    assert_eq!(qualifier_from_kind(SymbolKind::Variable { qualifier: VarQualifier::Static }), "VAR_STAT");
    assert_eq!(qualifier_from_kind(SymbolKind::Program), "VAR");
}

#[test]
fn type_names_and_enum_values() {
    let mut table = empty_table(vec![]);
    table.types.push(TypeEntry {
        id: 7,
        ty: ty(TypeShape::Enum { values: vec!["Idle".to_string(), "Run".to_string()] }, ValueClass::Plain),
    });
    table.types.push(TypeEntry { id: 8, ty: ty(TypeShape::Alias { target: 7 }, ValueClass::Plain) });
    table.type_names.push(TypeName { id: 7, name: "State".to_string() });
    assert_eq!(type_name_for_symbol(&table, 7), "State");
    assert_eq!(type_name_for_symbol(&table, 99), "UNKNOWN");
    let alias = table.type_by_id(8);
    assert_eq!(extract_enum_values(alias, &table), vec!["Idle".to_string(), "Run".to_string()]);
    assert!(extract_enum_values(None, &table).is_empty());
}

fn sample_loader() -> ProjectLoader {
    let mut main = Symbol {
        id: 1,
        name: "Main".to_string(),
        kind: SymbolKind::Program,
        type_id: 0,
        start: 8,
        end: 12,
        parent: None,
        persistence: None,
        edge: None,
    };
    main.parent = None;
    let speed = variable(2, "MotorSpeed", VarQualifier::Input, 20, 30, Some(1));
    let tmp = variable(3, "scratch", VarQualifier::Temp, 20, 50, Some(1));
    let global = variable(4, "hmi_Enable", VarQualifier::Global, 21, 80, None);
    let mut table = empty_table(vec![main, speed, tmp, global]);
    table.types.push(TypeEntry { id: 20, ty: ty(TypeShape::Other, ValueClass::Numeric) });
    table.types.push(TypeEntry { id: 21, ty: ty(TypeShape::Bool, ValueClass::Plain) });
    table.type_names.push(TypeName { id: 20, name: "REAL".to_string() });
    table.type_names.push(TypeName { id: 21, name: "BOOL".to_string() });
    ProjectLoader::from_tables("/proj".to_string(), vec![table]).ok().unwrap()
}

#[test]
fn loader_without_sources_is_refused() {
    let err = ProjectLoader::from_tables("/empty".to_string(), vec![]).err().unwrap();
    assert_eq!(err, "no ST source files found in '/empty'");
}

#[test]
fn bindings_of_a_small_project() {
    let loader = sample_loader();
    assert_eq!(loader.project_root(), "/proj");
    let catalog = generate_bindings(&loader, None);
    assert_eq!(catalog.programs.len(), 1);
    let p = &catalog.programs[0];
    assert_eq!(p.name, "Main");
    assert!(p.file.is_none());
    assert_eq!(p.variables.len(), 1);
    let v = &p.variables[0];
    assert_eq!(v.path, "Main.MotorSpeed");
    assert_eq!(v.data_type, "REAL");
    assert_eq!(v.qualifier, "VAR_INPUT");
    assert!(v.writable);
    assert_eq!(v.widget, "slider");
    assert!(v.inferred_interface);
    assert_eq!(v.unit.as_deref(), Some("rpm"));
    assert_eq!((v.min, v.max), (Some(0), Some(6000)));
    assert_eq!(catalog.globals.len(), 1);
    let g = &catalog.globals[0];
    assert_eq!(g.path, "global.hmi_Enable");
    assert_eq!(g.widget, "toggle");
    assert!(!g.inferred_interface);
    assert_eq!((g.unit.clone(), g.min, g.max), (None, None, None));
    assert!(validate_config(&loader, &HmiConfig { bindings: vec![], exclude: vec![] }).is_empty());
    let counts = manifest_counts(&catalog);
    assert_eq!((counts.program_count, counts.global_count, counts.total_variables), (1, 1, 2));
}

#[test]
fn empty_catalog_is_reported() {
    let catalog = HmiBindingsCatalog { programs: vec![], globals: vec![] };
    let issues = validate_catalog(&catalog, &HmiConfig { bindings: vec![], exclude: vec![] });
    assert_eq!(issues.len(), 1);
    assert_eq!(issues[0].code, "HMI_BIND_UNKNOWN_PATH");
    assert_eq!(issues[0].message, "no HMI-exportable symbols found in project");
    assert!(issues[0].path.is_none());
}

#[test]
fn unset_flags() {
    assert!(is_false(&false));
    assert!(!is_false(&true));
}

#[test]
fn config_filters_the_export() {
    let loader = sample_loader();
    let exclude = HmiConfig { bindings: vec![], exclude: vec!["Main.MotorSpeed".to_string()] };
    let catalog = generate_bindings(&loader, Some(&exclude));
    assert!(catalog.programs.is_empty());
    assert_eq!(catalog.globals.len(), 1);
    let only = HmiConfig { bindings: vec!["Main.MotorSpeed".to_string()], exclude: vec![] };
    let catalog = generate_bindings(&loader, Some(&only));
    assert_eq!(catalog.programs.len(), 1);
    assert!(catalog.globals.is_empty());
}

#[test]
fn config_paths_are_validated() {
    let loader = sample_loader();
    let config = HmiConfig {
        bindings: vec!["Main.MotorSpeed".to_string(), "Main.x".to_string(), "global.hmi_Enable".to_string()],
        exclude: vec![],
    };
    let issues = validate_config(&loader, &config);
    assert_eq!(issues.len(), 1);
    assert_eq!(issues[0].code, "HMI_BIND_UNKNOWN_PATH");
    assert_eq!(issues[0].message, "unknown binding path: Main.x");
    assert_eq!(issues[0].path.as_deref(), Some("Main.x"));
    let empty = HmiBindingsCatalog { programs: vec![], globals: vec![] };
    let issues = validate_catalog(&empty, &HmiConfig { bindings: vec!["a.b".to_string()], exclude: vec![] });
    assert_eq!(issues.len(), 2);
    assert_eq!(issues[0].path.as_deref(), Some("a.b"));
    assert_eq!(issues[1].message, "no HMI-exportable symbols found in project");
}
