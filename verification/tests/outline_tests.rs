use trust_platform::outline::{
    document_symbol, document_symbol_tree_matches, enum_value_children, qualifier_label, symbol_detail_string,
    ExpectedNode, OutlineKind, OutlineNode,
};
use trust_platform::symbols::{
    FieldInfo, HirType, ParamDirection, Symbol, SymbolKind, SymbolTable, TypeEntry, TypeName, TypeShape, ValueClass,
    VarQualifier,
};

const INT: u32 = 1;
const REAL: u32 = 2;
const BOOL: u32 = 3;

/// Builds the table of a source: each symbol is placed at the first
/// occurrence of its name at or after `from`.
struct Builder {
    source: String,
    table: SymbolTable,
    next_id: u32,
}

impl Builder {
    fn new(source: &str) -> Builder {
        let mut table = SymbolTable { symbols: vec![], types: vec![], type_names: vec![], extends: vec![], implements: vec![] };
        for (id, name, shape, class) in [
            (INT, "INT", TypeShape::Other, ValueClass::Numeric),
            (REAL, "REAL", TypeShape::Other, ValueClass::Numeric),
            (BOOL, "BOOL", TypeShape::Bool, ValueClass::Plain),
        ] {
            table.types.push(TypeEntry { id, ty: HirType { shape, class } });
            table.type_names.push(TypeName { id, name: name.to_string() });
        }
        // A built-in symbol: it has an empty range and never shows.
        table.symbols.push(Symbol {
            id: 1000,
            name: "ABS".to_string(),
            kind: SymbolKind::Function,
            type_id: INT,
            start: 0,
            end: 0,
            parent: None,
            persistence: None,
            edge: None,
        });
        Builder { source: source.to_string(), table, next_id: 1 }
    }

    fn add(&mut self, name: &str, kind: SymbolKind, type_id: u32, parent: Option<u32>, from: usize) -> u32 {
        let start = self.source[from..].find(name).expect("name in source") + from;
        let id = self.next_id;
        self.next_id += 1;
        self.table.symbols.push(Symbol {
            id,
            name: name.to_string(),
            kind,
            type_id,
            start: start as u32,
            end: (start + name.len()) as u32,
            parent,
            persistence: None,
            edge: None,
        });
        id
    }

    fn add_enum_type(&mut self, name: &str, type_id: u32, values: &[&str]) -> u32 {
        self.table.types.push(TypeEntry {
            id: type_id,
            ty: HirType {
                shape: TypeShape::Enum { values: values.iter().map(|v| v.to_string()).collect() },
                class: ValueClass::Plain,
            },
        });
        self.table.type_names.push(TypeName { id: type_id, name: name.to_string() });
        let t = self.add(name, SymbolKind::Type, type_id, None, 0);
        let mut from = self.table.symbols.last().unwrap().end as usize;
        for v in values {
            self.add(v, SymbolKind::EnumValue, type_id, Some(t), from);
            from = self.table.symbols.last().unwrap().end as usize;
        }
        t
    }

    fn add_struct_type(&mut self, name: &str, type_id: u32, fields: &[(&str, u32)]) -> u32 {
        self.table.types.push(TypeEntry {
            id: type_id,
            ty: HirType {
                shape: TypeShape::Struct {
                    fields: fields.iter().map(|(n, t)| FieldInfo { name: n.to_string(), type_id: *t }).collect(),
                },
                class: ValueClass::Plain,
            },
        });
        self.table.type_names.push(TypeName { id: type_id, name: name.to_string() });
        let t = self.add(name, SymbolKind::Type, type_id, None, 0);
        let mut from = self.table.symbols.last().unwrap().end as usize;
        for (f, ft) in fields {
            self.add(f, SymbolKind::Field { field_type: *ft }, *ft, Some(t), from);
            from = self.table.symbols.last().unwrap().end as usize;
        }
        t
    }
}

fn assert_document_symbol_tree(symbols: &Vec<OutlineNode>, expected: &Vec<ExpectedNode>) {
    assert!(document_symbol_tree_matches(symbols, expected), "tree mismatch");
}

fn assert_selection_range_invariant(symbols: &[OutlineNode]) {
    for sym in symbols {
        assert!(sym.start <= sym.end, "range reversed for {}", sym.name);
        if let Some(children) = &sym.children {
            assert_selection_range_invariant(children);
        }
    }
}

fn assert_children_sorted(symbols: &[OutlineNode]) {
    for sym in symbols {
        if let Some(children) = &sym.children {
            for i in 1..children.len() {
                assert!(children[i].start >= children[i - 1].start, "children not sorted by position for {}", sym.name);
            }
            assert_children_sorted(children);
        }
    }
}

fn find_symbol<'a>(symbols: &'a [OutlineNode], name: &str) -> Option<&'a OutlineNode> {
    for sym in symbols {
        if sym.name == name {
            return Some(sym);
        }
        if let Some(children) = &sym.children {
            if let Some(found) = find_symbol(children, name) {
                return Some(found);
            }
        }
    }
    None
}

fn leaf(name: &str) -> ExpectedNode<'_> {
    ExpectedNode { name, children: None }
}

fn program_main(src: &str) -> Builder {
    let mut b = Builder::new(src);
    b.add("Main", SymbolKind::Program, 0, None, 0);
    b
}

#[test]
fn document_symbol_selection_range_inside_range() {
    let mut cases = Vec::new();
    cases.push(program_main("PROGRAM Main END_PROGRAM"));
    let mut color = Builder::new("TYPE Color : (Red, Green, Blue); END_TYPE");
    color.add_enum_type("Color", 50, &["Red", "Green", "Blue"]);
    cases.push(color);
    let mut action = program_main("PROGRAM Main\nACTION Reset\nEND_ACTION\nEND_PROGRAM");
    action.add("Reset", SymbolKind::Action, 0, Some(1), 0);
    cases.push(action);
    for b in cases {
        let symbols = document_symbol(&b.table);
        assert_selection_range_invariant(&symbols);
        assert_children_sorted(&symbols);
    }
}

fn complex_source() -> Builder {
    let src = "\nTYPE Color : (Red, Green, Blue); END_TYPE\nPROGRAM Main\nVAR_INPUT\n    x : INT;\nEND_VAR\nACTION Reset\nEND_ACTION\nEND_PROGRAM\nFUNCTION_BLOCK Counter\nVAR_OUTPUT\n    count : INT;\nEND_VAR\nEND_FUNCTION_BLOCK\n";
    let mut b = Builder::new(src);
    b.add_enum_type("Color", 50, &["Red", "Green", "Blue"]);
    let main = b.add("Main", SymbolKind::Program, 0, None, 0);
    let x_from = src.find("VAR_INPUT").unwrap() + 9;
    b.add("x", SymbolKind::Variable { qualifier: VarQualifier::Input }, INT, Some(main), x_from);
    b.add("Reset", SymbolKind::Action, 0, Some(main), 0);
    let counter = b.add("Counter", SymbolKind::FunctionBlock, 0, None, 0);
    let c_from = src.find("VAR_OUTPUT").unwrap() + 10;
    b.add("count", SymbolKind::Variable { qualifier: VarQualifier::Output }, INT, Some(counter), c_from);
    b
}

#[test]
fn document_symbol_invariants_for_complex_source() {
    let b = complex_source();
    let symbols = document_symbol(&b.table);
    assert_selection_range_invariant(&symbols);
    assert_children_sorted(&symbols);
    let names: Vec<_> = symbols.iter().map(|s| s.name.as_str()).collect();
    assert_eq!(names, vec!["Color", "Main", "Counter"]);
}

#[test]
fn empty_file_returns_empty() {
    let b = Builder::new("");
    let symbols = document_symbol(&b.table);
    assert!(symbols.is_empty());
}

#[test]
fn only_globals_returns_flat() {
    let src = "VAR_GLOBAL x : INT; y : REAL; END_VAR";
    let mut b = Builder::new(src);
    b.add("x", SymbolKind::Variable { qualifier: VarQualifier::Global }, INT, None, 10);
    b.add("y", SymbolKind::Variable { qualifier: VarQualifier::Global }, REAL, None, 20);
    let symbols = document_symbol(&b.table);
    assert_eq!(symbols.len(), 2);
    assert!(symbols.iter().all(|s| s.children.is_none()));
}

#[test]
fn mixed_file_order_preserved() {
    let src = "\nVAR_GLOBAL gX : INT; END_VAR\nPROGRAM Main VAR_INPUT x : BOOL; END_VAR END_PROGRAM\nVAR_GLOBAL gY : REAL; END_VAR\n";
    let mut b = Builder::new(src);
    // Declared out of source order: the outline still follows the source.
    b.add("gY", SymbolKind::Variable { qualifier: VarQualifier::Global }, REAL, None, 0);
    let main = b.add("Main", SymbolKind::Program, 0, None, 0);
    b.add("gX", SymbolKind::Variable { qualifier: VarQualifier::Global }, INT, None, 0);
    let x_from = src.find("VAR_INPUT").unwrap() + 9;
    b.add("x", SymbolKind::Variable { qualifier: VarQualifier::Input }, BOOL, Some(main), x_from);
    let symbols = document_symbol(&b.table);
    let names: Vec<_> = symbols.iter().map(|s| s.name.as_str()).collect();
    assert_eq!(names, vec!["gX", "Main", "gY"]);
}

fn point_source() -> Builder {
    let mut b = Builder::new("\nTYPE Point :\nSTRUCT\n    x : INT;\n    y : INT;\nEND_STRUCT\nEND_TYPE\n");
    b.add_struct_type("Point", 60, &[("x", INT), ("y", INT)]);
    b
}

#[test]
fn nested_struct_with_fields() {
    let symbols = document_symbol(&point_source().table);
    assert_document_symbol_tree(
        &symbols,
        &vec![ExpectedNode { name: "Point", children: Some(vec![leaf("x"), leaf("y")]) }],
    );
}

#[test]
fn program_with_action_and_variables() {
    let src = "\nPROGRAM Main\nVAR_INPUT\n    x : INT;\nEND_VAR\nACTION Reset\nEND_ACTION\nEND_PROGRAM\n";
    let mut b = program_main(src);
    let x_from = src.find("VAR_INPUT").unwrap() + 9;
    b.add("x", SymbolKind::Variable { qualifier: VarQualifier::Input }, INT, Some(1), x_from);
    b.add("Reset", SymbolKind::Action, 0, Some(1), 0);
    let symbols = document_symbol(&b.table);
    assert_document_symbol_tree(
        &symbols,
        &vec![ExpectedNode { name: "Main", children: Some(vec![leaf("x"), leaf("Reset")]) }],
    );
}

fn large_table(n: usize) -> SymbolTable {
    let mut parts = Vec::with_capacity(n);
    for i in 0..n {
        parts.push(format!("PROGRAM P{i}\nVAR_INPUT v{i} : INT; END_VAR\nACTION A{i}\nEND_ACTION\nEND_PROGRAM\n"));
    }
    let src = parts.join("");
    let mut b = Builder::new(&src);
    let mut from = 0;
    for i in 0..n {
        let p = b.add(&format!("P{i}"), SymbolKind::Program, 0, None, from);
        from = b.table.symbols.last().unwrap().end as usize;
        b.add(&format!("v{i}"), SymbolKind::Variable { qualifier: VarQualifier::Input }, INT, Some(p), from);
        from = b.table.symbols.last().unwrap().end as usize;
        b.add(&format!("A{i}"), SymbolKind::Action, 0, Some(p), from);
        from = b.table.symbols.last().unwrap().end as usize;
    }
    b.table
}

#[test]
fn document_symbol_performance_100_symbols() {
    let table = large_table(100);
    let start = std::time::Instant::now();
    for _ in 0..10 {
        let tree = document_symbol(&table);
        assert_eq!(tree.len(), 100);
    }
    let elapsed = start.elapsed();
    println!("10 calls over 100 POUs: {:?}", elapsed);
    assert!(elapsed.as_secs() < 30, "too slow: {:?}", elapsed);
}

#[test]
fn document_symbol_variable_enum_shows_values() {
    let src = "\nTYPE State : (Idle, Running, Error); END_TYPE\nPROGRAM Main\n    VAR state : State; END_VAR\nEND_PROGRAM\n";
    let mut b = Builder::new(src);
    b.add_enum_type("State", 70, &["Idle", "Running", "Error"]);
    let main = b.add("Main", SymbolKind::Program, 0, None, 0);
    let v_from = src.find("VAR state").unwrap() + 4;
    b.add("state", SymbolKind::Variable { qualifier: VarQualifier::Local }, 70, Some(main), v_from);
    let symbols = document_symbol(&b.table);

    let main = symbols.iter().find(|s| s.name == "Main").expect("Main");
    let state_var = main.children.as_ref().unwrap().iter().find(|s| s.name == "state").expect("state variable");

    let children = state_var.children.as_ref().expect("enum children");
    assert_eq!(children.len(), 3);
    assert!(children.iter().any(|c| c.name == "Idle"));
    assert!(children.iter().any(|c| c.name == "Running"));
    assert!(children.iter().any(|c| c.name == "Error"));
    assert!(children.iter().all(|c| c.kind == OutlineKind::EnumMember));
}

#[test]
fn document_symbol_variable_int_no_enum_children() {
    let src = "PROGRAM Main VAR x : INT; END_VAR END_PROGRAM";
    let mut b = program_main(src);
    b.add("x", SymbolKind::Variable { qualifier: VarQualifier::Local }, INT, Some(1), 16);
    let symbols = document_symbol(&b.table);
    let main = symbols.iter().find(|s| s.name == "Main").unwrap();
    let x = main.children.as_ref().unwrap().iter().find(|s| s.name == "x").unwrap();
    assert!(x.children.is_none() || x.children.as_ref().unwrap().is_empty());
}

#[test]
fn document_symbol_variable_struct_no_enum_children() {
    let src = "\nTYPE Point : STRUCT x : INT; y : INT; END_STRUCT END_TYPE\nPROGRAM Main VAR p : Point; END_VAR END_PROGRAM\n";
    let mut b = Builder::new(src);
    b.add_struct_type("Point", 60, &[("x", INT), ("y", INT)]);
    let main = b.add("Main", SymbolKind::Program, 0, None, 0);
    let p_from = src.find("VAR p").unwrap() + 4;
    b.add("p", SymbolKind::Variable { qualifier: VarQualifier::Local }, 60, Some(main), p_from);
    let symbols = document_symbol(&b.table);
    let main = symbols.iter().find(|s| s.name == "Main").unwrap();
    let p = main.children.as_ref().unwrap().iter().find(|s| s.name == "p").unwrap();
    assert!(p.children.is_none() || p.children.as_ref().unwrap().is_empty());
}

#[test]
fn document_symbol_variable_empty_enum_no_children() {
    let src = "\nTYPE Empty : (); END_TYPE\nPROGRAM Main VAR e : Empty; END_VAR END_PROGRAM\n";
    let mut b = Builder::new(src);
    b.add_enum_type("Empty", 80, &[]);
    let main = b.add("Main", SymbolKind::Program, 0, None, 0);
    let e_from = src.find("VAR e").unwrap() + 4;
    b.add("e", SymbolKind::Variable { qualifier: VarQualifier::Local }, 80, Some(main), e_from);
    let symbols = document_symbol(&b.table);
    let main = symbols.iter().find(|s| s.name == "Main").unwrap();
    let e = main.children.as_ref().unwrap().iter().find(|s| s.name == "e").unwrap();
    assert!(e.children.is_none() || e.children.as_ref().unwrap().is_empty());
}

#[test]
fn document_symbol_nested_tree() {
    let mut b = program_main("\nPROGRAM Main\nACTION Reset\nEND_ACTION\nEND_PROGRAM\n");
    b.add("Reset", SymbolKind::Action, 0, Some(1), 0);
    let symbols = document_symbol(&b.table);
    assert_document_symbol_tree(&symbols, &vec![ExpectedNode { name: "Main", children: Some(vec![leaf("Reset")]) }]);
}

#[test]
fn document_symbol_struct_fields_nested() {
    let symbols = document_symbol(&point_source().table);
    assert_document_symbol_tree(
        &symbols,
        &vec![ExpectedNode { name: "Point", children: Some(vec![leaf("x"), leaf("y")]) }],
    );
}

#[test]
fn variable_detail_with_persistence() {
    let src = "PROGRAM Main VAR_INPUT RETAIN x : INT; END_VAR END_PROGRAM";
    let mut b = program_main(src);
    b.add("x", SymbolKind::Variable { qualifier: VarQualifier::Input }, INT, Some(1), 30);
    b.table.symbols.last_mut().unwrap().persistence = Some("RETAIN".to_string());
    let symbols = document_symbol(&b.table);
    let x = find_symbol(&symbols, "x").expect("x");
    assert_eq!(x.detail.as_deref(), Some("VAR_INPUT RETAIN : INT"));
}

#[test]
fn variable_detail_with_edge() {
    let src = "PROGRAM Main VAR_GLOBAL x : BOOL R_EDGE; END_VAR END_PROGRAM";
    let mut b = program_main(src);
    b.add("x", SymbolKind::Variable { qualifier: VarQualifier::Global }, BOOL, Some(1), 23);
    b.table.symbols.last_mut().unwrap().edge = Some("R_EDGE".to_string());
    let symbols = document_symbol(&b.table);
    let x = find_symbol(&symbols, "x").expect("x");
    assert_eq!(x.detail.as_deref(), Some("VAR_GLOBAL R_EDGE : BOOL"));
}

#[test]
fn details_of_other_kinds() {
    let src = "FUNCTION F : INT VAR_IN_OUT p : REAL; END_VAR END_FUNCTION";
    let mut b = Builder::new(src);
    let f = b.add("F", SymbolKind::Function, INT, None, 0);
    b.add("p", SymbolKind::Parameter { direction: ParamDirection::InOut }, REAL, Some(f), 17);
    let t = &b.table;
    assert_eq!(symbol_detail_string(t, &t.symbols[1]).as_deref(), Some(": INT"));
    assert_eq!(symbol_detail_string(t, &t.symbols[2]).as_deref(), Some("VAR_IN_OUT : REAL"));
    let mut untyped = t.symbols[2].clone_shape();
    untyped.type_id = 999;
    assert_eq!(symbol_detail_string(t, &untyped).as_deref(), Some("VAR_IN_OUT"));
    assert_eq!(qualifier_label(VarQualifier::Access), "VAR_ACCESS");
}

trait CloneShape {
    fn clone_shape(&self) -> Symbol;
}

impl CloneShape for Symbol {
    fn clone_shape(&self) -> Symbol {
        Symbol {
            id: self.id,
            name: self.name.clone(),
            kind: self.kind,
            type_id: self.type_id,
            start: self.start,
            end: self.end,
            parent: self.parent,
            persistence: self.persistence.clone(),
            edge: self.edge.clone(),
        }
    }
}

#[test]
fn enum_values_are_listed_without_range() {
    let src = "\nTYPE State : (Idle, Run); END_TYPE\nVAR_GLOBAL s : State; END_VAR\n";
    let mut b = Builder::new(src);
    b.add_enum_type("State", 70, &["Idle", "Run"]);
    let v_from = src.find("VAR_GLOBAL").unwrap() + 10;
    b.add("s", SymbolKind::Variable { qualifier: VarQualifier::Global }, 70, None, v_from);
    let t = &b.table;
    let kids = enum_value_children(t, t.symbols.last().unwrap()).expect("values");
    assert_eq!(kids.len(), 2);
    assert_eq!((kids[1].name.as_str(), kids[1].start, kids[1].end), ("Run", 0, 0));
    assert!(kids[0].detail.is_none() && kids[0].children.is_none());
}

#[test]
fn tree_shape_mismatch_is_detected() {
    let symbols = document_symbol(&point_source().table);
    assert!(!document_symbol_tree_matches(&symbols, &vec![leaf("Pt")]));
    assert!(!document_symbol_tree_matches(&symbols, &vec![]));
    assert!(!document_symbol_tree_matches(&symbols, &vec![ExpectedNode { name: "Point", children: Some(vec![leaf("x")]) }]));
    assert!(document_symbol_tree_matches(&symbols, &vec![leaf("Point")]));
}
