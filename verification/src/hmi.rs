//! HMI binding inference: which variables an operator screen shows, with
//! which widget, unit and range.

use vstd::prelude::*;
use crate::kinds::{qualifier_name, var_qualifier_to_string};
use crate::symbols::{type_index, type_name_of, HirType, Symbol, SymbolKind, SymbolTable, TypeShape, ValueClass, VarQualifier};
use crate::text::{
    contains_seq, contains_str, ends_with_str, eq_ignore_ascii_case, eq_ignore_case_spec, is_prefix, is_suffix,
    lower_seq, starts_with_str, to_ascii_lowercase, to_ascii_uppercase, upper_seq,
};

verus! {

/// The HMI naming convention: names starting with `HMI_` or ending with
/// `_HMI`, up to ASCII case.
pub open spec fn hmi_named(name: Seq<char>) -> bool {
    is_prefix("HMI_"@, upper_seq(name)) || is_suffix("_HMI"@, upper_seq(name))
}

/// Whether a name follows the HMI export naming convention.
pub fn is_hmi_export_symbol_by_name(name: &str) -> (r: bool)
    ensures
        r == hmi_named(name@),
{
    let upper = to_ascii_uppercase(name);
    starts_with_str(upper.as_str(), "HMI_") || ends_with_str(upper.as_str(), "_HMI")
}

/// Whether a symbol is marked for HMI export by its name.
pub fn is_hmi_export_symbol(sym: &Symbol) -> (r: bool)
    ensures
        r == hmi_named(sym.name@),
{
    is_hmi_export_symbol_by_name(sym.name.as_str())
}

/// Variable sections writable from an HMI: inputs, in-outs and globals.
pub open spec fn writable(q: VarQualifier) -> bool {
    q == VarQualifier::Input || q == VarQualifier::InOut || q == VarQualifier::Global
}

pub fn is_writable_qualifier(qualifier: VarQualifier) -> (r: bool)
    ensures
        r == writable(qualifier),
{
    matches!(qualifier, VarQualifier::Input | VarQualifier::InOut | VarQualifier::Global)
}

/// The widget that shows a value of a type.
pub open spec fn widget_name(ty: HirType, writable: bool) -> Seq<char> {
    match ty.shape {
        TypeShape::Bool => if writable { "toggle"@ } else { "indicator"@ },
        TypeShape::Enum { .. } => if writable { "selector"@ } else { "readout"@ },
        TypeShape::Array => "table"@,
        TypeShape::Struct { .. } | TypeShape::Union | TypeShape::FunctionBlock | TypeShape::Class | TypeShape::Interface => "tree"@,
        _ => match ty.class {
            ValueClass::Text => "text"@,
            ValueClass::Numeric => if writable { "slider"@ } else { "value"@ },
            ValueClass::Plain => "value"@,
        },
    }
}

/// Map a type to an HMI widget name.
pub fn widget_for_hir_type(ty: &HirType, writable: bool) -> (r: &'static str)
    ensures
        r@ == widget_name(*ty, writable),
{
    match &ty.shape {
        TypeShape::Bool => if writable { "toggle" } else { "indicator" },
        TypeShape::Enum { .. } => if writable { "selector" } else { "readout" },
        TypeShape::Array => "table",
        TypeShape::Struct { .. } | TypeShape::Union | TypeShape::FunctionBlock | TypeShape::Class | TypeShape::Interface => "tree",
        _ => match ty.class {
            ValueClass::Text => "text",
            ValueClass::Numeric => if writable { "slider" } else { "value" },
            ValueClass::Plain => "value",
        },
    }
}

/// The section keyword of a variable symbol (`VAR` for other kinds).
pub open spec fn symbol_qualifier_name(k: SymbolKind) -> Seq<char> {
    match k {
        SymbolKind::Variable { qualifier } => qualifier_name(qualifier),
        _ => "VAR"@,
    }
}

/// Extract the variable qualifier string from a symbol.
pub fn qualifier_for_symbol(sym: &Symbol) -> (r: &'static str)
    ensures
        r@ == symbol_qualifier_name(sym.kind),
{
    match sym.kind {
        SymbolKind::Variable { qualifier } => var_qualifier_to_string(qualifier),
        _ => "VAR",
    }
}

/// The section keyword of a symbol kind, as an owned string.
pub fn qualifier_from_kind(kind: SymbolKind) -> (r: String)
    ensures
        r@ == symbol_qualifier_name(kind),
{
    match kind {
        SymbolKind::Variable { qualifier } => String::from_str(var_qualifier_to_string(qualifier)),
        _ => String::from_str("VAR"),
    }
}

/// The display name of a type, or `UNKNOWN`.
pub open spec fn type_display_name(table: SymbolTable, type_id: u32) -> Seq<char> {
    match type_name_of(table.type_names@, type_id) {
        Some(n) => n,
        None => "UNKNOWN"@,
    }
}

/// Resolve the display name for a type id using the symbol table.
pub fn type_name_for_symbol(table: &SymbolTable, type_id: u32) -> (r: String)
    ensures
        r@ == type_display_name(*table, type_id),
{
    match table.name_of_type(type_id) {
        Some(n) => n,
        None => String::from_str("UNKNOWN"),
    }
}

/// Variables shown by default: those named by the HMI convention, and all
/// others except temporaries and externals.
pub open spec fn included(name: Seq<char>, q: VarQualifier) -> bool {
    hmi_named(name) || !(q == VarQualifier::Temp || q == VarQualifier::External)
}

pub fn should_include_variable(name: &str, qualifier: VarQualifier) -> (r: bool)
    ensures
        r == included(name@, qualifier),
{
    if is_hmi_export_symbol_by_name(name) {
        return true;
    }
    if matches!(qualifier, VarQualifier::Temp | VarQualifier::External) {
        return false;
    }
    true
}

/// Engineering unit and plausible range inferred from a variable's name
/// (ASCII case ignored): pressure in bar 0..10, temperature in °C -40..150,
/// speed in rpm 0..6000, flow in L/min 0..100, voltage in V 0..480, current
/// in A 0..100; the first matching rule wins, and `BOOL` variables get none.
pub open spec fn unit_rule(name: Seq<char>) -> Option<(Seq<char>, int, int)> {
    let n = lower_seq(name);
    if contains_seq(n, "pressure"@) {
        Some(("bar"@, 0, 10))
    } else if contains_seq(n, "temp"@) || contains_seq(n, "temperature"@) {
        Some(("°C"@, -40, 150))
    } else if contains_seq(n, "speed"@) || contains_seq(n, "rpm"@) {
        Some(("rpm"@, 0, 6000))
    } else if contains_seq(n, "flow"@) {
        Some(("L/min"@, 0, 100))
    } else if contains_seq(n, "voltage"@) || contains_seq(n, "volt"@) {
        Some(("V"@, 0, 480))
    } else if contains_seq(n, "current"@) || contains_seq(n, "amp"@) {
        Some(("A"@, 0, 100))
    } else {
        None
    }
}

pub open spec fn unit_inference(type_text: Seq<char>, name: Seq<char>) -> Option<(Seq<char>, int, int)> {
    if eq_ignore_case_spec(type_text, "BOOL"@) {
        None
    } else {
        unit_rule(name)
    }
}

/// Infer the engineering unit and the plausible minimum and maximum of a
/// variable from its name and type name. The bounds are whole numbers.
pub fn infer_unit_and_range(type_text: &str, var_name: &str) -> (r: (Option<String>, Option<i64>, Option<i64>))
    ensures
        match unit_inference(type_text@, var_name@) {
            Some((u, lo, hi)) => r.0 matches Some(s) && s@ == u && r.1 == Some(lo as i64) && r.2 == Some(hi as i64),
            None => r.0 is None && r.1 is None && r.2 is None,
        },
{
    let lower = to_ascii_lowercase(var_name);
    let n = lower.as_str();
    let mut unit: Option<String> = None;
    let mut min: Option<i64> = None;
    let mut max: Option<i64> = None;
    if contains_str(n, "pressure") {
        unit = Some(String::from_str("bar"));
        min = Some(0);
        max = Some(10);
    } else if contains_str(n, "temp") || contains_str(n, "temperature") {
        unit = Some(String::from_str("°C"));
        min = Some(-40);
        max = Some(150);
    } else if contains_str(n, "speed") || contains_str(n, "rpm") {
        unit = Some(String::from_str("rpm"));
        min = Some(0);
        max = Some(6000);
    } else if contains_str(n, "flow") {
        unit = Some(String::from_str("L/min"));
        min = Some(0);
        max = Some(100);
    } else if contains_str(n, "voltage") || contains_str(n, "volt") {
        unit = Some(String::from_str("V"));
        min = Some(0);
        max = Some(480);
    } else if contains_str(n, "current") || contains_str(n, "amp") {
        unit = Some(String::from_str("A"));
        min = Some(0);
        max = Some(100);
    }
    if eq_ignore_ascii_case(type_text, "BOOL") {
        min = None;
        max = None;
        unit = None;
    }
    (unit, min, max)
}

/// The values of an enumeration type, following alias links at most
/// `fuel` times.
pub open spec fn enum_values_spec(table: SymbolTable, ty: Option<HirType>, fuel: nat) -> Seq<Seq<char>>
    decreases fuel,
{
    match ty {
        Some(t) => match t.shape {
            TypeShape::Enum { values } => values@.map_values(|v: String| v@),
            TypeShape::Alias { target } => if fuel == 0 {
                Seq::empty()
            } else {
                match type_index(table.types@, target) {
                    Some(i) => enum_values_spec(table, Some(table.types@[i].ty), (fuel - 1) as nat),
                    None => Seq::empty(),
                }
            },
            _ => Seq::empty(),
        },
        None => Seq::empty(),
    }
}

pub open spec fn opt_ty(t: Option<&HirType>) -> Option<HirType> {
    match t {
        Some(x) => Some(*x),
        None => None,
    }
}

/// The values of an enumeration type (following aliases, as many links as
/// the table has types); empty for other types.
pub fn extract_enum_values(ty: Option<&HirType>, table: &SymbolTable) -> (r: Vec<String>)
    ensures
        r@.map_values(|v: String| v@) == enum_values_spec(*table, opt_ty(ty), table.types@.len()),
{
    let mut cur = ty;
    let mut fuel: usize = table.types.len();
    loop
        invariant
            fuel <= table.types@.len(),
            enum_values_spec(*table, opt_ty(cur), fuel as nat) == enum_values_spec(*table, opt_ty(ty), table.types@.len()),
        decreases fuel,
    {
        match cur {
            Some(t) => match &t.shape {
                TypeShape::Enum { values } => {
                    let mut out: Vec<String> = Vec::new();
                    let mut j: usize = 0;
                    while j < values.len()
                        invariant
                            j <= values@.len(),
                            out@.len() == j,
                            forall|k: int| 0 <= k < j ==> (#[trigger] out@[k])@ == values@[k]@,
                        decreases values@.len() - j,
                    {
                        let c = values[j].clone();
                        out.push(c);
                        j = j + 1;
                    }
                    assert(out@.map_values(|v: String| v@) =~= values@.map_values(|v: String| v@));
                    return out;
                },
                TypeShape::Alias { target } => {
                    if fuel == 0 {
                        let out: Vec<String> = Vec::new();
                        assert(out@.map_values(|v: String| v@) =~= Seq::<Seq<char>>::empty());
                        return out;
                    }
                    cur = table.type_by_id(*target);
                    fuel = fuel - 1;
                },
                _ => {
                    let out: Vec<String> = Vec::new();
                    assert(out@.map_values(|v: String| v@) =~= Seq::<Seq<char>>::empty());
                    return out;
                },
            },
            None => {
                let out: Vec<String> = Vec::new();
                assert(out@.map_values(|v: String| v@) =~= Seq::<Seq<char>>::empty());
                return out;
            },
        }
    }
}

/// What the unit inference promises for every type and variable name (ASCII
/// case ignored): a `BOOL` variable gets no unit; a name mentioning
/// "pressure" is in bar, 0..10; one mentioning "temp" (and not "pressure")
/// is in °C, -40..150; one mentioning "speed" or "rpm" (and neither of
/// those) is in rpm, 0..6000; then "flow" in L/min 0..100, "volt" in V
/// 0..480, "current" or "amp" in A 0..100, each only when no earlier word
/// occurs; a name with none of these words gets no unit.
pub proof fn law_unit_inference_by_name(type_text: Seq<char>, name: Seq<char>)
    ensures
        eq_ignore_case_spec(type_text, "BOOL"@) ==> unit_inference(type_text, name) is None,
        !eq_ignore_case_spec(type_text, "BOOL"@) && contains_seq(lower_seq(name), "pressure"@) ==> unit_inference(type_text, name)
            == Some(("bar"@, 0int, 10int)),
        !eq_ignore_case_spec(type_text, "BOOL"@) && contains_seq(lower_seq(name), "temp"@) && !contains_seq(lower_seq(name), "pressure"@)
            ==> unit_inference(type_text, name) == Some(("°C"@, -40int, 150int)),
        !eq_ignore_case_spec(type_text, "BOOL"@) && (contains_seq(lower_seq(name), "speed"@) || contains_seq(lower_seq(name), "rpm"@))
            && !contains_seq(lower_seq(name), "pressure"@) && !contains_seq(lower_seq(name), "temp"@) ==> unit_inference(type_text, name)
            == Some(("rpm"@, 0int, 6000int)),
        !eq_ignore_case_spec(type_text, "BOOL"@) && contains_seq(lower_seq(name), "flow"@) && !contains_seq(lower_seq(name), "pressure"@)
            && !contains_seq(lower_seq(name), "temp"@) && !contains_seq(lower_seq(name), "speed"@) && !contains_seq(lower_seq(name), "rpm"@)
            ==> unit_inference(type_text, name) == Some(("L/min"@, 0int, 100int)),
        !eq_ignore_case_spec(type_text, "BOOL"@) && contains_seq(lower_seq(name), "volt"@) && !contains_seq(lower_seq(name), "pressure"@)
            && !contains_seq(lower_seq(name), "temp"@) && !contains_seq(lower_seq(name), "speed"@) && !contains_seq(lower_seq(name), "rpm"@)
            && !contains_seq(lower_seq(name), "flow"@) ==> unit_inference(type_text, name) == Some(("V"@, 0int, 480int)),
        !eq_ignore_case_spec(type_text, "BOOL"@) && (contains_seq(lower_seq(name), "current"@) || contains_seq(lower_seq(name), "amp"@))
            && !contains_seq(lower_seq(name), "pressure"@) && !contains_seq(lower_seq(name), "temp"@) && !contains_seq(lower_seq(name), "speed"@)
            && !contains_seq(lower_seq(name), "rpm"@) && !contains_seq(lower_seq(name), "flow"@) && !contains_seq(lower_seq(name), "volt"@)
            ==> unit_inference(type_text, name) == Some(("A"@, 0int, 100int)),
        !contains_seq(lower_seq(name), "pressure"@) && !contains_seq(lower_seq(name), "temp"@) && !contains_seq(lower_seq(name), "speed"@)
            && !contains_seq(lower_seq(name), "rpm"@) && !contains_seq(lower_seq(name), "flow"@) && !contains_seq(lower_seq(name), "volt"@)
            && !contains_seq(lower_seq(name), "current"@) && !contains_seq(lower_seq(name), "amp"@) ==> unit_inference(type_text, name) is None,
{
    let n = lower_seq(name);
    if contains_seq(n, "temperature"@) {
        reveal_strlit("temperature");
        reveal_strlit("temp");
        let i = choose|i: int| crate::text::occurs_at(n, "temperature"@, i);
        assert("temperature"@.len() == 11);
        assert("temp"@.len() == 4);
        assert(n.subrange(i, i + 11) == "temperature"@);
        assert(n.subrange(i, i + 4) =~= n.subrange(i, i + 11).subrange(0, 4));
        assert("temperature"@.subrange(0, 4) =~= "temp"@);
        assert(crate::text::occurs_at(n, "temp"@, i));
    }
    if contains_seq(n, "voltage"@) {
        reveal_strlit("voltage");
        reveal_strlit("volt");
        let i = choose|i: int| crate::text::occurs_at(n, "voltage"@, i);
        assert("voltage"@.len() == 7);
        assert("volt"@.len() == 4);
        assert(n.subrange(i, i + 7) == "voltage"@);
        assert(n.subrange(i, i + 4) =~= n.subrange(i, i + 7).subrange(0, 4));
        assert("voltage"@.subrange(0, 4) =~= "volt"@);
        assert(crate::text::occurs_at(n, "volt"@, i));
    }
}

} // verus!
