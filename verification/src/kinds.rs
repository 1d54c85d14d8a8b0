//! Names of symbol kinds, variable sections and type shapes.

use vstd::prelude::*;
use crate::symbols::{HirType, SymbolKind, TypeShape, VarQualifier};

verus! {

/// The lower-case name of a symbol kind.
pub open spec fn kind_name(k: SymbolKind) -> Seq<char> {
    match k {
        SymbolKind::Program => "program"@,
        SymbolKind::Configuration => "configuration"@,
        SymbolKind::Resource => "resource"@,
        SymbolKind::Task => "task"@,
        SymbolKind::ProgramInstance => "program_instance"@,
        SymbolKind::Namespace => "namespace"@,
        SymbolKind::Function => "function"@,
        SymbolKind::FunctionBlock => "function_block"@,
        SymbolKind::Class => "class"@,
        SymbolKind::Method => "method"@,
        SymbolKind::Property => "property"@,
        SymbolKind::Interface => "interface"@,
        SymbolKind::Variable { .. } => "variable"@,
        SymbolKind::Constant => "constant"@,
        SymbolKind::Type => "type"@,
        SymbolKind::EnumValue => "enum_value"@,
        SymbolKind::Parameter { .. } => "parameter"@,
        SymbolKind::Action => "action"@,
        SymbolKind::Field { .. } => "field"@,
    }
}

pub fn symbol_kind_to_string(kind: SymbolKind) -> (r: &'static str)
    ensures
        r@ == kind_name(kind),
{
    match kind {
        SymbolKind::Program => "program",
        SymbolKind::Configuration => "configuration",
        SymbolKind::Resource => "resource",
        SymbolKind::Task => "task",
        SymbolKind::ProgramInstance => "program_instance",
        SymbolKind::Namespace => "namespace",
        SymbolKind::Function => "function",
        SymbolKind::FunctionBlock => "function_block",
        SymbolKind::Class => "class",
        SymbolKind::Method => "method",
        SymbolKind::Property => "property",
        SymbolKind::Interface => "interface",
        SymbolKind::Variable { .. } => "variable",
        SymbolKind::Constant => "constant",
        SymbolKind::Type => "type",
        SymbolKind::EnumValue => "enum_value",
        SymbolKind::Parameter { .. } => "parameter",
        SymbolKind::Action => "action",
        SymbolKind::Field { .. } => "field",
    }
}

/// Program organisation units: programs, functions, function blocks,
/// classes, methods and interfaces.
pub open spec fn is_pou(k: SymbolKind) -> bool {
    matches!(k, SymbolKind::Program | SymbolKind::Function | SymbolKind::FunctionBlock
        | SymbolKind::Class | SymbolKind::Method | SymbolKind::Interface)
}

pub fn is_pou_kind(kind: SymbolKind) -> (r: bool)
    ensures
        r == is_pou(kind),
{
    matches!(kind, SymbolKind::Program | SymbolKind::Function | SymbolKind::FunctionBlock
        | SymbolKind::Class | SymbolKind::Method | SymbolKind::Interface)
}

/// The name of a POU kind; `unknown` for other kinds.
pub open spec fn pou_kind_name(k: SymbolKind) -> Seq<char> {
    if is_pou(k) {
        kind_name(k)
    } else {
        "unknown"@
    }
}

pub fn pou_kind_to_string(kind: SymbolKind) -> (r: &'static str)
    ensures
        r@ == pou_kind_name(kind),
{
    match kind {
        SymbolKind::Program => "program",
        SymbolKind::Function => "function",
        SymbolKind::FunctionBlock => "function_block",
        SymbolKind::Class => "class",
        SymbolKind::Method => "method",
        SymbolKind::Interface => "interface",
        _ => "unknown",
    }
}

/// The IEC keyword of a variable section.
pub open spec fn qualifier_name(q: VarQualifier) -> Seq<char> {
    match q {
        VarQualifier::Local => "VAR"@,
        VarQualifier::Input => "VAR_INPUT"@,
        VarQualifier::Output => "VAR_OUTPUT"@,
        VarQualifier::InOut => "VAR_IN_OUT"@,
        VarQualifier::Temp => "VAR_TEMP"@,
        VarQualifier::Global => "VAR_GLOBAL"@,
        VarQualifier::External => "VAR_EXTERNAL"@,
        VarQualifier::Access => "VAR_ACCESS"@,
        VarQualifier::Static => "VAR_STAT"@,
    }
}

pub fn var_qualifier_to_string(qual: VarQualifier) -> (r: &'static str)
    ensures
        r@ == qualifier_name(qual),
{
    match qual {
        VarQualifier::Local => "VAR",
        VarQualifier::Input => "VAR_INPUT",
        VarQualifier::Output => "VAR_OUTPUT",
        VarQualifier::InOut => "VAR_IN_OUT",
        VarQualifier::Temp => "VAR_TEMP",
        VarQualifier::Global => "VAR_GLOBAL",
        VarQualifier::External => "VAR_EXTERNAL",
        VarQualifier::Access => "VAR_ACCESS",
        VarQualifier::Static => "VAR_STAT",
    }
}

/// The graph kind of a type: `struct`, `enum`, `alias`, `array`, `union`,
/// `pointer`, `subrange`, or `unknown` (also for an unregistered type).
pub open spec fn type_kind_name(t: Option<HirType>) -> Seq<char> {
    match t {
        Some(ty) => match ty.shape {
            TypeShape::Struct { .. } => "struct"@,
            TypeShape::Enum { .. } => "enum"@,
            TypeShape::Alias { .. } => "alias"@,
            TypeShape::Array => "array"@,
            TypeShape::Union => "union"@,
            TypeShape::Pointer => "pointer"@,
            TypeShape::Subrange => "subrange"@,
            _ => "unknown"@,
        },
        None => "unknown"@,
    }
}

pub fn type_to_kind_string(type_info: Option<&HirType>) -> (r: &'static str)
    ensures
        r@ == type_kind_name(match type_info { Some(t) => Some(*t), None => None }),
{
    match type_info {
        Some(ty) => match &ty.shape {
            TypeShape::Struct { .. } => "struct",
            TypeShape::Enum { .. } => "enum",
            TypeShape::Alias { .. } => "alias",
            TypeShape::Array => "array",
            TypeShape::Union => "union",
            TypeShape::Pointer => "pointer",
            TypeShape::Subrange => "subrange",
            _ => "unknown",
        },
        None => "unknown",
    }
}

/// Every kind of declaration appears in the document outline.
pub open spec fn is_outline_kind(k: SymbolKind) -> bool {
    matches!(k, SymbolKind::Program | SymbolKind::Configuration | SymbolKind::Resource
        | SymbolKind::Task | SymbolKind::ProgramInstance | SymbolKind::Namespace
        | SymbolKind::Function | SymbolKind::FunctionBlock | SymbolKind::Class
        | SymbolKind::Interface | SymbolKind::Type | SymbolKind::EnumValue
        | SymbolKind::Method | SymbolKind::Property | SymbolKind::Action
        | SymbolKind::Field { .. } | SymbolKind::Variable { .. }
        | SymbolKind::Parameter { .. } | SymbolKind::Constant)
}

pub fn is_outline_symbol_kind(kind: SymbolKind) -> (r: bool)
    ensures
        r == is_outline_kind(kind),
{
    matches!(kind, SymbolKind::Program | SymbolKind::Configuration | SymbolKind::Resource
        | SymbolKind::Task | SymbolKind::ProgramInstance | SymbolKind::Namespace
        | SymbolKind::Function | SymbolKind::FunctionBlock | SymbolKind::Class
        | SymbolKind::Interface | SymbolKind::Type | SymbolKind::EnumValue
        | SymbolKind::Method | SymbolKind::Property | SymbolKind::Action
        | SymbolKind::Field { .. } | SymbolKind::Variable { .. }
        | SymbolKind::Parameter { .. } | SymbolKind::Constant)
}

} // verus!
