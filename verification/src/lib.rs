//! Verified core of the truST tooling: the JSON-RPC protocol rules of the HIR
//! daemon, workspace path confinement, symbol-table queries, graph indexing,
//! HMI binding inference, and the language server's outline, workspace
//! symbol search, HMI TOML diagnostics and command decisions.

pub mod protocol;
pub mod text;
pub mod paths;
pub mod path_laws;
pub mod symbols;
pub mod kinds;
pub mod positions;
pub mod ordering;
pub mod symbol_tree;
pub mod project;
pub mod daemon;
pub mod call_hierarchy;
pub mod index;
pub mod hmi;
pub mod bindings;
pub mod outline;
pub mod workspace;
pub mod hmi_toml;
pub mod lsp_commands;
