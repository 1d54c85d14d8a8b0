# trust_platform

Verified core of the truST Structured Text tooling, written in Verus.

`src/` is the library, every function of it proved against its contract:

- `protocol`, `daemon`, `project`, `index`, `symbol_tree`, `positions`,
  `kinds`: the JSON-RPC HIR daemon — request routing, path confinement of
  every file parameter, and the symbol, type, diagnostic, reference,
  snapshot and graph-index answers computed from a project's symbol tables.
- `paths`, `path_laws`: path normalization and confinement to the project
  root, with its laws.
- `symbols`, `ordering`: the symbol-table model and source-order sorting.
- `hmi`, `bindings`: HMI binding inference (widgets, units, ranges) and the
  binding catalog of a project.
- `outline`, `workspace`, `hmi_toml`, `lsp_commands`: the language server's
  document outline, workspace symbol search, HMI TOML diagnostics and
  command decisions.
- `text`: character-level string utilities.

`app/` holds the command-line programs around it: the daemon's stdin/stdout
loop, the snapshot export, the HMI generator's file output, the JSON shapes,
the LSP value conversions, and the bridge to the workspace's own HIR crates
that parse Structured Text into the symbol tables the library reads.

`tests/` exercises the library on concrete values.
