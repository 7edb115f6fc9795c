# cargo_scan

Supply-chain auditing for Rust crates: the effects a crate has (calls into
sink APIs such as `std::fs` or `std::net`, FFI calls, unsafe calls, raw
pointer dereferences, mutable statics, function pointers and closures), the
call graph that leads to them, and audit files that record, for each effect,
how an auditor annotated it and which public functions must be checked by
their callers.

The library under `src/` is written in Verus and verified:

- `ident`, `text`: identifiers, paths and sink patterns, modelled as text.
- `effect`, `sink`, `loc_tracker`: effects and their locations, the CSV rows
  that list them, lines-of-code counting.
- `scanner`: the results of a scan, including the call graph (a `petgraph`
  graph behind trusted wrappers), reachability of functions with effects, and
  the filtering of function pointer effects.
- `expr_scan`, `item_scan`: the scan itself, over a syntax tree of the
  library's own in which each node carries what name resolution found for it:
  statements and expressions (calls, method calls, paths, casts,
  dereferences, union fields, closures, unsafe blocks), then functions,
  modules, impl blocks and traits. Each scan adds to the results exactly what
  a spec function of the tree says.
- `syn_tree`, `syn_parse`, `quick_resolve`: a parsed source file before name
  resolution, the parse itself (`syn`, behind trusted wrappers that convert its
  tree node by node), and the quick resolution of its names from the file
  alone (module paths, `use` trees, impl scopes, foreign blocks, `cfg`
  attributes, closure names), which yields the tree that the scan reads.
- `chain_update`: the propagation of removed caller-checked functions through
  the audits of dependent crates, one audit at a time.
- `audit_file`: effect trees and audit files; the default caller-checked
  audit, which grows every effect into the tree of its callers; the map of
  public caller-checked functions and its recalculation.
- `auditing`: hashing a crate's files (`sha2`), the order in which effects are
  audited, the auditor's answers and how an annotation updates a tree, the labels
  shown beside an effect's source, the steps of a public function's audit, the walk
  through an effect tree during an interactive audit (a state machine that the
  caller drives with the auditor's answers) and the session around it (which
  base effect comes next, what is settled without the auditor), the review of
  an audit.
- `attr_parser`: `#[cfg(..)]` predicates, parsed from tokens and evaluated,
  and whether an item's attributes leave it out of a scan.
- `audit_chain`: the audit files of a crate and its dependencies, keyed by
  crate and version; name searches; the crates to revisit after a change.
- `util`: crate identities (name and semantic version, parsed with `semver`),
  a package's name and version from its `Cargo.toml` (parsed with `toml`),
  CSV and file-list helpers.
- `scan_stats`, `download_crate`, `hacky_resolver`: statistics of a crate,
  crates.io names, module inference from file paths.

`app/` is a small command-line front end for what needs the file system,
the network or a process: hashing a crate, checking, summarising and
reviewing audit files, reading chain manifests (TOML) and propagating changed
audits through them, downloading crates, evaluating `cfg` attributes, and the
quick scan of a file or a crate (it reads the files and hands the library
their text), and the interactive audits of a crate and of a public function
on behalf of its callers, which show the effects and pass the auditor's
answers to the library's audit state machine.
