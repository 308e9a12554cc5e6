# microcad_lang

The front end of the µcad language as a verified library: tokens, syntax tree, parser,
symbol libraries and the resolution of the paths in their definitions. Verus proves the
contracts of the functions in `src/`, except three small wrappers in `src/locate.rs` around
`std::path::Path` (`with_extension`, `join`, `extension`), whose contracts it trusts.

Layout:

- `src/token.rs`, `src/lex.rs`: parser tokens, and the mapping of raw lexer output to them.
- `src/ast.rs`, `src/parse.rs`: the syntax tree and a recursive descent parser with error
  recovery; the spans of nodes cover the tokens they were parsed from, and programs made of
  plain statements, assignments, use and return statements, `if`s, functions, workbenches
  and modules (`program_statement_at`) parse to exactly the statements they are written as.
- `src/visitor.rs`: comment collection over the syntax tree and the diagnostics that
  comments expect.
- `src/library/`, `src/manifest.rs`: libraries of symbols, their manifests and look-up.
- `src/rst/`: the resolved symbol tree with ordered children and path search.
- `src/ir.rs`, `src/resolve/`: the definitions as resolving reads them, the stack of
  scopes with their locals, the library cache, the placing of loaded source files in a
  library and the order in which file modules are loaded (`resolve/load.rs`), and the walk
  that resolves each path.
- `src/mir.rs`: workbenches as resolving builds them from their definitions.
- `src/check.rs`, `src/diag.rs`, `src/locate.rs`: case and type checks, issues and errors,
  locating source files.
- `src/laws.rs`: properties that hold across operations.
- `app/`: reading and writing manifests (TOML), file system queries, and the loop that
  loads a source file and its file modules one after another.
