# vibelang

The tooling core of the VibeLang language, written in Verus: every function
under `src/` carries a contract that Verus proves.

- `lexer`, `parser`, `ast` — tokens of a source file; the parser
  (declarations, contract annotations, statements, expressions with
  precedence and nesting limits, literals and string interpolation, error
  recovery); the syntax tree.
- `diagnostics` — compiler messages and their orderings.
- `fmt`, `doc` — the formatter and the documentation extractor.
- `hir` — the typed representation of a program and its structural checker.
- `mir` — the mid-level representation: its types, type names, signatures,
  structural checker, lowering from `hir`, and integer and boolean constant
  folding.
- `indexer` — the symbol index: model, the index of a file (function,
  parameter, contract and local symbols, references, function metadata,
  effect mismatches, dependencies), queries, store, incremental updates,
  file watching.
- `lsp` — the language server's session, editor positions, URIs and
  protocol decisions.
- `pkg` — the package manager: dependency resolution against a mirror,
  the mirror's versions newest first, registry index order, lockfile,
  upgrade plan and audit.
- `codegen` — code generation options and helpers, the value class of an
  expression and the types of a function's locals.
- `order`, `text` — orderings, stable sorting and string helpers shared by
  the rest.

`app/` holds what stays outside the proofs: reading and writing files,
the language server's stdio transports, JSON and TOML, and environment
settings, the type checker's hook, and the MIR debug dump. Native code
emission builds Cranelift IR through its builder and is not part of this
crate. `tests/` runs the library on concrete inputs.
