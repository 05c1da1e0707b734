# aether

A front end, intermediate representation and interpreter for Aether, a small
language of integer and boolean functions, written in Verus. Every phase is an
executable function whose contract states its result exactly over a
mathematical model of its input, and the properties that tie the phases
together are proved as lemmas.

## Layout

- `src/text.rs`, `src/source.rs` — UTF-8 text as characters and bytes; files,
  byte spans and line/column lookup.
- `src/diagnostics.rs`, `src/render.rs` — diagnostics, their collection, and
  their caret-annotated rendering against the sources.
- `src/token.rs`, `src/lexer.rs` — tokens and the scanner.
- `src/ast.rs`, `src/parser.rs`, `src/pretty.rs` — the syntax tree, the
  error-tolerant recursive-descent/Pratt parser, and the tree printer.
- `src/air.rs`, `src/air_print.rs`, `src/air_verify.rs` — AIR, a typed SSA IR
  over a control-flow graph with block parameters; its textual form; and its
  verifier (termination of blocks, dominance of definitions over uses, types,
  branch and call arities).
- `src/lower.rs` — lowering from the syntax tree to AIR.
- `src/interp.rs` — the AIR interpreter (wrapping arithmetic, division by zero
  as a runtime error).
- `src/safety.rs` — verified AIR runs without getting stuck and returns a value
  of the function's return type.
- `src/cli.rs`, `src/driver.rs` — command-line parsing and the pipeline that
  decides what the `aetherc` driver prints and its exit code.
- `app/main.rs` — the `aetherc` binary: arguments, file reading, printing.
- `tests/` — tests of each phase and of the whole pipeline.
