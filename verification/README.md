# zeroc

A compiler for Zero, a small dynamically typed language that translates to
self-contained Rust, with its library verified by Verus.

Layout:

- `src/text.rs`: characters, UTF-8 widths, string helpers.
- `src/diag.rs`: spans, compile errors, error rendering.
- `src/lexer/`: tokens, the lexer and the scanner of raw `lowlevel` blocks.
- `src/ast.rs`, `src/parser/`: the syntax tree and the recursive-descent
  parser; `parser/spec.rs` states the grammar as spec functions, and
  `parser/progress.rs` proves that its no-progress branches are never taken.
- `src/scope/`: the function table and the scope analyzer; `scope/spec.rs`
  states what analysis accepts.
- `src/import/`: standard headers, builtin aliases, the file names a header
  import may refer to, and header loading decisions.
- `src/codegen/`: Rust generation; `codegen/spec.rs` states the text emitted
  for each construct, `codegen/ready.rs` checks what generation reads.
- `src/runtime.rs`: verified library versions of the string operations and
  stream decisions of the standard headers. Generated programs do not call
  them: they carry the headers' Rust source, the unverified text constants
  in `src/import/stdlib.rs` and `src/codegen/runtime.rs`.
- `src/pipeline.rs`: the entry-point check of the compile pipeline.
- `src/properties.rs`, `src/properties_frame.rs`: properties that span
  several functions.
- `app/main.rs`: the command line: reading sources and headers, writing
  output, running `rustc`.
