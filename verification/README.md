# lib — a verified scanner and parser for Lox

The crate turns Lox source text into tokens and tokens into a syntax tree.
Its functions are proved against their contracts by Verus, except the few
trusted wrappers that call the standard library (`chars.rs`, and the byte
length of a source in `scanner.rs`), whose contracts restate what the
standard library documents.

Layout of `src/`:

- `token.rs` — token types, tokens and their values.
- `chars.rs`, `numbers.rs`, `text.rs` — character classes, the text of a
  floating-point number, decimal rendering and joining of texts.
- `scan_spec.rs` — what scanning yields, stated over the characters of a
  source, and the laws of a successful scan.
- `scanner.rs` — the scanner, proved to follow `scan_spec`.
- `expr.rs`, `stmt.rs` — literals, expressions and statements, their values
  and texts.
- `parse_spec.rs` — the grammar, as a function of the tokens and the parse
  state, with the `for` loop desugaring and error recovery.
- `parser.rs` — the recursive-descent parser, proved to follow `parse_spec`.
- `indices.rs` — the laws that the resolution indices of a parse are
  distinct and that a parse of float-text numbers reads no bad number.

`app/main.rs` is the command-line front end (files and standard input);
`tests/` holds the tests.
