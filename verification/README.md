# army_lang

The lexer of the Army language and the data types of its syntax tree, with proofs
that the lexer does exactly what a mathematical description of scanning says.

- `src/token.rs` — token kinds and tokens, with their views.
- `src/text.rs` — character classes, decimal text, and the few calls into the standard
  library whose results are named rather than restated.
- `src/scan_spec.rs` — what scanning means: one step of the scanner as a function of the
  source text and the scanner state, and `scan_from`, which runs the steps to the end.
- `src/lexer.rs` — the executable lexer; `Lexer::scan` is proved to return exactly what
  `scan_from` describes.
- `src/laws.rs` — properties of every scan: token texts fit their kinds, tokens come in
  source order, exactly one end-of-input token ends a successful scan, a successful scan
  reads the whole source, rescanning yields just the end-of-input token, and errors have
  the form `[line:col] reason`; the reserved words for type kinds are exactly the names
  of the built-in types.
- `src/edits.rs` — how a scan responds to edits: text scanned from a cursor gives the
  same tokens wherever it stands, doubling a space outside every string literal changes
  only columns, and appending a line comment adds no token.
- `src/ast.rs` — syntax-tree types, with clones proved to copy their trees.
- `app/` — the command-line program that reads a file and prints its tokens.
