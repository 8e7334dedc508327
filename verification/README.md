# lang

The front end of a small imperative language, verified with Verus: a
parser from source text to a syntax tree, scope checking (unique ids for
variables, declarations turned into assignments), type checking, and error
reports (drawn by `ariadne`, or as plain text by `ErrorBuilder`).

Every function in `src/` carries a contract over a mathematical model of
its data (`Seq`, `Map`, `Set` and the `Spec*` views of the syntax tree),
and the properties that span several functions are stated and proved as
`law_*` proof functions.

Layout:

- `src/text.rs`, `src/table.rs`: characters and decimal digits; string-keyed
  maps and sets kept as vectors of distinct keys.
- `src/frontend/parsers/`: the grammar as spec functions on characters, and
  parsers proved to compute them.
- `src/frontend/semantic/`: the symbol table, scope checking and type
  checking, each specified as a function from state to state.
- `src/frontend/errors/`: compile errors, their rendering, and the
  plain-text report builder.
- `src/config.rs`: command-line configuration and exit status.
- `app/main.rs`: reads the arguments and the source file, prints the
  outcome and exits with its code.
- `tests/`: scenarios and concrete cases of the laws.

Notes on the design:

- Symbol tables and sets of names are `StrMap` and `StrSet` in
  `src/table.rs` rather than std's `HashMap` and `HashSet`. vstd specifies
  those for keys whose hashing and equality it can reason about; with
  `String` keys the calls are accepted but nothing about their contents can
  be proved, so a table lookup could not carry a contract. A vector of
  distinct keys, with that distinctness as its invariant, keeps every
  lookup and insertion specified. Iteration order, which a hash map leaves
  unspecified, is not part of the views.
- Reports of compile errors are drawn by `ariadne` in its default
  configuration, with the labels' colours. Whether the text carries colour
  codes then depends on the terminal support that ariadne detects, so the
  contracts fix what is handed to ariadne (the kind, position, summary and
  labels) and state nothing of the text itself.
- Positions are byte offsets into the UTF-8 source, as `str` indexes it:
  the position of a parse error and its label's range, and the columns of
  highlights drawn by `ErrorBuilder`, which writes its rows by byte as
  well. A highlight whose marks or label would split a multi-byte
  character cannot be drawn; `ErrorBuilder::result` requires that none
  does.
