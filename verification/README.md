# sqlchisel

A deterministic SQL formatter for ANSI SQL and the Dremio dialect, written in
Verus. The formatting rules are executable Rust whose behaviour is stated in
`requires`/`ensures` contracts and proved.

## Layout

- `src/` — the verified library.
  - `doc.rs`, `printer.rs`: the document algebra and the width-aware printer.
  - `text.rs`, `keywords.rs`, `blocks.rs`: text helpers, keyword casing and
    shared document shapes (comma lists, clauses, option blocks).
  - `fragments.rs`, `literals.rs`, `jinja.rs`, `comments.rs`, `tokens.rs`:
    splitting input into statements, protecting string literals and template
    tags, and setting comments aside and putting them back.
  - `parser.rs`, `sql_model.rs`, `sql_convert.rs`: parsing with `sqlparser`
    into a plain model of statements.
  - `sql_format.rs`, `expr_layout.rs`, `query_layout.rs`: the layout of
    queries, expressions and DDL/DML statements, with the layout stated as
    spec functions.
  - `commands.rs`, `dremio_format.rs`, `patterns.rs`: Dremio commands and
    version clauses (patterns through `regex`).
  - `raw.rs`: the token-based layout of statements the parser refuses.
  - `format.rs`: formatting SQL text end to end.
  - `cli.rs`: the decisions of the command-line tool (modes, configuration
    precedence, file selection).
  - `literal_laws.rs`: the round-trip law of literal protection.
- `tests/`: tests of the library.
- `app/`: the command-line program (argument parsing, configuration files,
  file and standard-stream I/O).
