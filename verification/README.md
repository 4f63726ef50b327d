# elint

An Erlang code linter, written as a Verus library with a thin command-line
front end.

- `src/` is the verified library: scanning and preprocessing every
  conditional arm (`context`, `lex`, `pp`), the model of the parse forest
  (`syntax`), the lint rules (`rules`), `-elint_expect` suppression
  (`expect`), what one run reports (`lint`), rustc-style rendering
  (`diagnostic`), and the item parser for rule patterns (`token`, `parse`,
  `item`, `rule`, `command_parse`), whose accepted token sequences and built
  item lists are stated in `grammar`.
- `app/` is the command line: argument handling, walking directories,
  reading files, parsing each branch into its forest, and writing reports to
  stderr.
- `tests/` exercises the library; `tests/rules.rs` builds parse forests for
  its Erlang snippets with a small reader of its own.
