# procmail

A verified library for a mail filter that reads procmail's rc files. It parses
and expands a configuration, translates its regular expressions, decides which
recipe runs and what a delivery comes to, and frames messages for mbox files and
Maildirs. The functions state what they return or change, and Verus proves it; a
function that writes to a sink says what holds for every answer of the sink.

## Layout

- `src/config/` reads rc files: lines, assignments, recipes, conditions and
  actions (`parser`, `assignments`, `recipe_header`, `conditions`,
  `action_parser`, `header_actions`), shell expressions and their evaluation
  (`expression_parser`, `shell_eval`, `shell_pattern`, `binding`), the
  preparation of a configuration (`analysis`, `preparation`, `expansion`), and
  paths (`paths`, `resolution`).
- `src/delivery/` holds sinks and fan-outs, Maildir and mbox deliveries,
  lockfiles and private staging files.
- `src/delivery_runtime.rs` and `src/publication.rs` draw the consequences of a
  delivery: what is traced, what `LASTFOLDER` is, and which exit status follows.
- `src/commands.rs`, `src/environment.rs` and `src/runtime.rs` prepare commands
  and settle their outcome.
- `src/eval.rs` executes assignments and decides when a recipe runs.
- `app/` does the input and output: files, locks, commands and the command line.
- `tests/` runs the library.

Properties that relate several functions stand beside them as public proof
functions, or in `parser_laws`, `count_laws`, `evaluation_laws` and
`binding_laws`.

## What is not proved

Regular expressions are parsed by `regex-syntax` and compiled by `regex`, random
bytes come from the system through `rustix`, text is checked by the standard
library's UTF-8 decoder, and the text of a system error is the system's own. The
comment above each such call says what is taken for granted of it.
