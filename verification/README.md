# ci_diff

Which models of a Rocky project changed between two git revisions, and how: added,
modified or removed, and column by column. The library holds the rules and is
verified with Verus; running git, the compiler and the printing are around it.

- `src/git.rs`: the base revision, the arguments of git, the list of changed files.
- `src/models.rs`, `src/paths.rs`: which model a changed path belongs to.
- `src/classify.rs`: the changed models, by target or by file name.
- `src/columns.rs`, `src/results.rs`: column differences, the report and its counts.
- `src/compile.rs`: what is read off a compiled project.
- `src/base.rs`: the steps to the models as they stood at the base.
- `src/compute.rs`, `src/report.rs`: the whole comparison, step by step, and what is
  said of it.
- `src/text.rs`, `src/order.rs`, `src/string_map.rs`, `src/seqs.rs`: texts, their
  order, a map keyed by them, and facts about sequences.
- `app/`: takes the steps: runs git, makes the temporary directory and prints. The
  engine is behind a trait.
- `tests/`: the rules on concrete values.

Two things are taken on trust, both in `src/text.rs`: that `String::push` appends a
character, and how `String::from_utf8_lossy` reads bytes.
