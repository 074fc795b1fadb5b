# gutenair

The logic of GutenAIR, a GTK4 / libadwaita editor for EPUB books, as a library
verified with Verus: table-of-contents merging and presets, sidebar sections
and selection, renaming, stylesheet management, book search and replace,
imports, exports, reports and the texts the interface shows.

- `src/` — the verified library. Every function carries a `requires` /
  `ensures` contract over spec functions and views; the laws of the library
  stand there as public proof functions (`lemma_*`). Calls into the `regex`
  crate and a few `std` path and string functions go through small trusted
  wrappers (`pattern.rs`, `paths.rs`, `search.rs`, `strings.rs`).
- `tests/` — tests on concrete values.
- `app/` — the GTK application around the library: windows, dialogs, file
  and network I/O, and the calls into the book core.
