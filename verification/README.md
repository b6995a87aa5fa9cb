# js

A terminal JSON viewer whose core is written in Verus: the tree model, the navigation
state machine, search, path building, and the text of the tree lines, the path and
status bars, the help popup and the picker listing are verified against their
contracts. Colours, the terminal, the clipboard, the file system and the JSON reader
live in `app/`, which drives the library.

Layout:

- `src/tree.rs` — the node arena (`JsonTree`), visible lines, folding, search matching,
  paths, the builder that the JSON reader feeds, and the value model used for copying.
- `src/app.rs` — the viewer state (`App`) and what each key and mouse event does to it.
- `src/picker.rs` — the file picker: listing rules (hidden names, JSON files, sorting),
  its title and its keys.
- `src/ui.rs` — the text of tree lines, the path bar, the status bar, the help popup
  and the picker lines, before colours are applied.
- `src/json.rs` — the copied value and its hand-off to `serde_json` for pretty printing.
- `src/text.rs` — string helpers: substring search, decimal formatting, lowercase.
- `src/laws.rs` — properties that span operations (folding, search, scrolling, sorting).
- `app/` — `main`, event loop, drawing with ratatui, reading with serde_json.
- `tests/` — tests on concrete documents.
