# omniphony_studio_egui

The verified core of the Omniphony Studio front end, written in Verus.

`src/` is the library. Every function in it carries a contract that Verus
proves, and the properties the Studio relies on across calls are stated as
public proof functions next to the code they are about:

- `lua` — the highlighter of the backend file editor: runs that cover the
  source exactly and never split a character.
- `help`, `markup`, `text` — help cards (one open at a time), tooltip
  excerpts, the small help markup, and the character-level text helpers.
- `drafts` — text fields that commit on blur or Enter, and the bounded store
  of path-field drafts of a backend form.
- `sofa` — the SOFA licence classifier and the HRTF browser's state.
- `script`, `dialogs`, `transfer` — the backend file editor, the native file
  pickers and the layout import/export, each as state plus the decision taken
  on every report of the outside work.
- `scene` — the objects and speakers the renderer reports.
- `objects`, `panels`, `sheet`, `view`, `options`, `prefs`, `theme`,
  `screen` — naming and colouring of objects, and the tables and decisions
  the panels are built from.

`tests/` exercises the library from outside. `app/` is ordinary Rust around
it: the serde shapes of the stored preferences, the egui side of the text
fields, the shared scene with its clock, and the readouts that need floating
point.
