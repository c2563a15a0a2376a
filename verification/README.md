# flodo

A floating to-do list: one ordered list, a checkbox, bodies in markdown, and a
small command line over the same file.

## Layout

- `src/` is the library, written in Verus and proved by it. Each function's
  contract states what it returns or changes, except where the result is a
  clock reading or what another thread sent, which no contract can fix:
  - `model` — the list: adding, toggling, removing, restoring and moving
    to-dos, with ids that stay unique.
  - `app` — what the window decides: editing, the composer, delete and undo,
    shortcuts, row clicks and drags, taking in changes made elsewhere, and the
    scripted demo states.
  - `cli` — parsing arguments, listing, and applying `done`/`undone`/`rm`.
  - `markdown` — turning `pulldown-cmark`'s events into blocks of styled runs.
  - `capture` — quick capture: the double-tap detector and turning a selection
    into a title and a body.
  - `icon` — the PNG container (zlib stored blocks, CRC-32, Adler-32).
  - `fonts`, `hotkey`, `settings`, `theme`, `store`, `platform`, `text` — font
    choice and validation, the summon shortcut, preferences, accents, load
    notices, key names, and the text helpers the rest is written with.
- `tests/` runs the library on concrete inputs.
- `app/` is the program around it: the window (eframe), files on disk, JSON,
  registering the shortcut, font scanning, and everything drawn in floating
  point.

The `law_*` proof functions state what holds across calls, such as undo
putting back exactly what a delete took.
