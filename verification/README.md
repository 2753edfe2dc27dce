# paldex

Readers for Palworld's save files and the game's own pak assets, with their
behaviour stated as contracts and proved with Verus.

## Layout

- `src/` — the verified library.
  - `gvas/` decodes Unreal `GVAS` save-game property trees.
  - `data/` reads cooked `.uasset`/`.uexp` packages, `.usmap` schemas,
    unversioned `DataTable` rows, text tables and block-compressed textures,
    derives the breeding rules, and builds the reference index the views
    read through.
  - `locate.rs` decides what the save directories and the Steam library
    manifest hold, given listings of them.
  - `views.rs` joins stored facts and reference data into the shapes the
    front end renders.
  - `encoding.rs` renders SHA-256 digests as hex and icons as base64 `data:`
    URLs.
  - `text.rs`, `bytes.rs`, `assoc.rs`, `order.rs` hold the string, byte,
    association-list and ordering groundwork the rest is stated over.
- `tests/` — tests of the library on concrete inputs.
- `app/` — a command-line front end: walks the file system for saves and
  paks, reads an unpacked pak, and prints the views as JSON.
