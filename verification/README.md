# vcd30_player

A player for Video CDs, including the interactive VCD 3.0 format, whose
format parsers, script interpreter, playback-control engine and player
decisions are verified with Verus.

## Layout

- `src/` — the verified library.
  - `bytes.rs`, `text.rs` — byte and text primitives with their specifications.
  - `vcd/` — the disc's tables (`INFO.VCD`, `ENTRIES.VCD`, `LOT.VCD`,
    `PSD.VCD`), the playback-control engine, disc classification, segment
    items and track planning.
  - `assets/` — the page format (`.CHM`), the image format (`.YBM`) and the
    start-up configuration (`AUTORUN.CLS`).
  - `interactive/` — the page-script parser and virtual machine, and the
    decisions of the interactive kernel (remote keys, hotspots, history,
    karaoke playlist, drawing text on the canvas).
  - `audio/`, `video/` — channel mixing, the RIFF/CDXA unwrapping of MPEG
    tracks and the playback state.
  - `ui/` — display modes, key handling and captions of the player window.
  - `updater.rs` — version comparison, package choice, SHA-256 check and the
    update state machine.
  - `i18n/` — locales, looking texts up with fallbacks, and the language list.
- `tests/` — tests of the library.
- `app/` — a command-line front end that reads a disc from the file system
  and reports what the library finds on it.
