# crustagent

Microsoft Agent characters in Rust: parsers for the character file formats (ACS 2.0 and
1.5, ACF, Microsoft Actor tables, WAV, WMF, GIF), the runtime that sequences and plays
them, and the embedding layer that drives a character from a serial request queue. The
library is written in Verus: every function in `src/` carries a contract that Verus
proves.

## Layout

- `src/` is the verified library. The modules follow the parts of the project: the
  byte readers and formats (`reader`, `blocks`, `acs*`, `acf`, `act`, `wav`, `wmf`,
  `gif`, `decode`), the playback model (`model`, `sequence`, `player`, `idle`, `motion`,
  `rng`, `character`), text and balloons (`text`, `textutil`, `balloon`, `ask`,
  `ask_geometry`, `balloon_ui`, `paint`, `tts`) and the agent itself (`agent`).
- `tests/` holds the tests, run against the compiled library.
- `app/` is a command-line host: it loads a character or an Actor table, drives the
  agent with a headless clock, and writes what it shows as PAM images. File I/O, audio
  output (`rodio`), font rasterizing and floating-point painting live there.

## What lives outside `src/`

- Anything that paints with floating point: the WMF rasterizer's fill, glyph
  rasterizing and anti-aliased balloon chrome. The geometry these rest on (balloon
  layout, the interactive balloon's row and button boxes in `ask_geometry`, its hit test,
  WMF record interpretation) is in `src/`.
- The interactive question balloon's pixels: the command-line host paints no
  interactive balloon. Only its layout (`ask`), its row and button boxes and its hit
  test (`ask_geometry`) are provided, for a windowed host to draw and click.
- A windowed viewer (transparent always-on-top character and balloon windows): the host
  here writes image files instead.
