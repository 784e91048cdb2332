# AeroShoot editor core

The core of a screen-recording editor, written in Rust and proved with Verus. The library
decides; the program around it reads, writes, decodes and draws.

## Layout

- `src/` is the library. Every function states in its contract what it returns.
  - `session`, `capture`: the session's state machine, clocks, queues and source geometry.
  - `project`: bundles, manifests, journals, segments, recovery, edits and their history,
    WAV and fragmented MP4 files, waveforms and silence.
  - `timeline`, `zoom`: what an edit keeps of its source, and what it zooms on.
  - `playback`: the clock, decode plans, the worker's rounds and the preview surface.
  - `media`, `render`, `export`: frames, mixing plans, scenes, and the export of an edit.
  - `commands`: what is checked and decided before a request is acted on.
- `app/` is the program: files, locks, native media frameworks, the graphics card, sound
  samples and the JSON commands. Run it with `--stdio` to serve commands.
- `tests/` run the library on concrete values.

## Conventions

Times are whole microseconds. Half-open ranges hold their start and not their end.
Floating-point numbers that are only stored or compared are kept as bit patterns; what is
computed with them is computed in `app/`.

Calls into other crates stand behind small functions marked `external_body`. The comment
above each one says which function it calls and what is claimed of it.
