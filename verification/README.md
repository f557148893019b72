# Sounding

The decision-making core of a space-flight sandbox, written and verified in Verus,
with a small program around it.

- `src/` is the library: the ship editor, the craft library, the runtime bus, input
  injection, replay, telemetry, the scenes' controls and readouts, the planet
  surface's streaming, and the crafts that the scenes are built of. Each public
  function states what it returns or changes; the laws that span several of them
  are public proof functions beside them.
- `tests/` runs the library on concrete values.
- `app/` is the program: arguments, files, the HTTP server, the JSON forms of
  commands and crafts, the frame loop, and the geometry that works on floating-point
  vectors.

Lengths, times, masses and shares are whole numbers of small units (micrometres,
microseconds, milligrams, millionths), named where they are used. Numbers that the
library only carries or compares are held as bit patterns.

The state of keys and buttons is kept by Bevy's `ButtonInput`, behind the wrappers in
`src/input.rs`; their contracts, and that of `String::push` in `src/text.rs`, are what
the proofs rest on.
