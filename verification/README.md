# astro (verified core)

The rules of the astro terminal app, written in Verus and proved against
their contracts, with the screens and files around them in `app/`.

- `src/calendar.rs` — Julian day numbers and calendar dates in whole
  days, and the proof that they invert each other on real dates.
- `src/plan.rs` — which evening a moment belongs to, the night's target
  list, its stored date and file names, the `Seen` part of its log, and
  the plan screen's keys.
- `src/sky.rs` — the chart's moment, body colours, the hour keys, and
  finding an object by what the user types.
- `src/gear/data.rs` — where the catalogue's files live, the settings'
  defaults, and which old backups a new one retires.
- `src/gear/ui.rs` — the catalogue screen's two lists (cursor, tags,
  reordering, deletion) as a state machine with its laws, the key map,
  and the helpers the rows and logs are laid out with.
- `src/text.rs` — characters, decimal numbers, whitespace, and splitting.
- `app/` — terminal I/O, the optical formulas (floating point) and the
  drawing, calling the library for every decision.
- `tests/` — the library's tests.
