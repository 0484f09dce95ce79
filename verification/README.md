# plato

An embedded slot store for pre-compressed HTML cards, with its web service.

- `src/` is the verified library. `layout` packs slot coordinates; `store`
  holds the jump table, the metadata zone and the arena, and reads cards;
  `cards` saves and deletes them; `defrag` compacts the arena; `image` writes
  and reads the disk image; `slots` lists armed slots and computes the
  integer metrics; `journal` renders and installs the correspondence journal;
  `context` assembles the dialogue context of an agent; `admin` guards the
  administrative routes; `text` holds the character-level utilities; `codec`
  holds the calls into flate2 and chrono, with their contracts.
- `app/` is the HTTP service around it (axum, tokio): routing, the disk file,
  the cycle counter and the floating-point telemetry.
- `tests/` runs the library on concrete values.
