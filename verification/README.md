# ecs

An entity–component–system core, verified with Verus.

- `src/entities.rs` — the slot table of entities and their component signatures.
- `src/line.rs` — component lines, each a `sparseset::SparseSet` keyed by entity id,
  and the trusted contracts of the sparse-set calls.
- `src/components.rs` — registration of component kinds (one signature bit each) and
  the component lines.
- `src/recources.rs`, `src/events.rs` — resources keyed by kind, and the current and
  next-tick event queues.
- `src/ecs.rs` — the world: spawning, attaching, reading, popping and despawning;
  each keeps signatures and component slots in agreement.
- `src/signature.rs`, `src/consistency.rs` — signature bits, and why every change the
  world makes keeps signatures and slots in agreement.
- `src/app.rs` — systems, plugins, and the update plan: which systems run for which
  queued event, in which order.
- `src/atlas.rs` — texture and mesh atlas lookups, reading texture entries from a
  JSON document, and decoding texture images (through the `image` crate).
- `src/json_doc.rs` — parsed JSON documents as plain values (through the `json` crate)
  and the lookups on them.
- `src/keys.rs` — which keys are held down.
- `src/laws.rs` — properties of the library as a whole.
- `app/` — the program: the event loop (winit), rendering (wgpu), file reading, and the float-valued components, around the verified library.

Kinds of components, resources and events are identified by numbers the program
chooses (`TypeKey`); component values are `u64` (an id, or an index into the
program's own storage).
