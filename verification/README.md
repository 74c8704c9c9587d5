# scene

The model of a shared tabletop scene: layers of sprites, fog of war, sprite
groups, permissions, the event log with undo and redo, and the framing of saved
scenes. Every function in `src/` carries a contract; Verus proves each one,
but for the few marked `external_body`, which call bincode, uuid or the
standard library and whose contracts are trusted.

Layout:

- `src/geom.rs`, `src/sprite.rs`, `src/layer.rs`: the value types and layers.
- `src/scene.rs`, `src/stack.rs`, `src/placement.rs`: layer ordering and sprite
  placement in a scene, with the laws on layer moves and removals.
- `src/comms.rs`, `src/events.rs`, `src/history.rs`, `src/client.rs`: scene
  events, applying and unwinding them, the client history of issued events,
  and what a client does with each message from the server.
- `src/fog.rs`, `src/group.rs`, `src/perms.rs`: fog of war, groups, permissions.
- `src/details.rs`, `src/interface.rs`: sprite detail editing and interface state.
- `src/save.rs`, `src/saved.rs`, `src/project.rs`, `src/requests.rs`,
  `src/text.rs`, `src/round_trip.rs`: saved frames, the saved scene format
  and the law that a saved scene reads back as it was, projects and request
  bodies.
- `app/`: floating-point geometry, and the serde copies of the request types
  and of the saved format.
- `tests/`: tests run against the compiled library.
