# server

The verified core of a single-player arena shooter server.

- `src/sim.rs`: the tick schedule (60 steps per second, a snapshot every third step).
- `src/world.rs`: the arena rules: targets, shots, score, game over, resets.
  The physics (movement, collisions, ray casts) is measured outside and
  handed to `GameWorld::step` as a `PhysicsReport`.
- `src/session.rs`: the session state machine: one player at a time, player
  ids, client commands, and the messages that follow each step, with laws
  over runs of events.
- `src/protocol.rs`: the float-free message values.
- `app/`: the Axum WebSocket server, the Rapier scene and the simulation loop,
  which perform what the library decides.
