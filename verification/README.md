# cadverse

A shared CAD simulation: a host runs a physics simulation of a model, and
members of a group (other hosts and AR clients) join over peer-to-peer
connections to watch and touch it.

## Layout

- `src/` is the verified library.
  - `triple_buffer`: the three-slot buffer between the simulation and the
    network, its role handles (each carrying the id of the buffer it was made
    with, which every operation checks), and
    the laws of publishing and reading.
  - `network`: the group coordinator's member table, registration,
    heartbeats, disconnects, expiry and the messages each step sends.
  - `keys`: the group key derived from name and password, where the
    coordinator's record is published, the record to publish and how a
    relay's answer is read back.
  - `qr`: the QR code's modules and the window image drawn from them.
  - `sim_input`, `sim_control`, `clients`, `host`, `ar_client`, `menu`: the
    decisions of the simulation loop, the network loop, the AR client and the
    console menu.
- `tests/` runs the library on concrete values.
- `app/` is the program around it: console, threads, tokio tasks, QUIC and
  HTTP/3 over iroh, the Python simulator, file watching and the QR window.

## Notes

- The coordinator keeps its members in a `Vec` in which no id occurs twice,
  not in a `HashMap` keyed by endpoint id. vstd specifies `HashMap` only for
  key types that obey its key model, which it grants to integers and `bool`;
  a 32-byte id key would need that fact assumed, and an integer key cannot
  stand for a 32-byte id without collisions.
- `app/` uses `nalgebra` (pose math when a model is loaded) and `minifb` (the
  QR window), which are not declared in `Cargo.toml`: they were left out to
  keep the dependency tree small. Until they are declared, `app/` does not
  build. The Android entry point
  (`android_activity`, `android_logger`) is left out for the same reason; its
  round loop stands in `app/ar_sample.rs`.
- The p2p layer knows a member only as a server or not (`is_server`), so the
  member list cannot tell AR clients from other members.
