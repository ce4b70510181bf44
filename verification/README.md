# rustler_live_view_toy_engine

The engine of a small Phoenix LiveView toy: browser sessions connect to it
over TCP, each gets an avatar on a shared canvas, and the key presses a
client sends are forwarded to the master session as avatar updates.

- `src/` is the verified library (Verus): the session of connected entities
  and their avatars (`types/session.rs`, `types/avatars.rs`), the byte-keyed
  map they live in (`keyed.rs`), the buffering and delimiter framing of a
  client connection (`types/client.rs`), the per-poll decisions of an
  entity's task (`types/entity.rs`), and the trusted wrappers around
  `bytes`, `futures`, `rand`, `serde_json` and `std::str::from_utf8`.
- `tests/` exercises the library on concrete values.
- `app/` is the Erlang NIF around it: configuration decoding with
  `rustler`, the TCP server and client tasks on `tokio`, and the
  simulation clock.
