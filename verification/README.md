# voidmat-relay

A websocket relay for the voidmat board game: clients create or join rooms by
a six-character code, and the relay forwards each player's game actions to
the other players of the room. It knows nothing of the game's rules.

## Layout

- `src/` is the library, verified with Verus.
  - `room.rs`: rooms, the registry of rooms (held in a `dashmap::DashMap`),
    room-code generation, and who receives a message sent in a room.
  - `client.rs`: one connection's state and what each client message does,
    as a step from state and message to new state and messages to deliver.
  - `config.rs`, `text.rs`: settings from defaults, `relay.toml` and the
    environment; decimal text.
  - `messages.rs`: the messages between clients and relay.
  - `laws.rs`: properties that span several operations or connections.
- `app/` is the server around it: the websocket loop, JSON and TOML
  (de)serialisation, channels to each connection, and reading the settings.
- `tests/` exercises the library on concrete values.

The registry is shared by all connections behind a mutex in `app/`; each
message is handled with the registry held, and the messages the library
addresses are delivered before it is released.
