# gaze

An event-sourcing broker that keeps Avro-encoded messages in memory and relays
each published message to the subscriptions that its selection picks: the
checks of each subscription's filter that the message's fields pass, read
field by field as the selection reads them, counted against the number the
filter asks for.

- `src/` is the verified library:
  - `codec/`: variable-length and zigzag integer encodings, little-endian
    bytes, the schema model and the schema registry;
  - `protocol/`: the commands, the frames read from and written to clients,
    and the handling of each request (`eater`);
  - `selection/`: filters, subscriptions and the selector that decides who
    receives a message;
  - `storage/`: the in-memory store of messages by offset;
  - `router.rs`: the state shared by all connections;
  - `gaze/`: the frames and ids of the client program.
- `app/` holds the TCP server and client, and the memory budget.
- `tests/` exercises the library on concrete values.
