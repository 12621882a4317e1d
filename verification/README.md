# drp

A small chat system: a server that keeps users, channels and connections,
clients that encrypt message bodies with keys exchanged through the server,
a plain line client, terminal IRC clients and a broadcast echo server.

The library in `src/` is verified with Verus: every function that decides
something states what it returns or changes in its contract.

- `util` — protocol messages and their frames, with read-back laws.
- `names`, `conns`, `bytes` — the tables the server and clients keep.
- `server` — the chat server as a state machine over its tables, with the
  invariant that every operation keeps and laws on registering, joining,
  leaving, sending and key exchange.
- `client`, `we` — the encrypting client and the plain line client: typed
  lines become messages, frames from the server become output.
- `crypto`, `hex`, `keygen` — `sodiumoxide` boxes and `rustc_serialize` hex
  text, behind small trusted wrappers whose contracts are documented.
- `irc`, `irc_single` — terminal clients: received and typed bytes become
  screen operations and writes.
- `echo` — the broadcast echo server.
- `slab` — connection tokens, handed out again last-given-back first.
- `event` — what each event loop does with a readiness event.
- `dump` — a frame read as three text fields.
- `framing` — where each message ends on a stream, from its segment table.
- `laws` — properties that span the clients and the server.

`app/` holds the programs: sockets and polling (`mio`), the Cap'n Proto wire
format (`capnp`), the terminal, and files. It hands bytes and events to the
library and carries out the actions it returns.
