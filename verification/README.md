# codeg

The logic of remote workspace connections, verified with Verus, and the TLS
settings of the server.

- `src/validate.rs`, `src/header.rs`: what a user may save, and the headers that
  go on a request.
- `src/create.rs`, `src/update.rs`, `src/read.rs`, `src/remove.rs`,
  `src/reorder.rs`, `src/migrate.rs`: the operations. Each is a state that names
  the request that is pending (`src/protocol.rs`); an answer takes it to the next
  state.
- `src/world.rs`: a model of the database and the secret store, with the answers
  they may give. `src/roundtrip.rs` and the operations' own files state laws over
  runs in it.
- `src/tls.rs`, `src/listener.rs`: TLS paths, server configuration, and what a
  TLS listener does next.
- `app/`: the outer layer that performs the requests: database, JSON,
  environment, files and sockets.
- `tests/`: the library against a database and a secret store in memory.
