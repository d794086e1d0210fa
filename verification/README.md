# pledge

A caching proxy for the PostgreSQL wire protocol. It stands between clients and a database. It plans
which of a client's messages are answered from a cache and which go to the database, and it captures
the database's answers to configured queries for the cache.

- `src/` is the library, written and proved in Verus: the cache (`cache`), its settings (`config`),
  the clock (`clock`), and the protocol (`wire`): framing, reading and writing messages, planning
  what becomes of a client's messages, and capturing the database's answers.
- `app/` is the program around it: sockets, the settings file, the HTTP endpoint.
- `tests/` runs the library.

The decisions of the planner are described in `src/wire/plan_model.rs` and
`src/wire/capture_model.rs`. What holds of them as a whole is proved beside them: of the planning in
`planner_laws.rs` and `exchange_laws.rs`, of what has nothing to do with the cache in
`forwarding_laws.rs`, of captured answers in `answer_laws.rs`, and of executions in
`execution_laws.rs`. What holds of the cache is proved in `src/cache/laws.rs`.

Traffic that has to do with no configured query is proved to reach the database unchanged and in
order. That proof leaves out a simple query or a Terminate that comes while other messages wait for
a Sync, a Sync with a body, and messages that cannot be read.

The program does not write answers back yet: once a connection is set up, neither cached answers nor
those of the database go to the client. It reads the database up to its next ReadyForQuery. The HTTP
endpoint is unencrypted; the settings for TLS are read and not used.
