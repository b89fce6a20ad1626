# ixmati

The decision logic of Ixmati, a serialized write engine for SQLite, as a
verified Verus library, with the services around it.

- `src/` is the library. Every function carries a contract that Verus proves:
  store and projection configuration, the write API's admission and
  acknowledgement rules, authentication, backpressure, health aggregation,
  the cache key layouts and the cache server's line protocol, projection
  maintenance (patterns R and M, the reverse index, event de-duplication),
  projection reconciliation, and the offline store migrations (manifest
  validation, last-write-wins merging, idempotency and outbox merging,
  hash routing of splits, reports).
- `app/` holds the services themselves: the HTTP API, the cache server and
  its clients, the projector, the reconciler, the supervisor and the
  migration tool. They perform the I/O (SQLite, redb, MQTT, sockets, files)
  and leave each decision to the library. The gRPC server and protobuf
  bodies, the Prometheus `/metrics` endpoints and the FlashDB backend are not
  built here.
- `tests/` runs the library on concrete values.
