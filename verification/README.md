# stupid-kv

A multi-version key-value store. Transactions read from a snapshot, and at commit their writes are
checked against those of others (snapshot isolation), and their reads, too, where that is asked for
(serializable snapshot isolation). Old versions are collected once nobody can read them. Snapshots
and an append-only log bring a store back.

The library is written in Verus: what its functions do is stated in their contracts and proved.

- `src/model.rs` is the model of the engine: its state, and what beginning, committing, releasing,
  cleaning and collecting do to it. The contracts of `src/db.rs`, `src/tx.rs` and `src/inner.rs`
  speak of it, and `src/laws.rs` proves what holds of it as a whole.
- `src/chain.rs` is the model of a version chain; `src/versions.rs` is the chain itself.
- `src/queue.rs`, `src/bloom.rs`, `src/writeset.rs` and `src/readset.rs` look for conflicts.
- `src/persistence.rs`, `src/replay.rs`, `src/codec.rs` and `src/compression.rs` make the bytes of
  snapshots and of the log and read them back; `src/recovery.rs` proves that nothing is lost.
- `src/server.rs`, `src/capi.rs` and `src/python.rs` are the interfaces for HTTP, C and Python as
  far as they are plain values.
- `app/` is the program around the library: a lock, threads, files, sockets and pointers.

Functions that are marked `external_body` call other crates or the standard library. Their contracts
are not proved; the comment above each of them says what it claims.
