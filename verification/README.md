# polodb_core

An embedded document database with verified contracts.

- `src/value.rs` — documents and values, and their model (`ValueModel`, `DocModel`).
- `src/query.rs` — filters (`$and`, `$or`, field equality) and their checking.
- `src/update.rs` — updates (`$set`, `$unset`), and what they do to a document.
- `src/model.rs` — the model of the whole database and the invariant that every
  collection's documents have distinct `_id`s of one kind.
- `src/store.rs` — the state (`DbContext`) and its operations.
- `src/db.rs` — `Database`, the operations by collection name, and the answering
  of requests (`handle_request_doc`).
- `src/frame.rs` — the length prefix of a request frame.
- `src/laws.rs` — properties across operations: read after write, delete then
  find, drop, create once, rollback, commit.
- `app/lib.rs` — files, byte streams, BSON conversion and typed collections.
