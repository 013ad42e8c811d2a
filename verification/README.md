# squirreld

The core of an offline-first synchroniser for records and files, written and
proved in Verus.

Records are written to a local database first. Every write is stamped with a
hybrid logical clock and queued in an outbox by the transaction that stores it.
A sync loop pushes the outbox to a remote store and pulls what other devices
wrote; where two devices wrote the same record, the later write wins on both.
Payloads can be encrypted at rest, fields can be indexed for queries and
full-text search, and files are uploaded in parts that survive an interruption.

## Layout

- `src/` is the library. It decides and computes, and every function of it is
  verified: it gives SQL statements to run, makes values of rows and answers
  that come back, and steps the loops.
  - `hlc`, `id`, `text`, `json`, `keyed`: clock readings, record ids and the text
    they are written in.
  - `db`: the statements of each table, the compiler of query filters, and the
    reading of result rows.
  - `crypto`, `retry`, `random`: encryption, key derivation, waits and error logs.
  - `engine`, `reading`, `collection`, `builder`: local writes, what callers get to
    see, and the setup of an engine.
  - `sync`, `blob`, `backend`: push and pull cycles, multipart uploads, and remote
    stores in memory, in DynamoDB and in S3.
  - `db::table`: the records table as a map of rows, and what each statement does
    to it.
  - `record_laws`, `sync_laws`, `blob_laws`, `db::index_laws`, and the functions named `law_…` in
    the other modules: what holds of all of it together.
- `tests/` runs the library, with a real SQLite database where statements are
  concerned.
- `app/` is the asynchronous engine around it: tokio tasks, SQLite connections,
  files and the AWS SDK.

## What is taken on trust

The functions marked `external_body` call `aes-gcm`, `argon2`, `rand`, `serde_json`,
`ulid` and std; the comment above each says what is claimed of the call. What
SQLite makes of a statement, and what a remote service answers, is outside the
library; `db::table` writes down what is meant by the statements on records, and
the tests run them.
