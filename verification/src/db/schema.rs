//! The tables of the database.

use vstd::prelude::*;
use vstd::string::*;

verus! {

/// Creates the tables that are not there yet.
pub const SCHEMA_SQL: &'static str = "
CREATE TABLE IF NOT EXISTS config (
    key   TEXT PRIMARY KEY,
    value TEXT NOT NULL
);

CREATE TABLE IF NOT EXISTS records (
    id             TEXT    PRIMARY KEY,
    collection     TEXT    NOT NULL,
    data           BLOB    NOT NULL,
    hlc            TEXT    NOT NULL,
    schema_version INTEGER NOT NULL DEFAULT 0,
    format_version INTEGER NOT NULL DEFAULT 0,
    dek_encrypted  BLOB,
    deleted        INTEGER NOT NULL DEFAULT 0,
    synced         INTEGER NOT NULL DEFAULT 0,
    created_at     INTEGER NOT NULL,
    updated_at     INTEGER NOT NULL
);
CREATE INDEX IF NOT EXISTS idx_records_collection_hlc
    ON records(collection, hlc DESC);

CREATE TABLE IF NOT EXISTS outbox (
    seq           INTEGER PRIMARY KEY AUTOINCREMENT,
    record_id     TEXT    NOT NULL,
    collection    TEXT    NOT NULL,
    operation     TEXT    NOT NULL,
    hlc           TEXT    NOT NULL,
    data          BLOB,
    created_at    INTEGER NOT NULL,
    next_retry_at INTEGER NOT NULL DEFAULT 0,
    retries       INTEGER NOT NULL DEFAULT 0,
    last_error    TEXT,
    error_log     TEXT
);
CREATE INDEX IF NOT EXISTS idx_outbox_ready
    ON outbox(next_retry_at, seq);

CREATE TABLE IF NOT EXISTS blobs (
    id             TEXT    PRIMARY KEY,
    record_id      TEXT,
    collection     TEXT,
    local_path     TEXT,
    s3_key         TEXT    NOT NULL,
    size_bytes     INTEGER,
    upload_id      TEXT,
    status         TEXT    NOT NULL,
    format_version INTEGER NOT NULL DEFAULT 0,
    dek_encrypted  BLOB,
    base_nonce     BLOB,
    retries        INTEGER NOT NULL DEFAULT 0,
    next_retry_at  INTEGER NOT NULL DEFAULT 0,
    last_error     TEXT,
    error_log      TEXT,
    created_at     INTEGER NOT NULL,
    updated_at     INTEGER NOT NULL
);

CREATE TABLE IF NOT EXISTS blob_parts (
    blob_id     TEXT    NOT NULL REFERENCES blobs(id) ON DELETE CASCADE,
    part_number INTEGER NOT NULL,
    etag        TEXT,
    uploaded    INTEGER NOT NULL DEFAULT 0,
    PRIMARY KEY (blob_id, part_number)
);

CREATE TABLE IF NOT EXISTS sync_state (
    backend       TEXT PRIMARY KEY,
    last_pull_hlc TEXT
);
";

/// Whether batches set a connection up.
pub open spec fn is_setup(batches: Seq<&'static str>) -> bool {
    batches == seq!["PRAGMA journal_mode=WAL;", "PRAGMA foreign_keys=ON;", SCHEMA_SQL]
}

/// The batches that set a connection up, in order: write-ahead logging,
/// foreign keys, and the tables that are not there yet.
pub fn initialize() -> (r: Vec<&'static str>)
    ensures
        r@ == seq!["PRAGMA journal_mode=WAL;", "PRAGMA foreign_keys=ON;", SCHEMA_SQL],
        is_setup(r@),
{
    let out: Vec<&'static str> = vec![
        "PRAGMA journal_mode=WAL;",
        "PRAGMA foreign_keys=ON;",
        SCHEMA_SQL,
    ];
    assert(out@ =~= seq!["PRAGMA journal_mode=WAL;", "PRAGMA foreign_keys=ON;", SCHEMA_SQL]);
    out
}

} // verus!
