//! The statements that the database is known to run, by their texts.

use vstd::prelude::*;
use vstd::string::*;

use crate::db::schema::is_setup;
use crate::types::SortOrder;

verus! {

/// Writes a record that was changed here.
pub open spec fn write_record() -> Seq<char> {
    "INSERT INTO records (id, collection, data, hlc, schema_version, format_version, dek_encrypted, deleted, synced, created_at, updated_at) VALUES (?1,?2,?3,?4,?5,?6,?7,0,0,?8,?9) ON CONFLICT(id) DO UPDATE SET collection = excluded.collection, data = excluded.data, hlc = excluded.hlc, schema_version = excluded.schema_version, format_version = excluded.format_version, dek_encrypted = excluded.dek_encrypted, deleted = 0, synced = 0, updated_at = excluded.updated_at"@
}

/// Writes a record that was changed elsewhere.
pub open spec fn write_pulled() -> Seq<char> {
    "INSERT INTO records (id, collection, data, hlc, schema_version, format_version, dek_encrypted, deleted, synced, created_at, updated_at) VALUES (?1,?2,?3,?4,?5,?6,?7,?8,1,?9,?10) ON CONFLICT(id) DO UPDATE SET collection = excluded.collection, data = excluded.data, hlc = excluded.hlc, schema_version = excluded.schema_version, format_version = excluded.format_version, dek_encrypted = excluded.dek_encrypted, deleted = excluded.deleted, synced = 1, updated_at = excluded.updated_at"@
}

/// Reads a record.
pub open spec fn read_record() -> Seq<char> {
    "SELECT id, collection, data, hlc, schema_version, format_version, dek_encrypted, deleted, synced, created_at, updated_at FROM records WHERE id = ?1 AND collection = ?2"@
}

/// Sets the tombstone of a record.
pub open spec fn bury_record() -> Seq<char> {
    "UPDATE records SET deleted = 1, hlc = ?1, synced = 0, updated_at = ?2 WHERE id = ?3 AND collection = ?4"@
}

/// Marks a record as synced.
pub open spec fn mark_record() -> Seq<char> {
    "UPDATE records SET synced = 1 WHERE id = ?1 AND collection = ?2"@
}

/// Reads the latest clock reading.
pub open spec fn latest_reading() -> Seq<char> {
    "SELECT MAX(hlc) FROM records"@
}

/// Appends a change to the outbox.
pub open spec fn queue_change() -> Seq<char> {
    "INSERT INTO outbox (record_id, collection, operation, hlc, data, created_at) VALUES (?1, ?2, ?3, ?4, ?5, ?6)"@
}

/// Reads the changes that are due.
pub open spec fn due_changes() -> Seq<char> {
    "SELECT seq, record_id, collection, operation, hlc, data, created_at, next_retry_at, retries, last_error, error_log FROM outbox WHERE next_retry_at <= ?1 ORDER BY seq ASC LIMIT ?2"@
}

/// Reads the first change that waits.
pub open spec fn waiting_change() -> Seq<char> {
    "SELECT MIN(seq) FROM outbox WHERE next_retry_at > ?1"@
}

/// Reads how often a change failed.
pub open spec fn change_failures() -> Seq<char> {
    "SELECT retries, error_log FROM outbox WHERE seq = ?1"@
}

/// Puts a change off.
pub open spec fn put_off_change() -> Seq<char> {
    "UPDATE outbox SET retries = ?1, next_retry_at = ?2, last_error = ?3, error_log = ?4 WHERE seq = ?5"@
}

/// Reads the changes that failed.
pub open spec fn failed_changes() -> Seq<char> {
    "SELECT seq, record_id, collection, operation, hlc, data, created_at, next_retry_at, retries, last_error, error_log FROM outbox WHERE retries > 0 ORDER BY seq ASC"@
}

/// Discards a change.
pub open spec fn drop_change() -> Seq<char> {
    "DELETE FROM outbox WHERE seq = ?1"@
}

/// Discards the changes of a record.
pub open spec fn drop_changes_of() -> Seq<char> {
    "DELETE FROM outbox WHERE record_id = ?1 AND collection = ?2"@
}

/// Inserts a blob.
pub open spec fn write_blob() -> Seq<char> {
    "INSERT INTO blobs (id, record_id, collection, local_path, s3_key, size_bytes, upload_id, status, format_version, retries, next_retry_at, created_at, updated_at) VALUES (?1,?2,?3,?4,?5,?6,?7,?8,?9,0,0,?10,?11)"@
}

/// Reads a blob.
pub open spec fn read_blob() -> Seq<char> {
    "SELECT id, record_id, collection, local_path, s3_key, size_bytes, upload_id, status, format_version, retries, next_retry_at, last_error, error_log, created_at, updated_at FROM blobs WHERE id = ?1"@
}

/// Writes the status of a blob.
pub open spec fn set_blob_status() -> Seq<char> {
    "UPDATE blobs SET status = ?1, updated_at = ?2 WHERE id = ?3"@
}

/// Writes where the file of a blob is.
pub open spec fn set_blob_path() -> Seq<char> {
    "UPDATE blobs SET local_path = ?1, size_bytes = ?2, updated_at = ?3 WHERE id = ?4"@
}

/// Writes the upload of a blob.
pub open spec fn set_blob_upload() -> Seq<char> {
    "UPDATE blobs SET upload_id = ?1, status = 'uploading', updated_at = ?2 WHERE id = ?3"@
}

/// Sets a blob back to begin its upload anew.
pub open spec fn clear_blob_upload() -> Seq<char> {
    "UPDATE blobs SET upload_id = NULL, status = 'pending', next_retry_at = 0, updated_at = ?1 WHERE id = ?2"@
}

/// Reads how often a blob failed.
pub open spec fn blob_failures() -> Seq<char> {
    "SELECT retries, error_log FROM blobs WHERE id = ?1"@
}

/// Puts a blob off.
pub open spec fn put_off_blob() -> Seq<char> {
    "UPDATE blobs SET retries = ?1, next_retry_at = ?2, last_error = ?3, error_log = ?4, updated_at = ?5 WHERE id = ?6"@
}

/// Writes a part.
pub open spec fn write_part() -> Seq<char> {
    "INSERT INTO blob_parts (blob_id, part_number, etag, uploaded) VALUES (?1, ?2, ?3, 1) ON CONFLICT(blob_id, part_number) DO UPDATE SET etag = excluded.etag, uploaded = 1"@
}

/// Reads the parts of a blob.
pub open spec fn read_parts() -> Seq<char> {
    "SELECT blob_id, part_number, etag, uploaded FROM blob_parts WHERE blob_id = ?1 ORDER BY part_number ASC"@
}

/// Removes the parts of a blob.
pub open spec fn drop_parts() -> Seq<char> {
    "DELETE FROM blob_parts WHERE blob_id = ?1"@
}

/// Reads a value.
pub open spec fn read_config() -> Seq<char> {
    "SELECT value FROM config WHERE key = ?1"@
}

/// Writes a value.
pub open spec fn write_config() -> Seq<char> {
    "INSERT INTO config (key, value) VALUES (?1, ?2) ON CONFLICT(key) DO UPDATE SET value = excluded.value"@
}

/// Reads a checkpoint.
pub open spec fn read_checkpoint() -> Seq<char> {
    "SELECT last_pull_hlc FROM sync_state WHERE backend = ?1"@
}

/// Writes a checkpoint.
pub open spec fn write_checkpoint() -> Seq<char> {
    "INSERT INTO sync_state (backend, last_pull_hlc) VALUES (?1, ?2) ON CONFLICT(backend) DO UPDATE SET last_pull_hlc = excluded.last_pull_hlc"@
}

/// Lists a collection.
pub open spec fn list_records(include_deleted: bool, order: SortOrder) -> Seq<char> {
    "SELECT id, collection, data, hlc, schema_version, format_version, dek_encrypted, deleted, synced, created_at, updated_at FROM records WHERE collection = ?1"@
        + (if include_deleted {
        Seq::empty()
    } else {
        " AND deleted = 0"@
    }) + " ORDER BY hlc "@ + (match order {
        SortOrder::HlcAsc => "ASC"@,
        SortOrder::HlcDesc => "DESC"@,
    }) + " LIMIT ?2 OFFSET ?3"@
}

/// A list of `n` placeholders.
pub open spec fn marks(n: nat) -> Seq<char>
    decreases n,
{
    if n == 0 {
        Seq::empty()
    } else if n == 1 {
        "?"@
    } else {
        marks((n - 1) as nat) + ","@ + "?"@
    }
}

/// Discards `n` changes.
pub open spec fn drop_changes(n: nat) -> Seq<char> {
    "DELETE FROM outbox WHERE seq IN ("@ + marks(n) + ")"@
}

/// The statements that write differ in their lengths or in some letter.
pub(crate) proof fn lemma_writes_differ()
    ensures
        write_record() != write_pulled(),
        write_record() != bury_record(),
        write_record() != mark_record(),
        write_record() != queue_change(),
        write_record() != put_off_change(),
        write_record() != drop_change(),
        write_record() != drop_changes_of(),
        write_record() != write_blob(),
        write_record() != set_blob_status(),
        write_record() != set_blob_path(),
        write_record() != set_blob_upload(),
        write_record() != clear_blob_upload(),
        write_record() != put_off_blob(),
        write_record() != write_part(),
        write_record() != drop_parts(),
        write_record() != write_config(),
        write_record() != write_checkpoint(),
        write_pulled() != bury_record(),
        write_pulled() != mark_record(),
        write_pulled() != queue_change(),
        write_pulled() != put_off_change(),
        write_pulled() != drop_change(),
        write_pulled() != drop_changes_of(),
        write_pulled() != write_blob(),
        write_pulled() != set_blob_status(),
        write_pulled() != set_blob_path(),
        write_pulled() != set_blob_upload(),
        write_pulled() != clear_blob_upload(),
        write_pulled() != put_off_blob(),
        write_pulled() != write_part(),
        write_pulled() != drop_parts(),
        write_pulled() != write_config(),
        write_pulled() != write_checkpoint(),
        bury_record() != mark_record(),
        bury_record() != queue_change(),
        bury_record() != put_off_change(),
        bury_record() != drop_change(),
        bury_record() != drop_changes_of(),
        bury_record() != write_blob(),
        bury_record() != set_blob_status(),
        bury_record() != set_blob_path(),
        bury_record() != set_blob_upload(),
        bury_record() != clear_blob_upload(),
        bury_record() != put_off_blob(),
        bury_record() != write_part(),
        bury_record() != drop_parts(),
        bury_record() != write_config(),
        bury_record() != write_checkpoint(),
        mark_record() != queue_change(),
        mark_record() != put_off_change(),
        mark_record() != drop_change(),
        mark_record() != drop_changes_of(),
        mark_record() != write_blob(),
        mark_record() != set_blob_status(),
        mark_record() != set_blob_path(),
        mark_record() != set_blob_upload(),
        mark_record() != clear_blob_upload(),
        mark_record() != put_off_blob(),
        mark_record() != write_part(),
        mark_record() != drop_parts(),
        mark_record() != write_config(),
        mark_record() != write_checkpoint(),
        queue_change() != put_off_change(),
        queue_change() != drop_change(),
        queue_change() != drop_changes_of(),
        queue_change() != write_blob(),
        queue_change() != set_blob_status(),
        queue_change() != set_blob_path(),
        queue_change() != set_blob_upload(),
        queue_change() != clear_blob_upload(),
        queue_change() != put_off_blob(),
        queue_change() != write_part(),
        queue_change() != drop_parts(),
        queue_change() != write_config(),
        queue_change() != write_checkpoint(),
        put_off_change() != drop_change(),
        put_off_change() != drop_changes_of(),
        put_off_change() != write_blob(),
        put_off_change() != set_blob_status(),
        put_off_change() != set_blob_path(),
        put_off_change() != set_blob_upload(),
        put_off_change() != clear_blob_upload(),
        put_off_change() != put_off_blob(),
        put_off_change() != write_part(),
        put_off_change() != drop_parts(),
        put_off_change() != write_config(),
        put_off_change() != write_checkpoint(),
        drop_change() != drop_changes_of(),
        drop_change() != write_blob(),
        drop_change() != set_blob_status(),
        drop_change() != set_blob_path(),
        drop_change() != set_blob_upload(),
        drop_change() != clear_blob_upload(),
        drop_change() != put_off_blob(),
        drop_change() != write_part(),
        drop_change() != drop_parts(),
        drop_change() != write_config(),
        drop_change() != write_checkpoint(),
        drop_changes_of() != write_blob(),
        drop_changes_of() != set_blob_status(),
        drop_changes_of() != set_blob_path(),
        drop_changes_of() != set_blob_upload(),
        drop_changes_of() != clear_blob_upload(),
        drop_changes_of() != put_off_blob(),
        drop_changes_of() != write_part(),
        drop_changes_of() != drop_parts(),
        drop_changes_of() != write_config(),
        drop_changes_of() != write_checkpoint(),
        write_blob() != set_blob_status(),
        write_blob() != set_blob_path(),
        write_blob() != set_blob_upload(),
        write_blob() != clear_blob_upload(),
        write_blob() != put_off_blob(),
        write_blob() != write_part(),
        write_blob() != drop_parts(),
        write_blob() != write_config(),
        write_blob() != write_checkpoint(),
        set_blob_status() != set_blob_path(),
        set_blob_status() != set_blob_upload(),
        set_blob_status() != clear_blob_upload(),
        set_blob_status() != put_off_blob(),
        set_blob_status() != write_part(),
        set_blob_status() != drop_parts(),
        set_blob_status() != write_config(),
        set_blob_status() != write_checkpoint(),
        set_blob_path() != set_blob_upload(),
        set_blob_path() != clear_blob_upload(),
        set_blob_path() != put_off_blob(),
        set_blob_path() != write_part(),
        set_blob_path() != drop_parts(),
        set_blob_path() != write_config(),
        set_blob_path() != write_checkpoint(),
        set_blob_upload() != clear_blob_upload(),
        set_blob_upload() != put_off_blob(),
        set_blob_upload() != write_part(),
        set_blob_upload() != drop_parts(),
        set_blob_upload() != write_config(),
        set_blob_upload() != write_checkpoint(),
        clear_blob_upload() != put_off_blob(),
        clear_blob_upload() != write_part(),
        clear_blob_upload() != drop_parts(),
        clear_blob_upload() != write_config(),
        clear_blob_upload() != write_checkpoint(),
        put_off_blob() != write_part(),
        put_off_blob() != drop_parts(),
        put_off_blob() != write_config(),
        put_off_blob() != write_checkpoint(),
        write_part() != drop_parts(),
        write_part() != write_config(),
        write_part() != write_checkpoint(),
        drop_parts() != write_config(),
        drop_parts() != write_checkpoint(),
        write_config() != write_checkpoint(),
{
    reveal_strlit("INSERT INTO records (id, collection, data, hlc, schema_version, format_version, dek_encrypted, deleted, synced, created_at, updated_at) VALUES (?1,?2,?3,?4,?5,?6,?7,0,0,?8,?9) ON CONFLICT(id) DO UPDATE SET collection = excluded.collection, data = excluded.data, hlc = excluded.hlc, schema_version = excluded.schema_version, format_version = excluded.format_version, dek_encrypted = excluded.dek_encrypted, deleted = 0, synced = 0, updated_at = excluded.updated_at");
    reveal_strlit("INSERT INTO records (id, collection, data, hlc, schema_version, format_version, dek_encrypted, deleted, synced, created_at, updated_at) VALUES (?1,?2,?3,?4,?5,?6,?7,?8,1,?9,?10) ON CONFLICT(id) DO UPDATE SET collection = excluded.collection, data = excluded.data, hlc = excluded.hlc, schema_version = excluded.schema_version, format_version = excluded.format_version, dek_encrypted = excluded.dek_encrypted, deleted = excluded.deleted, synced = 1, updated_at = excluded.updated_at");
    reveal_strlit("UPDATE records SET deleted = 1, hlc = ?1, synced = 0, updated_at = ?2 WHERE id = ?3 AND collection = ?4");
    reveal_strlit("UPDATE records SET synced = 1 WHERE id = ?1 AND collection = ?2");
    reveal_strlit("INSERT INTO outbox (record_id, collection, operation, hlc, data, created_at) VALUES (?1, ?2, ?3, ?4, ?5, ?6)");
    reveal_strlit("UPDATE outbox SET retries = ?1, next_retry_at = ?2, last_error = ?3, error_log = ?4 WHERE seq = ?5");
    reveal_strlit("DELETE FROM outbox WHERE seq = ?1");
    reveal_strlit("DELETE FROM outbox WHERE record_id = ?1 AND collection = ?2");
    reveal_strlit("INSERT INTO blobs (id, record_id, collection, local_path, s3_key, size_bytes, upload_id, status, format_version, retries, next_retry_at, created_at, updated_at) VALUES (?1,?2,?3,?4,?5,?6,?7,?8,?9,0,0,?10,?11)");
    reveal_strlit("UPDATE blobs SET status = ?1, updated_at = ?2 WHERE id = ?3");
    reveal_strlit("UPDATE blobs SET local_path = ?1, size_bytes = ?2, updated_at = ?3 WHERE id = ?4");
    reveal_strlit("UPDATE blobs SET upload_id = ?1, status = 'uploading', updated_at = ?2 WHERE id = ?3");
    reveal_strlit("UPDATE blobs SET upload_id = NULL, status = 'pending', next_retry_at = 0, updated_at = ?1 WHERE id = ?2");
    reveal_strlit("UPDATE blobs SET retries = ?1, next_retry_at = ?2, last_error = ?3, error_log = ?4, updated_at = ?5 WHERE id = ?6");
    reveal_strlit("INSERT INTO blob_parts (blob_id, part_number, etag, uploaded) VALUES (?1, ?2, ?3, 1) ON CONFLICT(blob_id, part_number) DO UPDATE SET etag = excluded.etag, uploaded = 1");
    reveal_strlit("DELETE FROM blob_parts WHERE blob_id = ?1");
    reveal_strlit("INSERT INTO config (key, value) VALUES (?1, ?2) ON CONFLICT(key) DO UPDATE SET value = excluded.value");
    reveal_strlit("INSERT INTO sync_state (backend, last_pull_hlc) VALUES (?1, ?2) ON CONFLICT(backend) DO UPDATE SET last_pull_hlc = excluded.last_pull_hlc");
    assert(write_record().len() == 463);
    assert(write_pulled().len() == 480);
    assert(bury_record().len() == 103);
    assert(mark_record().len() == 63);
    assert(queue_change().len() == 108);
    assert(put_off_change().len() == 98);
    assert(drop_change().len() == 33);
    assert(drop_changes_of().len() == 59);
    assert(write_blob().len() == 208);
    assert(set_blob_status().len() == 59);
    assert(set_blob_path().len() == 80);
    assert(set_blob_upload().len() == 84);
    assert(clear_blob_upload().len() == 103);
    assert(put_off_blob().len() == 113);
    assert(write_part().len() == 167);
    assert(drop_parts().len() == 41);
    assert(write_config().len() == 101);
    assert(write_checkpoint().len() == 137);
    assert(bury_record()[7] != clear_blob_upload()[7]);
    assert(drop_changes_of()[0] != set_blob_status()[0]);
}

/// The texts that discard several changes are none of the others.
pub(crate) proof fn lemma_drops_differ(n: nat)
    ensures
        drop_changes(n) != write_record(),
        drop_changes(n) != write_pulled(),
        drop_changes(n) != bury_record(),
        drop_changes(n) != mark_record(),
        drop_changes(n) != queue_change(),
        drop_changes(n) != put_off_change(),
        drop_changes(n) != drop_change(),
        drop_changes(n) != drop_changes_of(),
        drop_changes(n) != write_blob(),
        drop_changes(n) != set_blob_status(),
        drop_changes(n) != set_blob_path(),
        drop_changes(n) != set_blob_upload(),
        drop_changes(n) != clear_blob_upload(),
        drop_changes(n) != put_off_blob(),
        drop_changes(n) != write_part(),
        drop_changes(n) != drop_parts(),
        drop_changes(n) != write_config(),
        drop_changes(n) != write_checkpoint(),
{
    reveal_strlit("DELETE FROM outbox WHERE seq IN (");
    reveal_strlit("INSERT INTO records (id, collection, data, hlc, schema_version, format_version, dek_encrypted, deleted, synced, created_at, updated_at) VALUES (?1,?2,?3,?4,?5,?6,?7,0,0,?8,?9) ON CONFLICT(id) DO UPDATE SET collection = excluded.collection, data = excluded.data, hlc = excluded.hlc, schema_version = excluded.schema_version, format_version = excluded.format_version, dek_encrypted = excluded.dek_encrypted, deleted = 0, synced = 0, updated_at = excluded.updated_at");
    reveal_strlit("INSERT INTO records (id, collection, data, hlc, schema_version, format_version, dek_encrypted, deleted, synced, created_at, updated_at) VALUES (?1,?2,?3,?4,?5,?6,?7,?8,1,?9,?10) ON CONFLICT(id) DO UPDATE SET collection = excluded.collection, data = excluded.data, hlc = excluded.hlc, schema_version = excluded.schema_version, format_version = excluded.format_version, dek_encrypted = excluded.dek_encrypted, deleted = excluded.deleted, synced = 1, updated_at = excluded.updated_at");
    reveal_strlit("UPDATE records SET deleted = 1, hlc = ?1, synced = 0, updated_at = ?2 WHERE id = ?3 AND collection = ?4");
    reveal_strlit("UPDATE records SET synced = 1 WHERE id = ?1 AND collection = ?2");
    reveal_strlit("INSERT INTO outbox (record_id, collection, operation, hlc, data, created_at) VALUES (?1, ?2, ?3, ?4, ?5, ?6)");
    reveal_strlit("UPDATE outbox SET retries = ?1, next_retry_at = ?2, last_error = ?3, error_log = ?4 WHERE seq = ?5");
    reveal_strlit("DELETE FROM outbox WHERE seq = ?1");
    reveal_strlit("DELETE FROM outbox WHERE record_id = ?1 AND collection = ?2");
    reveal_strlit("INSERT INTO blobs (id, record_id, collection, local_path, s3_key, size_bytes, upload_id, status, format_version, retries, next_retry_at, created_at, updated_at) VALUES (?1,?2,?3,?4,?5,?6,?7,?8,?9,0,0,?10,?11)");
    reveal_strlit("UPDATE blobs SET status = ?1, updated_at = ?2 WHERE id = ?3");
    reveal_strlit("UPDATE blobs SET local_path = ?1, size_bytes = ?2, updated_at = ?3 WHERE id = ?4");
    reveal_strlit("UPDATE blobs SET upload_id = ?1, status = 'uploading', updated_at = ?2 WHERE id = ?3");
    reveal_strlit("UPDATE blobs SET upload_id = NULL, status = 'pending', next_retry_at = 0, updated_at = ?1 WHERE id = ?2");
    reveal_strlit("UPDATE blobs SET retries = ?1, next_retry_at = ?2, last_error = ?3, error_log = ?4, updated_at = ?5 WHERE id = ?6");
    reveal_strlit("INSERT INTO blob_parts (blob_id, part_number, etag, uploaded) VALUES (?1, ?2, ?3, 1) ON CONFLICT(blob_id, part_number) DO UPDATE SET etag = excluded.etag, uploaded = 1");
    reveal_strlit("DELETE FROM blob_parts WHERE blob_id = ?1");
    reveal_strlit("INSERT INTO config (key, value) VALUES (?1, ?2) ON CONFLICT(key) DO UPDATE SET value = excluded.value");
    reveal_strlit("INSERT INTO sync_state (backend, last_pull_hlc) VALUES (?1, ?2) ON CONFLICT(backend) DO UPDATE SET last_pull_hlc = excluded.last_pull_hlc");
    assert(drop_changes(n).len() >= 33);
    assert(drop_changes(n)[0] != write_record()[0]);
    assert(drop_changes(n)[0] != write_pulled()[0]);
    assert(drop_changes(n)[0] != bury_record()[0]);
    assert(drop_changes(n)[0] != mark_record()[0]);
    assert(drop_changes(n)[0] != queue_change()[0]);
    assert(drop_changes(n)[0] != put_off_change()[0]);
    assert(drop_changes(n)[29] != drop_change()[29]);
    assert(drop_changes(n)[25] != drop_changes_of()[25]);
    assert(drop_changes(n)[0] != write_blob()[0]);
    assert(drop_changes(n)[0] != set_blob_status()[0]);
    assert(drop_changes(n)[0] != set_blob_path()[0]);
    assert(drop_changes(n)[0] != set_blob_upload()[0]);
    assert(drop_changes(n)[0] != clear_blob_upload()[0]);
    assert(drop_changes(n)[0] != put_off_blob()[0]);
    assert(drop_changes(n)[0] != write_part()[0]);
    assert(drop_changes(n)[12] != drop_parts()[12]);
    assert(drop_changes(n)[0] != write_config()[0]);
    assert(drop_changes(n)[0] != write_checkpoint()[0]);
}

/// Creates the tables that these texts speak of: each row under its key, and
/// outbox entries under numbers that are never used again.
pub open spec fn make_tables() -> Seq<char> {
    "
CREATE TABLE IF NOT EXISTS config (
    key   TEXT PRIMARY KEY,
    value TEXT NOT NULL
);

CREATE TABLE IF NOT EXISTS records (
    id             TEXT    PRIMARY KEY,
    collection     TEXT    NOT NULL,
    data           BLOB    NOT NULL,
    hlc            TEXT    NOT NULL,
    schema_version INTEGER NOT NULL DEFAULT 0,
    format_version INTEGER NOT NULL DEFAULT 0,
    dek_encrypted  BLOB,
    deleted        INTEGER NOT NULL DEFAULT 0,
    synced         INTEGER NOT NULL DEFAULT 0,
    created_at     INTEGER NOT NULL,
    updated_at     INTEGER NOT NULL
);
CREATE INDEX IF NOT EXISTS idx_records_collection_hlc
    ON records(collection, hlc DESC);

CREATE TABLE IF NOT EXISTS outbox (
    seq           INTEGER PRIMARY KEY AUTOINCREMENT,
    record_id     TEXT    NOT NULL,
    collection    TEXT    NOT NULL,
    operation     TEXT    NOT NULL,
    hlc           TEXT    NOT NULL,
    data          BLOB,
    created_at    INTEGER NOT NULL,
    next_retry_at INTEGER NOT NULL DEFAULT 0,
    retries       INTEGER NOT NULL DEFAULT 0,
    last_error    TEXT,
    error_log     TEXT
);
CREATE INDEX IF NOT EXISTS idx_outbox_ready
    ON outbox(next_retry_at, seq);

CREATE TABLE IF NOT EXISTS blobs (
    id             TEXT    PRIMARY KEY,
    record_id      TEXT,
    collection     TEXT,
    local_path     TEXT,
    s3_key         TEXT    NOT NULL,
    size_bytes     INTEGER,
    upload_id      TEXT,
    status         TEXT    NOT NULL,
    format_version INTEGER NOT NULL DEFAULT 0,
    dek_encrypted  BLOB,
    base_nonce     BLOB,
    retries        INTEGER NOT NULL DEFAULT 0,
    next_retry_at  INTEGER NOT NULL DEFAULT 0,
    last_error     TEXT,
    error_log      TEXT,
    created_at     INTEGER NOT NULL,
    updated_at     INTEGER NOT NULL
);

CREATE TABLE IF NOT EXISTS blob_parts (
    blob_id     TEXT    NOT NULL REFERENCES blobs(id) ON DELETE CASCADE,
    part_number INTEGER NOT NULL,
    etag        TEXT,
    uploaded    INTEGER NOT NULL DEFAULT 0,
    PRIMARY KEY (blob_id, part_number)
);

CREATE TABLE IF NOT EXISTS sync_state (
    backend       TEXT PRIMARY KEY,
    last_pull_hlc TEXT
);
"@
}

/// A connection is set up with the tables that the statements are written for,
/// after the log is written ahead and foreign keys are kept.
pub proof fn law_connection_has_the_tables(batches: Seq<&'static str>)
    requires
        is_setup(batches),
    ensures
        batches.len() == 3,
        batches[0]@ == "PRAGMA journal_mode=WAL;"@,
        batches[1]@ == "PRAGMA foreign_keys=ON;"@,
        batches[2]@ == make_tables(),
{
}

} // verus!
