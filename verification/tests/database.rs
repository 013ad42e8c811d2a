use rusqlite::types::Value;
use rusqlite::Connection;
use squirreld::db::blobs::{self, BlobPartRow, BlobRow};
use squirreld::db::config;
use squirreld::db::index::{self, QueryOpts};
use squirreld::db::outbox::{self, OutboxEntry};
use squirreld::db::records::{self, RecordRow};
use squirreld::db::schema;
use squirreld::db::statement::{SqlValue, Statement};
use squirreld::db::sync_state;
use squirreld::error::SquirrelError;
use squirreld::types::{
    BlobStatus, ColumnAffinity, FieldDef, IndexDef, IndexValue, QueryFilter, SortOrder,
};

// ── Running statements ──────────────────────────────────────────────────────

fn bound(v: &SqlValue) -> Value {
    match v {
        SqlValue::Null => Value::Null,
        SqlValue::Integer(n) => Value::Integer(*n),
        SqlValue::Real(bits) => Value::Real(f64::from_bits(*bits)),
        SqlValue::Text(s) => Value::Text(s.clone()),
        SqlValue::Blob(b) => Value::Blob(b.clone()),
    }
}

fn read(v: Value) -> SqlValue {
    match v {
        Value::Null => SqlValue::Null,
        Value::Integer(n) => SqlValue::Integer(n),
        Value::Real(f) => SqlValue::Real(f.to_bits()),
        Value::Text(s) => SqlValue::Text(s),
        Value::Blob(b) => SqlValue::Blob(b),
    }
}

fn exec(conn: &Connection, st: &Statement) {
    conn.execute(&st.sql, rusqlite::params_from_iter(st.params.iter().map(bound))).unwrap();
}

fn exec_opt(conn: &Connection, st: Option<Statement>) {
    if let Some(st) = st {
        exec(conn, &st);
    }
}

fn rows(conn: &Connection, st: &Statement) -> Vec<Vec<SqlValue>> {
    let mut stmt = conn.prepare(&st.sql).unwrap();
    let n = stmt.column_count();
    let found = stmt
        .query_map(rusqlite::params_from_iter(st.params.iter().map(bound)), |r| {
            (0..n).map(|i| r.get::<_, Value>(i).map(read)).collect::<rusqlite::Result<Vec<_>>>()
        })
        .unwrap();
    found.map(|r| r.unwrap()).collect()
}

fn mem_conn() -> Connection {
    let conn = Connection::open_in_memory().unwrap();
    initialize(&conn);
    conn
}

fn initialize(conn: &Connection) {
    for batch in schema::initialize() {
        conn.execute_batch(batch).unwrap();
    }
}

fn now_ms() -> i64 {
    std::time::SystemTime::now()
        .duration_since(std::time::UNIX_EPOCH)
        .unwrap()
        .as_millis() as i64
}

// ── Schema ──────────────────────────────────────────────────────────────────

#[test]
fn initialize_is_idempotent() {
    let conn = Connection::open_in_memory().unwrap();
    initialize(&conn);
    initialize(&conn);
}

#[test]
fn wal_mode_is_set() {
    let conn = Connection::open_in_memory().unwrap();
    initialize(&conn);
    let mode: String = conn.query_row("PRAGMA journal_mode", [], |r| r.get(0)).unwrap();
    assert!(mode == "wal" || mode == "memory");
}

#[test]
fn all_tables_exist() {
    let conn = Connection::open_in_memory().unwrap();
    initialize(&conn);
    for table in &["config", "records", "outbox", "blobs", "blob_parts", "sync_state"] {
        let count: i64 = conn
            .query_row(
                "SELECT COUNT(*) FROM sqlite_master WHERE type='table' AND name=?1",
                [table],
                |r| r.get(0),
            )
            .unwrap();
        assert_eq!(count, 1, "table '{table}' should exist");
    }
}

// ── Config ──────────────────────────────────────────────────────────────────

fn config_get(conn: &Connection, key: &str) -> Option<String> {
    match rows(conn, &config::get(key)).into_iter().next() {
        Some(row) => match &row[0] {
            SqlValue::Text(s) => Some(s.clone()),
            other => panic!("{other:?}"),
        },
        None => None,
    }
}

fn node_id(conn: &Connection) -> Result<[u8; 6], SquirrelError> {
    let found = config_get(conn, config::NODE_ID_KEY);
    let (id, keep) = config::get_or_create_node_id(&found)?;
    exec_opt(conn, keep);
    Ok(id)
}

#[test]
fn node_id_is_created_on_first_call() {
    let conn = mem_conn();
    let id = node_id(&conn).unwrap();
    assert_ne!(id, [0u8; 6], "node_id should not be all zeros");
}

#[test]
fn node_id_is_stable_across_calls() {
    let conn = mem_conn();
    let id1 = node_id(&conn).unwrap();
    let id2 = node_id(&conn).unwrap();
    assert_eq!(id1, id2, "node_id must not change between calls");
}

#[test]
fn get_set_roundtrip() {
    let conn = mem_conn();
    exec(&conn, &config::set("foo", "bar"));
    assert_eq!(config_get(&conn, "foo"), Some("bar".into()));
}

#[test]
fn set_is_upsert() {
    let conn = mem_conn();
    exec(&conn, &config::set("key", "v1"));
    exec(&conn, &config::set("key", "v2"));
    assert_eq!(config_get(&conn, "key"), Some("v2".into()));
}

#[test]
fn get_missing_key_returns_none() {
    let conn = mem_conn();
    assert_eq!(config_get(&conn, "nonexistent"), None);
}

#[test]
fn kept_node_ids_are_checked() {
    let bad = config::node_id_or(&Some("zz".into()), [1; 6]).unwrap_err();
    assert_eq!(bad.message(), "corrupt node_id in config: zz");
    let short = config::node_id_or(&Some("aabb".into()), [1; 6]).unwrap_err();
    assert_eq!(short.message(), "node_id must be exactly 6 bytes");
    let (id, keep) = config::node_id_or(&Some("0102030405ff".into()), [1; 6]).unwrap();
    assert_eq!(id, [1, 2, 3, 4, 5, 255]);
    assert!(keep.is_none());
    let (fresh, keep) = config::node_id_or(&None, [9; 6]).unwrap();
    assert_eq!(fresh, [9; 6]);
    let st = keep.unwrap();
    assert!(matches!(&st.params[1], SqlValue::Text(t) if t == "090909090909"));
}

// ── Checkpoints ─────────────────────────────────────────────────────────────

fn checkpoint(conn: &Connection, backend: &str) -> Option<String> {
    match rows(conn, &sync_state::get_checkpoint(backend)).into_iter().next() {
        Some(row) => match &row[0] {
            SqlValue::Text(s) => Some(s.clone()),
            SqlValue::Null => None,
            other => panic!("{other:?}"),
        },
        None => None,
    }
}

#[test]
fn get_checkpoint_returns_none_initially() {
    let conn = mem_conn();
    assert!(checkpoint(&conn, "dynamodb").is_none());
}

#[test]
fn set_then_get_roundtrip() {
    let conn = mem_conn();
    exec(&conn, &sync_state::set_checkpoint("dynamodb", "0000000000001-0000-aabbcc112233"));
    assert_eq!(
        checkpoint(&conn, "dynamodb").as_deref(),
        Some("0000000000001-0000-aabbcc112233")
    );
}

#[test]
fn set_checkpoint_is_upsert() {
    let conn = mem_conn();
    exec(&conn, &sync_state::set_checkpoint("dynamodb", "0000000000001-0000-aabbcc112233"));
    exec(&conn, &sync_state::set_checkpoint("dynamodb", "0000000000002-0000-aabbcc112233"));
    assert_eq!(
        checkpoint(&conn, "dynamodb").as_deref(),
        Some("0000000000002-0000-aabbcc112233")
    );
}

#[test]
fn multiple_backends_are_independent() {
    let conn = mem_conn();
    exec(&conn, &sync_state::set_checkpoint("backend-a", "0000000000001-0000-aabbcc112233"));
    exec(&conn, &sync_state::set_checkpoint("backend-b", "0000000000002-0000-aabbcc112233"));
    assert_eq!(
        checkpoint(&conn, "backend-a").as_deref(),
        Some("0000000000001-0000-aabbcc112233")
    );
    assert_eq!(
        checkpoint(&conn, "backend-b").as_deref(),
        Some("0000000000002-0000-aabbcc112233")
    );
}

// ── Records ─────────────────────────────────────────────────────────────────

fn make_row(id: &str, collection: &str, data: &[u8], hlc: &str) -> RecordRow {
    RecordRow {
        id: id.into(),
        collection: collection.into(),
        data: data.to_vec(),
        hlc: hlc.into(),
        schema_version: 0,
        format_version: 0,
        dek_encrypted: None,
        deleted: false,
        synced: false,
        created_at: 1_000_000,
        updated_at: 1_000_000,
    }
}

fn upsert(conn: &Connection, row: &RecordRow) {
    exec(conn, &records::upsert(row));
}

fn get(conn: &Connection, collection: &str, id: &str) -> Option<RecordRow> {
    rows(conn, &records::get(collection, id))
        .iter()
        .map(|r| records::from_row(r).unwrap())
        .next()
}

fn soft_delete(conn: &Connection, collection: &str, id: &str, hlc: &str, now: i64) {
    exec(conn, &records::soft_delete(collection, id, hlc, now));
}

fn list(
    conn: &Connection,
    collection: &str,
    limit: Option<usize>,
    offset: usize,
    include_deleted: bool,
    order: SortOrder,
) -> Vec<RecordRow> {
    rows(conn, &records::list(collection, limit, offset, include_deleted, order))
        .iter()
        .map(|r| records::from_row(r).unwrap())
        .collect()
}

fn max_hlc(conn: &Connection) -> Option<String> {
    match &rows(conn, &records::max_hlc())[0][0] {
        SqlValue::Text(s) => Some(s.clone()),
        SqlValue::Null => None,
        other => panic!("{other:?}"),
    }
}

#[test]
fn upsert_then_get_roundtrip() {
    let conn = mem_conn();
    let row = make_row("id1", "papers", b"hello", "0000000000001-0000-aabbcc112233");
    upsert(&conn, &row);
    let got = get(&conn, "papers", "id1").unwrap();
    assert_eq!(got.data, b"hello");
    assert_eq!(got.collection, "papers");
    assert!(!got.deleted);
}

#[test]
fn upsert_updates_existing_record() {
    let conn = mem_conn();
    upsert(&conn, &make_row("id1", "papers", b"v1", "0000000000001-0000-aabbcc112233"));
    upsert(&conn, &make_row("id1", "papers", b"v2", "0000000000002-0000-aabbcc112233"));
    let got = get(&conn, "papers", "id1").unwrap();
    assert_eq!(got.data, b"v2");
}

#[test]
fn upsert_preserves_created_at_on_update() {
    let conn = mem_conn();
    let mut row = make_row("id1", "papers", b"v1", "0000000000001-0000-aabbcc112233");
    row.created_at = 42_000;
    upsert(&conn, &row);

    let mut row2 = make_row("id1", "papers", b"v2", "0000000000002-0000-aabbcc112233");
    row2.created_at = 99_999;
    upsert(&conn, &row2);

    let got = get(&conn, "papers", "id1").unwrap();
    assert_eq!(got.created_at, 42_000, "created_at must not change on update");
}

#[test]
fn get_returns_none_for_missing_id() {
    let conn = mem_conn();
    assert!(get(&conn, "papers", "no-such-id").is_none());
}

#[test]
fn get_returns_none_for_wrong_collection() {
    let conn = mem_conn();
    upsert(&conn, &make_row("id1", "papers", b"x", "0000000000001-0000-aabbcc112233"));
    assert!(get(&conn, "notes", "id1").is_none());
}

#[test]
fn soft_delete_sets_tombstone() {
    let conn = mem_conn();
    upsert(&conn, &make_row("id1", "papers", b"x", "0000000000001-0000-aabbcc112233"));
    soft_delete(&conn, "papers", "id1", "0000000000002-0000-aabbcc112233", 2_000_000);
    let got = get(&conn, "papers", "id1").unwrap();
    assert!(got.deleted);
}

#[test]
fn records_list_excludes_deleted_by_default() {
    let conn = mem_conn();
    upsert(&conn, &make_row("id1", "papers", b"x", "0000000000001-0000-aabbcc112233"));
    upsert(&conn, &make_row("id2", "papers", b"y", "0000000000002-0000-aabbcc112233"));
    soft_delete(&conn, "papers", "id1", "0000000000003-0000-aabbcc112233", 3_000_000);
    let rows = list(&conn, "papers", None, 0, false, SortOrder::HlcDesc);
    assert_eq!(rows.len(), 1);
    assert_eq!(rows[0].id, "id2");
}

#[test]
fn records_list_includes_deleted_when_requested() {
    let conn = mem_conn();
    upsert(&conn, &make_row("id1", "papers", b"x", "0000000000001-0000-aabbcc112233"));
    soft_delete(&conn, "papers", "id1", "0000000000002-0000-aabbcc112233", 2_000_000);
    let rows = list(&conn, "papers", None, 0, true, SortOrder::HlcDesc);
    assert_eq!(rows.len(), 1);
    assert!(rows[0].deleted);
}

#[test]
fn list_orders_by_hlc_desc() {
    let conn = mem_conn();
    upsert(&conn, &make_row("id1", "papers", b"a", "0000000000001-0000-aabbcc112233"));
    upsert(&conn, &make_row("id2", "papers", b"b", "0000000000003-0000-aabbcc112233"));
    upsert(&conn, &make_row("id3", "papers", b"c", "0000000000002-0000-aabbcc112233"));
    let rows = list(&conn, "papers", None, 0, false, SortOrder::HlcDesc);
    let hlcs: Vec<&str> = rows.iter().map(|r| r.hlc.as_str()).collect();
    assert_eq!(hlcs[0], "0000000000003-0000-aabbcc112233");
    assert_eq!(hlcs[1], "0000000000002-0000-aabbcc112233");
    assert_eq!(hlcs[2], "0000000000001-0000-aabbcc112233");
    let up = list(&conn, "papers", None, 0, false, SortOrder::HlcAsc);
    assert_eq!(up[0].hlc, "0000000000001-0000-aabbcc112233");
    assert_eq!(up[2].hlc, "0000000000003-0000-aabbcc112233");
}

#[test]
fn list_respects_limit_and_offset() {
    let conn = mem_conn();
    for i in 1u64..=5 {
        let hlc = format!("{i:013x}-0000-aabbcc112233");
        upsert(&conn, &make_row(&format!("id{i}"), "papers", b"x", &hlc));
    }
    let page1 = list(&conn, "papers", Some(2), 0, false, SortOrder::HlcDesc);
    let page2 = list(&conn, "papers", Some(2), 2, false, SortOrder::HlcDesc);
    assert_eq!(page1.len(), 2);
    assert_eq!(page2.len(), 2);
    assert_ne!(page1[0].id, page2[0].id);
}

#[test]
fn max_hlc_returns_none_for_empty_table() {
    let conn = mem_conn();
    assert!(max_hlc(&conn).is_none());
}

#[test]
fn max_hlc_returns_highest_hlc() {
    let conn = mem_conn();
    upsert(&conn, &make_row("id1", "papers", b"x", "0000000000001-0000-aabbcc112233"));
    upsert(&conn, &make_row("id2", "papers", b"y", "0000000000003-0000-aabbcc112233"));
    upsert(&conn, &make_row("id3", "papers", b"z", "0000000000002-0000-aabbcc112233"));
    assert_eq!(max_hlc(&conn).as_deref(), Some("0000000000003-0000-aabbcc112233"));
}

#[test]
fn remote_rows_keep_creation_and_carry_tombstones() {
    let conn = mem_conn();
    let mut row = make_row("id1", "papers", b"x", "0000000000001-0000-aabbcc112233");
    row.created_at = 5;
    upsert(&conn, &row);
    row.hlc = "0000000000002-0000-aabbcc112233".into();
    row.deleted = true;
    row.created_at = 77;
    row.updated_at = 99;
    exec(&conn, &records::upsert_remote(&row));
    let got = get(&conn, "papers", "id1").unwrap();
    assert!(got.deleted && got.synced);
    assert_eq!((got.created_at, got.updated_at), (5, 99));
    row.deleted = false;
    upsert(&conn, &row);
    assert!(!get(&conn, "papers", "id1").unwrap().synced);
    exec(&conn, &records::mark_synced("id1", "papers"));
    assert!(get(&conn, "papers", "id1").unwrap().synced);
}

#[test]
fn rows_of_other_shapes_are_refused() {
    let mut row = vec![
        SqlValue::Text("id".into()),
        SqlValue::Text("papers".into()),
        SqlValue::Blob(vec![1]),
        SqlValue::Text("h".into()),
        SqlValue::Integer(1 << 32 | 7),
        SqlValue::Integer(256 + 1),
        SqlValue::Null,
        SqlValue::Integer(0),
        SqlValue::Integer(2),
        SqlValue::Integer(3),
        SqlValue::Integer(4),
    ];
    let good = records::from_row(&row).unwrap();
    assert_eq!((good.schema_version, good.format_version), (7, 1));
    assert!(!good.deleted && good.synced);
    row[3] = SqlValue::Integer(1);
    row[4] = SqlValue::Null;
    assert_eq!(
        records::from_row(&row).unwrap_err().message(),
        "database error: Invalid column type Integer at index: 3, name: hlc"
    );
    row.truncate(3);
    assert_eq!(
        records::from_row(&row).unwrap_err().message(),
        "database error: Invalid column index: 3"
    );
}

// ── Outbox ──────────────────────────────────────────────────────────────────

fn insert_one(conn: &Connection) -> i64 {
    exec(
        conn,
        &outbox::append(
            "rec1",
            "papers",
            "upsert",
            "0000000000001-0000-aabbcc112233",
            Some(b"data"),
            now_ms(),
        ),
    );
    conn.last_insert_rowid()
}

fn peek_batch(conn: &Connection, limit: usize) -> Vec<OutboxEntry> {
    rows(conn, &outbox::peek_batch(limit, now_ms()))
        .iter()
        .map(|r| outbox::from_row(r).unwrap())
        .collect()
}

fn outbox_retry(conn: &Connection, seq: i64, error: &str) {
    let state = rows(conn, &outbox::retry_state(seq))
        .iter()
        .map(|r| outbox::retry_state_of(r).unwrap())
        .next();
    exec_opt(conn, outbox::mark_retry(&state, seq, error, now_ms()));
}

fn pending_errors(conn: &Connection) -> Vec<OutboxEntry> {
    rows(conn, &outbox::list_pending_errors())
        .iter()
        .map(|r| outbox::from_row(r).unwrap())
        .collect()
}

fn outbox_column(conn: &Connection, column: &str, seq: i64) -> SqlValue {
    let st = Statement {
        sql: format!("SELECT {column} FROM outbox WHERE seq = ?1"),
        params: vec![SqlValue::Integer(seq)],
    };
    rows(conn, &st)[0][0].clone()
}

fn integer(v: SqlValue) -> i64 {
    match v {
        SqlValue::Integer(n) => n,
        other => panic!("{other:?}"),
    }
}

fn text(v: SqlValue) -> String {
    match v {
        SqlValue::Text(s) => s,
        other => panic!("{other:?}"),
    }
}

#[test]
fn append_creates_entry_ready_immediately() {
    let conn = mem_conn();
    let seq = insert_one(&conn);
    let batch = peek_batch(&conn, 10);
    assert_eq!(batch.len(), 1);
    assert_eq!(batch[0].seq, seq);
    assert_eq!(batch[0].retries, 0);
}

#[test]
fn delete_seqs_removes_entries() {
    let conn = mem_conn();
    let seq = insert_one(&conn);
    exec_opt(&conn, outbox::delete_seqs(&[seq]));
    assert!(peek_batch(&conn, 10).is_empty());
}

#[test]
fn delete_seqs_with_empty_slice_is_noop() {
    let conn = mem_conn();
    insert_one(&conn);
    exec_opt(&conn, outbox::delete_seqs(&[]));
    assert_eq!(peek_batch(&conn, 10).len(), 1);
}

#[test]
fn mark_retry_increments_retries() {
    let conn = mem_conn();
    let seq = insert_one(&conn);
    outbox_retry(&conn, seq, "network error");
    assert_eq!(integer(outbox_column(&conn, "retries", seq)), 1);
}

#[test]
fn mark_retry_sets_backoff() {
    let conn = mem_conn();
    let seq = insert_one(&conn);
    let before = now_ms();
    outbox_retry(&conn, seq, "err");
    let after = now_ms();

    let next_retry = integer(outbox_column(&conn, "next_retry_at", seq));
    assert!(next_retry >= before + 1000, "next_retry_at should be at least 1s in the future");
    assert!(next_retry <= after + 1100, "next_retry_at should not be too far in the future");
}

#[test]
fn mark_retry_backoff_is_capped_at_5_minutes() {
    let conn = mem_conn();
    let seq = insert_one(&conn);
    for _ in 0..10 {
        outbox_retry(&conn, seq, "err");
    }
    let next_retry = integer(outbox_column(&conn, "next_retry_at", seq));
    assert!(
        next_retry <= now_ms() + 300_100,
        "backoff must not exceed 5 minutes ({next_retry} > {})",
        now_ms() + 300_000
    );
}

#[test]
fn error_log_accumulates_entries() {
    let conn = mem_conn();
    let seq = insert_one(&conn);
    outbox_retry(&conn, seq, "error 1");
    outbox_retry(&conn, seq, "error 2");
    let log_str = text(outbox_column(&conn, "error_log", seq));
    let log: Vec<serde_json::Value> = serde_json::from_str(&log_str).unwrap();
    assert_eq!(log.len(), 2);
    assert_eq!(log[0]["error"], "error 1");
    assert_eq!(log[1]["error"], "error 2");
}

#[test]
fn error_log_is_capped_at_20_entries() {
    let conn = mem_conn();
    let seq = insert_one(&conn);
    for i in 0..25 {
        outbox_retry(&conn, seq, &format!("err {i}"));
    }
    let log_str = text(outbox_column(&conn, "error_log", seq));
    let log: Vec<serde_json::Value> = serde_json::from_str(&log_str).unwrap();
    assert_eq!(log.len(), 20, "error_log must be capped at 20 entries");
    assert_eq!(log[19]["error"], "err 24");
    assert_eq!(log[0]["error"], "err 5");
}

#[test]
fn peek_batch_respects_next_retry_at() {
    let conn = mem_conn();
    let seq = insert_one(&conn);
    conn.execute(
        "UPDATE outbox SET next_retry_at = ?1 WHERE seq = ?2",
        [now_ms() + 1_000_000, seq],
    )
    .unwrap();
    assert!(peek_batch(&conn, 10).is_empty(), "future entry must not be returned");
}

#[test]
fn list_pending_errors_requires_at_least_one_retry() {
    let conn = mem_conn();
    let seq = insert_one(&conn);
    assert!(pending_errors(&conn).is_empty(), "fresh entry has no retries");
    outbox_retry(&conn, seq, "err");
    assert_eq!(pending_errors(&conn).len(), 1);
}

#[test]
fn clear_error_removes_entry() {
    let conn = mem_conn();
    let seq = insert_one(&conn);
    outbox_retry(&conn, seq, "err");
    exec(&conn, &outbox::clear_error(seq));
    assert!(pending_errors(&conn).is_empty());
}

#[test]
fn peek_batch_is_first_in_first_out() {
    let conn = mem_conn();
    let seqs: Vec<i64> = (0..5).map(|_| insert_one(&conn)).collect();
    let got: Vec<i64> = peek_batch(&conn, 3).iter().map(|e| e.seq).collect();
    assert_eq!(got, seqs[..3]);
    exec_opt(&conn, outbox::delete_seqs(&[seqs[0], seqs[2]]));
    let got: Vec<i64> = peek_batch(&conn, 10).iter().map(|e| e.seq).collect();
    assert_eq!(got, vec![seqs[1], seqs[3], seqs[4]]);
    exec(&conn, &outbox::remove_outbox_for_record("rec1", "papers"));
    assert!(peek_batch(&conn, 10).is_empty());
}

#[test]
fn mark_retry_of_a_gone_entry_does_nothing() {
    assert!(outbox::mark_retry(&None, 1, "err", 0).is_none());
    let st = outbox::mark_retry(&Some((3, None)), 7, "a \"quoted\" error", 1000).unwrap();
    assert!(matches!(st.params[0], SqlValue::Integer(4)));
    assert!(matches!(st.params[1], SqlValue::Integer(9000)));
    assert!(matches!(&st.params[3], SqlValue::Text(t)
        if t == "[{\"error\":\"a \\\"quoted\\\" error\",\"ts\":1000}]"));
    assert!(matches!(st.params[4], SqlValue::Integer(7)));
}

// ── Blobs ───────────────────────────────────────────────────────────────────

fn sample_row(id: &str) -> BlobRow {
    BlobRow {
        id: id.into(),
        record_id: None,
        collection: None,
        local_path: Some("/tmp/test".into()),
        s3_key: format!("blobs/{id}"),
        size_bytes: Some(1024),
        upload_id: None,
        status: "pending".into(),
        format_version: 0,
        retries: 0,
        next_retry_at: 0,
        last_error: None,
        error_log: None,
        created_at: 1_000_000,
        updated_at: 1_000_000,
    }
}

fn blob(conn: &Connection, id: &str) -> Option<BlobRow> {
    rows(conn, &blobs::get(id)).iter().map(|r| blobs::from_row(r).unwrap()).next()
}

fn list_ready(conn: &Connection, statuses: &[&str]) -> Vec<BlobRow> {
    match blobs::list_ready(statuses, now_ms()) {
        Some(st) => rows(conn, &st).iter().map(|r| blobs::from_row(r).unwrap()).collect(),
        None => Vec::new(),
    }
}

fn list_parts(conn: &Connection, id: &str) -> Vec<BlobPartRow> {
    rows(conn, &blobs::list_parts(id))
        .iter()
        .map(|r| blobs::part_from_row(r).unwrap())
        .collect()
}

fn blob_retry(conn: &Connection, id: &str, error: &str) {
    let state = rows(conn, &blobs::retry_state(id))
        .iter()
        .map(|r| outbox::retry_state_of(r).unwrap())
        .next();
    exec(conn, &blobs::mark_retry(&state, id, error, now_ms()));
}

#[test]
fn insert_then_get_roundtrip() {
    let conn = mem_conn();
    exec(&conn, &blobs::insert(&sample_row("b1")));
    let got = blob(&conn, "b1").unwrap();
    assert_eq!(got.id, "b1");
    assert_eq!(got.status, "pending");
}

#[test]
fn set_status_updates_row() {
    let conn = mem_conn();
    exec(&conn, &blobs::insert(&sample_row("b1")));
    exec(&conn, &blobs::set_status("b1", BlobStatus::Uploaded, now_ms()));
    let got = blob(&conn, "b1").unwrap();
    assert_eq!(got.status, "uploaded");
}

#[test]
fn list_ready_filters_by_status() {
    let conn = mem_conn();
    exec(&conn, &blobs::insert(&sample_row("b1")));
    let mut row2 = sample_row("b2");
    row2.status = "uploaded".into();
    exec(&conn, &blobs::insert(&row2));

    let pending = list_ready(&conn, &["pending"]);
    assert_eq!(pending.len(), 1);
    assert_eq!(pending[0].id, "b1");
    assert_eq!(list_ready(&conn, &["pending", "uploaded"]).len(), 2);
    assert!(list_ready(&conn, &[]).is_empty());
}

#[test]
fn mark_retry_increments_and_sets_backoff() {
    let conn = mem_conn();
    exec(&conn, &blobs::insert(&sample_row("b1")));
    blob_retry(&conn, "b1", "network error");
    let got = blob(&conn, "b1").unwrap();
    assert_eq!(got.retries, 1);
    assert!(got.next_retry_at >= now_ms() + 900);
}

#[test]
fn part_upsert_and_list() {
    let conn = mem_conn();
    exec(&conn, &blobs::insert(&sample_row("b1")));
    exec(&conn, &blobs::upsert_part("b1", 1, "etag1"));
    exec(&conn, &blobs::upsert_part("b1", 2, "etag2"));
    let parts = list_parts(&conn, "b1");
    assert_eq!(parts.len(), 2);
    assert!(parts.iter().all(|p| p.uploaded));
}

#[test]
fn clear_parts_removes_all() {
    let conn = mem_conn();
    exec(&conn, &blobs::insert(&sample_row("b1")));
    exec(&conn, &blobs::upsert_part("b1", 1, "e1"));
    exec(&conn, &blobs::clear_parts("b1"));
    assert!(list_parts(&conn, "b1").is_empty());
}

#[test]
fn upload_ids_come_and_go() {
    let conn = mem_conn();
    exec(&conn, &blobs::insert(&sample_row("b1")));
    blob_retry(&conn, "b1", "e");
    exec(&conn, &blobs::set_upload_id("b1", "u1", 5));
    let got = blob(&conn, "b1").unwrap();
    assert_eq!((got.upload_id.as_deref(), got.status.as_str()), (Some("u1"), "uploading"));
    exec(&conn, &blobs::clear_upload_id("b1", 6));
    let got = blob(&conn, "b1").unwrap();
    assert_eq!((got.upload_id, got.status.as_str(), got.retries), (None, "pending", 1));
    assert_eq!((got.next_retry_at, got.updated_at), (0, 6));
    exec(&conn, &blobs::set_local_path_and_size("b1", "/x", 77, 8));
    let got = blob(&conn, "b1").unwrap();
    assert_eq!((got.local_path.as_deref(), got.size_bytes, got.updated_at), (Some("/x"), Some(77), 8));
}

#[test]
fn part_rows_are_checked() {
    let row = |n: SqlValue| {
        vec![SqlValue::Text("b".into()), n, SqlValue::Null, SqlValue::Integer(0)]
    };
    let good = blobs::part_from_row(&row(SqlValue::Integer(7))).unwrap();
    assert_eq!((good.part_number, good.uploaded), (7, false));
    assert_eq!(
        blobs::part_from_row(&row(SqlValue::Integer(1 << 31))).unwrap_err().message(),
        "database error: Integer 2147483648 out of range at index 1"
    );
    assert_eq!(
        blobs::part_from_row(&row(SqlValue::Null)).unwrap_err().message(),
        "database error: Invalid column type Null at index: 1, name: part_number"
    );
}

// ── Index ───────────────────────────────────────────────────────────────────

fn simple_def(collection: &str) -> IndexDef {
    IndexDef {
        collection: collection.into(),
        fields: vec![
            FieldDef { name: "year".into(), affinity: ColumnAffinity::Integer },
            FieldDef { name: "title".into(), affinity: ColumnAffinity::Text },
        ],
        fts_fields: vec!["title".into()],
    }
}

fn insert_record(conn: &Connection, id: &str, hlc: &str) {
    upsert(conn, &make_row(id, "papers", b"x", hlc));
}

fn create_shadow_table(conn: &Connection, def: &IndexDef) {
    exec_opt(conn, index::create_shadow_table(def).unwrap());
}

fn create_fts_table(conn: &Connection, def: &IndexDef) {
    exec_opt(conn, index::create_fts_table(def).unwrap());
}

fn upsert_index_row(conn: &Connection, def: &IndexDef, id: &str, v: &Vec<(String, IndexValue)>) {
    exec_opt(conn, index::upsert_index_row(def, id, v).unwrap());
}

fn upsert_fts_row(conn: &Connection, def: &IndexDef, id: &str, v: &Vec<(String, IndexValue)>) {
    for st in index::upsert_fts_row(def, id, v).unwrap() {
        exec(conn, &st);
    }
}

fn query(
    conn: &Connection,
    collection: &str,
    def: Option<&IndexDef>,
    opts: &QueryOpts,
) -> Vec<RecordRow> {
    rows(conn, &index::query(collection, def, opts).unwrap())
        .iter()
        .map(|r| records::from_row(r).unwrap())
        .collect()
}

fn with_filter(filter: QueryFilter) -> QueryOpts {
    QueryOpts { filter: Some(filter), ..Default::default() }
}

#[test]
fn create_tables_is_idempotent() {
    let conn = mem_conn();
    let def = simple_def("papers");
    create_shadow_table(&conn, &def);
    create_shadow_table(&conn, &def);
    create_fts_table(&conn, &def);
    create_fts_table(&conn, &def);
}

#[test]
fn upsert_and_query_eq() {
    let conn = mem_conn();
    let def = simple_def("papers");
    create_shadow_table(&conn, &def);
    create_fts_table(&conn, &def);

    insert_record(&conn, "id1", "0000000000001-0000-aabbcc112233");
    insert_record(&conn, "id2", "0000000000002-0000-aabbcc112233");

    let vals1 = vec![
        ("year".into(), IndexValue::Integer(2020)),
        ("title".into(), IndexValue::Text("Rust programming".into())),
    ];
    upsert_index_row(&conn, &def, "id1", &vals1);
    upsert_fts_row(&conn, &def, "id1", &vals1);

    let vals2 = vec![
        ("year".into(), IndexValue::Integer(2023)),
        ("title".into(), IndexValue::Text("Async systems".into())),
    ];
    upsert_index_row(&conn, &def, "id2", &vals2);
    upsert_fts_row(&conn, &def, "id2", &vals2);

    let opts = with_filter(QueryFilter::Eq {
        field: "year".into(),
        value: IndexValue::Integer(2020),
    });
    let rows = query(&conn, "papers", Some(&def), &opts);
    assert_eq!(rows.len(), 1);
    assert_eq!(rows[0].id, "id1");
}

#[test]
fn index_query_gt_filter() {
    let conn = mem_conn();
    let def = simple_def("papers");
    create_shadow_table(&conn, &def);
    create_fts_table(&conn, &def);

    for (id, year, hlc_t) in [("id1", 2019i64, 1u64), ("id2", 2021, 2), ("id3", 2023, 3)] {
        insert_record(&conn, id, &format!("{hlc_t:013x}-0000-aabbcc112233"));
        let vals = vec![("year".into(), IndexValue::Integer(year))];
        upsert_index_row(&conn, &def, id, &vals);
    }

    let opts = with_filter(QueryFilter::Gt {
        field: "year".into(),
        value: IndexValue::Integer(2020),
    });
    let rows = query(&conn, "papers", Some(&def), &opts);
    assert_eq!(rows.len(), 2);
    let ids: Vec<&str> = rows.iter().map(|r| r.id.as_str()).collect();
    assert!(ids.contains(&"id2"));
    assert!(ids.contains(&"id3"));
}

#[test]
fn index_query_fts_contains() {
    let conn = mem_conn();
    let def = simple_def("papers");
    create_shadow_table(&conn, &def);
    create_fts_table(&conn, &def);

    insert_record(&conn, "id1", "0000000000001-0000-aabbcc112233");
    insert_record(&conn, "id2", "0000000000002-0000-aabbcc112233");

    let vals1 =
        vec![("title".into(), IndexValue::Text("distributed systems paper".into()))];
    upsert_fts_row(&conn, &def, "id1", &vals1);
    upsert_index_row(&conn, &def, "id1", &vals1);

    let vals2 = vec![("title".into(), IndexValue::Text("machine learning survey".into()))];
    upsert_fts_row(&conn, &def, "id2", &vals2);
    upsert_index_row(&conn, &def, "id2", &vals2);

    let opts = with_filter(QueryFilter::Contains { text: "distributed".into() });
    let rows = query(&conn, "papers", Some(&def), &opts);
    assert_eq!(rows.len(), 1);
    assert_eq!(rows[0].id, "id1");
}

#[test]
fn query_and_filter() {
    let conn = mem_conn();
    let def = simple_def("papers");
    create_shadow_table(&conn, &def);
    create_fts_table(&conn, &def);

    for (id, year, title, t) in [
        ("id1", 2020i64, "Rust async", 1u64),
        ("id2", 2021, "Rust networking", 2),
        ("id3", 2019, "Go concurrency", 3),
    ] {
        insert_record(&conn, id, &format!("{t:013x}-0000-aabbcc112233"));
        let vals = vec![
            ("year".into(), IndexValue::Integer(year)),
            ("title".into(), IndexValue::Text(title.into())),
        ];
        upsert_index_row(&conn, &def, id, &vals);
        upsert_fts_row(&conn, &def, id, &vals);
    }

    let opts = with_filter(QueryFilter::And(vec![
        QueryFilter::Ge { field: "year".into(), value: IndexValue::Integer(2020) },
        QueryFilter::Contains { text: "Rust".into() },
    ]));
    let rows = query(&conn, "papers", Some(&def), &opts);
    assert_eq!(rows.len(), 2);
    let ids: Vec<&str> = rows.iter().map(|r| r.id.as_str()).collect();
    assert!(ids.contains(&"id1"));
    assert!(ids.contains(&"id2"));
}

#[test]
fn delete_removes_index_rows() {
    let conn = mem_conn();
    let def = simple_def("papers");
    create_shadow_table(&conn, &def);
    create_fts_table(&conn, &def);

    insert_record(&conn, "id1", "0000000000001-0000-aabbcc112233");
    let vals = vec![
        ("year".into(), IndexValue::Integer(2020)),
        ("title".into(), IndexValue::Text("test paper".into())),
    ];
    upsert_index_row(&conn, &def, "id1", &vals);
    upsert_fts_row(&conn, &def, "id1", &vals);

    for st in index::delete_index_rows(&def, "id1").unwrap() {
        exec(&conn, &st);
    }

    let opts = with_filter(QueryFilter::Eq {
        field: "year".into(),
        value: IndexValue::Integer(2020),
    });
    let rows = query(&conn, "papers", Some(&def), &opts);
    assert!(rows.is_empty());
}

#[test]
fn invalid_identifier_returns_error() {
    assert!(index::sanitize_ident("valid_name").is_ok());
    assert!(index::sanitize_ident("1starts_with_digit").is_err());
    assert!(index::sanitize_ident("has space").is_err());
    assert!(index::sanitize_ident("has-dash").is_err());
    assert!(index::sanitize_ident("").is_err());
}

#[test]
fn bad_identifiers_are_quoted_in_the_error() {
    let e = index::sanitize_ident("a\"b").unwrap_err();
    assert_eq!(e.message(), "invalid identifier: \"a\\\"b\"");
    let mut def = simple_def("papers");
    def.fields[1].name = "drop table".into();
    assert_eq!(
        index::create_shadow_table(&def).unwrap_err().message(),
        "invalid identifier: \"drop table\""
    );
    assert!(index::upsert_index_row(&def, "id", &vec![]).is_err());
    def.fields.clear();
    assert!(index::create_shadow_table(&def).unwrap().is_none());
    def.fts_fields = vec!["".into()];
    assert!(index::create_fts_table(&def).is_err());
    assert!(index::upsert_fts_row(&def, "id", &vec![]).is_err());
    def.collection = "x;y".into();
    assert!(index::create_shadow_table(&def).is_err());
    assert!(index::delete_index_rows(&def, "id").is_err());
    assert!(index::query("x;y", None, &QueryOpts::default()).is_err());
}

#[test]
fn filters_compile_to_numbered_placeholders() {
    let mut params = vec![SqlValue::Text("papers".into())];
    let filter = QueryFilter::Or(vec![
        QueryFilter::And(vec![
            QueryFilter::Lt { field: "year".into(), value: IndexValue::Integer(5) },
            QueryFilter::Le { field: "hlc".into(), value: IndexValue::Text("x' OR 1".into()) },
        ]),
        QueryFilter::Contains { text: "words".into() },
        QueryFilter::And(vec![]),
        QueryFilter::Or(vec![]),
        QueryFilter::Eq { field: "score".into(), value: IndexValue::Real(1.5f64.to_bits()) },
    ]);
    let text = index::build_filter_sql(&filter, "papers", true, true, &mut params).unwrap();
    assert_eq!(
        text,
        "((s.year < ?2 AND r.hlc <= ?3) OR r.id IN (SELECT record_id FROM fts_papers WHERE \
         fts_papers MATCH ?4) OR 1 OR 0 OR s.score = ?5)"
    );
    assert_eq!(params.len(), 5);
    assert!(matches!(&params[2], SqlValue::Text(t) if t == "x' OR 1"));
    let bare = QueryFilter::Ge { field: "year".into(), value: IndexValue::Null };
    let mut none = Vec::new();
    assert_eq!(
        index::build_filter_sql(&bare, "papers", false, false, &mut none).unwrap(),
        "r.year >= ?1"
    );
    let search = QueryFilter::Contains { text: "x".into() };
    assert_eq!(
        index::build_filter_sql(&search, "papers", true, false, &mut none).unwrap_err().message(),
        "QueryFilter::Contains requires an FTS index (fts_fields) for this collection"
    );
    // The first failing part decides the error.
    let both = QueryFilter::And(vec![
        QueryFilter::Gt { field: "ok".into(), value: IndexValue::Null },
        QueryFilter::Gt { field: "not ok".into(), value: IndexValue::Null },
        QueryFilter::Contains { text: "x".into() },
    ]);
    assert_eq!(
        index::build_filter_sql(&both, "papers", true, false, &mut none).unwrap_err().message(),
        "invalid identifier: \"not ok\""
    );
}

#[test]
fn real_numbers_are_indexed_by_value() {
    let conn = mem_conn();
    let def = IndexDef {
        collection: "m".into(),
        fields: vec![FieldDef { name: "score".into(), affinity: ColumnAffinity::Real }],
        fts_fields: vec![],
    };
    create_shadow_table(&conn, &def);
    for (id, score) in [("a", -1.5f64), ("b", 0.25), ("c", 3.0)] {
        upsert(&conn, &make_row(id, "m", b"x", id));
        let vals = vec![("score".into(), IndexValue::Real(score.to_bits()))];
        upsert_index_row(&conn, &def, id, &vals);
    }
    let opts = with_filter(QueryFilter::Gt {
        field: "score".into(),
        value: IndexValue::Real(0.0f64.to_bits()),
    });
    let ids: Vec<String> =
        query(&conn, "m", Some(&def), &opts).into_iter().map(|r| r.id).collect();
    assert_eq!(ids, vec!["c", "b"]);
}

#[test]
fn index_rows_are_replaced() {
    let conn = mem_conn();
    let def = simple_def("papers");
    create_shadow_table(&conn, &def);
    create_fts_table(&conn, &def);
    insert_record(&conn, "id1", "1");
    for year in [1i64, 2] {
        let vals = vec![
            ("year".into(), IndexValue::Integer(year)),
            ("title".into(), IndexValue::Integer(year + 40)),
        ];
        upsert_index_row(&conn, &def, "id1", &vals);
        upsert_fts_row(&conn, &def, "id1", &vals);
    }
    let find = |f: QueryFilter| query(&conn, "papers", Some(&def), &with_filter(f)).len();
    assert_eq!(find(QueryFilter::Eq { field: "year".into(), value: IndexValue::Integer(1) }), 0);
    assert_eq!(find(QueryFilter::Eq { field: "year".into(), value: IndexValue::Integer(2) }), 1);
    assert_eq!(find(QueryFilter::Contains { text: "42".into() }), 1);
    assert_eq!(find(QueryFilter::Contains { text: "41".into() }), 0);
}

#[test]
fn the_oldest_waiting_change_is_found() {
    let conn = mem_conn();
    let waiting = |now: i64| {
        outbox::first_waiting_of(&rows(&conn, &outbox::first_waiting(now))[0]).unwrap()
    };
    assert_eq!(waiting(i64::MIN), None, "nothing is in the outbox");
    let seqs: Vec<i64> = (0..3).map(|_| insert_one(&conn)).collect();
    let now = now_ms() + 1000;
    assert_eq!(waiting(now), None);
    for (seq, at) in [(seqs[1], now + 2), (seqs[2], now + 1)] {
        conn.execute("UPDATE outbox SET next_retry_at = ?1 WHERE seq = ?2", [at, seq]).unwrap();
    }
    assert_eq!(waiting(now), Some(seqs[1]));
    assert_eq!(waiting(now + 1), Some(seqs[1]));
    assert_eq!(waiting(now + 2), None, "what is due does not wait");
    assert!(outbox::first_waiting_of(&vec![]).is_err());
    assert!(outbox::first_waiting_of(&vec![SqlValue::Text("1".into())]).is_err());
}
