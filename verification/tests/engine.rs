use rusqlite::types::Value;
use rusqlite::Connection;
use squirreld::backend::in_memory::InMemoryStore;
use squirreld::backend::{InMemoryBackend, PushResult, RecordBackend};
use squirreld::collection::{CollectionConfig, CollectionEncryption};
use squirreld::db::config;
use squirreld::db::index::QueryOpts;
use squirreld::db::outbox;
use squirreld::db::records;
use squirreld::db::schema;
use squirreld::db::statement::{SqlValue, Statement};
use squirreld::db::sync_state;
use squirreld::engine::{self, EngineState};
use squirreld::error::SquirrelError;
use squirreld::reading;
use squirreld::sync::{self, PullCycle, PushCycle};
use squirreld::types::{ColumnAffinity, FieldDef, IndexDef, IndexValue, QueryFilter};
use squirreld::{
    Hlc, ItemEncryption, KeySource, ListOpts, PendingError, PutOpts, Record, RecordMeta,
    SortOrder, SyncEvent, SyncStats, Ulid,
};

// ── An engine on a database in memory ───────────────────────────────────────

struct Device {
    conn: Connection,
    state: EngineState,
}

fn bound(v: &SqlValue) -> Value {
    match v {
        SqlValue::Null => Value::Null,
        SqlValue::Integer(n) => Value::Integer(*n),
        SqlValue::Real(bits) => Value::Real(f64::from_bits(*bits)),
        SqlValue::Text(s) => Value::Text(s.clone()),
        SqlValue::Blob(b) => Value::Blob(b.clone()),
    }
}

fn read(v: Value) -> SqlValue {
    match v {
        Value::Null => SqlValue::Null,
        Value::Integer(n) => SqlValue::Integer(n),
        Value::Real(f) => SqlValue::Real(f.to_bits()),
        Value::Text(s) => SqlValue::Text(s),
        Value::Blob(b) => SqlValue::Blob(b),
    }
}

fn exec(conn: &Connection, st: &Statement) -> Result<(), SquirrelError> {
    conn.execute(&st.sql, rusqlite::params_from_iter(st.params.iter().map(bound)))
        .map(|_| ())
        .map_err(|e| SquirrelError::Db(e.to_string()))
}

fn rows(conn: &Connection, st: &Statement) -> Vec<Vec<SqlValue>> {
    let mut stmt = conn.prepare(&st.sql).unwrap();
    let n = stmt.column_count();
    let found = stmt
        .query_map(rusqlite::params_from_iter(st.params.iter().map(bound)), |r| {
            (0..n).map(|i| r.get::<_, Value>(i).map(read)).collect::<rusqlite::Result<Vec<_>>>()
        })
        .unwrap();
    found.map(|r| r.unwrap()).collect()
}

fn opt_text(rows: Vec<Vec<SqlValue>>) -> Option<String> {
    match rows.into_iter().next().map(|r| r.into_iter().next().unwrap()) {
        Some(SqlValue::Text(s)) => Some(s),
        _ => None,
    }
}

fn wall_ms() -> u64 {
    std::time::SystemTime::now()
        .duration_since(std::time::UNIX_EPOCH)
        .unwrap()
        .as_millis() as u64
}

impl Device {
    fn open(conn: Connection, key: Option<KeySource>) -> Result<Device, SquirrelError> {
        for batch in schema::initialize() {
            conn.execute_batch(batch).unwrap();
        }
        let found = engine::Found {
            node_id: opt_text(rows(&conn, &config::get(config::NODE_ID_KEY))),
            kdf_salt: opt_text(rows(&conn, &config::get(config::KDF_SALT_KEY))),
            latest_hlc: opt_text(rows(&conn, &records::max_hlc())),
        };
        let opened = engine::open(&found, &key, vec![])?;
        for st in &opened.keep {
            exec(&conn, st)?;
        }
        let state = opened.state;
        Ok(Device { conn, state })
    }

    fn new() -> Device {
        Device::open(Connection::open_in_memory().unwrap(), None).unwrap()
    }

    fn with_key(key: [u8; 32]) -> Device {
        let conn = Connection::open_in_memory().unwrap();
        Device::open(conn, Some(KeySource::RawKey(key))).unwrap()
    }

    /// Closes the engine and opens another on the same database.
    fn reopen(self, key: Option<KeySource>) -> Device {
        Device::open(self.conn, key).unwrap()
    }

    fn transact(&self, statements: &[Statement]) -> Result<(), SquirrelError> {
        self.conn.execute_batch("BEGIN").unwrap();
        for st in statements {
            if let Err(e) = exec(&self.conn, st) {
                self.conn.execute_batch("ROLLBACK").unwrap();
                return Err(e);
            }
        }
        self.conn.execute_batch("COMMIT").unwrap();
        Ok(())
    }

    fn put(
        &mut self,
        collection: &str,
        id: Option<Ulid>,
        data: &[u8],
        opts: PutOpts,
    ) -> Result<Ulid, SquirrelError> {
        let plan = self.state.handle_put(collection, id, data, &opts)?;
        self.transact(&plan.statements)?;
        self.state.committed(plan.hlc);
        Ok(plan.id)
    }

    fn row(&self, collection: &str, id: Ulid) -> Option<records::RecordRow> {
        rows(&self.conn, &self.state.handle_get(collection, id))
            .iter()
            .map(|r| records::from_row(r).unwrap())
            .next()
    }

    fn get(&self, collection: &str, id: Ulid) -> Result<Option<Record>, SquirrelError> {
        reading::get_record(&self.row(collection, id), &self.state.kek)
    }

    fn delete(&mut self, collection: &str, id: Ulid) {
        let plan = self.state.handle_delete(collection, id).unwrap();
        self.transact(&plan.statements).unwrap();
        self.state.committed(plan.hlc);
    }

    fn metas(&self, st: &Statement) -> Vec<RecordMeta> {
        let found: Vec<records::RecordRow> =
            rows(&self.conn, st).iter().map(|r| records::from_row(r).unwrap()).collect();
        reading::list_records(&found)
    }

    fn list(&self, collection: &str, opts: ListOpts) -> Vec<RecordMeta> {
        self.metas(&self.state.handle_list(collection, &opts))
    }

    fn query(&self, collection: &str, opts: QueryOpts) -> Result<Vec<RecordMeta>, SquirrelError> {
        Ok(self.metas(&self.state.handle_query(collection, &opts)?))
    }

    fn register_index(&mut self, def: IndexDef) {
        let statements = engine::handle_register_index(&def).unwrap();
        for st in &statements {
            exec(&self.conn, st).unwrap();
        }
        self.state.add_index(def);
    }

    /// The tables that hold some bytes in any of their columns.
    fn tables_with(&self, bytes: &[u8]) -> Vec<String> {
        let read = |sql: String| rows(&self.conn, &Statement { sql, params: vec![] });
        let holds = |v: &SqlValue| match v {
            SqlValue::Text(s) => s.as_bytes().windows(bytes.len()).any(|w| w == bytes),
            SqlValue::Blob(b) => b.windows(bytes.len()).any(|w| w == bytes),
            _ => false,
        };
        read("SELECT name FROM sqlite_master WHERE type = 'table'".into())
            .iter()
            .map(|r| match &r[0] {
                SqlValue::Text(name) => name.clone(),
                other => panic!("{other:?}"),
            })
            .filter(|name| read(format!("SELECT * FROM {name}")).iter().flatten().any(holds))
            .collect()
    }

    fn outbox(&self) -> Vec<outbox::OutboxEntry> {
        rows(&self.conn, &outbox::peek_batch(1000, i64::MAX))
            .iter()
            .map(|r| outbox::from_row(r).unwrap())
            .collect()
    }

    fn pending_errors(&self) -> Vec<PendingError> {
        let found: Vec<outbox::OutboxEntry> = rows(&self.conn, &outbox::list_pending_errors())
            .iter()
            .map(|r| outbox::from_row(r).unwrap())
            .collect();
        reading::handle_pending_errors(&found)
    }

    fn push_batch(&self) -> (Vec<squirreld::backend::OutboxPushEntry>, Option<i64>, usize) {
        self.push_batch_at(wall_ms() as i64)
    }

    fn push_batch_at(
        &self,
        now: i64,
    ) -> (Vec<squirreld::backend::OutboxPushEntry>, Option<i64>, usize) {
        let waiting =
            outbox::first_waiting_of(&rows(&self.conn, &outbox::first_waiting(now))[0]).unwrap();
        let entries: Vec<outbox::OutboxEntry> =
            rows(&self.conn, &outbox::peek_batch(sync::PUSH_BATCH, now))
                .iter()
                .map(|r| outbox::from_row(r).unwrap())
                .collect();
        let found: Vec<Option<records::RecordRow>> = entries
            .iter()
            .map(|e| {
                sync::push_lookup(e).and_then(|st| {
                    rows(&self.conn, &st).iter().map(|r| records::from_row(r).unwrap()).next()
                })
            })
            .collect();
        (sync::build_batch(&entries, &found, waiting), waiting, entries.len())
    }

    fn push(&mut self, send: impl FnMut(&squirreld::backend::OutboxPushEntry) -> PushResult) -> SyncStats {
        self.push_at(wall_ms() as i64, send).0
    }

    /// A push cycle at a given time: its counts and its reports.
    fn push_at(
        &mut self,
        now: i64,
        mut send: impl FnMut(&squirreld::backend::OutboxPushEntry) -> PushResult,
    ) -> (SyncStats, Vec<SyncEvent>) {
        let mut events = Vec::new();
        let (batch, waiting, mut peeked) = self.push_batch_at(now);
        let mut cycle = PushCycle::new(batch, waiting);
        loop {
            while let Some(entry) = cycle.next() {
                let outcome = send(entry);
                let state = cycle.retry_lookup(&outcome).and_then(|st| {
                    rows(&self.conn, &st)
                        .iter()
                        .map(|r| outbox::retry_state_of(r).unwrap())
                        .next()
                });
                let step = cycle.on_result(outcome, &state, now);
                for st in &step.statements {
                    exec(&self.conn, st).unwrap();
                }
                events.extend(step.event);
            }
            if !cycle.wants_more(peeked, true) {
                return (cycle.stats, events);
            }
            let (batch, waiting, n) = self.push_batch_at(now);
            peeked = n;
            cycle.refill(batch, waiting);
        }
    }

    fn pull(&mut self, backend: &InMemoryBackend) -> SyncStats {
        let checkpoint =
            opt_text(rows(&self.conn, &sync_state::get_checkpoint(backend.backend_id())));
        let list = backend.pull_since(checkpoint.as_deref()).unwrap();
        let mut cycle = PullCycle::new(checkpoint, self.state.last_hlc);
        for remote in &list {
            let local = rows(&self.conn, &records::get(&remote.collection, &remote.record_id))
                .iter()
                .map(|r| records::from_row(r).unwrap())
                .next();
            let statements = sync::apply_remote_record(&local, remote, wall_ms() as i64);
            let applied = self.transact(&statements).is_ok();
            cycle.on_record(remote, applied, wall_ms());
        }
        self.state.catch_up(cycle.clock);
        if let Some(st) = cycle.finish(backend.backend_id()) {
            exec(&self.conn, &st).unwrap();
        }
        cycle.stats
    }

    fn force_sync(&mut self, backend: &mut InMemoryBackend) -> SyncStats {
        let push = self.push(|e| backend.push_one(e));
        let pull = self.pull(backend);
        sync::combine(&push, &pull)
    }
}

fn fresh_id() -> Ulid {
    Ulid(ulid::Ulid::new().0)
}

fn wait_ms(n: u64) {
    let end = wall_ms() + n;
    while wall_ms() < end {}
}

// ── Basic CRUD ──────────────────────────────────────────────────────────────

#[test]
fn put_and_get_roundtrip() {
    let mut engine = Device::new();
    let data = b"{\"title\":\"Attention Is All You Need\"}";
    let id = engine.put("papers", None, data, PutOpts::default()).unwrap();
    let record = engine.get("papers", id).unwrap().unwrap();
    assert_eq!(record.data, data);
    assert_eq!(record.collection, "papers");
    assert_eq!(record.id, id);
    assert!(!record.deleted);
}

#[test]
fn put_with_explicit_id() {
    let mut engine = Device::new();
    let explicit_id = fresh_id();
    let returned_id =
        engine.put("papers", Some(explicit_id), b"data", PutOpts::default()).unwrap();
    assert_eq!(returned_id, explicit_id);
    assert!(engine.get("papers", explicit_id).unwrap().is_some());
}

#[test]
fn put_same_id_twice_updates_record() {
    let mut engine = Device::new();
    let id = engine.put("papers", None, b"v1", PutOpts::default()).unwrap();
    engine.put("papers", Some(id), b"v2", PutOpts::default()).unwrap();
    let record = engine.get("papers", id).unwrap().unwrap();
    assert_eq!(record.data, b"v2");
}

#[test]
fn put_preserves_created_at_on_update() {
    let mut engine = Device::new();
    let id = engine.put("papers", None, b"v1", PutOpts::default()).unwrap();
    let original = engine.get("papers", id).unwrap().unwrap();
    engine.put("papers", Some(id), b"v2", PutOpts::default()).unwrap();
    let updated = engine.get("papers", id).unwrap().unwrap();
    assert_eq!(original.created_at, updated.created_at, "created_at must not change on update");
    assert!(updated.updated_at >= original.updated_at, "updated_at must advance");
}

#[test]
fn get_nonexistent_returns_none() {
    let engine = Device::new();
    assert!(engine.get("papers", fresh_id()).unwrap().is_none());
}

#[test]
fn delete_makes_get_return_none() {
    let mut engine = Device::new();
    let id = engine.put("papers", None, b"data", PutOpts::default()).unwrap();
    engine.delete("papers", id);
    assert!(engine.get("papers", id).unwrap().is_none());
}

#[test]
fn list_returns_records_in_hlc_desc_order() {
    let mut engine = Device::new();
    let mut ids = Vec::new();
    for i in 0..5 {
        let data = format!("doc{i}").into_bytes();
        ids.push(engine.put("papers", None, &data, PutOpts::default()).unwrap());
    }
    let results = engine.list("papers", ListOpts::default());
    assert_eq!(results.len(), 5);
    assert_eq!(results[0].id, *ids.last().unwrap());
    assert_eq!(results[4].id, ids[0]);
}

#[test]
fn crud_test_list_excludes_deleted_by_default() {
    let mut engine = Device::new();
    let id1 = engine.put("papers", None, b"a", PutOpts::default()).unwrap();
    engine.put("papers", None, b"b", PutOpts::default()).unwrap();
    engine.delete("papers", id1);
    let results = engine.list("papers", ListOpts::default());
    assert_eq!(results.len(), 1, "deleted record should be excluded");
    assert!(!results[0].deleted);
}

#[test]
fn crud_test_list_includes_deleted_when_requested() {
    let mut engine = Device::new();
    let id = engine.put("papers", None, b"data", PutOpts::default()).unwrap();
    engine.delete("papers", id);
    let results =
        engine.list("papers", ListOpts { include_deleted: true, ..Default::default() });
    assert_eq!(results.len(), 1);
    assert!(results[0].deleted);
}

#[test]
fn list_with_limit_and_offset() {
    let mut engine = Device::new();
    for i in 0..5 {
        let data = format!("doc{i}").into_bytes();
        engine.put("papers", None, &data, PutOpts::default()).unwrap();
    }
    let page1 = engine.list("papers", ListOpts { limit: Some(2), offset: 0, ..Default::default() });
    let page2 = engine.list("papers", ListOpts { limit: Some(2), offset: 2, ..Default::default() });
    assert_eq!(page1.len(), 2);
    assert_eq!(page2.len(), 2);
    assert_ne!(page1[0].id, page2[0].id, "pages must not overlap");
}

#[test]
fn list_empty_collection_returns_empty_vec() {
    let engine = Device::new();
    assert!(engine.list("papers", ListOpts::default()).is_empty());
}

#[test]
fn hlc_is_monotonically_increasing() {
    let mut engine = Device::new();
    let mut hlcs = Vec::new();
    for i in 0..10 {
        let data = format!("doc{i}").into_bytes();
        let id = engine.put("papers", None, &data, PutOpts::default()).unwrap();
        hlcs.push(engine.get("papers", id).unwrap().unwrap().hlc);
    }
    for i in 1..hlcs.len() {
        assert!(hlcs[i] > hlcs[i - 1], "HLC must be strictly increasing across writes");
    }
}

#[test]
fn hlc_advances_after_engine_reopen() {
    let mut engine = Device::new();
    let id = engine.put("papers", None, b"v1", PutOpts::default()).unwrap();
    let last_hlc = engine.get("papers", id).unwrap().unwrap().hlc;
    let mut engine2 = engine.reopen(None);
    let id2 = engine2.put("papers", None, b"v2", PutOpts::default()).unwrap();
    let new_hlc = engine2.get("papers", id2).unwrap().unwrap().hlc;
    assert!(new_hlc > last_hlc, "HLC after reopen must exceed last persisted HLC");
}

#[test]
fn pending_errors_empty_on_fresh_db() {
    let mut engine = Device::new();
    engine.put("papers", None, b"data", PutOpts::default()).unwrap();
    assert!(engine.pending_errors().is_empty(), "fresh writes have no retries");
}

#[test]
fn clear_error_removes_stuck_entry() {
    let mut engine = Device::new();
    engine.put("papers", None, b"data", PutOpts::default()).unwrap();
    exec(&engine.conn, &outbox::clear_error(999)).unwrap();
    assert_eq!(engine.outbox().len(), 1);
}

#[test]
fn records_in_different_collections_are_isolated() {
    let mut engine = Device::new();
    let id = engine.put("papers", None, b"paper data", PutOpts::default()).unwrap();
    assert!(engine.get("notes", id).unwrap().is_none());
    assert!(engine.list("notes", ListOpts::default()).is_empty());
}

#[test]
fn pending_errors_api_is_accessible() {
    let mut engine = Device::new();
    engine.put("notes", None, b"note", PutOpts::default()).unwrap();
    assert!(engine.pending_errors().is_empty(), "fresh outbox has no errors");
}

#[test]
fn every_write_appends_to_the_outbox() {
    let mut engine = Device::new();
    let id = engine.put("papers", None, b"v1", PutOpts::default()).unwrap();
    engine.delete("papers", id);
    let queue = engine.outbox();
    assert_eq!(queue.len(), 2);
    assert_eq!((queue[0].operation.as_str(), queue[0].data.as_deref()), ("upsert", Some(&b"v1"[..])));
    assert_eq!((queue[1].operation.as_str(), queue[1].data.as_deref()), ("delete", None));
    assert!(queue[0].hlc < queue[1].hlc);
    assert_eq!(queue[1].hlc, engine.row("papers", id).unwrap().hlc);
    assert_eq!(queue[0].record_id, id.to_text());
}

// ── Clock ───────────────────────────────────────────────────────────────────

#[test]
fn the_clock_starts_behind_the_latest_record() {
    let found = Some("0000000000abc-0007-010203040506".to_string());
    let clock = engine::start_clock(&found, [9; 6], 1);
    assert_eq!(clock, Hlc { physical_ms: 0xabc, logical: 7, node_id: [9; 6] });
    let none = engine::start_clock(&None, [9; 6], 55);
    assert_eq!(none, Hlc { physical_ms: 55, logical: 0, node_id: [9; 6] });
    assert_eq!(engine::start_clock(&Some("junk".into()), [9; 6], 55), none);
}

#[test]
fn opening_keeps_what_it_makes() {
    let nothing = engine::Found { node_id: None, kdf_salt: None, latest_hlc: None };
    let opened = engine::open_with(&nothing, &None, vec![], [1; 6], [2; 16], 70).unwrap();
    assert_eq!(opened.node_id, [1; 6]);
    assert_eq!(opened.state.last_hlc, Hlc { physical_ms: 70, logical: 0, node_id: [1; 6] });
    assert!(opened.state.kek.is_none());
    assert_eq!(opened.keep.len(), 1);
    let pass = Some(KeySource::Passphrase("p".into()));
    let first = engine::open_with(&nothing, &pass, vec![], [1; 6], [2; 16], 70).unwrap();
    assert_eq!(first.keep.len(), 2);
    let kept = engine::Found {
        node_id: Some("010101010101".into()),
        kdf_salt: Some("02".repeat(16)),
        latest_hlc: Some("0000000000100-0002-aaaaaaaaaaaa".into()),
    };
    let again = engine::open_with(&kept, &pass, vec![], [9; 6], [9; 16], 70).unwrap();
    assert_eq!(again.node_id, first.node_id);
    assert_eq!(again.state.kek, first.state.kek);
    assert!(again.keep.is_empty());
    assert_eq!(again.state.last_hlc, Hlc { physical_ms: 256, logical: 2, node_id: [1; 6] });
    let broken = engine::Found { node_id: Some("??".into()), kdf_salt: None, latest_hlc: None };
    match engine::open(&broken, &pass, vec![]) {
        Err(e) => assert_eq!(e.message(), "corrupt node_id in config: ??"),
        Ok(_) => panic!("a corrupt node id was taken"),
    }
}

// ── Index ───────────────────────────────────────────────────────────────────

fn papers_index() -> IndexDef {
    IndexDef {
        collection: "papers".into(),
        fields: vec![
            FieldDef { name: "year".into(), affinity: ColumnAffinity::Integer },
            FieldDef { name: "author".into(), affinity: ColumnAffinity::Text },
        ],
        fts_fields: vec!["title".into()],
    }
}

fn indexed(fields: &[(&str, IndexValue)]) -> PutOpts {
    PutOpts {
        index_fields: fields.iter().map(|(k, v)| (k.to_string(), v.clone())).collect(),
        ..Default::default()
    }
}

fn filtered(filter: QueryFilter) -> QueryOpts {
    QueryOpts { filter: Some(filter), ..Default::default() }
}

fn year(n: i64) -> (&'static str, IndexValue) {
    ("year", IndexValue::Integer(n))
}

fn title(t: &str) -> (&'static str, IndexValue) {
    ("title", IndexValue::Text(t.into()))
}

fn author(t: &str) -> (&'static str, IndexValue) {
    ("author", IndexValue::Text(t.into()))
}

#[test]
fn register_index_is_idempotent() {
    let mut engine = Device::new();
    engine.register_index(papers_index());
    engine.register_index(papers_index());
}

#[test]
fn query_eq_filter_returns_matching_records() {
    let mut engine = Device::new();
    engine.register_index(papers_index());
    engine
        .put("papers", None, b"a", indexed(&[year(2020), author("Alice"), title("Rust systems")]))
        .unwrap();
    engine
        .put("papers", None, b"b", indexed(&[year(2023), author("Bob"), title("Async futures")]))
        .unwrap();
    let results = engine
        .query(
            "papers",
            filtered(QueryFilter::Eq { field: "year".into(), value: IndexValue::Integer(2020) }),
        )
        .unwrap();
    assert_eq!(results.len(), 1);
}

#[test]
fn index_test_query_gt_filter() {
    let mut engine = Device::new();
    engine.register_index(papers_index());
    for y in [2018i64, 2020, 2022, 2024] {
        engine.put("papers", None, b"x", indexed(&[year(y)])).unwrap();
    }
    let results = engine
        .query(
            "papers",
            filtered(QueryFilter::Gt { field: "year".into(), value: IndexValue::Integer(2020) }),
        )
        .unwrap();
    assert_eq!(results.len(), 2);
}

#[test]
fn query_le_filter() {
    let mut engine = Device::new();
    engine.register_index(papers_index());
    for y in [2018i64, 2020, 2022] {
        engine.put("papers", None, b"x", indexed(&[year(y)])).unwrap();
    }
    let results = engine
        .query(
            "papers",
            filtered(QueryFilter::Le { field: "year".into(), value: IndexValue::Integer(2020) }),
        )
        .unwrap();
    assert_eq!(results.len(), 2);
}

#[test]
fn index_test_query_fts_contains() {
    let mut engine = Device::new();
    engine.register_index(papers_index());
    engine.put("papers", None, b"a", indexed(&[title("distributed systems design")])).unwrap();
    engine.put("papers", None, b"b", indexed(&[title("machine learning survey")])).unwrap();
    let results = engine
        .query("papers", filtered(QueryFilter::Contains { text: "distributed".into() }))
        .unwrap();
    assert_eq!(results.len(), 1);
}

#[test]
fn query_and_combines_scalar_and_fts() {
    let mut engine = Device::new();
    engine.register_index(papers_index());
    for (y, t) in [
        (2020i64, "Rust async systems"),
        (2020, "Python web frameworks"),
        (2018, "Rust concurrency"),
    ] {
        engine.put("papers", None, b"x", indexed(&[year(y), title(t)])).unwrap();
    }
    let results = engine
        .query(
            "papers",
            filtered(QueryFilter::And(vec![
                QueryFilter::Eq { field: "year".into(), value: IndexValue::Integer(2020) },
                QueryFilter::Contains { text: "Rust".into() },
            ])),
        )
        .unwrap();
    assert_eq!(results.len(), 1);
}

#[test]
fn query_or_filter() {
    let mut engine = Device::new();
    engine.register_index(papers_index());
    for (y, a) in [(2018i64, "Alice"), (2021, "Bob"), (2023, "Carol")] {
        engine.put("papers", None, b"x", indexed(&[year(y), author(a)])).unwrap();
    }
    let results = engine
        .query(
            "papers",
            filtered(QueryFilter::Or(vec![
                QueryFilter::Eq { field: "author".into(), value: IndexValue::Text("Alice".into()) },
                QueryFilter::Eq { field: "author".into(), value: IndexValue::Text("Carol".into()) },
            ])),
        )
        .unwrap();
    assert_eq!(results.len(), 2);
}

#[test]
fn deleted_record_absent_from_query() {
    let mut engine = Device::new();
    engine.register_index(papers_index());
    let id = engine.put("papers", None, b"x", indexed(&[year(2022)])).unwrap();
    engine.delete("papers", id);
    let results = engine
        .query(
            "papers",
            filtered(QueryFilter::Eq { field: "year".into(), value: IndexValue::Integer(2022) }),
        )
        .unwrap();
    assert!(results.is_empty(), "deleted record must not appear in query results");
}

#[test]
fn query_without_index_returns_all_records() {
    let mut engine = Device::new();
    for _ in 0..3 {
        engine.put("papers", None, b"x", PutOpts::default()).unwrap();
    }
    assert_eq!(engine.query("papers", QueryOpts::default()).unwrap().len(), 3);
}

#[test]
fn query_respects_limit_and_offset() {
    let mut engine = Device::new();
    engine.register_index(papers_index());
    for y in 2010i64..2020 {
        engine.put("papers", None, b"x", indexed(&[year(y)])).unwrap();
    }
    let page = |offset| QueryOpts { limit: Some(3), offset, ..Default::default() };
    let page1 = engine.query("papers", page(0)).unwrap();
    let page2 = engine.query("papers", page(3)).unwrap();
    assert_eq!(page1.len(), 3);
    assert_eq!(page2.len(), 3);
    assert_ne!(page1[0].id, page2[0].id);
}

#[test]
fn put_with_explicit_id_indexes_correctly() {
    let mut engine = Device::new();
    engine.register_index(papers_index());
    let id = fresh_id();
    engine
        .put("papers", Some(id), b"content", indexed(&[year(1999), title("classic paper")]))
        .unwrap();
    let results = engine
        .query(
            "papers",
            filtered(QueryFilter::Eq { field: "year".into(), value: IndexValue::Integer(1999) }),
        )
        .unwrap();
    assert_eq!(results.len(), 1);
    assert_eq!(results[0].id, id);
}

#[test]
fn query_by_schema_version() {
    let mut engine = Device::new();
    engine.register_index(papers_index());
    for v in [0u32, 0, 1, 2] {
        let opts = PutOpts { schema_version: Some(v), ..Default::default() };
        engine.put("papers", None, b"x", opts).unwrap();
    }
    let outdated = engine
        .query(
            "papers",
            filtered(QueryFilter::Lt {
                field: "schema_version".into(),
                value: IndexValue::Integer(1),
            }),
        )
        .unwrap();
    assert_eq!(outdated.len(), 2, "two records at v0 need migration");
    let current = engine
        .query(
            "papers",
            filtered(QueryFilter::Eq {
                field: "schema_version".into(),
                value: IndexValue::Integer(2),
            }),
        )
        .unwrap();
    assert_eq!(current.len(), 1);
}

#[test]
fn index_queries_work_for_local_records() {
    let mut engine = Device::new();
    engine.register_index(IndexDef {
        collection: "papers".into(),
        fields: vec![FieldDef { name: "year".into(), affinity: ColumnAffinity::Integer }],
        fts_fields: vec!["title".into()],
    });
    for (y, t) in [(2020i64, "Deep Learning Survey"), (2022, "Efficient Transformers")] {
        engine.put("papers", None, b"x", indexed(&[year(y), title(t)])).unwrap();
    }
    let results = engine
        .query(
            "papers",
            filtered(QueryFilter::Ge { field: "year".into(), value: IndexValue::Integer(2021) }),
        )
        .unwrap();
    assert_eq!(results.len(), 1);
    let fts = engine
        .query("papers", filtered(QueryFilter::Contains { text: "Learning".into() }))
        .unwrap();
    assert_eq!(fts.len(), 1);
}

#[test]
fn the_latest_index_of_a_collection_counts() {
    let mut engine = Device::new();
    engine.register_index(papers_index());
    let mut def = papers_index();
    def.fts_fields.clear();
    engine.state.add_index(def);
    let e = engine
        .query("papers", filtered(QueryFilter::Contains { text: "x".into() }))
        .unwrap_err();
    assert_eq!(
        e.message(),
        "QueryFilter::Contains requires an FTS index (fts_fields) for this collection"
    );
}

// ── Encryption ──────────────────────────────────────────────────────────────

fn raw_key() -> [u8; 32] {
    [0x42u8; 32]
}

fn with_passphrase(pass: &str) -> Device {
    let conn = Connection::open_in_memory().unwrap();
    Device::open(conn, Some(KeySource::Passphrase(pass.into()))).unwrap()
}

#[test]
fn put_and_get_roundtrip_with_raw_key() {
    let mut engine = Device::with_key(raw_key());
    let id = engine.put("notes", None, b"secret message", PutOpts::default()).unwrap();
    let rec = engine.get("notes", id).unwrap().unwrap();
    assert_eq!(rec.data, b"secret message");
}

#[test]
fn encrypted_data_is_not_plaintext_on_disk() {
    let mut engine = Device::with_key(raw_key());
    let id = engine.put("notes", None, b"top secret", PutOpts::default()).unwrap();
    let row = engine.row("notes", id).unwrap();
    assert_eq!(row.format_version, 1);
    assert_eq!(row.data.len(), 10 + 28);
    assert_eq!(row.dek_encrypted.unwrap().len(), 60);
    assert!(!row.data.windows(10).any(|w| w == b"top secret"));
    // The outbox carries payloads plain to the remote store, so the payload is
    // looked for in all other tables, and in all tables once it was pushed.
    assert_eq!(engine.outbox()[0].data.as_deref(), Some(&b"top secret"[..]));
    assert_eq!(engine.tables_with(b"top secret"), vec!["outbox"]);
    engine.force_sync(&mut store());
    assert!(engine.tables_with(b"top secret").is_empty());
    assert_eq!(engine.get("notes", id).unwrap().unwrap().data, b"top secret");
}

#[test]
fn passphrase_roundtrip() {
    let mut engine = with_passphrase("correct horse battery staple");
    let id = engine.put("docs", None, b"sensitive doc", PutOpts::default()).unwrap();
    let rec = engine.get("docs", id).unwrap().unwrap();
    assert_eq!(rec.data, b"sensitive doc");
}

#[test]
fn passphrase_reopens_successfully() {
    let pass = "my-passphrase";
    let mut engine = with_passphrase(pass);
    let id = engine.put("docs", None, b"persisted content", PutOpts::default()).unwrap();
    let engine2 = engine.reopen(Some(KeySource::Passphrase(pass.into())));
    let rec = engine2.get("docs", id).unwrap().unwrap();
    assert_eq!(rec.data, b"persisted content");
}

#[test]
fn wrong_passphrase_fails_to_decrypt() {
    let mut engine = with_passphrase("correct-pass");
    let id = engine.put("docs", None, b"secret", PutOpts::default()).unwrap();
    let engine2 = engine.reopen(Some(KeySource::Passphrase("wrong-pass".into())));
    let result = engine2.get("docs", id);
    assert!(result.is_err(), "decryption with wrong passphrase must fail");
}

#[test]
fn disabled_item_is_stored_plaintext() {
    let mut engine = Device::with_key(raw_key());
    let plain_opts = PutOpts { encryption: ItemEncryption::Disabled, ..Default::default() };
    let plain_id = engine.put("mixed", None, b"public data", plain_opts).unwrap();
    let enc_id = engine.put("mixed", None, b"private data", PutOpts::default()).unwrap();
    let plain = engine.get("mixed", plain_id).unwrap().unwrap();
    let enc = engine.get("mixed", enc_id).unwrap().unwrap();
    assert_eq!(plain.data, b"public data");
    assert_eq!(enc.data, b"private data");
    assert_eq!(engine.row("mixed", plain_id).unwrap().data, b"public data");
    assert_eq!(engine.row("mixed", plain_id).unwrap().format_version, 0);
}

#[test]
fn enabled_item_without_kek_returns_error() {
    let mut engine = Device::new();
    let opts = PutOpts { encryption: ItemEncryption::Enabled, ..Default::default() };
    let result = engine.put("notes", None, b"data", opts);
    assert!(result.is_err(), "Enabled encryption without a KEK must return an error");
    assert!(engine.outbox().is_empty());
}

#[test]
fn raw_key_reopens_and_decrypts() {
    let key = raw_key();
    let mut engine = Device::with_key(key);
    let id = engine.put("notes", None, b"reopen check", PutOpts::default()).unwrap();
    let engine2 = engine.reopen(Some(KeySource::RawKey(key)));
    assert_eq!(engine2.get("notes", id).unwrap().unwrap().data, b"reopen check");
}

#[test]
fn wrong_raw_key_fails_to_decrypt() {
    let mut engine = Device::with_key([0x11u8; 32]);
    let id = engine.put("notes", None, b"locked", PutOpts::default()).unwrap();
    let engine2 = engine.reopen(Some(KeySource::RawKey([0x22u8; 32])));
    assert!(engine2.get("notes", id).is_err(), "wrong raw key must fail to decrypt");
    assert_eq!(engine2.get("notes", id).unwrap_err().message(), "decrypt: aead::Error");
}

#[test]
fn explicit_id_preserved_after_encryption() {
    let mut engine = Device::with_key(raw_key());
    let id = fresh_id();
    engine.put("notes", Some(id), b"known-id content", PutOpts::default()).unwrap();
    let rec = engine.get("notes", id).unwrap().unwrap();
    assert_eq!(rec.id, id);
    assert_eq!(rec.data, b"known-id content");
}

#[test]
fn no_encryption_roundtrip_unchanged() {
    let mut engine = Device::new();
    let id = engine.put("plain", None, b"unencrypted", PutOpts::default()).unwrap();
    let rec = engine.get("plain", id).unwrap().unwrap();
    assert_eq!(rec.data, b"unencrypted");
}

#[test]
fn a_collection_decides_where_the_item_does_not() {
    let mut engine = Device::with_key(raw_key());
    let config = |encryption| CollectionConfig { encryption, ..Default::default() };
    engine.state.collections = vec![
        ("open".into(), config(CollectionEncryption::Disabled)),
        ("shut".into(), config(CollectionEncryption::Enabled)),
    ];
    let a = engine.put("open", None, b"x", PutOpts::default()).unwrap();
    let b = engine.put("shut", None, b"x", PutOpts::default()).unwrap();
    let forced = PutOpts { encryption: ItemEncryption::Enabled, ..Default::default() };
    let c = engine.put("open", None, b"x", forced).unwrap();
    assert_eq!(engine.row("open", a).unwrap().format_version, 0);
    assert_eq!(engine.row("shut", b).unwrap().format_version, 1);
    assert_eq!(engine.row("open", c).unwrap().format_version, 1);
    engine.state.kek = None;
    assert!(engine.put("shut", None, b"x", PutOpts::default()).is_err());
    let plain = PutOpts { encryption: ItemEncryption::Disabled, ..Default::default() };
    assert!(engine.put("shut", None, b"x", plain).is_ok());
}

#[test]
fn encrypted_rows_need_their_keys() {
    let mut engine = Device::with_key(raw_key());
    let id = engine.put("notes", None, b"x", PutOpts::default()).unwrap();
    let keyless = engine.reopen(None);
    assert_eq!(
        keyless.get("notes", id).unwrap_err().message(),
        "record is encrypted but no encryption key is configured"
    );
    let mut row = keyless.row("notes", id).unwrap();
    row.dek_encrypted = None;
    assert_eq!(
        reading::get_record(&Some(row), &Some(raw_key())).unwrap_err().message(),
        "encrypted record has no key"
    );
}

#[test]
fn a_bad_index_field_stores_nothing() {
    let mut engine = Device::new();
    let mut def = papers_index();
    def.fields[0].name = "no good".into();
    engine.state.add_index(def);
    let e = engine.put("papers", None, b"x", PutOpts::default()).unwrap_err();
    assert_eq!(e.message(), "invalid identifier: \"no good\"");
    assert!(engine.list("papers", ListOpts::default()).is_empty());
    assert!(engine.outbox().is_empty());
}

// ── Sync ────────────────────────────────────────────────────────────────────

fn store() -> InMemoryBackend {
    InMemoryBackend::standalone("test".into())
}

#[test]
fn push_single_record_empties_outbox() {
    let mut backend = store();
    let mut engine = Device::new();
    engine.put("papers", None, b"data", PutOpts::default()).unwrap();
    let stats = engine.force_sync(&mut backend);
    assert_eq!(stats.pushed, 1, "one record should have been pushed");
    assert_eq!(stats.errors, 0);
    assert!(engine.pending_errors().is_empty());
    assert!(engine.outbox().is_empty());
}

#[test]
fn push_multiple_records() {
    let mut backend = store();
    let mut engine = Device::new();
    for i in 0..5 {
        let data = format!("doc{i}").into_bytes();
        engine.put("papers", None, &data, PutOpts::default()).unwrap();
    }
    let stats = engine.force_sync(&mut backend);
    assert_eq!(stats.pushed, 5);
    assert_eq!(stats.errors, 0);
}

#[test]
fn push_then_delete_both_synced() {
    let mut backend = store();
    let mut engine = Device::new();
    let id = engine.put("papers", None, b"data", PutOpts::default()).unwrap();
    engine.force_sync(&mut backend);
    engine.delete("papers", id);
    let stats = engine.force_sync(&mut backend);
    assert_eq!(stats.pushed, 1, "delete should push a tombstone");
    assert_eq!(stats.errors, 0);
}

#[test]
fn two_devices_share_data_via_force_sync() {
    let mut backend = store();
    let (mut a, mut b) = (Device::new(), Device::new());
    a.put("papers", None, b"hello from A", PutOpts::default()).unwrap();
    a.force_sync(&mut backend);
    let stats = b.force_sync(&mut backend);
    assert!(stats.pulled >= 1, "B should pull A's record; pulled={}", stats.pulled);
    assert_eq!(b.list("papers", ListOpts::default()).len(), 1);
}

#[test]
fn lww_remote_wins_when_it_has_higher_hlc() {
    let mut backend = store();
    let (mut a, mut b) = (Device::new(), Device::new());
    let id = fresh_id();
    a.put("papers", Some(id), b"from A", PutOpts::default()).unwrap();
    wait_ms(5);
    b.put("papers", Some(id), b"from B", PutOpts::default()).unwrap();
    b.force_sync(&mut backend);
    let stats_a = a.force_sync(&mut backend);
    assert_eq!(stats_a.conflicts, 1, "A's push should be rejected (B has higher HLC)");
    let rec = a.get("papers", id).unwrap().unwrap();
    assert_eq!(rec.data, b"from B", "A should have adopted B's version");
}

#[test]
fn lww_local_wins_when_it_has_higher_hlc() {
    let mut backend = store();
    let (mut a, mut b) = (Device::new(), Device::new());
    let id = fresh_id();
    b.put("papers", Some(id), b"from B (old)", PutOpts::default()).unwrap();
    b.force_sync(&mut backend);
    wait_ms(5);
    a.put("papers", Some(id), b"from A (new)", PutOpts::default()).unwrap();
    let stats_a = a.force_sync(&mut backend);
    assert_eq!(stats_a.pushed, 1, "A should win: its HLC is higher");
    assert_eq!(stats_a.conflicts, 0);
    b.force_sync(&mut backend);
    let rec_b = b.get("papers", id).unwrap().unwrap();
    assert_eq!(rec_b.data, b"from A (new)");
}

#[test]
fn tombstone_propagates_to_second_device() {
    let mut backend = store();
    let (mut a, mut b) = (Device::new(), Device::new());
    let id = a.put("papers", None, b"data", PutOpts::default()).unwrap();
    a.force_sync(&mut backend);
    b.force_sync(&mut backend);
    assert!(b.get("papers", id).unwrap().is_some(), "B should have the record");
    a.delete("papers", id);
    a.force_sync(&mut backend);
    b.force_sync(&mut backend);
    assert!(b.get("papers", id).unwrap().is_none(), "B should see the record as deleted");
}

#[test]
fn two_devices_converge_after_concurrent_writes() {
    let mut backend = store();
    let (mut a, mut b) = (Device::new(), Device::new());
    let id = fresh_id();
    a.put("papers", Some(id), b"version A", PutOpts::default()).unwrap();
    wait_ms(5);
    b.put("papers", Some(id), b"version B", PutOpts::default()).unwrap();
    for _ in 0..3 {
        a.force_sync(&mut backend);
        b.force_sync(&mut backend);
    }
    let rec_a = a.get("papers", id).unwrap().unwrap();
    let rec_b = b.get("papers", id).unwrap().unwrap();
    assert_eq!(rec_a.data, rec_b.data, "both devices must converge to the same value");
    assert_eq!(rec_a.data, b"version B");
}

#[test]
fn device_a_writes_device_b_receives() {
    let mut backend = store();
    let (mut a, mut b) = (Device::new(), Device::new());
    let id = a.put("papers", None, b"paper payload", PutOpts::default()).unwrap();
    a.force_sync(&mut backend);
    b.force_sync(&mut backend);
    let rec = b.get("papers", id).unwrap();
    assert!(rec.is_some(), "B must receive A's record after sync");
    assert_eq!(rec.unwrap().data, b"paper payload");
}

#[test]
fn multiple_records_all_sync() {
    let mut backend = store();
    let (mut a, mut b) = (Device::new(), Device::new());
    let mut ids = Vec::new();
    for i in 0u8..5 {
        ids.push(a.put("papers", None, &[i], PutOpts::default()).unwrap());
    }
    a.force_sync(&mut backend);
    b.force_sync(&mut backend);
    for (i, id) in ids.iter().enumerate() {
        let rec = b.get("papers", *id).unwrap().unwrap();
        assert_eq!(rec.data, [i as u8]);
    }
}

#[test]
fn concurrent_writes_lww_higher_hlc_wins() {
    let mut backend = store();
    let (mut a, mut b) = (Device::new(), Device::new());
    let id = fresh_id();
    a.put("notes", Some(id), b"A's version", PutOpts::default()).unwrap();
    wait_ms(2);
    b.put("notes", Some(id), b"B's version", PutOpts::default()).unwrap();
    a.force_sync(&mut backend);
    b.force_sync(&mut backend);
    a.force_sync(&mut backend);
    let rec_a = a.get("notes", id).unwrap().unwrap();
    let rec_b = b.get("notes", id).unwrap().unwrap();
    assert_eq!(rec_a.data, b"B's version", "A should adopt B's winning version");
    assert_eq!(rec_b.data, b"B's version");
}

#[test]
fn delete_propagates_to_second_device() {
    let mut backend = store();
    let (mut a, mut b) = (Device::new(), Device::new());
    let id = a.put("papers", None, b"to be deleted", PutOpts::default()).unwrap();
    a.force_sync(&mut backend);
    b.force_sync(&mut backend);
    assert!(b.get("papers", id).unwrap().is_some());
    a.delete("papers", id);
    a.force_sync(&mut backend);
    b.force_sync(&mut backend);
    assert!(b.get("papers", id).unwrap().is_none(), "tombstone must propagate");
}

#[test]
fn offline_writes_queue_and_flush_on_connect() {
    let mut backend = store();
    let mut a = Device::new();
    let mut ids = Vec::new();
    for i in 0..3u8 {
        ids.push(a.put("papers", None, &[i], PutOpts::default()).unwrap());
    }
    let mut a_online = a.reopen(None);
    a_online.force_sync(&mut backend);
    let mut b = Device::new();
    b.force_sync(&mut backend);
    for (i, id) in ids.iter().enumerate() {
        let rec = b.get("papers", *id).unwrap().unwrap();
        assert_eq!(rec.data, [i as u8]);
    }
}

#[test]
fn encrypted_records_sync_correctly() {
    let mut backend = store();
    let mut a = Device::with_key([0x55u8; 32]);
    let mut b = Device::with_key([0x55u8; 32]);
    let id = a.put("docs", None, b"encrypted content", PutOpts::default()).unwrap();
    a.force_sync(&mut backend);
    b.force_sync(&mut backend);
    let rec = b.get("docs", id).unwrap().unwrap();
    assert_eq!(rec.data, b"encrypted content", "B must decrypt synced record");
    let mut plain = Device::new();
    plain.force_sync(&mut backend);
    assert_eq!(plain.get("docs", id).unwrap().unwrap().data, b"encrypted content");
}

#[test]
fn list_returns_synced_records() {
    let mut backend = store();
    let (mut a, mut b) = (Device::new(), Device::new());
    for (y, t) in [(2020i64, "Deep Learning Survey"), (2022, "Efficient Transformers")] {
        a.put("papers", None, b"x", indexed(&[year(y), title(t)])).unwrap();
    }
    a.force_sync(&mut backend);
    b.force_sync(&mut backend);
    assert_eq!(b.list("papers", ListOpts::default()).len(), 2, "B must have both papers");
}

#[test]
fn the_outbox_is_drained_batch_by_batch() {
    let mut backend = store();
    let mut engine = Device::new();
    for i in 0..60u8 {
        engine.put("papers", None, &[i], PutOpts::default()).unwrap();
    }
    let mut seqs = Vec::new();
    let stats = engine.push(|e| {
        seqs.push(e.seq);
        backend.push_one(e)
    });
    assert_eq!(stats.pushed, 60);
    assert!(engine.outbox().is_empty());
    assert!(seqs.windows(2).all(|w| w[0] < w[1]), "first in, first out");
    assert_eq!(backend.pull_since(None).unwrap().len(), 60);
}

#[test]
fn a_failed_push_stops_the_cycle_and_is_put_off() {
    let mut engine = Device::new();
    for i in 0..3u8 {
        engine.put("papers", None, &[i], PutOpts::default()).unwrap();
    }
    let mut sent = 0;
    let stats = engine.push(|e| {
        sent += 1;
        if sent == 2 {
            PushResult::TransientError("no network".into())
        } else {
            PushResult::Accepted { pushed_seqs: vec![e.seq] }
        }
    });
    assert_eq!(sent, 2, "nothing is pushed past a failure");
    assert_eq!((stats.pushed, stats.errors), (1, 1));
    let errors = engine.pending_errors();
    assert_eq!(errors.len(), 1);
    assert_eq!(errors[0].retries, 1);
    assert_eq!(errors[0].last_error.as_deref(), Some("no network"));
    assert!(errors[0].next_retry_at_ms > wall_ms());
    assert_eq!(engine.outbox().len(), 2);
}

#[test]
fn pulling_twice_pulls_nothing_new() {
    let mut backend = store();
    let (mut a, mut b) = (Device::new(), Device::new());
    a.put("papers", None, b"x", PutOpts::default()).unwrap();
    a.force_sync(&mut backend);
    assert_eq!(b.force_sync(&mut backend).pulled, 1);
    assert_eq!(b.force_sync(&mut backend).pulled, 0);
}

#[test]
fn a_device_writes_after_what_it_has_seen() {
    let mut backend = store();
    let (mut fast, mut slow) = (Device::new(), Device::new());
    // The fast device's clock is an hour ahead.
    fast.state.last_hlc.physical_ms = wall_ms() + 3_600_000;
    let id = fast.put("notes", None, b"fast", PutOpts::default()).unwrap();
    fast.force_sync(&mut backend);
    slow.force_sync(&mut backend);
    slow.put("notes", Some(id), b"slow", PutOpts::default()).unwrap();
    assert_eq!(slow.force_sync(&mut backend).pushed, 1);
    fast.force_sync(&mut backend);
    assert_eq!(fast.get("notes", id).unwrap().unwrap().data, b"slow");
}

#[test]
fn a_shared_store_can_be_handed_in() {
    let backend = InMemoryBackend::new("shared".into(), InMemoryStore::new());
    assert_eq!(backend.backend_id(), "shared");
    assert!(backend.pull_since(None).unwrap().is_empty());
}

#[test]
fn upserts_without_a_record_are_passed_over() {
    let mut engine = Device::new();
    let id = engine.put("papers", None, b"x", PutOpts::default()).unwrap();
    engine.conn.execute_batch("DELETE FROM records").unwrap();
    let (batch, waiting, peeked) = engine.push_batch();
    assert!(batch.is_empty());
    assert_eq!((waiting, peeked), (None, 1));
    let mut cycle = PushCycle::new(batch, waiting);
    assert!(cycle.next().is_none());
    assert!(!cycle.wants_more(peeked, true));
    cycle.on_db_error();
    assert_eq!(cycle.stats.errors, 1);
    assert_eq!(PushCycle::failed().stats.errors, 1);
    engine.delete("papers", id);
    let (batch, _, _) = engine.push_batch();
    assert_eq!(batch.len(), 1, "a delete needs no record");
    assert_eq!((batch[0].schema_version, batch[0].format_version), (0, 0));
}

#[test]
fn a_waiting_change_holds_back_those_behind_it() {
    let mut engine = Device::new();
    for n in 0..5u8 {
        engine.put("papers", None, &[n], PutOpts::default()).unwrap();
    }
    let all: Vec<i64> = engine.outbox().iter().map(|e| e.seq).collect();
    let now = wall_ms() as i64 + 10_000;
    let mut sent = Vec::new();
    let (stats, events) = engine.push_at(now, |e| {
        sent.push(e.seq);
        if e.seq == all[2] {
            PushResult::TransientError("timeout".into())
        } else {
            PushResult::Accepted { pushed_seqs: vec![e.seq] }
        }
    });
    assert_eq!(sent, all[..3]);
    assert_eq!((stats.pushed, stats.errors), (2, 1));
    assert!(matches!(&events[..], [SyncEvent::RetryScheduled { seq, retries: 1, next_retry_ms, .. }]
        if *seq == all[2] && *next_retry_ms == now as u64 + 1000));

    // The last two are due, but the third is not.
    let (batch, waiting, peeked) = engine.push_batch_at(now + 999);
    assert!(batch.is_empty());
    assert_eq!((waiting, peeked), (Some(all[2]), 2));

    let mut sent = Vec::new();
    engine.push_at(now + 1000, |e| {
        sent.push(e.seq);
        PushResult::Accepted { pushed_seqs: vec![e.seq] }
    });
    assert_eq!(sent, all[2..]);
    assert!(engine.outbox().is_empty());
}

#[test]
fn changes_before_a_waiting_one_are_pushed() {
    let mut engine = Device::new();
    for n in 0..4u8 {
        engine.put("papers", None, &[n], PutOpts::default()).unwrap();
    }
    let all: Vec<i64> = engine.outbox().iter().map(|e| e.seq).collect();
    let now = wall_ms() as i64 + 10_000;
    for seq in [all[2], all[3]] {
        engine
            .conn
            .execute("UPDATE outbox SET next_retry_at = ?1 WHERE seq = ?2", [now + 500, seq])
            .unwrap();
    }
    let (batch, waiting, peeked) = engine.push_batch_at(now);
    assert_eq!(batch.iter().map(|e| e.seq).collect::<Vec<i64>>(), all[..2]);
    assert_eq!((waiting, peeked), (Some(all[2]), 2));
}

#[test]
fn a_full_counter_loses_no_write() {
    let mut backend = store();
    let (mut fast, mut slow) = (Device::new(), Device::new());
    // The fast device is an hour ahead, with nothing left to count.
    let ahead = wall_ms() + 3_600_000;
    fast.state.last_hlc.physical_ms = ahead;
    fast.state.last_hlc.logical = u16::MAX - 1;
    let id = fast.put("notes", None, b"first", PutOpts::default()).unwrap();
    assert_eq!(fast.get("notes", id).unwrap().unwrap().hlc.logical(), u16::MAX);
    fast.force_sync(&mut backend);
    slow.force_sync(&mut backend);
    slow.put("notes", Some(id), b"second", PutOpts::default()).unwrap();
    let stats = slow.force_sync(&mut backend);
    assert_eq!((stats.pushed, stats.conflicts), (1, 0));
    fast.force_sync(&mut backend);
    assert_eq!(fast.get("notes", id).unwrap().unwrap().data, b"second");
    // Two writes in a row, with the counter full between them.
    fast.state.last_hlc.logical = u16::MAX - 1;
    fast.state.last_hlc.physical_ms = ahead + 10;
    fast.put("notes", Some(id), b"third", PutOpts::default()).unwrap();
    fast.put("notes", Some(id), b"fourth", PutOpts::default()).unwrap();
    let hlc = fast.get("notes", id).unwrap().unwrap().hlc;
    assert_eq!((hlc.physical_ms(), hlc.logical()), (ahead + 11, 0));
    let stats = fast.force_sync(&mut backend);
    assert_eq!((stats.pushed, stats.conflicts), (2, 0));
    slow.force_sync(&mut backend);
    assert_eq!(slow.get("notes", id).unwrap().unwrap().data, b"fourth");
}

#[test]
fn writes_leave_other_records() {
    let mut engine = Device::new();
    let kept = engine.put("notes", None, b"kept", PutOpts::default()).unwrap();
    let gone = engine.put("notes", None, b"gone", PutOpts::default()).unwrap();
    engine.put("papers", None, b"other", PutOpts::default()).unwrap();
    engine.delete("notes", gone);
    assert_eq!(engine.get("notes", kept).unwrap().unwrap().data, b"kept");
    assert!(engine.get("papers", kept).unwrap().is_none());
    assert!(engine.get("notes", gone).unwrap().is_none());
    // An id is in one collection at a time.
    engine.put("papers", Some(kept), b"moved", PutOpts::default()).unwrap();
    assert!(engine.get("notes", kept).unwrap().is_none());
    assert_eq!(engine.get("papers", kept).unwrap().unwrap().data, b"moved");
    // A delete in another collection leaves it.
    engine.delete("notes", kept);
    assert_eq!(engine.get("papers", kept).unwrap().unwrap().data, b"moved");
}

#[test]
fn pages_make_up_the_listing() {
    let mut engine = Device::new();
    for n in 0..10u8 {
        let id = engine.put("notes", None, &[n], PutOpts::default()).unwrap();
        engine.put("papers", None, &[n], PutOpts::default()).unwrap();
        if n % 4 == 3 {
            engine.delete("notes", id);
        }
    }
    for include_deleted in [false, true] {
        for order in [SortOrder::HlcAsc, SortOrder::HlcDesc] {
            let ids = |limit: Option<usize>, offset: usize| -> Vec<Ulid> {
                let opts = ListOpts { limit, offset, include_deleted, order };
                engine.list("notes", opts).iter().map(|m| m.id).collect()
            };
            let full = ids(None, 0);
            assert_eq!(full.len(), if include_deleted { 10 } else { 8 });
            for size in 1..12usize {
                let pages: Vec<Ulid> =
                    (0..12).flat_map(|n| ids(Some(size), n * size)).collect();
                assert_eq!(pages, full);
            }
            assert_eq!(ids(Some(usize::MAX), 3), full[3..]);
            assert!(ids(Some(3), 1000).is_empty());
            assert!(ids(Some(0), 0).is_empty());
        }
    }
}
