use rusqlite::types::Value;
use rusqlite::Connection;
use squirreld::backend::in_memory_blobs::InMemoryBlobStore;
use squirreld::backend::UploadedPart;
use squirreld::blob::{
    self, BlobLookup, BlobWorker, MultipartUpload, PartRange, WorkerAction, WorkerEvent,
    CHUNK_SIZE, MULTIPART_THRESHOLD,
};
use squirreld::db::blobs::{self, BlobRow};
use squirreld::db::outbox;
use squirreld::db::schema;
use squirreld::db::statement::{SqlValue, Statement};
use squirreld::reading;
use squirreld::types::{BlobInfo, BlobStatus, PutBlobOpts, SyncEvent};

// ── A blob worker on a database in memory ───────────────────────────────────

fn bound(v: &SqlValue) -> Value {
    match v {
        SqlValue::Null => Value::Null,
        SqlValue::Integer(n) => Value::Integer(*n),
        SqlValue::Real(bits) => Value::Real(f64::from_bits(*bits)),
        SqlValue::Text(s) => Value::Text(s.clone()),
        SqlValue::Blob(b) => Value::Blob(b.clone()),
    }
}

fn read(v: Value) -> SqlValue {
    match v {
        Value::Null => SqlValue::Null,
        Value::Integer(n) => SqlValue::Integer(n),
        Value::Real(f) => SqlValue::Real(f.to_bits()),
        Value::Text(s) => SqlValue::Text(s),
        Value::Blob(b) => SqlValue::Blob(b),
    }
}

struct Worker {
    conn: Connection,
    /// The cache: a path and a file.
    files: Vec<(String, Vec<u8>)>,
    events: Vec<SyncEvent>,
    parts_sent: Vec<i32>,
    clock: i64,
}

impl Worker {
    fn new() -> Worker {
        let conn = Connection::open_in_memory().unwrap();
        for batch in schema::initialize() {
            conn.execute_batch(batch).unwrap();
        }
        Worker { conn, files: vec![], events: vec![], parts_sent: vec![], clock: 1000 }
    }

    fn exec(&self, st: &Statement) {
        self.conn
            .execute(&st.sql, rusqlite::params_from_iter(st.params.iter().map(bound)))
            .unwrap();
    }

    fn exec_all(&self, list: &[Statement]) {
        for st in list {
            self.exec(st);
        }
    }

    fn rows(&self, st: &Statement) -> Vec<Vec<SqlValue>> {
        let mut stmt = self.conn.prepare(&st.sql).unwrap();
        let n = stmt.column_count();
        let found = stmt
            .query_map(rusqlite::params_from_iter(st.params.iter().map(bound)), |r| {
                (0..n)
                    .map(|i| r.get::<_, Value>(i).map(read))
                    .collect::<rusqlite::Result<Vec<_>>>()
            })
            .unwrap();
        found.map(|r| r.unwrap()).collect()
    }

    fn blob(&self, id: &str) -> Option<BlobRow> {
        self.rows(&blobs::get(id)).iter().map(|r| blobs::from_row(r).unwrap()).next()
    }

    fn file(&self, path: &str) -> Vec<u8> {
        self.files.iter().find(|(p, _)| p == path).unwrap().1.clone()
    }

    fn put_blob(&mut self, content: &[u8], opts: PutBlobOpts) -> String {
        let (id, st) = blob::handle_put_blob(&opts);
        self.exec(&st);
        let path = format!("cache/{id}");
        self.files.push((path.clone(), content.to_vec()));
        self.exec_all(&blob::staged(&id, &path, content.len() as u64, self.clock));
        id
    }

    fn blob_error(&mut self, id: &str, error: &str) {
        let state = self
            .rows(&blobs::retry_state(id))
            .iter()
            .map(|r| outbox::retry_state_of(r).unwrap())
            .next();
        self.exec(&blobs::mark_retry(&state, id, error, self.clock));
        if let Some(e) = blob::retry_event(id, &self.blob(id), error) {
            self.events.push(e);
        }
    }

    /// Uploads what is due, failing after some parts.
    fn upload(&mut self, store: &mut InMemoryBlobStore, mut allowed_parts: usize) {
        let st = blobs::list_ready(&["pending", "uploading"], self.clock).unwrap();
        let due: Vec<BlobRow> =
            self.rows(&st).iter().map(|r| blobs::from_row(r).unwrap()).collect();
        for row in due {
            if !blob::is_staged(&row) {
                continue;
            }
            let data = self.file(row.local_path.as_ref().unwrap());
            let size = blob::known_size(&row).unwrap();
            let outcome = if blob::is_multipart(size) {
                self.upload_parts(store, &row, &data, &mut allowed_parts)
            } else {
                store.put_object(&row.s3_key, data);
                Ok(())
            };
            match outcome {
                Ok(()) => {
                    let step = blob::upload_done(&row.id, self.clock);
                    self.exec_all(&step.statements);
                    self.events.extend(step.event);
                }
                Err(e) => self.blob_error(&row.id, &e),
            }
        }
    }

    fn upload_parts(
        &mut self,
        store: &mut InMemoryBlobStore,
        row: &BlobRow,
        data: &[u8],
        allowed: &mut usize,
    ) -> Result<(), String> {
        let mut upload = MultipartUpload::new(row, data.len() as u64);
        if upload.upload_id.is_none() {
            let id = store.create_multipart_upload(&upload.s3_key);
            self.exec(&upload.on_created(id, self.clock));
        }
        let upload_id = upload.upload_id.clone().unwrap();
        let (statements, outcome) = upload.on_listed(store.list_parts(&upload_id), self.clock);
        self.exec_all(&statements);
        outcome?;
        while let Some(part) = upload.next_part() {
            if *allowed == 0 {
                return Err("connection lost".into());
            }
            *allowed -= 1;
            let chunk = data[part.offset as usize..(part.offset + part.len) as usize].to_vec();
            let etag = store
                .upload_part(&upload_id, part.part_number, chunk)
                .map_err(|e| e.message())?;
            self.parts_sent.push(part.part_number);
            self.exec(&upload.on_part(etag));
        }
        store
            .complete_multipart_upload(&upload_id, &upload.into_parts())
            .map_err(|e| e.message())
    }

    fn download(&mut self, store: &InMemoryBlobStore, id: &str) {
        let row = self.blob(id).unwrap();
        match store.get_object(&row.s3_key) {
            Ok(data) => {
                let path = format!("cache/{id}");
                let size = data.len() as u64;
                self.files.push((path.clone(), data));
                let step = blob::download_done(id, &path, size, self.clock);
                self.exec_all(&step.statements);
                self.events.extend(step.event);
            }
            Err(e) => self.blob_error(id, &e.message()),
        }
    }

    fn info(&self, id: &str) -> Option<BlobInfo> {
        reading::handle_blob_info(&self.blob(id))
    }

    fn get(&self, id: &str) -> BlobLookup {
        let row = self.blob(id);
        let here = match row.as_ref().and_then(|r| r.local_path.clone()) {
            Some(p) => self.files.iter().any(|(f, _)| *f == p),
            None => false,
        };
        blob::handle_get_blob(&row, here)
    }
}

#[test]
fn put_blob_returns_blob_id_immediately() {
    let mut w = Worker::new();
    let id = w.put_blob(b"PDF content here", PutBlobOpts::default());
    assert_eq!(id.len(), 26);
}

#[test]
fn blob_status_is_uploaded_after_flush() {
    let (mut w, mut store) = (Worker::new(), InMemoryBlobStore::new());
    let id = w.put_blob(b"some data", PutBlobOpts::default());
    w.upload(&mut store, 0);
    let info = w.info(&id).unwrap();
    assert_eq!(info.status, BlobStatus::Uploaded, "status should be Uploaded after flush");
    assert!(matches!(&w.events[..], [SyncEvent::BlobUploaded { blob_id }] if *blob_id == id));
}

#[test]
fn blob_info_returns_none_for_unknown_id() {
    assert!(Worker::new().info("no-such-blob").is_none());
}

#[test]
fn get_blob_returns_cached_path_after_flush() {
    let (mut w, mut store) = (Worker::new(), InMemoryBlobStore::new());
    let content = b"hello world blob";
    let id = w.put_blob(content, PutBlobOpts::default());
    w.upload(&mut store, 0);
    match w.get(&id) {
        BlobLookup::Here(path) => assert_eq!(w.file(&path), content),
        other => panic!("{other:?}"),
    }
}

#[test]
fn get_blob_triggers_download_for_uploaded_blob() {
    let (mut w, mut store) = (Worker::new(), InMemoryBlobStore::new());
    let content = b"shared blob content";
    let id = w.put_blob(content, PutBlobOpts::default());
    assert!(matches!(w.get("unknown"), BlobLookup::NotYet));
    w.upload(&mut store, 0);
    w.files.clear();
    assert!(matches!(w.get(&id), BlobLookup::Download));
    w.download(&store, &id);
    assert_eq!(w.info(&id).unwrap().status, BlobStatus::Cached);
    match w.get(&id) {
        BlobLookup::Here(path) => assert_eq!(w.file(&path), content),
        other => panic!("{other:?}"),
    }
    assert!(matches!(w.events.last(), Some(SyncEvent::BlobDownloaded { .. })));
}

#[test]
fn blob_info_reports_correct_size() {
    let (mut w, mut store) = (Worker::new(), InMemoryBlobStore::new());
    let id = w.put_blob(&vec![0xABu8; 1024], PutBlobOpts::default());
    w.upload(&mut store, 0);
    assert_eq!(w.info(&id).unwrap().size_bytes, Some(1024));
}

#[test]
fn multiple_blobs_all_uploaded() {
    let (mut w, mut store) = (Worker::new(), InMemoryBlobStore::new());
    let ids: Vec<String> = (0..5)
        .map(|i| w.put_blob(format!("content {i}").as_bytes(), PutBlobOpts::default()))
        .collect();
    w.upload(&mut store, 0);
    for id in &ids {
        assert_eq!(w.info(id).unwrap().status, BlobStatus::Uploaded, "blob {id}");
    }
}

#[test]
fn large_blob_is_uploaded_correctly() {
    let (mut w, mut store) = (Worker::new(), InMemoryBlobStore::new());
    let content = vec![0x42u8; 6 * 1024 * 1024];
    let id = w.put_blob(&content, PutBlobOpts::default());
    w.upload(&mut store, 100);
    let info = w.info(&id).unwrap();
    assert_eq!(info.status, BlobStatus::Uploaded);
    assert_eq!(info.size_bytes, Some(6 * 1024 * 1024));
    assert_eq!(store.get_object(&format!("blobs/{id}")).unwrap(), content);
    assert_eq!(w.parts_sent, vec![1, 2]);
}

#[test]
fn blob_can_be_associated_with_record() {
    let (mut w, mut store) = (Worker::new(), InMemoryBlobStore::new());
    let opts = PutBlobOpts { record_id: Some("rec".into()), collection: Some("papers".into()) };
    let id = w.put_blob(b"PDF bytes", opts);
    w.upload(&mut store, 0);
    assert_eq!(w.info(&id).unwrap().status, BlobStatus::Uploaded);
    let row = w.blob(&id).unwrap();
    assert_eq!((row.record_id.as_deref(), row.collection.as_deref()), (Some("rec"), Some("papers")));
    assert_eq!(row.s3_key, format!("blobs/{id}"));
}

#[test]
fn blob_uploaded_by_a_accessible_to_b() {
    let mut store = InMemoryBlobStore::new();
    let (mut a, mut b) = (Worker::new(), Worker::new());
    let content = b"PDF content bytes here";
    let id = a.put_blob(content, PutBlobOpts::default());
    a.upload(&mut store, 0);
    assert_eq!(a.info(&id).unwrap().status, BlobStatus::Uploaded);
    // B learns of the blob and downloads it.
    b.exec(&blobs::insert(&a.blob(&id).unwrap()));
    b.download(&store, &id);
    match b.get(&id) {
        BlobLookup::Here(path) => assert_eq!(b.file(&path), content),
        other => panic!("{other:?}"),
    }
}

#[test]
fn interrupted_uploads_send_only_what_is_missing() {
    let (mut w, mut store) = (Worker::new(), InMemoryBlobStore::new());
    let content: Vec<u8> = (0..(3 * CHUNK_SIZE + 17)).map(|i| (i / 7) as u8).collect();
    let id = w.put_blob(&content, PutBlobOpts::default());
    w.upload(&mut store, 2);
    assert_eq!(w.parts_sent, vec![1, 2]);
    let info = w.info(&id).unwrap();
    assert_eq!((info.status, info.retries), (BlobStatus::Uploading, 1));
    assert_eq!(info.last_error.as_deref(), Some("connection lost"));
    assert!(matches!(w.events.last(),
        Some(SyncEvent::BlobRetryScheduled { retries: 1, next_retry_ms: 2000, .. })));
    // Nothing happens before the retry is due.
    w.upload(&mut store, 100);
    assert_eq!(w.parts_sent, vec![1, 2]);
    w.clock += 1000;
    w.upload(&mut store, 100);
    assert_eq!(w.parts_sent, vec![1, 2, 3, 4]);
    assert_eq!(store.get_object(&format!("blobs/{id}")).unwrap(), content);
    assert_eq!(w.info(&id).unwrap().status, BlobStatus::Uploaded);
}

#[test]
fn expired_uploads_begin_anew() {
    let (mut w, mut store) = (Worker::new(), InMemoryBlobStore::new());
    let content = vec![1u8; CHUNK_SIZE as usize + 1];
    let id = w.put_blob(&content, PutBlobOpts::default());
    w.upload(&mut store, 1);
    // The remote store forgets the upload.
    let mut store = InMemoryBlobStore::new();
    w.clock += 1000;
    w.upload(&mut store, 100);
    let row = w.blob(&id).unwrap();
    assert_eq!((row.upload_id.as_deref(), row.status.as_str(), row.retries), (None, "pending", 2));
    assert_eq!(
        row.last_error.as_deref(),
        Some("multipart upload expired; will restart on next cycle")
    );
    assert!(w.rows(&blobs::list_parts(&id)).is_empty());
    w.clock += 2000;
    w.upload(&mut store, 100);
    assert_eq!(store.get_object(&format!("blobs/{id}")).unwrap(), content);
}

// ── Parts ───────────────────────────────────────────────────────────────────

#[test]
fn files_are_cut_into_parts() {
    assert_eq!(MULTIPART_THRESHOLD, 5 * 1024 * 1024);
    assert!(!blob::is_multipart(MULTIPART_THRESHOLD - 1));
    assert!(blob::is_multipart(MULTIPART_THRESHOLD));
    assert_eq!(blob::total_parts(0), 0);
    assert_eq!(blob::total_parts(1), 1);
    assert_eq!(blob::total_parts(CHUNK_SIZE), 1);
    assert_eq!(blob::total_parts(CHUNK_SIZE + 1), 2);
    let all = blob::missing_parts(&vec![], 2 * CHUNK_SIZE + 5);
    assert_eq!(
        all,
        vec![
            PartRange { part_number: 1, offset: 0, len: CHUNK_SIZE },
            PartRange { part_number: 2, offset: CHUNK_SIZE, len: CHUNK_SIZE },
            PartRange { part_number: 3, offset: 2 * CHUNK_SIZE, len: 5 },
        ]
    );
    let have = vec![UploadedPart { part_number: 2, etag: "e".into() }];
    let rest: Vec<i32> = blob::missing_parts(&have, 2 * CHUNK_SIZE + 5)
        .iter()
        .map(|p| p.part_number)
        .collect();
    assert_eq!(rest, vec![1, 3]);
}

#[test]
fn parts_are_sorted_by_number() {
    let part = |n: i32, e: &str| UploadedPart { part_number: n, etag: e.into() };
    let sorted: Vec<(i32, String)> =
        blob::sort_parts(vec![part(3, "c"), part(1, "a"), part(2, "b"), part(1, "z")])
            .into_iter()
            .map(|p| (p.part_number, p.etag))
            .collect();
    let expected: Vec<(i32, String)> =
        [(1, "a"), (1, "z"), (2, "b"), (3, "c")].map(|(n, e)| (n, e.to_string())).to_vec();
    assert_eq!(sorted, expected);
}

#[test]
fn unknown_statuses_count_as_pending() {
    let mut w = Worker::new();
    let id = w.put_blob(b"x", PutBlobOpts::default());
    let mut row = w.blob(&id).unwrap();
    row.status = "download_pending".into();
    row.size_bytes = None;
    let info = reading::handle_blob_info(&Some(row)).unwrap();
    assert_eq!((info.status, info.size_bytes), (BlobStatus::Pending, None));
    assert!(blob::retry_event("gone", &None, "e").is_none());
}

// ── The worker's loop ───────────────────────────────────────────────────────

#[test]
fn the_worker_answers_those_who_wait() {
    let mut w = BlobWorker::new(0);
    assert_eq!(w.deadline, 60_000);
    assert_eq!(w.on_event(WorkerEvent::Opened, 5), WorkerAction::RunPass);
    assert_eq!((w.deadline, w.pass_done()), (60_005, 0));
    assert_eq!(w.on_event(WorkerEvent::Stage, 10), WorkerAction::StageFile);
    assert_eq!(w.deadline, 60_005, "the period begins when the work is done");
    w.work_done(15);
    assert_eq!(w.deadline, 60_015);
    assert_eq!(w.on_event(WorkerEvent::Download, 20), WorkerAction::DownloadBlob);
    w.work_done(25);
    assert_eq!(w.deadline, 60_025);
    assert_eq!(w.on_event(WorkerEvent::ForceFlush, 30), WorkerAction::RunPass);
    assert_eq!(w.pass_done(), 1);
    assert_eq!(w.on_event(WorkerEvent::Elapsed, 60_030), WorkerAction::RunPass);
    assert_eq!(w.pass_done(), 0);
    assert_eq!(w.on_event(WorkerEvent::Closed, 70_000), WorkerAction::Exit);
}
