//! The values that callers hand in and get back.

use vstd::prelude::*;
use vstd::string::*;

use crate::hlc::{wall_clock_ms, Hlc};
pub use crate::id::Ulid;
use crate::text::text_same;

verus! {

// ── Indexing ────────────────────────────────────────────────────────────────

/// The fields of a collection that are indexed.
#[derive(Debug, Clone)]
pub struct IndexDef {
    pub collection: String,
    /// Scalar fields, kept in the collection's shadow table.
    pub fields: Vec<FieldDef>,
    /// Text fields, kept in the collection's full-text table.
    pub fts_fields: Vec<String>,
}

/// One scalar field of an index.
#[derive(Debug, Clone)]
pub struct FieldDef {
    pub name: String,
    pub affinity: ColumnAffinity,
}

/// The column type of an indexed field.
#[derive(Debug, Clone, Copy, PartialEq, Eq, Structural)]
pub enum ColumnAffinity {
    Text,
    Integer,
    Real,
}

/// The SQL name of a column type.
pub open spec fn sql_type(a: ColumnAffinity) -> Seq<char> {
    match a {
        ColumnAffinity::Text => "TEXT"@,
        ColumnAffinity::Integer => "INTEGER"@,
        ColumnAffinity::Real => "REAL"@,
    }
}

impl ColumnAffinity {
    /// The SQL name of the column type.
    pub fn as_sql_type(self) -> (r: &'static str)
        ensures
            r@ == sql_type(self),
    {
        match self {
            ColumnAffinity::Text => "TEXT",
            ColumnAffinity::Integer => "INTEGER",
            ColumnAffinity::Real => "REAL",
        }
    }
}

/// A value of an indexed field. A real number is held by the bits of its IEEE
/// 754 double.
#[derive(Debug, Clone)]
pub enum IndexValue {
    Text(String),
    Integer(i64),
    Real(u64),
    Null,
}

/// A filter on the records of a collection.
#[derive(Debug)]
pub enum QueryFilter {
    Eq { field: String, value: IndexValue },
    Lt { field: String, value: IndexValue },
    Gt { field: String, value: IndexValue },
    Le { field: String, value: IndexValue },
    Ge { field: String, value: IndexValue },
    /// Full-text search over all full-text fields of the collection.
    Contains { text: String },
    And(Vec<QueryFilter>),
    Or(Vec<QueryFilter>),
}

/// The order in which records are listed.
#[derive(Debug, Clone, Copy, PartialEq, Eq, Structural)]
pub enum SortOrder {
    HlcDesc,
    HlcAsc,
}

impl Default for SortOrder {
    fn default() -> (r: SortOrder)
        ensures
            r == SortOrder::HlcDesc,
    {
        SortOrder::HlcDesc
    }
}

// ── Records ─────────────────────────────────────────────────────────────────

/// A record with its payload.
#[derive(Debug, Clone)]
pub struct Record {
    pub id: Ulid,
    pub collection: String,
    /// The bytes that the caller stored, decrypted.
    pub data: Vec<u8>,
    pub hlc: Hlc,
    pub schema_version: u32,
    pub deleted: bool,
    pub created_at: u64,
    pub updated_at: u64,
}

/// A record without its payload.
#[derive(Debug, Clone)]
pub struct RecordMeta {
    pub id: Ulid,
    pub collection: String,
    pub hlc: Hlc,
    pub schema_version: u32,
    pub deleted: bool,
    pub created_at: u64,
    pub updated_at: u64,
}

/// How a record is written.
#[derive(Debug, Clone)]
pub struct PutOpts {
    pub encryption: ItemEncryption,
    pub schema_version: Option<u32>,
    /// Values for the fields of the collection's index, by name.
    pub index_fields: Vec<(String, IndexValue)>,
}

impl Default for PutOpts {
    fn default() -> (r: PutOpts)
        ensures
            r.encryption == ItemEncryption::Default,
            r.schema_version is None,
            r.index_fields@.len() == 0,
    {
        PutOpts {
            encryption: ItemEncryption::Default,
            schema_version: None,
            index_fields: Vec::new(),
        }
    }
}

/// Whether one record is encrypted. It goes before the collection's setting,
/// which goes before the engine's.
#[derive(Debug, Clone, Copy, PartialEq, Eq, Structural)]
pub enum ItemEncryption {
    /// As the collection says, or else the engine.
    Default,
    /// Encrypted in any case.
    Enabled,
    /// Plain in any case.
    Disabled,
}

impl Default for ItemEncryption {
    fn default() -> (r: ItemEncryption)
        ensures
            r == ItemEncryption::Default,
    {
        ItemEncryption::Default
    }
}

/// How records are listed.
#[derive(Debug, Clone, Copy, PartialEq, Eq, Structural)]
pub struct ListOpts {
    pub limit: Option<usize>,
    pub offset: usize,
    pub include_deleted: bool,
    pub order: SortOrder,
}

impl Default for ListOpts {
    fn default() -> (r: ListOpts)
        ensures
            r == (ListOpts {
                limit: None,
                offset: 0,
                include_deleted: false,
                order: SortOrder::HlcDesc,
            }),
    {
        ListOpts { limit: None, offset: 0, include_deleted: false, order: SortOrder::HlcDesc }
    }
}

// ── Blobs ───────────────────────────────────────────────────────────────────

/// The id of a blob: the text of a record id.
pub type BlobId = String;

/// The life of a blob.
#[derive(Debug, Clone, Copy, PartialEq, Eq, Structural)]
pub enum BlobStatus {
    /// Staged on this device and waiting to be uploaded.
    Pending,
    /// Being uploaded in parts.
    Uploading,
    /// Complete on the remote.
    Uploaded,
    /// Downloaded into the cache.
    Cached,
}

/// The word by which a status is stored.
pub open spec fn status_word(s: BlobStatus) -> Seq<char> {
    match s {
        BlobStatus::Pending => "pending"@,
        BlobStatus::Uploading => "uploading"@,
        BlobStatus::Uploaded => "uploaded"@,
        BlobStatus::Cached => "cached"@,
    }
}

/// The status that a stored word stands for.
pub open spec fn status_of(word: Seq<char>) -> Option<BlobStatus> {
    if word == "pending"@ {
        Some(BlobStatus::Pending)
    } else if word == "uploading"@ {
        Some(BlobStatus::Uploading)
    } else if word == "uploaded"@ {
        Some(BlobStatus::Uploaded)
    } else if word == "cached"@ {
        Some(BlobStatus::Cached)
    } else {
        None
    }
}

impl BlobStatus {
    /// The word by which the status is stored.
    pub fn as_str(&self) -> (r: &'static str)
        ensures
            r@ == status_word(*self),
    {
        match self {
            BlobStatus::Pending => "pending",
            BlobStatus::Uploading => "uploading",
            BlobStatus::Uploaded => "uploaded",
            BlobStatus::Cached => "cached",
        }
    }

    /// The status that a stored word stands for.
    pub fn from_db_str(s: &str) -> (r: Option<BlobStatus>)
        ensures
            r == status_of(s@),
    {
        if text_same(s, "pending") {
            Some(BlobStatus::Pending)
        } else if text_same(s, "uploading") {
            Some(BlobStatus::Uploading)
        } else if text_same(s, "uploaded") {
            Some(BlobStatus::Uploaded)
        } else if text_same(s, "cached") {
            Some(BlobStatus::Cached)
        } else {
            None
        }
    }
}

/// A stored status reads back as itself, and no other word stands for one.
pub proof fn law_status_round_trip(s: BlobStatus)
    ensures
        status_of(status_word(s)) == Some(s),
        forall|word: Seq<char>| #[trigger]
            status_of(word) is Some ==> word == status_word(status_of(word)->0),
{
    reveal_strlit("pending");
    reveal_strlit("uploading");
    reveal_strlit("uploaded");
    reveal_strlit("cached");
    assert("pending"@[0] == 'p');
    assert("uploading"@[6] == 'i');
    assert("uploaded"@[6] == 'e');
    assert("cached"@[0] == 'c');
    assert("uploading"@[0] == 'u');
    assert("uploaded"@[0] == 'u');
}

/// What is known of a blob.
#[derive(Debug, Clone)]
pub struct BlobInfo {
    pub id: BlobId,
    pub status: BlobStatus,
    /// The path of the file on this device, if it is here.
    pub local_path: Option<String>,
    pub size_bytes: Option<u64>,
    pub retries: u32,
    pub last_error: Option<String>,
}

/// How a blob is stored.
#[derive(Debug, Clone)]
pub struct PutBlobOpts {
    /// The record that the blob belongs to.
    pub record_id: Option<String>,
    pub collection: Option<String>,
}

impl Default for PutBlobOpts {
    fn default() -> (r: PutBlobOpts)
        ensures
            r.record_id is None,
            r.collection is None,
    {
        PutBlobOpts { record_id: None, collection: None }
    }
}

// ── Sync ────────────────────────────────────────────────────────────────────

/// What a sync cycle did.
#[derive(Debug, Clone, Copy, PartialEq, Eq, Structural)]
pub struct SyncStats {
    pub pushed: usize,
    pub pulled: usize,
    pub conflicts: usize,
    pub errors: usize,
}

impl Default for SyncStats {
    fn default() -> (r: SyncStats)
        ensures
            r == (SyncStats { pushed: 0, pulled: 0, conflicts: 0, errors: 0 }),
    {
        SyncStats { pushed: 0, pulled: 0, conflicts: 0, errors: 0 }
    }
}

/// What the sync loop and the blob worker report.
#[derive(Debug, Clone)]
pub enum SyncEvent {
    PushComplete(SyncStats),
    PullComplete(SyncStats),
    BlobUploaded { blob_id: BlobId },
    BlobDownloaded { blob_id: BlobId },
    RetryScheduled { seq: i64, retries: u32, next_retry_ms: u64, error: String },
    BlobRetryScheduled { blob_id: BlobId, retries: u32, next_retry_ms: u64, error: String },
}

/// A report, as characters.
pub enum SyncEventView {
    PushComplete(SyncStats),
    PullComplete(SyncStats),
    BlobUploaded { blob_id: Seq<char> },
    BlobDownloaded { blob_id: Seq<char> },
    RetryScheduled { seq: i64, retries: u32, next_retry_ms: u64, error: Seq<char> },
    BlobRetryScheduled { blob_id: Seq<char>, retries: u32, next_retry_ms: u64, error: Seq<char> },
}

impl View for SyncEvent {
    type V = SyncEventView;

    open spec fn view(&self) -> SyncEventView {
        match self {
            SyncEvent::PushComplete(s) => SyncEventView::PushComplete(*s),
            SyncEvent::PullComplete(s) => SyncEventView::PullComplete(*s),
            SyncEvent::BlobUploaded { blob_id } => SyncEventView::BlobUploaded { blob_id: blob_id@ },
            SyncEvent::BlobDownloaded { blob_id } => SyncEventView::BlobDownloaded {
                blob_id: blob_id@,
            },
            SyncEvent::RetryScheduled {
                seq,
                retries,
                next_retry_ms,
                error,
            } => SyncEventView::RetryScheduled {
                seq: *seq,
                retries: *retries,
                next_retry_ms: *next_retry_ms,
                error: error@,
            },
            SyncEvent::BlobRetryScheduled {
                blob_id,
                retries,
                next_retry_ms,
                error,
            } => SyncEventView::BlobRetryScheduled {
                blob_id: blob_id@,
                retries: *retries,
                next_retry_ms: *next_retry_ms,
                error: error@,
            },
        }
    }
}

/// A local change that could not be pushed yet.
#[derive(Debug, Clone)]
pub struct PendingError {
    pub seq: i64,
    pub record_id: String,
    pub collection: String,
    pub retries: u32,
    /// The latest error.
    pub last_error: Option<String>,
    /// When the next attempt is due, in Unix milliseconds.
    pub next_retry_at_ms: u64,
}

/// Milliseconds as the database stores them: a number with a sign, of the same
/// bits.
#[verifier::truncate]
pub fn stored_ms(ms: u64) -> (r: i64)
    ensures
        r == ms as i64,
{
    ms as i64
}

/// The current time in Unix milliseconds, as the database stores it.
pub(crate) fn now_ms() -> i64 {
    stored_ms(wall_clock_ms())
}

} // verus!
