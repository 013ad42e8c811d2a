//! Wire types.

use vstd::prelude::*;
use vstd::string::*;

use crate::db::row::{copy_opt_bytes, opt_bytes};
use crate::text::text_same;

verus! {

/// A local change, ready to be pushed.
#[derive(Debug, Clone)]
pub struct OutboxPushEntry {
    pub seq: i64,
    pub record_id: String,
    pub collection: String,
    /// "upsert" or "delete".
    pub operation: String,
    pub hlc: String,
    /// The payload of an upsert.
    pub data: Option<Vec<u8>>,
    pub dek_encrypted: Option<Vec<u8>>,
    pub schema_version: u32,
    pub format_version: u8,
    pub retries: u32,
}

/// A local change, as characters and bytes.
pub struct EntryView {
    pub seq: i64,
    pub record_id: Seq<char>,
    pub collection: Seq<char>,
    pub operation: Seq<char>,
    pub hlc: Seq<char>,
    pub data: Option<Seq<u8>>,
    pub dek_encrypted: Option<Seq<u8>>,
    pub schema_version: u32,
    pub format_version: u8,
    pub retries: u32,
}

impl View for OutboxPushEntry {
    type V = EntryView;

    open spec fn view(&self) -> EntryView {
        EntryView {
            seq: self.seq,
            record_id: self.record_id@,
            collection: self.collection@,
            operation: self.operation@,
            hlc: self.hlc@,
            data: opt_bytes(self.data),
            dek_encrypted: opt_bytes(self.dek_encrypted),
            schema_version: self.schema_version,
            format_version: self.format_version,
            retries: self.retries,
        }
    }
}

/// A record as the remote store holds it.
#[derive(Debug, Clone)]
pub struct RemoteRecord {
    pub record_id: String,
    pub collection: String,
    pub hlc: String,
    /// The payload, where there is one.
    pub data: Option<Vec<u8>>,
    pub dek_encrypted: Option<Vec<u8>>,
    pub deleted: bool,
    pub schema_version: u32,
    pub format_version: u8,
}

/// A remote record, as characters and bytes.
pub struct RemoteView {
    pub record_id: Seq<char>,
    pub collection: Seq<char>,
    pub hlc: Seq<char>,
    pub data: Option<Seq<u8>>,
    pub dek_encrypted: Option<Seq<u8>>,
    pub deleted: bool,
    pub schema_version: u32,
    pub format_version: u8,
}

impl View for RemoteRecord {
    type V = RemoteView;

    open spec fn view(&self) -> RemoteView {
        RemoteView {
            record_id: self.record_id@,
            collection: self.collection@,
            hlc: self.hlc@,
            data: opt_bytes(self.data),
            dek_encrypted: opt_bytes(self.dek_encrypted),
            deleted: self.deleted,
            schema_version: self.schema_version,
            format_version: self.format_version,
        }
    }
}

/// The record that a remote store holds once it has accepted a change.
pub open spec fn remote_of(e: EntryView) -> RemoteView {
    RemoteView {
        record_id: e.record_id,
        collection: e.collection,
        hlc: e.hlc,
        data: e.data,
        dek_encrypted: e.dek_encrypted,
        deleted: e.operation == "delete"@,
        schema_version: e.schema_version,
        format_version: e.format_version,
    }
}

impl RemoteRecord {
    /// The record that a remote store holds once it has accepted a change.
    pub fn from_entry(entry: &OutboxPushEntry) -> (r: RemoteRecord)
        ensures
            r@ == remote_of(entry@),
    {
        RemoteRecord {
            record_id: entry.record_id.clone(),
            collection: entry.collection.clone(),
            hlc: entry.hlc.clone(),
            data: copy_opt_bytes(&entry.data),
            dek_encrypted: copy_opt_bytes(&entry.dek_encrypted),
            deleted: text_same(entry.operation.as_str(), "delete"),
            schema_version: entry.schema_version,
            format_version: entry.format_version,
        }
    }

    /// A copy.
    pub fn copy(&self) -> (r: RemoteRecord)
        ensures
            r@ == self@,
    {
        RemoteRecord {
            record_id: self.record_id.clone(),
            collection: self.collection.clone(),
            hlc: self.hlc.clone(),
            data: copy_opt_bytes(&self.data),
            dek_encrypted: copy_opt_bytes(&self.dek_encrypted),
            deleted: self.deleted,
            schema_version: self.schema_version,
            format_version: self.format_version,
        }
    }
}

/// The outcome of a push.
#[derive(Debug)]
pub enum PushResult {
    /// The remote store accepted the entries.
    Accepted { pushed_seqs: Vec<i64> },
    /// The remote store has a change of the record that is at least as late.
    ConflictAt { record_id: String, seq: i64 },
    /// The network or the service failed; the push is to be tried again.
    TransientError(String),
}

/// The outcome of a push, as characters.
pub enum PushView {
    Accepted { pushed_seqs: Seq<i64> },
    ConflictAt { record_id: Seq<char>, seq: i64 },
    TransientError(Seq<char>),
}

impl View for PushResult {
    type V = PushView;

    open spec fn view(&self) -> PushView {
        match self {
            PushResult::Accepted { pushed_seqs } => PushView::Accepted { pushed_seqs: pushed_seqs@ },
            PushResult::ConflictAt { record_id, seq } => PushView::ConflictAt {
                record_id: record_id@,
                seq: *seq,
            },
            PushResult::TransientError(text) => PushView::TransientError(text@),
        }
    }
}

/// Why a remote store could not be used.
#[derive(Debug)]
pub enum BackendError {
    /// It may work later.
    Transient(String),
    /// It will not work as things are set up.
    Config(String),
}

/// Why a remote store could not be used, as characters.
pub enum BackendErrorView {
    Transient(Seq<char>),
    Config(Seq<char>),
}

impl View for BackendError {
    type V = BackendErrorView;

    open spec fn view(&self) -> BackendErrorView {
        match self {
            BackendError::Transient(t) => BackendErrorView::Transient(t@),
            BackendError::Config(t) => BackendErrorView::Config(t@),
        }
    }
}

/// The message of a backend's error.
pub open spec fn backend_message(e: BackendErrorView) -> Seq<char> {
    match e {
        BackendErrorView::Transient(t) => "transient: "@ + t,
        BackendErrorView::Config(t) => "configuration error: "@ + t,
    }
}

impl BackendError {
    /// The message that a reader is shown.
    pub fn message(&self) -> (r: String)
        ensures
            r@ == backend_message(self@),
    {
        match self {
            BackendError::Transient(t) => "transient: ".to_owned().concat(t.as_str()),
            BackendError::Config(t) => "configuration error: ".to_owned().concat(t.as_str()),
        }
    }
}

/// A part of a multipart upload that the remote store has.
#[derive(Debug, Clone)]
pub struct UploadedPart {
    pub part_number: i32,
    pub etag: String,
}

/// An uploaded part, as characters.
pub struct PartView {
    pub part_number: i32,
    pub etag: Seq<char>,
}

impl View for UploadedPart {
    type V = PartView;

    open spec fn view(&self) -> PartView {
        PartView { part_number: self.part_number, etag: self.etag@ }
    }
}

} // verus!
