//! What callers get to see of stored rows.

use vstd::prelude::*;
use vstd::string::*;

use crate::db::blobs::{BlobRow, BlobView};
use crate::db::outbox::{OutboxEntry, OutboxView};
use crate::db::records::{RecordRow, RecordView};
use crate::db::row::{copy_opt_text, opt_text};
use crate::engine::{kek_view, open_payload, payload_of};
use crate::error::SquirrelError;
use crate::hlc::{hlc_parsed, Hlc};
use crate::id::{ulid_of, Ulid};
use crate::sync::opt_row;
use crate::types::{
    status_of, BlobInfo, BlobStatus, PendingError, Record, RecordMeta,
};

verus! {

/// Whether an id is the one that a row's text stands for. A text that is no id
/// gives no hold.
pub open spec fn id_matches(id: Ulid, text: Seq<char>) -> bool {
    ulid_of(text) matches Some(stored) ==> id == stored
}

/// Whether a reading is the one that a row's text stands for. A text that is no
/// reading is shown as one of no node.
pub open spec fn hlc_matches(hlc: Hlc, text: Seq<char>) -> bool {
    match hlc_parsed(text) {
        Some(parts) => parts == (hlc.physical_ms as nat, hlc.logical as nat, hlc.node_id@),
        None => hlc.logical == 0 && hlc.node_id@ == seq![0u8, 0, 0, 0, 0, 0],
    }
}

/// Whether a record shows a row and its payload.
pub open spec fn shows(r: Record, row: RecordView, data: Seq<u8>) -> bool {
    &&& id_matches(r.id, row.id)
    &&& r.collection@ == row.collection
    &&& r.data@ == data
    &&& hlc_matches(r.hlc, row.hlc)
    &&& r.schema_version == row.schema_version
    &&& r.deleted == row.deleted
    &&& r.created_at == row.created_at as u64
    &&& r.updated_at == row.updated_at as u64
}

/// Whether a record header shows a row.
pub open spec fn shows_meta(r: RecordMeta, row: RecordView) -> bool {
    &&& id_matches(r.id, row.id)
    &&& r.collection@ == row.collection
    &&& hlc_matches(r.hlc, row.hlc)
    &&& r.schema_version == row.schema_version
    &&& r.deleted == row.deleted
    &&& r.created_at == row.created_at as u64
    &&& r.updated_at == row.updated_at as u64
}

/// The id that a row's text stands for, or a fresh one.
fn read_id(text: &str) -> (r: Ulid)
    ensures
        id_matches(r, text@),
{
    match Ulid::from_text(text) {
        Some(id) => id,
        None => Ulid::new(),
    }
}

/// The reading that a row's text stands for, or one of no node.
fn read_hlc(text: &str) -> (r: Hlc)
    ensures
        hlc_matches(r, text@),
{
    match Hlc::from_text(text) {
        Ok(h) => h,
        Err(_) => {
            let nobody: [u8; 6] = [0, 0, 0, 0, 0, 0];
            assert(nobody@ =~= seq![0u8, 0, 0, 0, 0, 0]);
            Hlc::new(nobody)
        },
    }
}

/// The record of a row whose payload was opened.
#[verifier::truncate]
pub fn to_record(row: &RecordRow, data: Vec<u8>) -> (r: Record)
    ensures
        shows(r, row@, data@),
{
    Record {
        id: read_id(row.id.as_str()),
        collection: row.collection.clone(),
        data,
        hlc: read_hlc(row.hlc.as_str()),
        schema_version: row.schema_version,
        deleted: row.deleted,
        created_at: row.created_at as u64,
        updated_at: row.updated_at as u64,
    }
}

/// The header of a row.
#[verifier::truncate]
pub fn to_meta(row: &RecordRow) -> (r: RecordMeta)
    ensures
        shows_meta(r, row@),
{
    RecordMeta {
        id: read_id(row.id.as_str()),
        collection: row.collection.clone(),
        hlc: read_hlc(row.hlc.as_str()),
        schema_version: row.schema_version,
        deleted: row.deleted,
        created_at: row.created_at as u64,
        updated_at: row.updated_at as u64,
    }
}

/// Whether a caller who asked for a record, for which a row was found or not,
/// is answered rightly: nothing where there is none or a tombstone, else the
/// record with its payload, or the error of opening that.
pub open spec fn reads_as(
    r: Result<Option<Record>, SquirrelError>,
    found: Option<RecordView>,
    kek: Option<Seq<u8>>,
) -> bool {
    match found {
        None => r matches Ok(None),
        Some(row) => if row.deleted {
            r matches Ok(None)
        } else {
            match payload_of(row, kek) {
                Ok(data) => r matches Ok(Some(record)) && shows(record, row, data),
                Err(e) => r is Err && r->Err_0@ == e,
            }
        },
    }
}

/// The record that was asked for, if a row was found and is not a tombstone.
pub fn get_record(found: &Option<RecordRow>, kek: &Option<[u8; 32]>) -> (r: Result<
    Option<Record>,
    SquirrelError,
>)
    ensures
        reads_as(r, opt_row(*found), kek_view(*kek)),
{
    match found {
        None => Ok(None),
        Some(row) => {
            if row.deleted {
                return Ok(None);
            }
            let data = open_payload(row, kek)?;
            Ok(Some(to_record(row, data)))
        },
    }
}

/// Whether headers show rows, one by one and in their order.
pub open spec fn lists_as(list: Seq<RecordMeta>, rows: Seq<RecordRow>) -> bool {
    &&& list.len() == rows.len()
    &&& forall|i: int| 0 <= i < list.len() ==> shows_meta(#[trigger] list[i], rows[i]@)
}

/// The headers of rows, in their order.
pub fn list_records(rows: &Vec<RecordRow>) -> (r: Vec<RecordMeta>)
    ensures
        lists_as(r@, rows@),
{
    let mut out: Vec<RecordMeta> = Vec::new();
    let mut i: usize = 0;
    while i < rows.len()
        invariant
            i <= rows@.len(),
            out@.len() == i,
            forall|k: int| 0 <= k < i ==> shows_meta(#[trigger] out@[k], rows@[k]@),
        decreases rows@.len() - i,
    {
        out.push(to_meta(&rows[i]));
        i = i + 1;
    }
    out
}

/// Whether a pending error shows an outbox entry.
pub open spec fn shows_error(r: PendingError, e: OutboxView) -> bool {
    &&& r.seq == e.seq
    &&& r.record_id@ == e.record_id
    &&& r.collection@ == e.collection
    &&& r.retries == e.retries
    &&& opt_text(r.last_error) == e.last_error
    &&& r.next_retry_at_ms == e.next_retry_at as u64
}

/// Whether pending errors show outbox entries, one by one and in their order.
pub open spec fn errors_as(list: Seq<PendingError>, entries: Seq<OutboxEntry>) -> bool {
    &&& list.len() == entries.len()
    &&& forall|i: int| 0 <= i < list.len() ==> shows_error(#[trigger] list[i], entries[i]@)
}

/// The pending errors of outbox entries, in their order.
#[verifier::truncate]
pub fn handle_pending_errors(entries: &Vec<OutboxEntry>) -> (r: Vec<PendingError>)
    ensures
        errors_as(r@, entries@),
{
    let mut out: Vec<PendingError> = Vec::new();
    let mut i: usize = 0;
    while i < entries.len()
        invariant
            i <= entries@.len(),
            out@.len() == i,
            forall|k: int| 0 <= k < i ==> shows_error(#[trigger] out@[k], entries@[k]@),
        decreases entries@.len() - i,
    {
        let e = &entries[i];
        out.push(
            PendingError {
                seq: e.seq,
                record_id: e.record_id.clone(),
                collection: e.collection.clone(),
                retries: e.retries,
                last_error: copy_opt_text(&e.last_error),
                next_retry_at_ms: e.next_retry_at as u64,
            },
        );
        i = i + 1;
    }
    out
}

/// Whether a blob's information shows a row.
pub open spec fn shows_blob(r: BlobInfo, row: BlobView) -> bool {
    &&& r.id@ == row.id
    &&& r.status == (match status_of(row.status) {
        Some(s) => s,
        None => BlobStatus::Pending,
    })
    &&& opt_text(r.local_path) == row.local_path
    &&& r.size_bytes == (match row.size_bytes {
        Some(n) => Some(n as u64),
        None => None,
    })
    &&& r.retries == row.retries
    &&& opt_text(r.last_error) == row.last_error
}

/// Whether what is told of a blob is right for the row that was found.
pub open spec fn informs(r: Option<BlobInfo>, found: Option<BlobRow>) -> bool {
    match found {
        Some(row) => r is Some && shows_blob(r->0, row@),
        None => r is None,
    }
}

/// What is known of a blob, if a row was found. An unknown status counts as
/// pending.
#[verifier::truncate]
pub fn handle_blob_info(found: &Option<BlobRow>) -> (r: Option<BlobInfo>)
    ensures
        informs(r, *found),
{
    match found {
        None => None,
        Some(row) => {
            let status = match BlobStatus::from_db_str(row.status.as_str()) {
                Some(s) => s,
                None => BlobStatus::Pending,
            };
            let size_bytes: Option<u64> = match row.size_bytes {
                Some(n) => Some(n as u64),
                None => None,
            };
            Some(
                BlobInfo {
                    id: row.id.clone(),
                    status,
                    local_path: copy_opt_text(&row.local_path),
                    size_bytes,
                    retries: row.retries,
                    last_error: copy_opt_text(&row.last_error),
                },
            )
        },
    }
}

} // verus!
