//! What holds of what callers get to see: everything that was found is shown, as
//! it was stored, and in the order in which it was found.

use vstd::prelude::*;

use crate::db::blobs::BlobRow;
use crate::db::outbox::OutboxEntry;
use crate::db::records::{RecordRow, RecordView};
use crate::db::row::opt_text;
use crate::db::table::{
    answers, distinct_readings, is_listing, law_one_listing, page, window, Records,
};
use crate::engine::{listing_statement, payload_of};
use crate::error::ErrorView;
use crate::hlc::{hlc_parsed, hlc_text, law_text_round_trip, Hlc};
use crate::id::{law_id_round_trip, ulid_of, ulid_text, Ulid};
use crate::reading::{errors_as, informs, lists_as, shows, shows_meta};
use crate::types::{
    law_status_round_trip, status_word, BlobInfo, BlobStatus, ListOpts, PendingError, Record,
    RecordMeta,
};

verus! {

/// A header shows the record of its row: its id, its collection, its clock
/// reading, its version, its times, and whether it is deleted.
pub proof fn law_header_shows_the_record(id: Ulid, hlc: Hlc, row: RecordView, seen: RecordMeta)
    requires
        row.id == ulid_text(id),
        row.hlc == hlc_text(hlc),
        shows_meta(seen, row),
    ensures
        seen.id == id,
        seen.collection@ == row.collection,
        seen.hlc == hlc,
        seen.schema_version == row.schema_version,
        seen.deleted == row.deleted,
        row.created_at >= 0 ==> seen.created_at == row.created_at,
        row.updated_at >= 0 ==> seen.updated_at == row.updated_at,
{
    law_id_round_trip(id);
    law_text_round_trip(hlc);
    assert(seen.hlc.node_id =~= hlc.node_id);
}

/// A text that is a reading is shown as that reading, whoever wrote it, and one
/// that is none as a reading of no node. The same holds of ids: a text that is
/// one is shown as that id.
pub proof fn law_stored_texts_are_shown(row: RecordView, seen: RecordMeta)
    requires
        shows_meta(seen, row),
    ensures
        hlc_parsed(row.hlc) matches Some((ms, count, node)) ==> {
            &&& seen.hlc.physical_ms == ms
            &&& seen.hlc.logical == count
            &&& seen.hlc.node_id@ == node
        },
        hlc_parsed(row.hlc) is None ==> {
            &&& seen.hlc.logical == 0
            &&& forall|i: int| 0 <= i < 6 ==> #[trigger] seen.hlc.node_id@[i] == 0
        },
        ulid_of(row.id) matches Some(id) ==> seen.id == id,
{
}

/// A record shows the same of its row as its header does, and its payload.
pub proof fn law_record_shows_its_header(
    id: Ulid,
    hlc: Hlc,
    row: RecordView,
    data: Seq<u8>,
    record: Record,
    header: RecordMeta,
)
    requires
        row.id == ulid_text(id),
        row.hlc == hlc_text(hlc),
        shows(record, row, data),
        shows_meta(header, row),
    ensures
        record.id == header.id,
        record.collection@ == header.collection@,
        record.hlc == header.hlc,
        record.schema_version == header.schema_version,
        record.deleted == header.deleted,
        record.created_at == header.created_at,
        record.updated_at == header.updated_at,
        record.data@ == data,
{
    law_id_round_trip(id);
    law_text_round_trip(hlc);
    assert(record.hlc.node_id =~= hlc.node_id);
    assert(header.hlc.node_id =~= hlc.node_id);
}

/// A list shows every row that was found, none twice and none left out, in the
/// order in which they were found.
pub proof fn law_list_shows_every_row(list: Seq<RecordMeta>, rows: Seq<RecordRow>, i: int)
    requires
        lists_as(list, rows),
    ensures
        list.len() == rows.len(),
        0 <= i < rows.len() ==> shows_meta(list[i], rows[i]@),
{
    if 0 <= i < rows.len() {
        let seen = list[i];
        assert(shows_meta(seen, rows[i]@));
    }
}

/// Listing a collection gives the page that is asked for: of the rows of the
/// collection, with the tombstones only if they are asked for, in the order that
/// is asked for, as many as the limit says from the offset on.
pub proof fn law_list_gives_what_is_asked_for(
    table: Records,
    collection: Seq<char>,
    opts: ListOpts,
    full: Seq<RecordView>,
    rows: Seq<RecordView>,
)
    requires
        distinct_readings(table),
        is_listing(table, collection, opts.include_deleted, opts.order, full),
        answers(table, listing_statement(collection, opts), rows),
        opts.offset <= i64::MAX,
        opts.limit matches Some(k) ==> k <= i64::MAX,
    ensures
        rows == page(
            full,
            opts.offset as nat,
            if opts.limit is Some {
                opts.limit->0 as nat
            } else {
                full.len()
            },
        ),
{
    let st = listing_statement(collection, opts);
    let text = crate::db::texts::list_records(opts.include_deleted, opts.order);
    assert(st.sql == text);
    assert(crate::db::table::lists(table, st.params, opts.include_deleted, opts.order, rows));
    let limit = crate::db::row::int_in(st.params[1]);
    let offset = crate::db::row::int_in(st.params[2]);
    let other = choose|other: Seq<RecordView>| #[trigger]
        is_listing(
            table,
            crate::db::row::text_in(st.params[0]),
            opts.include_deleted,
            opts.order,
            other,
        ) && rows == window(other, limit, offset);
    assert(crate::db::row::text_in(st.params[0]) == collection);
    law_one_listing(table, collection, opts.include_deleted, opts.order, full, other);
    assert(offset == opts.offset);
    if let Some(k) = opts.limit {
        assert(limit == k);
        assert(rows =~= page(full, opts.offset as nat, k as nat));
    } else {
        assert(limit == -1);
        assert(rows =~= page(full, opts.offset as nat, full.len()));
    }
}

/// Pending errors show every change that was found, with its number, its record,
/// how often it failed and why, and when it is tried again.
pub proof fn law_errors_show_every_failure(
    list: Seq<PendingError>,
    entries: Seq<OutboxEntry>,
    i: int,
)
    requires
        errors_as(list, entries),
    ensures
        list.len() == entries.len(),
        0 <= i < list.len() ==> {
            &&& list[i].seq == entries[i].seq
            &&& list[i].record_id@ == entries[i].record_id@
            &&& list[i].collection@ == entries[i].collection@
            &&& list[i].retries == entries[i].retries
            &&& opt_text(list[i].last_error) == opt_text(entries[i].last_error)
            &&& entries[i].next_retry_at >= 0 ==> list[i].next_retry_at_ms
                == entries[i].next_retry_at
        },
{
    if 0 <= i < list.len() {
        let seen = list[i];
    }
}

/// What is told of a blob is what its row says: its status, its path, its size
/// and its failures. Of a blob that was not found nothing is told.
pub proof fn law_blob_information_is_that_of_the_row(
    r: Option<BlobInfo>,
    found: Option<BlobRow>,
    status: BlobStatus,
)
    requires
        informs(r, found),
    ensures
        r is Some <==> found is Some,
        found matches Some(row) ==> {
            &&& r->0.id@ == row.id@
            &&& row.status@ == status_word(status) ==> r->0.status == status
            &&& opt_text(r->0.local_path) == opt_text(row.local_path)
            &&& row.size_bytes is Some <==> r->0.size_bytes is Some
            &&& row.size_bytes is Some && row.size_bytes->0 >= 0 ==> r->0.size_bytes->0
                == row.size_bytes->0
            &&& r->0.retries == row.retries
            &&& opt_text(r->0.last_error) == opt_text(row.last_error)
        },
{
    law_status_round_trip(status);
}

/// A plain payload reads as it is stored, whatever its format but the encrypted
/// one. An encrypted payload is never read without the key.
pub proof fn law_plain_payload_reads_as_stored(row: RecordView, kek: Option<Seq<u8>>)
    ensures
        row.format_version != 1 ==> payload_of(row, kek) == Ok::<Seq<u8>, ErrorView>(row.data),
        row.format_version == 1 && kek is None ==> payload_of(row, kek) is Err,
        row.format_version == 1 && row.dek_encrypted is None ==> payload_of(row, kek) is Err,
{
}

} // verus!
