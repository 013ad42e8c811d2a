//! What holds of stored blobs: where a file is found after it was handed in,
//! uploaded or downloaded, and what a failure leaves of it.

use vstd::prelude::*;

use crate::backend::wire::PartView;
use crate::blob::{
    downloaded_step, goes_in_parts, has_expired, has_file, is_lookup, listed_script, new_blob,
    retry_report, size_in, staged_script, uploaded_step, worker_after, BlobLookup, BlobWorker,
    WorkerAction, WorkerEvent,
};
use crate::db::blob_table::{
    blob_failures_answer, blobs_answer, blobs_ran, blobs_ran_all, parts_ran, parts_ran_all, Blobs,
    Parts,
};
use crate::db::blobs::{
    blob_failures_statement, blob_statement, failed_blob_statement, insert_statement,
    part_statement, upload_statement, BlobRow, BlobView,
};
use crate::db::row::opt_text;
use crate::db::statement::StatementView;
use crate::db::texts::lemma_writes_differ;
use crate::db::outbox::log_after;
use crate::retry::{backoff, law_backoff_grows};
use crate::types::SyncEventView;

verus! {

// ── Handing in, staging, uploading, downloading ─────────────────────────────

/// A blob that is handed in is stored under its id, pending and without a file,
/// for the record that it belongs to. No other blob is touched.
pub proof fn law_put_blob_stores_it(
    t: Blobs,
    id: Seq<char>,
    record_id: Option<Seq<char>>,
    collection: Option<Seq<char>>,
    now: i64,
)
    ensures
        ({
            let after = blobs_ran(t, insert_statement(new_blob(id, record_id, collection, now)));
            let row = after[id];
            &&& after == t.insert(id, row)
            &&& row.id == id
            &&& row.record_id == record_id
            &&& row.collection == collection
            &&& row.s3_key == "blobs/"@ + id
            &&& row.status == "pending"@
            &&& row.local_path is None
            &&& row.size_bytes is None
            &&& row.upload_id is None
            &&& row.retries == 0
            &&& row.next_retry_at == 0
            &&& row.created_at == now
        }),
{
}

/// Staging writes where the file is and how long it is, and nothing else of any
/// blob. From then on the blob can be uploaded, and its size is known.
pub proof fn law_staging_writes_the_path(
    t: Blobs,
    id: Seq<char>,
    path: Seq<char>,
    size: u64,
    now: i64,
)
    requires
        t.contains_key(id),
    ensures
        ({
            let after = blobs_ran_all(t, staged_script(id, path, size, now));
            let row = after[id];
            &&& after == t.insert(id, row)
            &&& row == (BlobView {
                local_path: Some(path),
                size_bytes: row.size_bytes,
                updated_at: now,
                ..t[id]
            })
            &&& has_file(row)
            &&& size_in(row) == Some(size)
        }),
{
    lemma_writes_differ();
    lemma_one(t, staged_script(id, path, size, now)[0]);
    assert(staged_script(id, path, size, now) =~= seq![staged_script(id, path, size, now)[0]]);
    assert((size as i64) as u64 == size) by (bit_vector);
}

proof fn lemma_one(t: Blobs, st: StatementView)
    ensures
        blobs_ran_all(t, seq![st]) == blobs_ran(t, st),
{
    assert(seq![st].drop_last() =~= Seq::<StatementView>::empty());
    assert(blobs_ran_all(t, seq![st].drop_last()) == t);
}

/// A finished upload sets the status, and nothing else of any blob, and is
/// reported.
pub proof fn law_upload_is_marked(t: Blobs, id: Seq<char>, now: i64)
    requires
        t.contains_key(id),
    ensures
        blobs_ran_all(t, uploaded_step(id, now).0) == t.insert(
            id,
            BlobView { status: "uploaded"@, updated_at: now, ..t[id] },
        ),
        uploaded_step(id, now).1 == Some(SyncEventView::BlobUploaded { blob_id: id }),
{
    lemma_writes_differ();
    lemma_one(t, uploaded_step(id, now).0[0]);
    assert(uploaded_step(id, now).0 =~= seq![uploaded_step(id, now).0[0]]);
}

/// A finished download writes where the file is, how long it is, and that it is
/// cached, and is reported.
pub proof fn law_download_is_marked(
    t: Blobs,
    id: Seq<char>,
    path: Seq<char>,
    size: u64,
    now: i64,
)
    requires
        t.contains_key(id),
    ensures
        ({
            let after = blobs_ran_all(t, downloaded_step(id, path, size, now).0);
            let row = after[id];
            &&& after == t.insert(id, row)
            &&& row == (BlobView {
                local_path: Some(path),
                size_bytes: row.size_bytes,
                status: "cached"@,
                updated_at: now,
                ..t[id]
            })
            &&& size_in(row) == Some(size)
        }),
        downloaded_step(id, path, size, now).1 == Some(SyncEventView::BlobDownloaded { blob_id: id }),
{
    lemma_writes_differ();
    let script = downloaded_step(id, path, size, now).0;
    lemma_one(t, script[0]);
    assert(script.drop_last() =~= seq![script[0]]);
    assert((size as i64) as u64 == size) by (bit_vector);
    let middle = blobs_ran(t, script[0]);
    assert(blobs_ran_all(t, script) == blobs_ran(middle, script[1]));
    assert(blobs_ran_all(t, script) =~= t.insert(id, blobs_ran_all(t, script)[id]));
}

// ── Finding a blob ──────────────────────────────────────────────────────────

/// A blob whose file is on this device is found there, whatever its status. It
/// is to be downloaded exactly where the file is not here and the remote store
/// has it. In all other cases there is nothing to be had yet.
pub proof fn law_blob_is_found_where_it_is(row: BlobRow, exists_here: bool, r: BlobLookup)
    requires
        is_lookup(r, Some(row), exists_here),
    ensures
        row.local_path is Some && exists_here ==> r is Here && r->Here_0@ == row.local_path->0@,
        r is Here ==> row.local_path is Some && exists_here,
        r is Download <==> !(row.local_path is Some && exists_here) && row.status@ == "uploaded"@,
        r is NotYet <==> !(row.local_path is Some && exists_here) && row.status@ != "uploaded"@,
{
}

/// A blob that nobody stored is not found.
pub proof fn law_unknown_blob_is_not_found(
    t: Blobs,
    id: Seq<char>,
    found: Seq<BlobView>,
    exists_here: bool,
    r: BlobLookup,
)
    requires
        !t.contains_key(id),
        blobs_answer(t, blob_statement(id), found),
        found.len() == 0 ==> is_lookup(r, None, exists_here),
    ensures
        r is NotYet,
{
}

/// A blob that was handed in and staged is found at the path where it was
/// staged, at once and whatever happens to its upload.
pub proof fn law_staged_blob_is_here(
    t: Blobs,
    id: Seq<char>,
    record_id: Option<Seq<char>>,
    collection: Option<Seq<char>>,
    path: Seq<char>,
    size: u64,
    put_at: i64,
    staged_at: i64,
    found: Seq<BlobView>,
    row: BlobRow,
    r: BlobLookup,
)
    requires
        ({
            let stored = blobs_ran(
                t,
                insert_statement(new_blob(id, record_id, collection, put_at)),
            );
            let after = blobs_ran_all(stored, staged_script(id, path, size, staged_at));
            blobs_answer(after, blob_statement(id), found)
        }),
        found.len() > 0 ==> row@ == found[0],
        is_lookup(r, Some(row), true),
    ensures
        found.len() == 1,
        r matches BlobLookup::Here(p) && p@ == path,
{
    law_put_blob_stores_it(t, id, record_id, collection, put_at);
    let stored = blobs_ran(t, insert_statement(new_blob(id, record_id, collection, put_at)));
    law_staging_writes_the_path(stored, id, path, size, staged_at);
    let after = blobs_ran_all(stored, staged_script(id, path, size, staged_at));
    assert(found =~= seq![after[id]]);
    assert(row@.local_path == Some(path));
    assert(opt_text(row.local_path) == Some(path));
}

/// A blob that another device uploaded is to be downloaded, and once that was
/// done it is found where it was downloaded to.
pub proof fn law_downloaded_blob_is_here(
    t: Blobs,
    id: Seq<char>,
    path: Seq<char>,
    size: u64,
    now: i64,
    row: BlobRow,
    r: BlobLookup,
)
    requires
        t.contains_key(id),
        row@ == blobs_ran_all(t, downloaded_step(id, path, size, now).0)[id],
        is_lookup(r, Some(row), true),
    ensures
        r matches BlobLookup::Here(p) && p@ == path,
{
    law_download_is_marked(t, id, path, size, now);
    assert(opt_text(row.local_path) == Some(path));
}

// ── Uploading in parts ──────────────────────────────────────────────────────

/// A file of five mebibytes or more is sent in parts, a smaller one at once.
pub proof fn law_large_files_go_in_parts(size: u64)
    ensures
        goes_in_parts(size) <==> size >= 5 * 1024 * 1024,
{
}

/// A blob tells the size that was stored with it, and none where none was. It
/// has a file exactly where a path was stored.
pub proof fn law_size_is_as_stored(row: BlobView)
    ensures
        size_in(row) is Some <==> row.size_bytes is Some,
        row.size_bytes matches Some(n) ==> (n >= 0 ==> size_in(row) == Some(n as u64)),
        has_file(row) <==> row.local_path is Some,
{
}

/// An upload that was begun is kept with its blob, so that it can be taken up
/// again.
pub proof fn law_upload_id_is_kept(t: Blobs, id: Seq<char>, upload_id: Seq<char>, now: i64)
    requires
        t.contains_key(id),
    ensures
        blobs_ran(t, upload_statement(id, upload_id, now)) == t.insert(
            id,
            BlobView {
                upload_id: Some(upload_id),
                status: "uploading"@,
                updated_at: now,
                ..t[id]
            },
        ),
{
    lemma_writes_differ();
}

/// A part that was sent is kept with its tag, and no other part is touched.
pub proof fn law_sent_part_is_kept(t: Parts, id: Seq<char>, number: i32, etag: Seq<char>)
    ensures
        parts_ran(t, part_statement(id, number, etag)) == t.insert((id, number as i64), etag),
{
    lemma_writes_differ();
}

/// An upload of which the remote store has nothing left begins anew: the blob is
/// pending, due at once and without an upload, and none of its parts is kept. Its
/// file, and how often it failed, stay. No other blob and no part of another
/// blob is touched.
pub proof fn law_expired_upload_begins_anew(
    t: Blobs,
    parts: Parts,
    id: Seq<char>,
    now: i64,
    key: (Seq<char>, i64),
)
    requires
        t.contains_key(id),
    ensures
        ({
            let script = listed_script(id, true, Seq::empty(), now);
            let (after, left) = (blobs_ran_all(t, script), parts_ran_all(parts, script));
            &&& has_expired(true, Seq::empty())
            &&& after == t.insert(
                id,
                BlobView {
                    upload_id: None,
                    status: "pending"@,
                    next_retry_at: 0,
                    updated_at: now,
                    ..t[id]
                },
            )
            &&& left.contains_key(key) <==> parts.contains_key(key) && key.0 != id
            &&& left.contains_key(key) ==> left[key] == parts[key]
        }),
{
    lemma_writes_differ();
    let script = listed_script(id, true, Seq::empty(), now);
    reveal_with_fuel(blobs_ran_all, 3);
    reveal_with_fuel(parts_ran_all, 3);
    assert(script.drop_last().drop_last() =~= Seq::<StatementView>::empty());
}

/// An upload that is new, or of which the remote store has parts, has not
/// expired: the blob stays as it is, and every part that the store has is kept
/// with its tag.
pub proof fn law_listed_parts_are_kept(
    t: Blobs,
    parts: Parts,
    id: Seq<char>,
    resumed: bool,
    remote: Seq<PartView>,
    now: i64,
)
    requires
        !resumed || remote.len() > 0,
        forall|i: int, j: int|
            0 <= i < j < remote.len() ==> (#[trigger] remote[i]).part_number != (
            #[trigger] remote[j]).part_number,
    ensures
        ({
            let script = listed_script(id, resumed, remote, now);
            let (after, left) = (blobs_ran_all(t, script), parts_ran_all(parts, script));
            &&& !has_expired(resumed, remote)
            &&& after == t
            &&& forall|i: int|
                0 <= i < remote.len() ==> left.contains_pair(
                    (id, (#[trigger] remote[i]).part_number as i64),
                    remote[i].etag,
                )
            &&& forall|key: (Seq<char>, i64)| #[trigger]
                parts.contains_key(key) ==> left.contains_key(key)
        }),
{
    lemma_listed(t, parts, id, remote);
    let script = Seq::new(
        remote.len(),
        |i: int| part_statement(id, remote[i].part_number, remote[i].etag),
    );
    assert(listed_script(id, resumed, remote, now) =~= script);
}

proof fn lemma_listed(t: Blobs, parts: Parts, id: Seq<char>, remote: Seq<PartView>)
    requires
        forall|i: int, j: int|
            0 <= i < j < remote.len() ==> (#[trigger] remote[i]).part_number != (
            #[trigger] remote[j]).part_number,
    ensures
        ({
            let script = Seq::new(
                remote.len(),
                |i: int| part_statement(id, remote[i].part_number, remote[i].etag),
            );
            let (after, left) = (blobs_ran_all(t, script), parts_ran_all(parts, script));
            &&& after == t
            &&& forall|i: int|
                0 <= i < remote.len() ==> left.contains_pair(
                    (id, (#[trigger] remote[i]).part_number as i64),
                    remote[i].etag,
                )
            &&& forall|key: (Seq<char>, i64)| #[trigger]
                parts.contains_key(key) ==> left.contains_key(key)
        }),
    decreases remote.len(),
{
    let script = Seq::new(
        remote.len(),
        |i: int| part_statement(id, remote[i].part_number, remote[i].etag),
    );
    if remote.len() > 0 {
        let front = remote.drop_last();
        assert forall|i: int, j: int| 0 <= i < j < front.len() implies (
        #[trigger] front[i]).part_number != (#[trigger] front[j]).part_number by {
            assert(remote[i].part_number != remote[j].part_number);
        }
        lemma_listed(t, parts, id, front);
        let before = Seq::new(
            front.len(),
            |i: int| part_statement(id, front[i].part_number, front[i].etag),
        );
        assert(script.drop_last() =~= before);
        lemma_writes_differ();
        let old_left = parts_ran_all(parts, before);
        let left = parts_ran_all(parts, script);
        assert(left == old_left.insert(
            (id, remote.last().part_number as i64),
            remote.last().etag,
        ));
        assert forall|i: int| 0 <= i < remote.len() implies left.contains_pair(
            (id, (#[trigger] remote[i]).part_number as i64),
            remote[i].etag,
        ) by {
            if i < front.len() {
                assert(front[i] == remote[i]);
                assert(remote[i].part_number != remote[remote.len() - 1].part_number);
            }
        }
    }
}

// ── Failing ─────────────────────────────────────────────────────────────────

/// A failed attempt is counted, kept with its error, and put off by at most five
/// minutes. File, status and upload of the blob stay, as do all other blobs; and
/// what is reported is what the row then says.
pub proof fn law_failed_blob_is_put_off(
    t: Blobs,
    id: Seq<char>,
    error: Seq<char>,
    state: Option<(i64, Option<Seq<char>>)>,
    now: i64,
)
    requires
        t.contains_key(id),
        t[id].retries < u32::MAX,
        blob_failures_answer(t, blob_failures_statement(id), state),
        0 <= now <= i64::MAX - 300_000,
    ensures
        ({
            let after = blobs_ran(t, failed_blob_statement(state, id, error, now));
            let (was, is) = (t[id], after[id]);
            &&& after == t.insert(id, is)
            &&& is.retries == was.retries + 1
            &&& now + 1000 <= is.next_retry_at <= now + 300_000
            &&& is.next_retry_at == now + backoff(was.retries as nat)
            &&& is.last_error == Some(error)
            &&& is.error_log == Some(log_after(was.error_log, error, now))
            &&& is == (BlobView {
                retries: is.retries,
                next_retry_at: is.next_retry_at,
                last_error: is.last_error,
                error_log: is.error_log,
                updated_at: now,
                ..was
            })
            &&& retry_report(id, Some(is), error) == Some(
                SyncEventView::BlobRetryScheduled {
                    blob_id: id,
                    retries: is.retries,
                    next_retry_ms: is.next_retry_at as u64,
                    error,
                },
            )
        }),
        retry_report(id, None, error) is None,
{
    let n = t[id].retries;
    law_backoff_grows(n as nat, n as nat);
    lemma_writes_differ();
}

// ── The worker ──────────────────────────────────────────────────────────────

/// The worker runs a pass when it was opened, when its time has come and when a
/// caller asks for one, and then not later than a minute after. A caller who asks
/// is counted once. A file that is handed over is staged and a blob that is asked
/// for is downloaded, and neither loses a caller. Only a worker that nobody can
/// wake any more ends.
pub proof fn law_worker_serves_every_event(s: BlobWorker, event: WorkerEvent, now: u64)
    requires
        now <= u64::MAX - 60_000,
        s.waiting < usize::MAX,
    ensures
        ({
            let (after, action) = worker_after(s, event, now);
            &&& action == WorkerAction::Exit <==> event == WorkerEvent::Closed
            &&& action == WorkerAction::StageFile <==> event == WorkerEvent::Stage
            &&& action == WorkerAction::DownloadBlob <==> event == WorkerEvent::Download
            &&& action == WorkerAction::RunPass ==> after.deadline == now + 60_000
            &&& action != WorkerAction::RunPass ==> after == s
            &&& after.waiting == s.waiting + (if event == WorkerEvent::ForceFlush {
                1int
            } else {
                0
            })
        }),
{
}

} // verus!
