//! Uploading and downloading blobs: which parts a file is sent in, how an
//! interrupted upload is taken up again, and what each outcome leaves behind.

use vstd::prelude::*;
use vstd::string::*;

use crate::backend::wire::{PartView, UploadedPart};
use crate::db::blobs::{
    self, clear_parts_statement, insert_statement, part_statement, path_statement,
    restart_statement, status_statement, upload_statement, BlobRow, BlobView,
};
use crate::db::row::{copy_opt_text, opt_text};
use crate::db::statement::{lemma_statements_push, statements_view, Statement, StatementView};
use crate::id::{ulid_text, Ulid};
use crate::sync::opt_event;
use crate::text::text_same;
use crate::types::{
    now_ms, status_word, BlobStatus, PutBlobOpts, SyncEvent, SyncEventView,
};

verus! {

// ── Parts ───────────────────────────────────────────────────────────────────

/// From this size on a file is sent in parts: 5 MiB.
pub const MULTIPART_THRESHOLD: u64 = 5242880;

/// The size of every part but the last: 5 MiB, the least that the remote store
/// takes.
pub const CHUNK_SIZE: u64 = 5242880;

/// How many parts a file is sent in.
pub open spec fn part_count(size: nat) -> nat {
    (size + CHUNK_SIZE - 1) as nat / CHUNK_SIZE as nat
}

/// Where a part begins in the file. Parts are numbered from one.
pub open spec fn part_offset(number: int) -> int {
    (number - 1) * CHUNK_SIZE
}

/// How long a part is: a whole chunk, or what is left of the file.
pub open spec fn part_len(number: int, size: nat) -> int {
    if size - part_offset(number) < CHUNK_SIZE {
        size - part_offset(number)
    } else {
        CHUNK_SIZE as int
    }
}

/// A part of a file that is to be sent.
#[derive(Debug, Clone, Copy, PartialEq, Eq, Structural)]
pub struct PartRange {
    pub part_number: i32,
    pub offset: u64,
    pub len: u64,
}

/// The part of a number.
pub open spec fn range_of(number: int, size: nat) -> PartRange {
    PartRange {
        part_number: number as i32,
        offset: part_offset(number) as u64,
        len: part_len(number, size) as u64,
    }
}

/// Whether the remote store has a part of that number.
pub open spec fn has_part(parts: Seq<PartView>, number: int) -> bool {
    exists|i: int| 0 <= i < parts.len() && (#[trigger] parts[i]).part_number == number
}

/// The views of a list of parts.
pub open spec fn parts_view(parts: Seq<UploadedPart>) -> Seq<PartView> {
    Seq::new(parts.len(), |i: int| parts[i]@)
}

/// The parts up to a number that the remote store has not, in order.
pub open spec fn missing_up_to(parts: Seq<PartView>, number: nat, size: nat) -> Seq<PartRange>
    decreases number,
{
    if number == 0 {
        Seq::empty()
    } else {
        let front = missing_up_to(parts, (number - 1) as nat, size);
        if has_part(parts, number as int) {
            front
        } else {
            front.push(range_of(number as int, size))
        }
    }
}

/// Whether a file of this size can be sent in parts: the number of parts has
/// to fit.
pub open spec fn sendable(size: nat) -> bool {
    part_count(size) <= i32::MAX
}

/// How many parts a file is sent in.
pub fn total_parts(size_bytes: u64) -> (r: i32)
    requires
        sendable(size_bytes as nat),
    ensures
        r == part_count(size_bytes as nat),
{
    let rounded: u128 = size_bytes as u128 + 5242879;
    (rounded / 5242880) as i32
}

fn remote_has(parts: &Vec<UploadedPart>, number: i32) -> (r: bool)
    ensures
        r == has_part(parts_view(parts@), number as int),
{
    let ghost view = parts_view(parts@);
    let mut i: usize = 0;
    while i < parts.len()
        invariant
            i <= parts@.len(),
            view == parts_view(parts@),
            forall|k: int| 0 <= k < i ==> (#[trigger] view[k]).part_number != number,
        decreases parts@.len() - i,
    {
        if parts[i].part_number == number {
            assert(view[i as int].part_number == number);
            return true;
        }
        i = i + 1;
    }
    false
}

/// Where the parts of a file lie.
pub proof fn lemma_parts(size: nat, number: int)
    requires
        1 <= number <= part_count(size),
    ensures
        0 <= part_offset(number) < size,
        0 < part_len(number, size) <= CHUNK_SIZE,
        part_offset(number) + part_len(number, size) <= size,
        number < part_count(size) ==> part_len(number, size) == CHUNK_SIZE,
        number == part_count(size) ==> part_offset(number) + part_len(number, size) == size,
{
    let c = CHUNK_SIZE as int;
    let n = part_count(size) as int;
    assert(n * c <= size + c - 1 < n * c + c) by (nonlinear_arith)
        requires
            n == (size + c - 1) / c,
            c == 5242880,
    ;
    assert((number - 1) * c <= (n - 1) * c) by (nonlinear_arith)
        requires
            number <= n,
            c == 5242880,
    ;
    if number < n {
        assert((number - 1) * c <= (n - 2) * c) by (nonlinear_arith)
            requires
                number < n,
                c == 5242880,
        ;
    }
    assert(0 <= (number - 1) * c) by (nonlinear_arith)
        requires
            1 <= number,
            c == 5242880,
    ;
}

/// The parts of a file that the remote store has not yet, in order.
pub fn missing_parts(remote: &Vec<UploadedPart>, size_bytes: u64) -> (r: Vec<PartRange>)
    requires
        sendable(size_bytes as nat),
    ensures
        r@ == missing_up_to(
            parts_view(remote@),
            part_count(size_bytes as nat),
            size_bytes as nat,
        ),
{
    let total: i32 = total_parts(size_bytes);
    let mut out: Vec<PartRange> = Vec::new();
    let mut done: i32 = 0;
    assert(out@ =~= missing_up_to(parts_view(remote@), 0, size_bytes as nat));
    while done < total
        invariant
            0 <= done <= total,
            total == part_count(size_bytes as nat),
            out@ == missing_up_to(parts_view(remote@), done as nat, size_bytes as nat),
        decreases total - done,
    {
        let number: i32 = done + 1;
        proof {
            lemma_parts(size_bytes as nat, number as int);
        }
        if !remote_has(remote, number) {
            let offset: u64 = (number as u64 - 1) * 5242880;
            let left: u64 = size_bytes - offset;
            let len: u64 = if left < 5242880 {
                left
            } else {
                5242880
            };
            out.push(PartRange { part_number: number, offset, len });
        }
        done = number;
    }
    out
}

/// Puts a part behind all whose number is not larger.
pub open spec fn insert_part(list: Seq<PartView>, p: PartView) -> Seq<PartView>
    decreases list.len(),
{
    if list.len() > 0 && list.last().part_number > p.part_number {
        insert_part(list.drop_last(), p).push(list.last())
    } else {
        list.push(p)
    }
}

/// Parts in the order of their numbers; those of one number keep their order.
pub open spec fn sorted_parts(list: Seq<PartView>) -> Seq<PartView>
    decreases list.len(),
{
    if list.len() == 0 {
        Seq::empty()
    } else {
        insert_part(sorted_parts(list.drop_last()), list.last())
    }
}

fn insert_sorted(list: &mut Vec<UploadedPart>, p: UploadedPart)
    ensures
        parts_view(final(list)@) == insert_part(parts_view(old(list)@), p@),
{
    let ghost before = parts_view(list@);
    let mut at: usize = list.len();
    assert(before.take(at as int) =~= before);
    assert(before.skip(at as int) =~= Seq::<PartView>::empty());
    assert(insert_part(before, p@) =~= insert_part(before.take(at as int), p@) + before.skip(
        at as int,
    ));
    while at > 0 && list[at - 1].part_number > p.part_number
        invariant
            at <= list@.len(),
            *list == *old(list),
            before == parts_view(list@),
            insert_part(before, p@) == insert_part(before.take(at as int), p@) + before.skip(
                at as int,
            ),
        decreases at,
    {
        proof {
            let t = before.take(at as int);
            assert(t.last() == list@[at - 1]@);
            assert(t.drop_last() =~= before.take(at - 1));
            assert(insert_part(t, p@) == insert_part(t.drop_last(), p@).push(t.last()));
            assert(insert_part(before.take(at - 1), p@).push(before[at - 1]) + before.skip(
                at as int,
            ) =~= insert_part(before.take(at - 1), p@) + before.skip(at - 1));
        }
        at = at - 1;
    }
    proof {
        let t = before.take(at as int);
        if at > 0 {
            assert(t.last() == list@[at - 1]@);
        }
        assert(insert_part(t, p@) == t.push(p@));
        assert(before.insert(at as int, p@) =~= t.push(p@) + before.skip(at as int));
    }
    let ghost pv = p@;
    list.insert(at, p);
    assert(parts_view(list@) =~= before.insert(at as int, pv));
}

/// Puts parts in the order of their numbers.
pub fn sort_parts(parts: Vec<UploadedPart>) -> (r: Vec<UploadedPart>)
    ensures
        parts_view(r@) == sorted_parts(parts_view(parts@)),
{
    let ghost all = parts_view(parts@);
    let mut out: Vec<UploadedPart> = Vec::new();
    let mut i: usize = 0;
    assert(parts_view(out@) =~= sorted_parts(all.take(0)));
    while i < parts.len()
        invariant
            i <= parts@.len(),
            all == parts_view(parts@),
            parts_view(out@) == sorted_parts(all.take(i as int)),
        decreases parts@.len() - i,
    {
        let p = UploadedPart { part_number: parts[i].part_number, etag: parts[i].etag.clone() };
        assert(p@ == all[i as int]);
        assert(all.take(i + 1).drop_last() =~= all.take(i as int));
        insert_sorted(&mut out, p);
        i = i + 1;
    }
    assert(all.take(i as int) =~= all);
    out
}

// ── A multipart upload ──────────────────────────────────────────────────────

/// An upload in parts. It goes on under the id that the blob has from an
/// earlier attempt, or under a new one; then it learns what the remote store
/// has, sends what is missing, and completes.
pub struct MultipartUpload {
    pub blob_id: String,
    pub s3_key: String,
    pub size: u64,
    /// The id of the upload, once there is one.
    pub upload_id: Option<String>,
    /// Whether the id is from an earlier attempt.
    pub resumed: bool,
    /// The parts that the remote store has.
    pub parts: Vec<UploadedPart>,
    /// The parts that are to be sent.
    pub todo: Vec<PartRange>,
    /// How many of them were sent.
    pub sent: usize,
}

/// An upload in parts, as characters.
pub struct UploadView {
    pub blob_id: Seq<char>,
    pub s3_key: Seq<char>,
    pub size: u64,
    pub upload_id: Option<Seq<char>>,
    pub resumed: bool,
    pub parts: Seq<PartView>,
    pub todo: Seq<PartRange>,
    pub sent: nat,
}

impl View for MultipartUpload {
    type V = UploadView;

    open spec fn view(&self) -> UploadView {
        UploadView {
            blob_id: self.blob_id@,
            s3_key: self.s3_key@,
            size: self.size,
            upload_id: opt_text(self.upload_id),
            resumed: self.resumed,
            parts: parts_view(self.parts@),
            todo: self.todo@,
            sent: self.sent as nat,
        }
    }
}

/// The upload of a blob as it is taken up.
pub open spec fn taken_up(blob: BlobView, size: u64) -> UploadView {
    UploadView {
        blob_id: blob.id,
        s3_key: blob.s3_key,
        size,
        upload_id: blob.upload_id,
        resumed: blob.upload_id is Some,
        parts: Seq::empty(),
        todo: Seq::empty(),
        sent: 0,
    }
}

/// An upload that has learned which parts the remote store has.
pub open spec fn with_remote(v: UploadView, remote: Seq<PartView>) -> UploadView {
    UploadView {
        parts: remote,
        todo: missing_up_to(remote, part_count(v.size as nat), v.size as nat),
        sent: 0,
        ..v
    }
}

/// The part that an upload sends next.
pub open spec fn due_part(v: UploadView) -> Option<PartRange> {
    if v.sent < v.todo.len() {
        Some(v.todo[v.sent as int])
    } else {
        None
    }
}

/// An upload after the part that was due.
pub open spec fn with_part(v: UploadView, etag: Seq<char>) -> UploadView {
    UploadView {
        parts: v.parts.push(PartView { part_number: v.todo[v.sent as int].part_number, etag }),
        sent: v.sent + 1,
        ..v
    }
}

/// What an upload that expired is answered.
pub open spec fn expired_text() -> Seq<char> {
    "multipart upload expired; will restart on next cycle"@
}

/// Whether an upload has expired: it is from an earlier attempt, and the remote
/// store has nothing of it.
pub open spec fn has_expired(resumed: bool, remote: Seq<PartView>) -> bool {
    resumed && remote.len() == 0
}

/// The statements that follow a list of the parts that the remote store has.
pub open spec fn listed_script(
    blob_id: Seq<char>,
    resumed: bool,
    remote: Seq<PartView>,
    now: i64,
) -> Seq<StatementView> {
    if has_expired(resumed, remote) {
        seq![restart_statement(blob_id, now), clear_parts_statement(blob_id)]
    } else {
        Seq::new(
            remote.len(),
            |i: int| part_statement(blob_id, remote[i].part_number, remote[i].etag),
        )
    }
}

impl MultipartUpload {
    /// What was sent and what the remote store has go together.
    pub open spec fn wf(&self) -> bool {
        &&& self.sent <= self.todo@.len()
        &&& sendable(self.size as nat)
    }

    /// Takes up the upload of a blob of some size.
    pub fn new(blob: &BlobRow, size: u64) -> (r: MultipartUpload)
        requires
            sendable(size as nat),
        ensures
            r.wf(),
            r@ == taken_up(blob@, size),
            r.blob_id@ == blob.id@,
            r.s3_key@ == blob.s3_key@,
            r.size == size,
            opt_text(r.upload_id) == opt_text(blob.upload_id),
            r.resumed == (blob.upload_id is Some),
            r.parts@.len() == 0,
            r.todo@.len() == 0,
            r.sent == 0,
    {
        let upload = MultipartUpload {
            blob_id: blob.id.clone(),
            s3_key: blob.s3_key.clone(),
            size,
            upload_id: copy_opt_text(&blob.upload_id),
            resumed: blob.upload_id.is_some(),
            parts: Vec::new(),
            todo: Vec::new(),
            sent: 0,
        };
        assert(upload@.parts =~= Seq::<PartView>::empty());
        assert(upload@.todo =~= Seq::<PartRange>::empty());
        upload
    }

    /// Takes the id of an upload that was begun, and gives the statement that
    /// keeps it.
    pub fn on_created(&mut self, upload_id: String, now: i64) -> (r: Statement)
        requires
            old(self).wf(),
        ensures
            *final(self) == (MultipartUpload { upload_id: Some(upload_id), ..*old(self) }),
            final(self)@ == (UploadView { upload_id: Some(upload_id@), ..old(self)@ }),
            r@ == upload_statement(old(self).blob_id@, upload_id@, now),
    {
        let st = blobs::set_upload_id(self.blob_id.as_str(), upload_id.as_str(), now);
        self.upload_id = Some(upload_id);
        st
    }

    /// Takes the parts that the remote store has. A resumed upload of which it
    /// has none has expired: it fails, and the statements set the blob back to
    /// begin anew. Otherwise the statements keep the parts, and what is missing
    /// is to be sent.
    pub fn on_listed(&mut self, remote: Vec<UploadedPart>, now: i64) -> (r: (
        Vec<Statement>,
        Result<(), String>,
    ))
        requires
            old(self).wf(),
        ensures
            final(self).wf(),
            statements_view(r.0@) == listed_script(
                old(self).blob_id@,
                old(self).resumed,
                parts_view(remote@),
                now,
            ),
            has_expired(old(self).resumed, parts_view(remote@)) ==> {
                &&& *final(self) == *old(self)
                &&& r.1 is Err
                &&& r.1->Err_0@ == expired_text()
            },
            !has_expired(old(self).resumed, parts_view(remote@)) ==> {
                &&& final(self)@ == with_remote(old(self)@, parts_view(remote@))
                &&& *final(self) == (MultipartUpload {
                    parts: remote,
                    todo: final(self).todo,
                    sent: 0,
                    ..*old(self)
                })
                &&& final(self).todo@ == missing_up_to(
                    parts_view(remote@),
                    part_count(old(self).size as nat),
                    old(self).size as nat,
                )
                &&& r.1 is Ok
            },
    {
        broadcast use lemma_statements_push;

        let mut statements: Vec<Statement> = Vec::new();
        if remote.len() == 0 && self.resumed {
            statements.push(blobs::clear_upload_id(self.blob_id.as_str(), now));
            statements.push(blobs::clear_parts(self.blob_id.as_str()));
            assert(statements_view(statements@) =~= seq![
                restart_statement(old(self).blob_id@, now),
                clear_parts_statement(old(self).blob_id@),
            ]);
            return (
                statements,
                Err("multipart upload expired; will restart on next cycle".to_owned()),
            );
        }
        let mut i: usize = 0;
        while i < remote.len()
            invariant
                i <= remote@.len(),
                *self == *old(self),
                statements@.len() == i,
                forall|k: int|
                    0 <= k < i ==> (#[trigger] statements@[k])@ == part_statement(
                        self.blob_id@,
                        remote@[k].part_number,
                        remote@[k].etag@,
                    ),
            decreases remote@.len() - i,
        {
            statements.push(
                blobs::upsert_part(
                    self.blob_id.as_str(),
                    remote[i].part_number,
                    remote[i].etag.as_str(),
                ),
            );
            i = i + 1;
        }
        assert(statements_view(statements@) =~= listed_script(
            old(self).blob_id@,
            old(self).resumed,
            parts_view(remote@),
            now,
        ));
        self.todo = missing_parts(&remote, self.size);
        self.parts = remote;
        self.sent = 0;
        (statements, Ok(()))
    }

    /// The part to send next.
    pub fn next_part(&self) -> (r: Option<PartRange>)
        requires
            self.wf(),
        ensures
            r == due_part(self@),
    {
        if self.sent < self.todo.len() {
            Some(self.todo[self.sent])
        } else {
            None
        }
    }

    /// Takes the tag of the part that was sent, and gives the statement that
    /// keeps it.
    pub fn on_part(&mut self, etag: String) -> (r: Statement)
        requires
            old(self).wf(),
            old(self).sent < old(self).todo@.len(),
        ensures
            final(self).wf(),
            final(self)@ == with_part(old(self)@, etag@),
            ({
                let number = old(self).todo@[old(self).sent as int].part_number;
                &&& *final(self) == (MultipartUpload {
                    parts: final(self).parts,
                    sent: (old(self).sent + 1) as usize,
                    ..*old(self)
                })
                &&& parts_view(final(self).parts@) == parts_view(old(self).parts@).push(
                    PartView { part_number: number, etag: etag@ },
                )
                &&& r@ == part_statement(old(self).blob_id@, number, etag@)
            }),
    {
        assert(self.sent < self.todo.len());
        let number: i32 = self.todo[self.sent].part_number;
        let st = blobs::upsert_part(self.blob_id.as_str(), number, etag.as_str());
        let ghost before = parts_view(self.parts@);
        let ghost tag = etag@;
        self.parts.push(UploadedPart { part_number: number, etag });
        assert(parts_view(self.parts@) =~= before.push(
            PartView { part_number: number, etag: tag },
        ));
        self.sent = self.sent + 1;
        st
    }

    /// The parts that complete the upload, in the order of their numbers.
    pub fn into_parts(self) -> (r: Vec<UploadedPart>)
        ensures
            parts_view(r@) == sorted_parts(parts_view(self.parts@)),
    {
        sort_parts(self.parts)
    }
}

// ── What an outcome leaves behind ───────────────────────────────────────────

/// Statements to run, and a report.
pub struct BlobStep {
    pub statements: Vec<Statement>,
    pub event: Option<SyncEvent>,
}

/// Whether a file of some size is sent in parts.
pub open spec fn goes_in_parts(size: u64) -> bool {
    size >= MULTIPART_THRESHOLD
}

/// Whether a blob is sent in parts.
pub fn is_multipart(size_bytes: u64) -> (r: bool)
    ensures
        r == goes_in_parts(size_bytes),
{
    size_bytes >= MULTIPART_THRESHOLD
}

/// The statements that follow an upload that is complete, and the report.
pub open spec fn uploaded_step(blob_id: Seq<char>, now: i64) -> (
    Seq<StatementView>,
    Option<SyncEventView>,
) {
    (
        seq![status_statement(blob_id, BlobStatus::Uploaded, now)],
        Some(SyncEventView::BlobUploaded { blob_id }),
    )
}

/// What follows an upload that is complete.
pub fn upload_done(blob_id: &str, now: i64) -> (r: BlobStep)
    ensures
        (statements_view(r.statements@), opt_event(r.event)) == uploaded_step(blob_id@, now),
{
    let statements: Vec<Statement> = vec![blobs::set_status(blob_id, BlobStatus::Uploaded, now)];
    assert(statements_view(statements@) =~= seq![
        status_statement(blob_id@, BlobStatus::Uploaded, now),
    ]);
    BlobStep {
        statements,
        event: Some(SyncEvent::BlobUploaded { blob_id: blob_id.to_owned() }),
    }
}

/// The statements that follow a file that was copied into the cache.
pub open spec fn staged_script(
    blob_id: Seq<char>,
    path: Seq<char>,
    size: u64,
    now: i64,
) -> Seq<StatementView> {
    seq![path_statement(blob_id, path, size, now)]
}

/// What follows a file that was copied into the cache.
pub fn staged(blob_id: &str, path: &str, size: u64, now: i64) -> (r: Vec<Statement>)
    ensures
        statements_view(r@) == staged_script(blob_id@, path@, size, now),
{
    let out: Vec<Statement> = vec![blobs::set_local_path_and_size(blob_id, path, size, now)];
    assert(statements_view(out@) =~= seq![path_statement(blob_id@, path@, size, now)]);
    out
}

/// The statements that follow a file that was downloaded into the cache, and the
/// report.
pub open spec fn downloaded_step(blob_id: Seq<char>, path: Seq<char>, size: u64, now: i64) -> (
    Seq<StatementView>,
    Option<SyncEventView>,
) {
    (
        seq![
            path_statement(blob_id, path, size, now),
            status_statement(blob_id, BlobStatus::Cached, now),
        ],
        Some(SyncEventView::BlobDownloaded { blob_id }),
    )
}

/// What follows a file that was downloaded into the cache.
pub fn download_done(blob_id: &str, path: &str, size: u64, now: i64) -> (r: BlobStep)
    ensures
        (statements_view(r.statements@), opt_event(r.event)) == downloaded_step(
            blob_id@,
            path@,
            size,
            now,
        ),
{
    let statements: Vec<Statement> = vec![
        blobs::set_local_path_and_size(blob_id, path, size, now),
        blobs::set_status(blob_id, BlobStatus::Cached, now),
    ];
    assert(statements_view(statements@) =~= seq![
        path_statement(blob_id@, path@, size, now),
        status_statement(blob_id@, BlobStatus::Cached, now),
    ]);
    BlobStep {
        statements,
        event: Some(SyncEvent::BlobDownloaded { blob_id: blob_id.to_owned() }),
    }
}

/// The report on an attempt that failed, given the blob's row.
pub open spec fn retry_report(
    blob_id: Seq<char>,
    found: Option<BlobView>,
    error: Seq<char>,
) -> Option<SyncEventView> {
    match found {
        Some(row) => Some(
            SyncEventView::BlobRetryScheduled {
                blob_id,
                retries: row.retries,
                next_retry_ms: row.next_retry_at as u64,
                error,
            },
        ),
        None => None,
    }
}

/// The view of an optional row.
pub open spec fn opt_blob(row: Option<BlobRow>) -> Option<BlobView> {
    match row {
        Some(r) => Some(r@),
        None => None,
    }
}

/// The report on an attempt that failed, once it was written: how often the
/// blob has failed now, and when the next attempt is due. There is none for a
/// blob that is gone.
#[verifier::truncate]
pub fn retry_event(blob_id: &str, found: &Option<BlobRow>, error: &str) -> (r: Option<SyncEvent>)
    ensures
        opt_event(r) == retry_report(blob_id@, opt_blob(*found), error@),
{
    match found {
        Some(row) => Some(
            SyncEvent::BlobRetryScheduled {
                blob_id: blob_id.to_owned(),
                retries: row.retries,
                next_retry_ms: row.next_retry_at as u64,
                error: error.to_owned(),
            },
        ),
        None => None,
    }
}

/// Whether a blob has its file in the cache.
pub open spec fn has_file(row: BlobView) -> bool {
    row.local_path is Some
}

/// Whether a blob can be uploaded: its file is in the cache. A blob that was not
/// staged yet waits.
pub fn is_staged(row: &BlobRow) -> (r: bool)
    ensures
        r == has_file(row@),
{
    row.local_path.is_some()
}

/// The size of a blob as far as its row tells.
pub open spec fn size_in(row: BlobView) -> Option<u64> {
    match row.size_bytes {
        Some(n) => Some(n as u64),
        None => None,
    }
}

/// The size of a blob as far as its row tells. A stored number is taken by its
/// bits.
#[verifier::truncate]
pub fn known_size(row: &BlobRow) -> (r: Option<u64>)
    ensures
        r == size_in(row@),
{
    match row.size_bytes {
        Some(n) => Some(n as u64),
        None => None,
    }
}

// ── Storing and finding blobs ───────────────────────────────────────────────

/// The row of a blob that was just handed in. Its file is not in the cache yet.
pub open spec fn new_blob(
    id: Seq<char>,
    record_id: Option<Seq<char>>,
    collection: Option<Seq<char>>,
    now: i64,
) -> BlobView {
    BlobView {
        id,
        record_id,
        collection,
        local_path: None,
        s3_key: "blobs/"@ + id,
        size_bytes: None,
        upload_id: None,
        status: status_word(BlobStatus::Pending),
        format_version: 0,
        retries: 0,
        next_retry_at: 0,
        last_error: None,
        error_log: None,
        created_at: now,
        updated_at: now,
    }
}

/// The statement that stores a blob under an id.
pub fn put_blob_as(blob_id: &str, opts: &PutBlobOpts, now: i64) -> (r: Statement)
    ensures
        r@ == insert_statement(
            new_blob(blob_id@, opt_text(opts.record_id), opt_text(opts.collection), now),
        ),
{
    let row = BlobRow {
        id: blob_id.to_owned(),
        record_id: copy_opt_text(&opts.record_id),
        collection: copy_opt_text(&opts.collection),
        local_path: None,
        s3_key: "blobs/".to_owned().concat(blob_id),
        size_bytes: None,
        upload_id: None,
        status: BlobStatus::Pending.as_str().to_owned(),
        format_version: 0,
        retries: 0,
        next_retry_at: 0,
        last_error: None,
        error_log: None,
        created_at: now,
        updated_at: now,
    };
    blobs::insert(&row)
}

/// Stores a blob: gives its new id and the statement.
pub fn handle_put_blob(opts: &PutBlobOpts) -> (r: (String, Statement))
    ensures
        exists|id: Ulid| r.0@ == #[trigger] ulid_text(id),
        exists|now: i64|
            r.1@ == #[trigger] insert_statement(
                new_blob(r.0@, opt_text(opts.record_id), opt_text(opts.collection), now),
            ),
{
    let id = Ulid::new();
    let blob_id = id.to_text();
    let now: i64 = now_ms();
    let st = put_blob_as(blob_id.as_str(), opts, now);
    (blob_id, st)
}

/// What is to be done for a caller who wants a blob.
#[derive(Debug)]
pub enum BlobLookup {
    /// The file is on this device, at a path.
    Here(String),
    /// The file is on the remote store and is to be downloaded.
    Download,
    /// There is no such blob, or it is nowhere yet.
    NotYet,
}

/// Whether a lookup is right for a row, given whether its file exists.
pub open spec fn is_lookup(r: BlobLookup, found: Option<BlobRow>, exists_here: bool) -> bool {
    match found {
        None => r is NotYet,
        Some(row) => match opt_text(row.local_path) {
            Some(path) if exists_here => r matches BlobLookup::Here(p) && p@ == path,
            _ => if row.status@ == status_word(BlobStatus::Uploaded) {
                r is Download
            } else {
                r is NotYet
            },
        },
    }
}

/// What is to be done for a caller who wants a blob. `exists_here` says whether
/// there is a file at the path of the row.
pub fn handle_get_blob(found: &Option<BlobRow>, exists_here: bool) -> (r: BlobLookup)
    ensures
        is_lookup(r, *found, exists_here),
{
    match found {
        None => BlobLookup::NotYet,
        Some(row) => {
            if let Some(path) = &row.local_path {
                if exists_here {
                    return BlobLookup::Here(path.clone());
                }
            }
            if text_same(row.status.as_str(), BlobStatus::Uploaded.as_str()) {
                BlobLookup::Download
            } else {
                BlobLookup::NotYet
            }
        },
    }
}

// ── When the worker runs ────────────────────────────────────────────────────

/// How long after a pass the next runs in any case, in milliseconds.
pub const PERIODIC_MS: u64 = 60_000;

/// What wakes the blob worker.
#[derive(Debug, Clone, Copy, PartialEq, Eq, Structural)]
pub enum WorkerEvent {
    /// The engine was opened.
    Opened,
    /// The time that the worker waited for has come, or a pass is asked for.
    Elapsed,
    /// A caller waits for a pass.
    ForceFlush,
    /// A file is to be staged.
    Stage,
    /// A blob is to be downloaded.
    Download,
    /// Nobody can wake the worker any more.
    Closed,
}

/// What the blob worker does next.
#[derive(Debug, Clone, Copy, PartialEq, Eq, Structural)]
pub enum WorkerAction {
    /// Upload and download what is due, then answer the callers who wait.
    RunPass,
    /// Stage the file, and upload what is due.
    StageFile,
    /// Download the blob.
    DownloadBlob,
    Exit,
}

/// The blob worker between passes: when the next is due, and how many callers
/// wait for one.
#[derive(Debug, Clone, Copy, PartialEq, Eq, Structural)]
pub struct BlobWorker {
    pub deadline: u64,
    pub waiting: usize,
}

/// The worker with the next pass a full period after `now`.
pub open spec fn worker_rested(s: BlobWorker, now: u64) -> BlobWorker {
    BlobWorker { deadline: (now + PERIODIC_MS) as u64, ..s }
}

/// What an event makes of the worker, at the time `now`. A file that is to be
/// staged or a blob that is to be downloaded moves the next pass only when that
/// work is done.
pub open spec fn worker_after(s: BlobWorker, event: WorkerEvent, now: u64) -> (
    BlobWorker,
    WorkerAction,
) {
    match event {
        WorkerEvent::Opened => (worker_rested(s, now), WorkerAction::RunPass),
        WorkerEvent::Elapsed => (worker_rested(s, now), WorkerAction::RunPass),
        WorkerEvent::ForceFlush => (
            BlobWorker { waiting: (s.waiting + 1) as usize, ..worker_rested(s, now) },
            WorkerAction::RunPass,
        ),
        WorkerEvent::Stage => (s, WorkerAction::StageFile),
        WorkerEvent::Download => (s, WorkerAction::DownloadBlob),
        WorkerEvent::Closed => (s, WorkerAction::Exit),
    }
}

impl BlobWorker {
    /// A worker that begins at the time `now`.
    pub fn new(now: u64) -> (r: BlobWorker)
        requires
            now <= u64::MAX - PERIODIC_MS,
        ensures
            r == (BlobWorker { deadline: (now + PERIODIC_MS) as u64, waiting: 0 }),
    {
        BlobWorker { deadline: now + PERIODIC_MS, waiting: 0 }
    }

    /// Takes an event.
    pub fn on_event(&mut self, event: WorkerEvent, now: u64) -> (r: WorkerAction)
        requires
            now <= u64::MAX - PERIODIC_MS,
            old(self).waiting < usize::MAX,
        ensures
            (*final(self), r) == worker_after(*old(self), event, now),
    {
        match event {
            WorkerEvent::Closed => WorkerAction::Exit,
            WorkerEvent::Opened | WorkerEvent::Elapsed => {
                self.deadline = now + PERIODIC_MS;
                WorkerAction::RunPass
            },
            WorkerEvent::ForceFlush => {
                self.deadline = now + PERIODIC_MS;
                self.waiting = self.waiting + 1;
                WorkerAction::RunPass
            },
            WorkerEvent::Stage => WorkerAction::StageFile,
            WorkerEvent::Download => WorkerAction::DownloadBlob,
        }
    }

    /// Ends the work on a single blob, at the time `now`: the next pass is due a
    /// full period later.
    pub fn work_done(&mut self, now: u64)
        requires
            now <= u64::MAX - PERIODIC_MS,
        ensures
            *final(self) == worker_rested(*old(self), now),
    {
        self.deadline = now + PERIODIC_MS;
    }

    /// Ends a pass: gives how many callers are to be answered.
    pub fn pass_done(&mut self) -> (r: usize)
        ensures
            r == old(self).waiting,
            *final(self) == (BlobWorker { waiting: 0, ..*old(self) }),
    {
        let n: usize = self.waiting;
        self.waiting = 0;
        n
    }
}

} // verus!
