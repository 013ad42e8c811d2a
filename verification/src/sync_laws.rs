//! Laws of syncing: the later write wins on every device, whatever the order in
//! which changes arrive, and no change is missed.

use vstd::prelude::*;

use crate::backend::in_memory::{
    accepts, is_after, is_pull, pushed, RecordKey, RemoteRecords,
};
use crate::backend::wire::{remote_of, EntryView, PushView, RemoteView};
use crate::db::outbox::{retry_statement, OutboxEntry, OutboxView, RETRY_SQL};
use crate::db::records::{RecordRow, RecordView};
use crate::db::statement::SqlView;
use crate::db::table::{answers, first_row, row_found, Records};
use crate::engine::payload_of;
use crate::error::ErrorView;
use crate::hlc::{
    hlc_lt, hlc_text, is_last, law_merge_follows, law_observed_is_followed, Hlc,
};
use crate::retry::{backoff, law_backoff_grows};
use crate::sync::{
    advanced, batch_to_push, counted, entry_to_push, lookup_statement, loop_after, loop_answers,
    may_go, next_attempt, noted, push_event, push_statements, remote_row, removal, together, waits_until,
    wins, LoopAction, LoopEvent, PullView, PushCycle, SyncLoop, DEBOUNCE_MS, PERIODIC_MS,
};
use crate::text::{lemma_text_lt_order, text_lt};
use crate::types::{SyncEventView, SyncStats};

verus! {

// ── What a pulled record leaves ─────────────────────────────────────────────

/// The local row once a pulled record was applied to it.
pub open spec fn applied(local: Option<RecordView>, remote: RemoteView, now: i64) -> RecordView {
    if wins(local, remote) {
        remote_row(local, remote, now)
    } else {
        local->0
    }
}

/// What devices agree on once they are in sync. When a row was written on a
/// device, and whether it is synced, is each device's own.
pub struct Content {
    pub id: Seq<char>,
    pub collection: Seq<char>,
    pub data: Seq<u8>,
    pub hlc: Seq<char>,
    pub schema_version: u32,
    pub format_version: u8,
    pub deleted: bool,
}

/// The content of a row.
pub open spec fn content(row: RecordView) -> Content {
    Content {
        id: row.id,
        collection: row.collection,
        data: row.data,
        hlc: row.hlc,
        schema_version: row.schema_version,
        format_version: row.format_version,
        deleted: row.deleted,
    }
}

/// Applying a pulled record again changes nothing.
pub proof fn law_apply_is_idempotent(
    local: Option<RecordView>,
    remote: RemoteView,
    first: i64,
    again: i64,
)
    ensures
        applied(Some(applied(local, remote, first)), remote, again) == applied(
            local,
            remote,
            first,
        ),
{
    lemma_text_lt_order(remote.hlc, remote.hlc, remote.hlc);
}

/// A pulled record never puts an earlier row in the place of a later one, and
/// a row keeps the time of its creation.
pub proof fn law_apply_never_goes_back(local: RecordView, remote: RemoteView, now: i64)
    ensures
        !text_lt(applied(Some(local), remote, now).hlc, local.hlc),
        !text_lt(applied(Some(local), remote, now).hlc, remote.hlc),
        applied(Some(local), remote, now).created_at == local.created_at,
{
    lemma_text_lt_order(local.hlc, remote.hlc, local.hlc);
    lemma_text_lt_order(remote.hlc, remote.hlc, local.hlc);
}

/// Two pulled records leave the same content in whichever order they are
/// applied, unless they differ under the same clock reading.
pub proof fn law_order_of_arrival_is_irrelevant(
    local: Option<RecordView>,
    a: RemoteView,
    b: RemoteView,
    first: i64,
    second: i64,
)
    requires
        a.hlc != b.hlc || a == b,
    ensures
        content(applied(Some(applied(local, a, first)), b, second)) == content(
            applied(Some(applied(local, b, first)), a, second),
        ),
{
    lemma_text_lt_order(a.hlc, b.hlc, a.hlc);
    lemma_text_lt_order(b.hlc, a.hlc, b.hlc);
    if local is Some {
        let h = local->0.hlc;
        lemma_text_lt_order(h, a.hlc, b.hlc);
        lemma_text_lt_order(h, b.hlc, a.hlc);
        lemma_text_lt_order(a.hlc, h, b.hlc);
        lemma_text_lt_order(b.hlc, h, a.hlc);
    }
}

/// What a reader on a device gets of a row: nothing of a tombstone, else the
/// payload, opened with the device's key, and its schema version.
pub open spec fn reader_gets(row: RecordView, kek: Option<Seq<u8>>) -> Option<
    (Result<Seq<u8>, ErrorView>, u32),
> {
    if row.deleted {
        None
    } else {
        Some((payload_of(row, kek), row.schema_version))
    }
}

/// Whether a device's own row is the change that the remote store has: the same
/// record, and unless it is a delete, the same payload under the device's key.
pub open spec fn is_change(row: RecordView, kek: Option<Seq<u8>>, remote: RemoteView) -> bool {
    &&& row.id == remote.record_id
    &&& row.collection == remote.collection
    &&& row.deleted == remote.deleted
    &&& !row.deleted ==> {
        &&& row.schema_version == remote.schema_version
        &&& remote.data matches Some(d) && payload_of(row, kek) == Ok::<Seq<u8>, ErrorView>(d)
    }
}

/// A row that is no later than a pulled record has its clock reading afterwards.
proof fn lemma_takes_the_reading(local: Option<RecordView>, remote: RemoteView, now: i64)
    requires
        local matches Some(row) ==> !text_lt(remote.hlc, row.hlc),
    ensures
        applied(local, remote, now).hlc == remote.hlc,
        !wins(local, remote) ==> local is Some && local->0.hlc == remote.hlc,
{
    if local is Some {
        lemma_text_lt_order(local->0.hlc, remote.hlc, remote.hlc);
    }
}

/// Two devices whose rows are no later than the remote one, as after a push,
/// agree once they have pulled: on the clock reading, and on what a reader gets.
/// That holds of the device that wrote the record as well. It keeps its own
/// row, encrypted or not, and every other device has taken the plain payload.
pub proof fn law_devices_converge(
    a: Option<RecordView>,
    kek_a: Option<Seq<u8>>,
    b: Option<RecordView>,
    kek_b: Option<Seq<u8>>,
    remote: RemoteView,
    at_a: i64,
    at_b: i64,
)
    requires
        a matches Some(row) ==> !text_lt(remote.hlc, row.hlc),
        b matches Some(row) ==> !text_lt(remote.hlc, row.hlc),
        a matches Some(row) ==> row.hlc == remote.hlc ==> is_change(row, kek_a, remote),
        b matches Some(row) ==> row.hlc == remote.hlc ==> is_change(row, kek_b, remote),
        remote.format_version != 1,
    ensures
        applied(a, remote, at_a).hlc == remote.hlc,
        applied(b, remote, at_b).hlc == remote.hlc,
        applied(a, remote, at_a).deleted == applied(b, remote, at_b).deleted,
        reader_gets(applied(a, remote, at_a), kek_a) == reader_gets(
            applied(b, remote, at_b),
            kek_b,
        ),
        wins(a, remote) && wins(b, remote) ==> content(applied(a, remote, at_a)) == content(
            applied(b, remote, at_b),
        ),
{
    lemma_takes_the_reading(a, remote, at_a);
    lemma_takes_the_reading(b, remote, at_b);
}

/// The row of a device that wrote a record, and the change that it pushes for
/// it, are the same change.
pub proof fn law_writer_holds_its_change(
    row: RecordView,
    kek: Option<Seq<u8>>,
    entry: OutboxView,
    data: Seq<u8>,
)
    requires
        entry.record_id == row.id,
        entry.collection == row.collection,
        row.deleted == (entry.operation == "delete"@),
        !row.deleted ==> entry.data == Some(data) && payload_of(row, kek) == Ok::<
            Seq<u8>,
            ErrorView,
        >(data),
    ensures
        entry_to_push(entry, Some(row)) is Some,
        is_change(row, kek, remote_of(entry_to_push(entry, Some(row))->0)),
        remote_of(entry_to_push(entry, Some(row))->0).format_version == 0,
        remote_of(entry_to_push(entry, Some(row))->0).hlc == entry.hlc,
{
}

/// A write that the remote store has accepted reaches a device with an earlier
/// row, or with none: a reader there gets what a reader on the device that
/// wrote it gets, whichever of them encrypts.
pub proof fn law_write_reaches_the_other_device(
    records: RemoteRecords,
    row: RecordView,
    kek: Option<Seq<u8>>,
    entry: OutboxView,
    data: Seq<u8>,
    other: Option<RecordView>,
    other_kek: Option<Seq<u8>>,
    now: i64,
)
    requires
        entry.record_id == row.id,
        entry.collection == row.collection,
        entry.hlc == row.hlc,
        row.deleted == (entry.operation == "delete"@),
        !row.deleted ==> entry.data == Some(data) && payload_of(row, kek) == Ok::<
            Seq<u8>,
            ErrorView,
        >(data),
        accepts(records, entry_to_push(entry, Some(row))->0),
        other matches Some(o) ==> text_lt(o.hlc, row.hlc),
    ensures
        ({
            let store = pushed(records, entry_to_push(entry, Some(row))->0);
            let remote = store[(row.id, row.collection)];
            reader_gets(applied(other, remote, now), other_kek) == reader_gets(row, kek)
        }),
{
    law_writer_holds_its_change(row, kek, entry, data);
    let remote = pushed(records, entry_to_push(entry, Some(row))->0)[(row.id, row.collection)];
    lemma_text_lt_order(row.hlc, row.hlc, row.hlc);
    if other is Some {
        lemma_text_lt_order(other->0.hlc, row.hlc, other->0.hlc);
    }
    law_devices_converge(Some(row), kek, other, other_kek, remote, now, now);
}

/// A pushed change, once it has been accepted and pulled by a device that has
/// nothing later, gives that device the payload that was in the outbox, plain.
pub proof fn law_push_then_pull(
    records: RemoteRecords,
    entry: OutboxView,
    source: Option<RecordView>,
    local: Option<RecordView>,
    now: i64,
)
    requires
        entry_to_push(entry, source) is Some,
        records.contains_key((entry.record_id, entry.collection)) ==> text_lt(
            records[(entry.record_id, entry.collection)].hlc,
            entry.hlc,
        ),
        local matches Some(row) ==> text_lt(row.hlc, entry.hlc),
    ensures
        ({
            let key = (entry.record_id, entry.collection);
            let store = pushed(records, entry_to_push(entry, source)->0);
            let row = applied(local, store[key], now);
            &&& store.contains_key(key)
            &&& row.id == entry.record_id
            &&& row.collection == entry.collection
            &&& row.hlc == entry.hlc
            &&& row.deleted == (entry.operation == "delete"@)
            &&& entry.data matches Some(d) ==> row.data == d
            &&& row.format_version == 0
            &&& row.dek_encrypted is None
        }),
{
}

// ── The checkpoint ──────────────────────────────────────────────────────────

/// The checkpoint after a list of records was applied.
pub open spec fn reached_after(from: Option<Seq<char>>, list: Seq<RemoteView>) -> Option<Seq<char>>
    decreases list.len(),
{
    if list.len() == 0 {
        from
    } else {
        Some(advanced(reached_after(from, list.drop_last()), list.last().hlc))
    }
}

/// A checkpoint never goes back, and no applied record is later than it.
pub proof fn law_checkpoint_never_goes_back(from: Option<Seq<char>>, list: Seq<RemoteView>)
    ensures
        from matches Some(cp) ==> reached_after(from, list) is Some && !text_lt(
            reached_after(from, list)->0,
            cp,
        ),
        forall|i: int|
            0 <= i < list.len() ==> reached_after(from, list) is Some && !text_lt(
                reached_after(from, list)->0,
                (#[trigger] list[i]).hlc,
            ),
    decreases list.len(),
{
    if list.len() > 0 {
        let front = list.drop_last();
        let before = reached_after(from, front);
        let after = reached_after(from, list)->0;
        let last = list.last().hlc;
        law_checkpoint_never_goes_back(from, front);
        lemma_text_lt_order(last, last, last);
        if before is Some {
            lemma_text_lt_order(before->0, last, before->0);
            lemma_text_lt_order(before->0, before->0, before->0);
        }
        if from is Some {
            lemma_text_lt_order(from->0, before->0, after);
        }
        assert forall|i: int| 0 <= i < list.len() implies !text_lt(
            after,
            (#[trigger] list[i]).hlc,
        ) by {
            if i < front.len() {
                assert(front[i] == list[i]);
                lemma_text_lt_order(list[i].hlc, before->0, after);
            }
        }
    } else if from is Some {
        lemma_text_lt_order(from->0, from->0, from->0);
    }
}

/// Once all records of a pull were applied, the store holds none that the next
/// pull would give: nothing is missed, and nothing is pulled twice.
pub proof fn law_pull_misses_nothing(
    records: RemoteRecords,
    from: Option<Seq<char>>,
    list: Seq<RemoteView>,
    key: RecordKey,
)
    requires
        is_pull(records, from, list),
        records.contains_key(key),
    ensures
        !is_after(records[key], reached_after(from, list)),
{
    law_checkpoint_never_goes_back(from, list);
    let reached = reached_after(from, list);
    if is_after(records[key], from) {
        let i = choose|i: int| 0 <= i < list.len() && #[trigger] list[i] == records[key];
        assert(!text_lt(reached->0, list[i].hlc));
    } else {
        let cp = from->0;
        lemma_text_lt_order(cp, reached->0, records[key].hlc);
        lemma_text_lt_order(records[key].hlc, cp, reached->0);
    }
}

// ── Pushing in order ────────────────────────────────────────────────────────

/// Whether outbox entries are in the order of their numbers.
pub open spec fn in_outbox_order(entries: Seq<OutboxEntry>) -> bool {
    forall|i: int, j: int|
        0 <= i < j < entries.len() ==> (#[trigger] entries[i]).seq < (#[trigger] entries[j]).seq
}

/// Whether changes are in the order of their outbox entries.
pub open spec fn in_push_order(batch: Seq<EntryView>) -> bool {
    forall|i: int, j: int|
        0 <= i < j < batch.len() ==> (#[trigger] batch[i]).seq < (#[trigger] batch[j]).seq
}

/// A batch is pushed in the order of the outbox, and nothing of it stands behind
/// an entry that waits.
pub proof fn law_batch_keeps_order(
    entries: Seq<OutboxEntry>,
    rows: Seq<Option<RecordRow>>,
    first_waiting: Option<i64>,
)
    requires
        in_outbox_order(entries),
    ensures
        in_push_order(batch_to_push(entries, rows, first_waiting)),
        forall|i: int|
            0 <= i < batch_to_push(entries, rows, first_waiting).len() ==> may_go(
                (#[trigger] batch_to_push(entries, rows, first_waiting)[i]).seq,
                first_waiting,
            ),
{
    lemma_batch_order(entries, rows, first_waiting);
    lemma_batch_may_go(entries, rows, first_waiting);
}

proof fn lemma_batch_may_go(
    entries: Seq<OutboxEntry>,
    rows: Seq<Option<RecordRow>>,
    first_waiting: Option<i64>,
)
    ensures
        forall|i: int|
            0 <= i < batch_to_push(entries, rows, first_waiting).len() ==> may_go(
                (#[trigger] batch_to_push(entries, rows, first_waiting)[i]).seq,
                first_waiting,
            ),
    decreases entries.len(),
{
    if entries.len() > 0 {
        let a = batch_to_push(entries.drop_last(), rows, first_waiting);
        let b = batch_to_push(entries, rows, first_waiting);
        lemma_batch_may_go(entries.drop_last(), rows, first_waiting);
        assert forall|i: int| 0 <= i < b.len() implies may_go(
            (#[trigger] b[i]).seq,
            first_waiting,
        ) by {
            if i < a.len() {
                assert(b[i] == a[i]);
            }
        }
    }
}

/// Every change of a batch is that of one of its entries.
proof fn lemma_batch_from(
    entries: Seq<OutboxEntry>,
    rows: Seq<Option<RecordRow>>,
    first_waiting: Option<i64>,
)
    ensures
        forall|i: int|
            0 <= i < batch_to_push(entries, rows, first_waiting).len() ==> exists|k: int|
                0 <= k < entries.len() && (#[trigger] entries[k]).seq == (#[trigger] batch_to_push(
                    entries,
                    rows,
                    first_waiting,
                )[i]).seq,
    decreases entries.len(),
{
    if entries.len() > 0 {
        let front = entries.drop_last();
        lemma_batch_from(front, rows, first_waiting);
        let a = batch_to_push(front, rows, first_waiting);
        let b = batch_to_push(entries, rows, first_waiting);
        assert forall|i: int| 0 <= i < b.len() implies exists|k: int|
            0 <= k < entries.len() && (#[trigger] entries[k]).seq == (#[trigger] b[i]).seq by {
            if i < a.len() {
                assert(b[i] == a[i]);
                let k = choose|k: int| 0 <= k < front.len() && (#[trigger] front[k]).seq == a[i].seq;
                assert(entries[k].seq == b[i].seq);
            } else {
                assert(entries[entries.len() - 1].seq == b[i].seq);
            }
        }
    }
}

proof fn lemma_batch_order(
    entries: Seq<OutboxEntry>,
    rows: Seq<Option<RecordRow>>,
    first_waiting: Option<i64>,
)
    requires
        in_outbox_order(entries),
    ensures
        in_push_order(batch_to_push(entries, rows, first_waiting)),
    decreases entries.len(),
{
    if entries.len() > 0 {
        let front = entries.drop_last();
        assert forall|i: int, j: int| 0 <= i < j < front.len() implies (#[trigger] front[i]).seq
            < (#[trigger] front[j]).seq by {
            assert(entries[i].seq < entries[j].seq);
        }
        lemma_batch_order(front, rows, first_waiting);
        lemma_batch_from(front, rows, first_waiting);
        let a = batch_to_push(front, rows, first_waiting);
        let b = batch_to_push(entries, rows, first_waiting);
        assert forall|i: int, j: int| 0 <= i < j < b.len() implies (#[trigger] b[i]).seq < (
        #[trigger] b[j]).seq by {
            if j < a.len() {
                assert(a[i].seq < a[j].seq);
            } else {
                assert(b[i] == a[i]);
                let k = choose|k: int| 0 <= k < front.len() && (#[trigger] front[k]).seq == a[i].seq;
                assert(front[k] == entries[k]);
                assert(entries[k].seq < entries[entries.len() - 1].seq);
            }
        }
    }
}

/// One read of the outbox in a push cycle: the entries that were due, the
/// records that were found for them, and the oldest entry that was not due.
pub struct Round {
    pub entries: Seq<OutboxEntry>,
    pub rows: Seq<Option<RecordRow>>,
    pub first_waiting: Option<i64>,
}

/// The changes that a whole cycle has to push, read after read. A cycle that
/// ends early has pushed the first of them.
pub open spec fn cycle_pushes(rounds: Seq<Round>) -> Seq<EntryView>
    decreases rounds.len(),
{
    if rounds.len() == 0 {
        Seq::empty()
    } else {
        let last = rounds.last();
        cycle_pushes(rounds.drop_last()) + batch_to_push(
            last.entries,
            last.rows,
            last.first_waiting,
        )
    }
}

/// An entry that waits holds back those behind it: as long as the entry `w`, or
/// an older one, is not due, a cycle pushes nothing from `w` on.
pub proof fn law_waiting_entry_holds_back(rounds: Seq<Round>, w: i64)
    requires
        forall|k: int|
            0 <= k < rounds.len() ==> ((#[trigger] rounds[k]).first_waiting matches Some(f) && f
                <= w),
    ensures
        forall|i: int|
            0 <= i < cycle_pushes(rounds).len() ==> (#[trigger] cycle_pushes(rounds)[i]).seq < w,
    decreases rounds.len(),
{
    if rounds.len() > 0 {
        let front = rounds.drop_last();
        let last = rounds.last();
        assert forall|k: int| 0 <= k < front.len() implies ((
        #[trigger] front[k]).first_waiting matches Some(f) && f <= w) by {
            assert(rounds[k] == front[k]);
        }
        law_waiting_entry_holds_back(front, w);
        lemma_batch_may_go(last.entries, last.rows, last.first_waiting);
        assert(rounds[rounds.len() - 1].first_waiting is Some);
        let (a, b) = (
            cycle_pushes(front),
            batch_to_push(last.entries, last.rows, last.first_waiting),
        );
        assert forall|i: int| 0 <= i < (a + b).len() implies (#[trigger] (a + b)[i]).seq < w by {
            if i < a.len() {
                assert(a[i].seq < w);
            } else {
                assert(may_go(b[i - a.len()].seq, last.first_waiting));
            }
        }
    }
}

/// Whether the reads of a cycle follow the outbox: each gives its entries in
/// order, and those of a later read stand behind those of an earlier one.
pub open spec fn rounds_in_order(rounds: Seq<Round>) -> bool {
    &&& forall|k: int| 0 <= k < rounds.len() ==> in_outbox_order((#[trigger] rounds[k]).entries)
    &&& forall|k: int, l: int, i: int, j: int|
        #![trigger rounds[k].entries[i], rounds[l].entries[j]]
        0 <= k < l < rounds.len() && 0 <= i < rounds[k].entries.len() && 0 <= j
            < rounds[l].entries.len() ==> rounds[k].entries[i].seq < rounds[l].entries[j].seq
}

/// A whole cycle is first in, first out: what it pushes, over all its reads, is
/// in the order of the outbox.
pub proof fn law_cycle_is_first_in_first_out(rounds: Seq<Round>)
    requires
        rounds_in_order(rounds),
    ensures
        in_push_order(cycle_pushes(rounds)),
    decreases rounds.len(),
{
    if rounds.len() > 0 {
        let front = rounds.drop_last();
        let last = rounds.last();
        lemma_rounds_front(rounds);
        law_cycle_is_first_in_first_out(front);
        assert(in_outbox_order(rounds[rounds.len() - 1].entries));
        lemma_batch_order(last.entries, last.rows, last.first_waiting);
        lemma_batch_from(last.entries, last.rows, last.first_waiting);
        lemma_pushes_from(front);
        let (a, b) = (
            cycle_pushes(front),
            batch_to_push(last.entries, last.rows, last.first_waiting),
        );
        assert forall|i: int, j: int| 0 <= i < j < (a + b).len() implies (
        #[trigger] (a + b)[i]).seq < (#[trigger] (a + b)[j]).seq by {
            if j < a.len() {
                assert(a[i].seq < a[j].seq);
            } else if i >= a.len() {
                assert(b[i - a.len()].seq < b[j - a.len()].seq);
            } else {
                assert(pushed_by(front, a[i].seq));
                let (k, m) = choose|k: int, m: int|
                    0 <= k < front.len() && 0 <= m < front[k].entries.len()
                        && #[trigger] front[k].entries[m].seq == a[i].seq;
                let n = choose|n: int|
                    0 <= n < last.entries.len() && (#[trigger] last.entries[n]).seq == b[j
                        - a.len()].seq;
                assert(rounds[k].entries[m].seq < rounds[rounds.len() - 1].entries[n].seq);
            }
        }
    }
}

proof fn lemma_rounds_front(rounds: Seq<Round>)
    requires
        rounds.len() > 0,
        rounds_in_order(rounds),
    ensures
        rounds_in_order(rounds.drop_last()),
{
    let front = rounds.drop_last();
    assert forall|k: int| 0 <= k < front.len() implies in_outbox_order(
        (#[trigger] front[k]).entries,
    ) by {
        assert(in_outbox_order(rounds[k].entries));
    }
    assert forall|k: int, l: int, i: int, j: int|
        #![trigger front[k].entries[i], front[l].entries[j]]
        0 <= k < l < front.len() && 0 <= i < front[k].entries.len() && 0 <= j
            < front[l].entries.len() implies front[k].entries[i].seq < front[l].entries[j].seq by {
        assert(rounds[k].entries[i].seq < rounds[l].entries[j].seq);
    }
}

/// Whether an entry of that number was read in one of the rounds.
spec fn pushed_by(rounds: Seq<Round>, seq: i64) -> bool {
    exists|k: int, m: int|
        0 <= k < rounds.len() && 0 <= m < rounds[k].entries.len()
            && #[trigger] rounds[k].entries[m].seq == seq
}

proof fn lemma_pushes_from(rounds: Seq<Round>)
    ensures
        forall|i: int|
            0 <= i < cycle_pushes(rounds).len() ==> pushed_by(
                rounds,
                (#[trigger] cycle_pushes(rounds)[i]).seq,
            ),
    decreases rounds.len(),
{
    if rounds.len() > 0 {
        let front = rounds.drop_last();
        let last = rounds.last();
        lemma_pushes_from(front);
        lemma_batch_from(last.entries, last.rows, last.first_waiting);
        let (a, b) = (
            cycle_pushes(front),
            batch_to_push(last.entries, last.rows, last.first_waiting),
        );
        assert forall|i: int| 0 <= i < (a + b).len() implies pushed_by(
            rounds,
            (#[trigger] (a + b)[i]).seq,
        ) by {
            if i < a.len() {
                assert(pushed_by(front, a[i].seq));
                let (k, m) = choose|k: int, m: int|
                    0 <= k < front.len() && 0 <= m < front[k].entries.len()
                        && #[trigger] front[k].entries[m].seq == a[i].seq;
                assert(rounds[k].entries[m].seq == a[i].seq);
            } else {
                let n = choose|n: int|
                    0 <= n < last.entries.len() && (#[trigger] last.entries[n]).seq == b[i
                        - a.len()].seq;
                assert(rounds[rounds.len() - 1].entries[n].seq == b[i - a.len()].seq);
            }
        }
    }
}

/// Nothing but a failed push is reported: its error, one failure more, and the
/// time of the next attempt.
pub proof fn law_only_failed_pushes_are_reported(
    entry: EntryView,
    outcome: PushView,
    failures: u32,
    log: Option<Seq<char>>,
    now: i64,
)
    requires
        0 <= now <= i64::MAX - 300_000,
        entry.retries < u32::MAX,
    ensures
        ({
            let noted = push_event(entry, outcome, Some((failures as i64, log)), now);
            let unnoted = push_event(entry, outcome, None, now);
            &&& noted is Some <==> outcome is TransientError
            &&& unnoted is Some <==> outcome is TransientError
            &&& outcome matches PushView::TransientError(error) ==> {
                &&& noted->0 is RetryScheduled && unnoted->0 is RetryScheduled
                &&& noted->0->RetryScheduled_seq == entry.seq
                &&& noted->0->RetryScheduled_retries == entry.retries + 1
                &&& noted->0->RetryScheduled_error == error
                &&& noted->0->RetryScheduled_next_retry_ms == now + backoff(failures as nat)
                &&& unnoted->0->RetryScheduled_next_retry_ms == now + backoff(
                    entry.retries as nat,
                )
            }
        }),
{
    law_backoff_grows(failures as nat, failures as nat);
    law_backoff_grows(entry.retries as nat, entry.retries as nat);
}

/// A change that is pushed carries its record as the database has it then, and a
/// delete needs no record.
pub proof fn law_push_reads_its_record(table: Records, entry: OutboxView, rows: Seq<RecordView>)
    requires
        lookup_statement(entry) matches Some(st) ==> answers(table, st, rows),
    ensures
        lookup_statement(entry) is None <==> entry.operation == "delete"@,
        entry.operation != "delete"@ ==> first_row(rows) == row_found(
            table,
            entry.collection,
            entry.record_id,
        ),
{
}

/// A push that fails takes nothing out of the outbox: at most it is noted, with
/// a time for the next attempt that comes within five minutes, and that is what
/// is reported.
pub proof fn law_failed_push_keeps_the_change(
    entry: EntryView,
    error: Seq<char>,
    retry: Option<(i64, Option<Seq<char>>)>,
    now: i64,
)
    requires
        now <= i64::MAX - 300_000,
    ensures
        ({
            let script = push_statements(entry, PushView::TransientError(error), retry, now);
            &&& retry is None ==> script.len() == 0
            &&& retry matches Some((retries, log)) ==> {
                &&& script == seq![retry_statement(retries, log, entry.seq, error, now)]
                &&& script[0].sql == RETRY_SQL@
                &&& script[0].params[1] matches SqlView::Integer(at) && now + 1000 <= at <= now
                    + 300_000
                &&& script[0].params[1] == SqlView::Integer(next_attempt(entry, retry, now))
                &&& script[0].params[4] == SqlView::Integer(entry.seq)
            }
            &&& now + 1000 <= next_attempt(entry, retry, now) <= now + 300_000
            &&& push_event(entry, PushView::TransientError(error), retry, now) == Some(
                SyncEventView::RetryScheduled {
                    seq: entry.seq,
                    retries: (entry.retries + 1) as u32,
                    next_retry_ms: next_attempt(entry, retry, now) as u64,
                    error,
                },
            )
        }),
{
    if let Some((retries, _)) = retry {
        law_backoff_grows(retries as u32 as nat, retries as u32 as nat);
    } else {
        law_backoff_grows(entry.retries as nat, entry.retries as nat);
    }
}

/// A change that lost leaves the outbox, and the pull that follows brings the
/// record that it lost against: the device then has that record's clock
/// reading.
pub proof fn law_conflict_is_settled_by_the_pull(
    records: RemoteRecords,
    entry: EntryView,
    local: RecordView,
    now: i64,
)
    requires
        !accepts(records, entry),
        local.hlc == entry.hlc,
    ensures
        ({
            let key = (entry.record_id, entry.collection);
            &&& records.contains_key(key)
            &&& applied(Some(local), records[key], now).hlc == records[key].hlc
            &&& push_statements(
                entry,
                PushView::ConflictAt { record_id: entry.record_id, seq: entry.seq },
                None,
                now,
            ) == removal(seq![entry.seq])
        }),
{
    let key = (entry.record_id, entry.collection);
    lemma_takes_the_reading(Some(local), records[key], now);
}

// ── When a cycle runs ───────────────────────────────────────────────────────

/// A caller who waits gets a cycle at once, whatever the loop was doing, and a
/// write alone starts none before its burst is over or the next cycle is due.
pub proof fn law_force_cuts_through(s: SyncLoop, now: u64)
    requires
        now <= u64::MAX - PERIODIC_MS,
        s.waiting < usize::MAX,
    ensures
        loop_after(s, LoopEvent::ForceSync, now).1 == LoopAction::RunCycle,
        loop_after(s, LoopEvent::ForceSync, now).0.waiting == s.waiting + 1,
        now < s.deadline ==> {
            &&& loop_after(s, LoopEvent::Kick, now).1 == LoopAction::Wait
            &&& loop_after(s, LoopEvent::Kick, now).0.debounce == Some((now + DEBOUNCE_MS) as u64)
            &&& loop_after(s, LoopEvent::Kick, now).0.waiting == s.waiting
        },
{
}

/// The loop after writes at some times, one after the other.
pub open spec fn kicked(s: SyncLoop, times: Seq<u64>) -> SyncLoop
    decreases times.len(),
{
    if times.len() == 0 {
        s
    } else {
        loop_after(kicked(s, times.drop_last()), LoopEvent::Kick, times.last()).0
    }
}

/// However many writes come, and however close to each other, a cycle is due by
/// the deadline: they leave it where it is, the loop never waits past it, and
/// whatever wakes the loop from then on, but that it is closed, starts a cycle.
pub proof fn law_writes_do_not_put_off_the_timer(
    s: SyncLoop,
    times: Seq<u64>,
    event: LoopEvent,
    now: u64,
)
    requires
        forall|i: int| 0 <= i < times.len() ==> (#[trigger] times[i]) < s.deadline,
        s.deadline <= now <= u64::MAX - PERIODIC_MS,
        event != LoopEvent::Closed,
    ensures
        kicked(s, times).deadline == s.deadline,
        kicked(s, times).waiting == s.waiting,
        waits_until(kicked(s, times)) <= s.deadline,
        loop_after(kicked(s, times), event, now).1 == LoopAction::RunCycle,
    decreases times.len(),
{
    if times.len() > 0 {
        let front = times.drop_last();
        assert forall|i: int| 0 <= i < front.len() implies (#[trigger] front[i]) < s.deadline by {
            assert(times[i] < s.deadline);
        }
        law_writes_do_not_put_off_the_timer(s, front, event, now);
        assert(times[times.len() - 1] < s.deadline);
    }
}

// ── What a cycle counts ─────────────────────────────────────────────────────

/// Each push is counted once, as what became of it.
pub proof fn law_every_push_is_counted_once(stats: SyncStats, outcome: PushView)
    requires
        stats.pushed < usize::MAX,
        stats.conflicts < usize::MAX,
        stats.errors < usize::MAX,
    ensures
        ({
            let after = counted(stats, outcome);
            &&& after.pushed == stats.pushed + (if outcome is Accepted {
                1int
            } else {
                0
            })
            &&& after.conflicts == stats.conflicts + (if outcome is ConflictAt {
                1int
            } else {
                0
            })
            &&& after.errors == stats.errors + (if outcome is TransientError {
                1int
            } else {
                0
            })
            &&& after.pulled == stats.pulled
        }),
{
}

/// The counts of a cycle are those of its push and of its pull, and no error of
/// either is lost.
pub proof fn law_cycle_counts_both(push: SyncStats, pull: SyncStats)
    requires
        push.errors + pull.errors <= usize::MAX,
    ensures
        together(push, pull).pushed == push.pushed,
        together(push, pull).conflicts == push.conflicts,
        together(push, pull).pulled == pull.pulled,
        together(push, pull).errors == push.errors + pull.errors,
{
}

/// A pulled record and what became of it: its clock reading, whether it was
/// written, and what the wall clock showed.
pub struct Arrival {
    pub hlc: Seq<char>,
    pub applied: bool,
    pub wall_ms: u64,
}

/// A pull cycle after a list of records, one after the other.
pub open spec fn noted_all(v: PullView, list: Seq<Arrival>) -> PullView
    decreases list.len(),
{
    if list.len() == 0 {
        v
    } else {
        let last = list.last();
        noted(noted_all(v, list.drop_last()), last.hlc, last.applied, last.wall_ms)
    }
}

/// How many of some records were written.
pub open spec fn written_of(list: Seq<Arrival>) -> nat {
    list.filter(|a: Arrival| a.applied).len()
}

/// A record that could not be written leaves the clock of a pull cycle and its
/// checkpoint as they are. One that was written puts the clock after it and
/// after where it stood, on the own node.
pub proof fn law_written_records_move_the_clock(
    v: PullView,
    hlc: Seq<char>,
    remote: Hlc,
    wall_ms: u64,
)
    ensures
        noted(v, hlc, false, wall_ms).clock == v.clock,
        noted(v, hlc, false, wall_ms).reached == v.reached,
        ({
            let clock = noted(v, hlc_text(remote), true, wall_ms).clock;
            &&& !is_last(v.clock) ==> hlc_lt(v.clock, clock)
            &&& !is_last(remote) ==> hlc_lt(remote, clock)
            &&& clock.physical_ms >= wall_ms
            &&& clock.node_id == v.clock.node_id
        }),
{
    law_observed_is_followed(v.clock, remote, wall_ms, wall_ms);
    law_merge_follows(v.clock, remote, wall_ms);
}

/// A pull cycle counts every record that it wrote and every one that it could
/// not write. Its checkpoint stands at the latest that was written, or where the
/// cycle began where that is later; one that could not be written does not move
/// it.
pub proof fn law_pull_counts_every_record(v: PullView, list: Seq<Arrival>)
    requires
        v.stats.pulled + list.len() <= usize::MAX,
        v.stats.errors + list.len() <= usize::MAX,
    ensures
        ({
            let after = noted_all(v, list);
            &&& after.from == v.from
            &&& after.stats.pulled == v.stats.pulled + written_of(list)
            &&& after.stats.errors == v.stats.errors + list.len() - written_of(list)
            &&& after.stats.pushed == v.stats.pushed
            &&& after.stats.conflicts == v.stats.conflicts
            &&& written_of(list) <= list.len()
            &&& after.reached == v.reached || exists|i: int|
                0 <= i < list.len() && (#[trigger] list[i]).applied && after.reached == Some(
                    list[i].hlc,
                )
            &&& forall|i: int|
                0 <= i < list.len() && (#[trigger] list[i]).applied ==> after.reached is Some
                    && !text_lt(after.reached->0, list[i].hlc)
            &&& v.reached is Some ==> after.reached is Some && !text_lt(
                after.reached->0,
                v.reached->0,
            )
            &&& after.clock.node_id == v.clock.node_id
        }),
    decreases list.len(),
{
    let wanted = |a: Arrival| a.applied;
    if list.len() == 0 {
        assert(list.filter(wanted) =~= Seq::empty()) by {
            reveal(Seq::filter);
        }
        if v.reached is Some {
            lemma_text_lt_order(v.reached->0, v.reached->0, v.reached->0);
        }
    } else {
        let (front, last) = (list.drop_last(), list.last());
        law_pull_counts_every_record(v, front);
        let (before, after) = (noted_all(v, front), noted_all(v, list));
        assert(written_of(list) == written_of(front) + (if last.applied {
            1nat
        } else {
            0
        })) by {
            reveal(Seq::filter);
        }
        if before.reached is Some {
            lemma_text_lt_order(before.reached->0, last.hlc, before.reached->0);
            if v.reached is Some {
                lemma_text_lt_order(v.reached->0, before.reached->0, after.reached->0);
            }
        }
        lemma_text_lt_order(last.hlc, last.hlc, last.hlc);
        assert forall|i: int| 0 <= i < list.len() && (#[trigger] list[i]).applied implies
            after.reached is Some && !text_lt(after.reached->0, list[i].hlc) by {
            if i < front.len() {
                assert(front[i] == list[i]);
                lemma_text_lt_order(list[i].hlc, before.reached->0, after.reached->0);
                lemma_text_lt_order(before.reached->0, after.reached->0, list[i].hlc);
            }
        }
        if after.reached != v.reached {
            if after.reached == before.reached {
                let i = choose|i: int|
                    0 <= i < front.len() && (#[trigger] front[i]).applied && before.reached == Some(
                        front[i].hlc,
                    );
                assert(list[i] == front[i]);
            } else {
                assert(list[list.len() - 1] == last);
            }
        }
    }
}

// ── When the loop runs ──────────────────────────────────────────────────────

/// A loop that was opened, or whose time has come, runs a cycle whatever it was
/// doing, and loses none of the callers who wait. The next cycle is due a minute
/// after.
pub proof fn law_opened_and_due_loops_run(s: SyncLoop, now: u64)
    requires
        now <= u64::MAX - 60_000,
    ensures
        forall|event: LoopEvent|
            event == LoopEvent::Opened || event == LoopEvent::Elapsed ==> {
                let (after, action) = #[trigger] loop_after(s, event, now);
                &&& action == LoopAction::RunCycle
                &&& after.deadline == now + 60_000
                &&& after.debounce is None
                &&& after.waiting == s.waiting
            },
{
}

/// The loop ends only where nobody can wake it any more, and not before a burst
/// of writes that it waited out was synced.
pub proof fn law_loop_ends_after_its_burst(s: SyncLoop, event: LoopEvent, now: u64)
    requires
        now <= u64::MAX - 60_000,
        s.waiting < usize::MAX,
    ensures
        loop_after(s, event, now).1 == LoopAction::Exit <==> event == LoopEvent::Closed
            && s.debounce is None,
        event == LoopEvent::Closed && s.debounce is Some ==> {
            &&& loop_after(s, event, now).1 == LoopAction::RunCycle
            &&& loop_after(s, event, now).0.debounce is None
        },
{
}

/// A write is synced half a second after the last of its burst, or when the next
/// cycle is due, whichever comes first.
pub proof fn law_write_is_synced_soon(s: SyncLoop, now: u64)
    requires
        now < s.deadline,
        now <= u64::MAX - 60_000,
    ensures
        ({
            let after = loop_after(s, LoopEvent::Kick, now).0;
            waits_until(after) == (if now + 500 < s.deadline {
                now + 500
            } else {
                s.deadline as int
            })
        }),
{
}

/// Every caller who waits is answered by the cycle that ends next, and once.
pub proof fn law_every_caller_is_answered(s: SyncLoop)
    ensures
        loop_answers(s).1 == s.waiting,
        loop_answers(s).0.waiting == 0,
        loop_answers(s).0.deadline == s.deadline,
        loop_answers(s).0.debounce == s.debounce,
{
}

/// A cycle goes on reading the outbox as long as it gets full batches and writes
/// down what became of each change.
pub proof fn law_full_batches_are_followed(cycle: PushCycle, peeked: usize)
    requires
        cycle.wf(),
        !cycle.stopped,
        cycle.done == cycle.batch@.len(),
        cycle.batch@.len() == peeked,
    ensures
        cycle.may_hold_more(peeked, true) <==> peeked == 25,
        !cycle.may_hold_more(peeked, false),
{
}

/// A cycle that has ended, or has not gone through a batch for which all was
/// read, does not read the outbox again.
pub proof fn law_ended_cycle_reads_no_more(cycle: PushCycle, peeked: usize, all_written: bool)
    requires
        cycle.stopped || cycle.done < cycle.batch@.len() || cycle.batch@.len() < peeked,
    ensures
        !cycle.may_hold_more(peeked, all_written),
{
}

/// The loop waits for the end of a burst of writes or for the next cycle,
/// whichever comes first.
pub proof fn law_loop_waits_for_the_first(s: SyncLoop)
    ensures
        waits_until(s) <= s.deadline,
        s.debounce is None ==> waits_until(s) == s.deadline,
        s.debounce matches Some(end) ==> {
            &&& waits_until(s) <= end
            &&& waits_until(s) == end || waits_until(s) == s.deadline
        },
{
}

} // verus!
