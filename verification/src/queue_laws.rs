//! What holds of the outbox: what a write queues, what a push and a pull take
//! out of it, and in which order it is emptied.

use vstd::prelude::*;

use crate::backend::wire::{EntryView, PushView, RemoteView};
use crate::db::outbox::{
    discard_statement, failures_statement, log_after, peek_statement, pending_statement,
    waiting_statement, OutboxEntry, OutboxView,
};
use crate::db::outbox_table::{
    failures_answer, first_of, has_failed, is_due, is_on_index, is_one_of, is_queue,
    lemma_drop_text, lemma_two_then_index, outbox_answers, outbox_ran, outbox_ran_all, queued,
    waiting_answers, well_numbered, without, Outbox,
};
use crate::db::records::{RecordRow, RecordView};
use crate::db::row::int_in;
use crate::db::statement::{SqlView, StatementView};
use crate::db::table::{ran, ran_all, row_found, Records};
use crate::db::texts::{lemma_drops_differ, lemma_writes_differ};
use crate::engine::{delete_script, put_index, put_script};
use crate::hlc::{hlc_text, Hlc};
use crate::id::{ulid_text, Ulid};
use crate::retry::{backoff, law_backoff_grows};
use crate::sync::{
    apply_statements, batch_to_push, entry_to_push, may_go, opt_row, push_statements, PUSH_BATCH,
};
use crate::text::{lemma_text_lt_order, text_lt};
use crate::types::{IndexDef, IndexValue};

verus! {

// ── What a write queues ─────────────────────────────────────────────────────

proof fn lemma_index_statements(
    def: Option<IndexDef>,
    id: Seq<char>,
    values: Seq<(String, IndexValue)>,
)
    requires
        put_index(def, id, values) is Ok,
    ensures
        forall|i: int|
            0 <= i < put_index(def, id, values)->Ok_0.len() ==> is_on_index(
                #[trigger] put_index(def, id, values)->Ok_0[i],
            ),
{
    reveal_strlit("INSERT INTO sidx_");
    reveal_strlit("INSERT INTO fts_");
    reveal_strlit("DELETE FROM ");
    reveal_strlit("fts_");
}

/// A put queues one change, with the record's id, collection and clock reading
/// and the plain payload. It is due at once, and no other change is touched.
pub proof fn law_put_queues_its_change(
    t: Outbox,
    fresh: i64,
    row: RecordView,
    data: Seq<u8>,
    def: Option<IndexDef>,
    values: Seq<(String, IndexValue)>,
    now: i64,
)
    ensures
        put_script(row, data, def, values, now) matches Ok(script) ==> outbox_ran_all(
            t,
            script,
            fresh,
        ) == t.insert(
            fresh,
            queued(fresh, row.id, row.collection, "upsert"@, row.hlc, Some(data), now),
        ),
{
    if let Ok(script) = put_script(row, data, def, values, now) {
        lemma_index_statements(def, row.id, values);
        let keeping = put_index(def, row.id, values)->Ok_0;
        assert forall|i: int| 2 <= i < script.len() implies is_on_index(#[trigger] script[i]) by {
            assert(script[i] == keeping[i - 2]);
        }
        lemma_two_then_index(t, script, fresh);
        lemma_writes_differ();
        lemma_drops_differ(script[0].params.len());
        assert(outbox_ran(t, script[0], fresh) == t);
    }
}

/// A delete queues one change, without a payload, and touches no other.
pub proof fn law_delete_queues_its_change(
    t: Outbox,
    fresh: i64,
    collection: Seq<char>,
    id: Ulid,
    hlc: Hlc,
    def: Option<IndexDef>,
    now: i64,
)
    ensures
        delete_script(collection, id, hlc, def, now) matches Ok(script) ==> outbox_ran_all(
            t,
            script,
            fresh,
        ) == t.insert(
            fresh,
            queued(fresh, ulid_text(id), collection, "delete"@, hlc_text(hlc), None, now),
        ),
{
    if let Ok(script) = delete_script(collection, id, hlc, def, now) {
        reveal_strlit("DELETE FROM ");
        reveal_strlit("fts_");
        reveal_strlit("sidx_");
        assert forall|i: int| 2 <= i < script.len() implies is_on_index(#[trigger] script[i]) by {}
        lemma_two_then_index(t, script, fresh);
        lemma_writes_differ();
        lemma_drops_differ(script[0].params.len());
        assert(outbox_ran(t, script[0], fresh) == t);
    }
}

// ── What a pull takes out ───────────────────────────────────────────────────

/// A pulled record that is not later than the local one changes nothing at all:
/// there is no statement to run.
pub proof fn law_earlier_pull_changes_nothing(local: RecordView, remote: RemoteView, now: i64)
    requires
        !text_lt(local.hlc, remote.hlc),
    ensures
        apply_statements(Some(local), remote, now).len() == 0,
{
}

/// Whether every queued change of a record has its record in the table, and is
/// not later than that.
pub open spec fn queue_is_behind(
    records: Records,
    t: Outbox,
    collection: Seq<char>,
    id: Seq<char>,
) -> bool {
    forall|seq: i64| #[trigger]
        t.contains_key(seq) && t[seq].record_id == id && t[seq].collection == collection ==> {
            &&& row_found(records, collection, id) matches Some(row)
            &&& !text_lt(row.hlc, t[seq].hlc)
        }
}

/// Applying a pulled record takes changes out of the outbox only where they are
/// of that record and earlier than it. A change that is as late or later stays
/// queued, as do all changes of other records, and no change is altered.
pub proof fn law_pull_keeps_later_changes(
    records: Records,
    t: Outbox,
    remote: RemoteView,
    now: i64,
    fresh: i64,
)
    requires
        queue_is_behind(records, t, remote.collection, remote.record_id),
    ensures
        ({
            let local = row_found(records, remote.collection, remote.record_id);
            let after = outbox_ran_all(t, apply_statements(local, remote, now), fresh);
            &&& forall|seq: i64| #[trigger]
                after.contains_key(seq) ==> t.contains_key(seq) && after[seq] == t[seq]
            &&& forall|seq: i64| #[trigger]
                t.contains_key(seq) && !after.contains_key(seq) ==> {
                    &&& t[seq].record_id == remote.record_id
                    &&& t[seq].collection == remote.collection
                    &&& text_lt(t[seq].hlc, remote.hlc)
                }
        }),
{
    let local = row_found(records, remote.collection, remote.record_id);
    let script = apply_statements(local, remote, now);
    let after = outbox_ran_all(t, script, fresh);
    lemma_writes_differ();
    if script.len() > 0 {
        lemma_drops_differ(script[0].params.len());
        lemma_drops_differ(script[1].params.len());
        lemma_two_then_index(t, script, fresh);
        assert(outbox_ran(t, script[0], fresh) == t);
        assert forall|seq: i64| #[trigger]
            t.contains_key(seq) && !after.contains_key(seq) implies text_lt(
            t[seq].hlc,
            remote.hlc,
        ) by {
            let row = local->0;
            assert(!text_lt(row.hlc, t[seq].hlc));
            lemma_text_lt_order(t[seq].hlc, row.hlc, remote.hlc);
            lemma_text_lt_order(remote.hlc, t[seq].hlc, row.hlc);
            lemma_text_lt_order(row.hlc, t[seq].hlc, remote.hlc);
        }
    }
}

/// Once a pulled record has won, no change of it that it has overtaken is left
/// to be pushed.
pub proof fn law_later_pull_clears_the_queue(
    t: Outbox,
    local: Option<RecordView>,
    remote: RemoteView,
    now: i64,
    fresh: i64,
)
    requires
        local matches Some(row) ==> text_lt(row.hlc, remote.hlc),
    ensures
        forall|seq: i64| #[trigger]
            outbox_ran_all(t, apply_statements(local, remote, now), fresh).contains_key(seq)
                ==> t[seq].record_id != remote.record_id || t[seq].collection != remote.collection,
{
    let script = apply_statements(local, remote, now);
    lemma_writes_differ();
    lemma_drops_differ(script[0].params.len());
    lemma_drops_differ(script[1].params.len());
    lemma_two_then_index(t, script, fresh);
    assert(outbox_ran(t, script[0], fresh) == t);
}

/// A put that is later than the record it replaces leaves the queue of its
/// record behind the record, as it was.
pub proof fn law_put_keeps_the_queue_behind(
    records: Records,
    t: Outbox,
    fresh: i64,
    row: RecordView,
    data: Seq<u8>,
    def: Option<IndexDef>,
    values: Seq<(String, IndexValue)>,
    now: i64,
)
    requires
        !row.deleted,
        !row.synced,
        put_script(row, data, def, values, now) is Ok,
        queue_is_behind(records, t, row.collection, row.id),
        row_found(records, row.collection, row.id) matches Some(old_row) ==> text_lt(
            old_row.hlc,
            row.hlc,
        ),
    ensures
        queue_is_behind(
            ran_all(records, put_script(row, data, def, values, now)->Ok_0),
            outbox_ran_all(t, put_script(row, data, def, values, now)->Ok_0, fresh),
            row.collection,
            row.id,
        ),
{
    let script = put_script(row, data, def, values, now)->Ok_0;
    law_put_queues_its_change(t, fresh, row, data, def, values, now);
    crate::record_laws::law_put_changes_one_record(records, row, data, def, values, now);
    let (after, queue) = (ran_all(records, script), outbox_ran_all(t, script, fresh));
    assert(after[row.id].hlc == row.hlc);
    lemma_text_lt_order(row.hlc, row.hlc, row.hlc);
    assert forall|seq: i64| #[trigger]
        queue.contains_key(seq) && queue[seq].record_id == row.id && queue[seq].collection
            == row.collection implies {
        &&& row_found(after, row.collection, row.id) matches Some(r)
        &&& !text_lt(r.hlc, queue[seq].hlc)
    } by {
        if seq != fresh {
            assert(t.contains_key(seq));
            let old_row = row_found(records, row.collection, row.id)->0;
            lemma_text_lt_order(old_row.hlc, row.hlc, t[seq].hlc);
            lemma_text_lt_order(row.hlc, t[seq].hlc, old_row.hlc);
        }
    }
}

// ── What a push takes out ───────────────────────────────────────────────────

proof fn lemma_one(t: Outbox, st: StatementView, fresh: i64)
    ensures
        outbox_ran_all(t, seq![st], fresh) == outbox_ran(t, st, fresh),
{
    assert(seq![st].drop_last() =~= Seq::<StatementView>::empty());
    assert(outbox_ran_all(t, seq![st].drop_last(), fresh) == t);
}

proof fn lemma_removal(t: Outbox, seqs: Seq<i64>, fresh: i64)
    requires
        well_numbered(t),
    ensures
        ({
            let after = outbox_ran_all(t, crate::sync::removal(seqs), fresh);
            &&& well_numbered(after)
            &&& forall|seq: i64| #[trigger]
                after.contains_key(seq) <==> t.contains_key(seq) && !seqs.contains(seq)
            &&& forall|seq: i64| #[trigger] after.contains_key(seq) ==> after[seq] == t[seq]
        }),
{
    let script = crate::sync::removal(seqs);
    let after = outbox_ran_all(t, script, fresh);
    if seqs.len() > 0 {
        lemma_drop_text(seqs);
        lemma_drops_differ(seqs.len());
        let st = script[0];
        lemma_one(t, st, fresh);
        assert(script =~= seq![st]);
        assert(after == without(t, is_one_of(st.params)));
        assert forall|seq: i64| #[trigger]
            after.contains_key(seq) <==> t.contains_key(seq) && !seqs.contains(seq) by {
            if t.contains_key(seq) {
                assert(t[seq].seq == seq);
                if seqs.contains(seq) {
                    let i = choose|i: int| 0 <= i < seqs.len() && seqs[i] == seq;
                    assert(st.params[i] == SqlView::Integer(seq));
                    assert(st.params.contains(SqlView::Integer(seq)));
                }
                if st.params.contains(SqlView::Integer(seq)) {
                    let i = choose|i: int|
                        0 <= i < st.params.len() && st.params[i] == SqlView::Integer(seq);
                    assert(seqs[i] == seq);
                }
            }
        }
    }
}

/// An accepted push takes out of the outbox exactly the changes that were
/// accepted, and alters no other.
pub proof fn law_accepted_push_leaves_the_queue(
    t: Outbox,
    entry: EntryView,
    pushed_seqs: Seq<i64>,
    retry: Option<(i64, Option<Seq<char>>)>,
    now: i64,
    fresh: i64,
)
    requires
        well_numbered(t),
    ensures
        ({
            let after = outbox_ran_all(
                t,
                push_statements(entry, PushView::Accepted { pushed_seqs }, retry, now),
                fresh,
            );
            &&& forall|seq: i64| #[trigger]
                after.contains_key(seq) <==> t.contains_key(seq) && !pushed_seqs.contains(seq)
            &&& forall|seq: i64| #[trigger] after.contains_key(seq) ==> after[seq] == t[seq]
        }),
{
    let script = push_statements(entry, PushView::Accepted { pushed_seqs }, retry, now);
    lemma_removal(t, pushed_seqs, fresh);
    assert(script.drop_last() =~= crate::sync::removal(pushed_seqs));
    lemma_writes_differ();
    lemma_drops_differ(script.last().params.len());
}

/// A change that lost against the remote store leaves the outbox, and it alone.
pub proof fn law_lost_push_leaves_the_queue(
    t: Outbox,
    entry: EntryView,
    record_id: Seq<char>,
    lost: i64,
    retry: Option<(i64, Option<Seq<char>>)>,
    now: i64,
    fresh: i64,
)
    requires
        well_numbered(t),
    ensures
        outbox_ran_all(
            t,
            push_statements(entry, PushView::ConflictAt { record_id, seq: lost }, retry, now),
            fresh,
        ) == t.remove(lost),
{
    let script = push_statements(entry, PushView::ConflictAt { record_id, seq: lost }, retry, now);
    let after = outbox_ran_all(t, script, fresh);
    lemma_removal(t, seq![lost], fresh);
    assert(seq![lost].contains(lost)) by {
        assert(seq![lost][0] == lost);
    }
    assert forall|seq: i64| seq != lost implies !(#[trigger] seq![lost].contains(seq)) by {}
    assert(after =~= t.remove(lost));
}

/// A push that failed takes nothing out: the change stays queued as it was, but
/// for one more failure, the error, and a next attempt that comes within five
/// minutes. No other change is touched.
pub proof fn law_failed_push_stays_queued(
    t: Outbox,
    entry: EntryView,
    text: Seq<char>,
    retry: Option<(i64, Option<Seq<char>>)>,
    now: i64,
    fresh: i64,
)
    requires
        t.contains_key(entry.seq),
        t[entry.seq].retries < u32::MAX,
        failures_answer(t, failures_statement(entry.seq), retry),
        0 <= now <= i64::MAX - 300_000,
    ensures
        ({
            let after = outbox_ran_all(
                t,
                push_statements(entry, PushView::TransientError(text), retry, now),
                fresh,
            );
            let (was, is) = (t[entry.seq], after[entry.seq]);
            &&& after.dom() == t.dom()
            &&& after.remove(entry.seq) == t.remove(entry.seq)
            &&& is.retries == was.retries + 1
            &&& now + 1000 <= is.next_retry_at <= now + 300_000
            &&& is.next_retry_at == now + backoff(was.retries as nat)
            &&& is.last_error == Some(text)
            &&& is.error_log == Some(log_after(was.error_log, text, now))
            &&& is == (OutboxView {
                retries: is.retries,
                next_retry_at: is.next_retry_at,
                last_error: is.last_error,
                error_log: is.error_log,
                ..was
            })
        }),
{
    let script = push_statements(entry, PushView::TransientError(text), retry, now);
    let after = outbox_ran_all(t, script, fresh);
    let n = t[entry.seq].retries;
    law_backoff_grows(n as nat, n as nat);
    lemma_writes_differ();
    lemma_one(t, script[0], fresh);
    assert(script =~= seq![script[0]]);
    assert(after.dom() =~= t.dom());
    assert(after.remove(entry.seq) =~= t.remove(entry.seq));
}

/// What a push says of its record: only an accepted change marks it as synced,
/// and nothing else of any record changes.
pub proof fn law_push_marks_its_record(
    records: Records,
    entry: EntryView,
    outcome: PushView,
    retry: Option<(i64, Option<Seq<char>>)>,
    now: i64,
)
    ensures
        ran_all(records, push_statements(entry, outcome, retry, now)) == (match (
            outcome,
            row_found(records, entry.collection, entry.record_id),
        ) {
            (PushView::Accepted { .. }, Some(row)) => records.insert(
                entry.record_id,
                RecordView { synced: true, ..row },
            ),
            _ => records,
        }),
{
    let script = push_statements(entry, outcome, retry, now);
    lemma_writes_differ();
    reveal_with_fuel(ran_all, 3);
    match outcome {
        PushView::Accepted { pushed_seqs } => {
            lemma_removal_leaves_records(records, pushed_seqs);
            assert(script.drop_last() =~= crate::sync::removal(pushed_seqs));
        },
        PushView::ConflictAt { seq, .. } => {
            lemma_removal_leaves_records(records, seq![seq]);
        },
        PushView::TransientError(_) => {
            if script.len() > 0 {
                assert(script.drop_last() =~= Seq::<StatementView>::empty());
            }
        },
    }
}

proof fn lemma_removal_leaves_records(records: Records, seqs: Seq<i64>)
    ensures
        ran_all(records, crate::sync::removal(seqs)) == records,
{
    let script = crate::sync::removal(seqs);
    if seqs.len() > 0 {
        lemma_drop_text(seqs);
        lemma_drops_differ(seqs.len());
        assert(script.drop_last() =~= Seq::<StatementView>::empty());
        assert(ran_all(records, script.drop_last()) == records);
    }
}

/// Discarding a change takes that one out of the outbox and leaves all others,
/// and all records.
pub proof fn law_discarding_takes_one(t: Outbox, records: Records, seq: i64, fresh: i64)
    ensures
        outbox_ran(t, discard_statement(seq), fresh) == t.remove(seq),
        ran(records, discard_statement(seq)) == records,
{
    lemma_writes_differ();
}

// ── In which order it is emptied ────────────────────────────────────────────

/// What is pushed comes in the order in which it was written: when a change is
/// pushed, every change that was queued before it and is still there has been
/// read before it. So nothing overtakes, also where an older change waits for
/// its next attempt.
pub proof fn law_nothing_overtakes(
    t: Outbox,
    now: i64,
    waiting: Option<i64>,
    entries: Seq<OutboxEntry>,
    rows: Seq<Option<RecordRow>>,
    i: int,
    earlier: i64,
)
    requires
        well_numbered(t),
        outbox_answers(
            t,
            peek_statement(PUSH_BATCH, now),
            Seq::new(entries.len(), |k: int| entries[k]@),
        ),
        waiting_answers(t, waiting_statement(now), waiting),
        0 <= i < batch_to_push(entries, rows, waiting).len(),
        t.contains_key(earlier),
        earlier < batch_to_push(entries, rows, waiting)[i].seq,
    ensures
        exists|k: int, m: int|
            0 <= k < m < entries.len() && #[trigger] entries[k].seq == earlier
                && #[trigger] entries[m].seq == batch_to_push(entries, rows, waiting)[i].seq,
{
    let list = Seq::new(entries.len(), |k: int| entries[k]@);
    let st = peek_statement(PUSH_BATCH, now);
    assert(st.sql == crate::db::texts::due_changes());
    assert(st.params[0] == SqlView::Integer(now));
    assert(st.params[1] == SqlView::Integer(25));
    assert(outbox_answers(t, st, list));
    assert(int_in(st.params[0]) == now && int_in(st.params[1]) == 25);
    let all = choose|all: Seq<OutboxView>| #[trigger]
        is_queue(t, is_due(int_in(st.params[0])), all) && list == first_of(
            all,
            int_in(st.params[1]),
        );
    assert(list == first_of(all, 25));
    assert(is_queue(t, is_due(now), all));
    let seq = batch_to_push(entries, rows, waiting)[i].seq;
    lemma_pushed_was_read(entries, rows, waiting, i);
    let m = choose|m: int| 0 <= m < entries.len() && #[trigger] entries[m].seq == seq;
    assert(list[m].seq == seq);
    assert(all[m] == list[m]);
    assert(may_go(seq, waiting));
    assert(t[earlier].next_retry_at <= now);
    let wanted = is_due(now);
    assert(wanted(t[earlier]));
    let k = choose|k: int| 0 <= k < all.len() && #[trigger] all[k] == t[earlier];
    assert(t[earlier].seq == earlier);
    if k >= m {
        if k > m {
            assert(all[m].seq < all[k].seq);
        }
    }
    assert(list[k] == all[k]);
    assert(entries[k]@ == list[k]);
    assert(entries[k].seq == earlier);
}

proof fn lemma_pushed_was_read(
    entries: Seq<OutboxEntry>,
    rows: Seq<Option<RecordRow>>,
    waiting: Option<i64>,
    i: int,
)
    requires
        0 <= i < batch_to_push(entries, rows, waiting).len(),
    ensures
        may_go(batch_to_push(entries, rows, waiting)[i].seq, waiting),
        exists|m: int|
            0 <= m < entries.len() && #[trigger] entries[m].seq == batch_to_push(
                entries,
                rows,
                waiting,
            )[i].seq,
    decreases entries.len(),
{
    let front = entries.drop_last();
    let before = batch_to_push(front, rows, waiting);
    if i < before.len() {
        lemma_pushed_was_read(front, rows, waiting, i);
        let m = choose|m: int| 0 <= m < front.len() && #[trigger] front[m].seq == before[i].seq;
        assert(entries[m].seq == before[i].seq);
    } else {
        assert(entries[entries.len() - 1].seq == batch_to_push(entries, rows, waiting)[i].seq);
    }
}

/// Every change that was read and stands before the first that waits is pushed,
/// unless it is an upsert whose record is gone. It is pushed as it was queued:
/// under its number, for its record, with its clock reading and its payload.
pub proof fn law_every_due_change_is_pushed(
    entries: Seq<OutboxEntry>,
    rows: Seq<Option<RecordRow>>,
    waiting: Option<i64>,
    k: int,
)
    requires
        0 <= k < entries.len(),
        rows.len() == entries.len(),
        waiting matches Some(w) ==> entries[k].seq < w,
        entries[k].operation@ == "delete"@ || rows[k] is Some,
    ensures
        exists|i: int|
            0 <= i < batch_to_push(entries, rows, waiting).len() && is_push_of(
                #[trigger] batch_to_push(entries, rows, waiting)[i],
                entries[k]@,
                opt_row(rows[k]),
            ),
{
    lemma_due_is_pushed(entries, rows, waiting, k);
}

proof fn lemma_due_is_pushed(
    entries: Seq<OutboxEntry>,
    rows: Seq<Option<RecordRow>>,
    waiting: Option<i64>,
    k: int,
)
    requires
        0 <= k < entries.len(),
        waiting matches Some(w) ==> entries[k].seq < w,
        entries[k].operation@ == "delete"@ || rows[k] is Some,
    ensures
        exists|i: int|
            0 <= i < batch_to_push(entries, rows, waiting).len() && is_push_of(
                #[trigger] batch_to_push(entries, rows, waiting)[i],
                entries[k]@,
                opt_row(rows[k]),
            ),
    decreases entries.len(),
{
    let front = entries.drop_last();
    let all = batch_to_push(entries, rows, waiting);
    let before = batch_to_push(front, rows, waiting);
    if k < front.len() {
        assert(front[k] == entries[k]);
        lemma_due_is_pushed(front, rows, waiting, k);
        let i = choose|i: int|
            0 <= i < before.len() && is_push_of(
                #[trigger] before[i],
                entries[k]@,
                opt_row(rows[k]),
            );
        assert(all[i] == before[i]);
    } else {
        let e = entry_to_push(entries[k]@, opt_row(rows[k]))->0;
        assert(all == before.push(e));
        assert(is_push_of(all[before.len() as int], entries[k]@, opt_row(rows[k])));
    }
}

/// Whether a change is that of an outbox entry: nothing of it is altered, the
/// payload is plain, and an upsert has the schema version of its record.
pub open spec fn is_push_of(e: EntryView, entry: OutboxView, row: Option<RecordView>) -> bool {
    &&& e.seq == entry.seq
    &&& e.record_id == entry.record_id
    &&& e.collection == entry.collection
    &&& e.operation == entry.operation
    &&& e.hlc == entry.hlc
    &&& e.data == entry.data
    &&& e.dek_encrypted is None
    &&& e.format_version == 0
    &&& e.retries == entry.retries
    &&& entry.operation != "delete"@ ==> row is Some && e.schema_version == row->0.schema_version
    &&& entry.operation == "delete"@ ==> e.schema_version == 0
}

// ── What has failed ─────────────────────────────────────────────────────────

/// The pending errors are the queued changes that have failed, all of them and
/// no others, oldest first.
pub proof fn law_pending_errors_are_all_failures(t: Outbox, list: Seq<OutboxView>)
    requires
        outbox_answers(t, pending_statement(), list),
    ensures
        forall|i: int|
            0 <= i < list.len() ==> t.contains_key((#[trigger] list[i]).seq) && t[list[i].seq]
                == list[i] && list[i].retries > 0,
        forall|seq: i64| #[trigger]
            t.contains_key(seq) && t[seq].retries > 0 ==> exists|i: int|
                0 <= i < list.len() && #[trigger] list[i] == t[seq],
        forall|i: int, j: int|
            0 <= i < j < list.len() ==> (#[trigger] list[i]).seq < (#[trigger] list[j]).seq,
{
    let wanted = has_failed();
    assert(is_queue(t, wanted, list));
    assert forall|seq: i64| #[trigger]
        t.contains_key(seq) && t[seq].retries > 0 implies exists|i: int|
        0 <= i < list.len() && #[trigger] list[i] == t[seq] by {
        assert(wanted(t[seq]));
    }
    assert forall|i: int| 0 <= i < list.len() implies t.contains_key((#[trigger] list[i]).seq)
        && t[list[i].seq] == list[i] && list[i].retries > 0 by {
        assert(wanted(list[i]));
    }
}

} // verus!
