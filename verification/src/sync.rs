//! Syncing records with a remote store: what is pushed, what a pulled record
//! does to the local one, and when a cycle runs.

use vstd::prelude::*;
use vstd::string::*;

use crate::backend::wire::{EntryView, OutboxPushEntry, PushResult, PushView, RemoteRecord, RemoteView};
use crate::db::outbox::{
    self, delete_statement, failures_statement, remove_statement, retry_statement, OutboxEntry, OutboxView,
};
use crate::db::records::{
    self, get_statement, mark_synced_statement, upsert_remote_statement, RecordRow, RecordView,
};
use crate::db::row::{copy_bytes, copy_opt_bytes, opt_text};
use crate::db::statement::{
    lemma_statements_push, statements_view, Statement, StatementView,
};
use crate::db::sync_state::{self, checkpoint_statement};
use crate::hlc::{observed, Hlc};
use crate::retry::{backoff, backoff_ms};
use crate::text::{text_less, text_lt, text_same};
use crate::types::{SyncEvent, SyncEventView, SyncStats};

verus! {

// ── Push ────────────────────────────────────────────────────────────────────

/// How many outbox entries are read at a time.
pub const PUSH_BATCH: usize = 25;

/// The change that an outbox entry stands for, if there is still something to
/// push: a delete always, an upsert where the record `row` was found for it.
/// The payload of the outbox is plain, so the change is of format zero.
pub open spec fn entry_to_push(entry: OutboxView, row: Option<RecordView>) -> Option<EntryView> {
    let schema_version = if entry.operation == "delete"@ {
        Some(0u32)
    } else {
        match row {
            Some(r) => Some(r.schema_version),
            None => None,
        }
    };
    match schema_version {
        None => None,
        Some(v) => Some(
            EntryView {
                seq: entry.seq,
                record_id: entry.record_id,
                collection: entry.collection,
                operation: entry.operation,
                hlc: entry.hlc,
                data: entry.data,
                dek_encrypted: None,
                schema_version: v,
                format_version: 0,
                retries: entry.retries,
            },
        ),
    }
}

/// The view of an optional row.
pub open spec fn opt_row(row: Option<RecordRow>) -> Option<RecordView> {
    match row {
        Some(r) => Some(r@),
        None => None,
    }
}

/// The statement that reads the record of an outbox entry. A delete needs
/// none.
pub open spec fn lookup_statement(entry: OutboxView) -> Option<StatementView> {
    if entry.operation == "delete"@ {
        None
    } else {
        Some(get_statement(entry.collection, entry.record_id))
    }
}

/// The statement that reads the record of an outbox entry. A delete needs
/// none.
pub fn push_lookup(entry: &OutboxEntry) -> (r: Option<Statement>)
    ensures
        match lookup_statement(entry@) {
            Some(st) => r is Some && r->0@ == st,
            None => r is None,
        },
{
    if text_same(entry.operation.as_str(), "delete") {
        None
    } else {
        Some(records::get(entry.collection.as_str(), entry.record_id.as_str()))
    }
}

/// The change that an outbox entry stands for, given the record that was found
/// for it.
pub fn build_push_entry(entry: &OutboxEntry, row: &Option<RecordRow>) -> (r: Option<
    OutboxPushEntry,
>)
    ensures
        match entry_to_push(entry@, opt_row(*row)) {
            Some(e) => r is Some && r->0@ == e,
            None => r is None,
        },
{
    let schema_version: u32 = if text_same(entry.operation.as_str(), "delete") {
        0
    } else {
        match row {
            Some(found) => found.schema_version,
            None => return None,
        }
    };
    Some(
        OutboxPushEntry {
            seq: entry.seq,
            record_id: entry.record_id.clone(),
            collection: entry.collection.clone(),
            operation: entry.operation.clone(),
            hlc: entry.hlc.clone(),
            data: copy_opt_bytes(&entry.data),
            dek_encrypted: None,
            schema_version,
            format_version: 0,
            retries: entry.retries,
        },
    )
}

/// Whether an entry may be pushed while the entry `first_waiting` waits for its
/// next attempt: the outbox is first in, first out, so one that waits holds back
/// all behind it.
pub open spec fn may_go(seq: i64, first_waiting: Option<i64>) -> bool {
    first_waiting matches Some(w) ==> seq < w
}

/// The changes that a batch of outbox entries stands for, in their order.
/// Entries behind one that waits are held back, and those without anything to
/// push are passed over.
pub open spec fn batch_to_push(
    entries: Seq<OutboxEntry>,
    rows: Seq<Option<RecordRow>>,
    first_waiting: Option<i64>,
) -> Seq<EntryView>
    decreases entries.len(),
{
    if entries.len() == 0 {
        Seq::empty()
    } else {
        let front = batch_to_push(entries.drop_last(), rows, first_waiting);
        match entry_to_push(entries.last()@, opt_row(rows[entries.len() - 1])) {
            Some(e) if may_go(e.seq, first_waiting) => front.push(e),
            _ => front,
        }
    }
}

/// Whether every change of a batch may be pushed.
pub open spec fn all_may_go(batch: Seq<OutboxPushEntry>, first_waiting: Option<i64>) -> bool {
    forall|i: int| 0 <= i < batch.len() ==> may_go((#[trigger] batch[i]).seq, first_waiting)
}

/// The views of a list of changes.
pub open spec fn entries_view(entries: Seq<OutboxPushEntry>) -> Seq<EntryView> {
    Seq::new(entries.len(), |i: int| entries[i]@)
}

/// The changes that a batch of outbox entries stands for; `rows` holds what was
/// found for each, and `first_waiting` is the oldest entry that is not due.
pub fn build_batch(
    entries: &Vec<OutboxEntry>,
    rows: &Vec<Option<RecordRow>>,
    first_waiting: Option<i64>,
) -> (r: Vec<OutboxPushEntry>)
    requires
        rows@.len() == entries@.len(),
    ensures
        entries_view(r@) == batch_to_push(entries@, rows@, first_waiting),
        r@.len() <= entries@.len(),
        forall|i: int|
            0 <= i < r@.len() ==> (first_waiting matches Some(w) ==> (#[trigger] r@[i]).seq < w),
        all_may_go(r@, first_waiting),
{
    let mut out: Vec<OutboxPushEntry> = Vec::new();
    let mut i: usize = 0;
    assert(entries_view(out@) =~= Seq::<EntryView>::empty());
    while i < entries.len()
        invariant
            i <= entries@.len(),
            rows@.len() == entries@.len(),
            entries_view(out@) == batch_to_push(entries@.take(i as int), rows@, first_waiting),
            out@.len() <= i,
            all_may_go(out@, first_waiting),
        decreases entries@.len() - i,
    {
        let ghost before = entries_view(out@);
        assert(entries@.take(i + 1).drop_last() =~= entries@.take(i as int));
        let held: bool = match first_waiting {
            Some(w) => entries[i].seq >= w,
            None => false,
        };
        if !held {
            match build_push_entry(&entries[i], &rows[i]) {
                Some(e) => {
                    let ghost v = e@;
                    out.push(e);
                    assert(entries_view(out@) =~= before.push(v));
                },
                None => {},
            }
        }
        i = i + 1;
    }
    assert(entries@.take(i as int) =~= entries@);
    out
}

/// A push cycle under way: a batch of changes, how many of them and of earlier
/// batches are done, the oldest outbox entry that is not due, and whether the
/// cycle has ended early.
pub struct PushCycle {
    pub batch: Vec<OutboxPushEntry>,
    pub done: usize,
    pub earlier: usize,
    pub first_waiting: Option<i64>,
    pub stopped: bool,
    pub stats: SyncStats,
}

/// What one pushed change asks for: statements to run, and a report.
pub struct PushStep {
    pub statements: Vec<Statement>,
    pub event: Option<SyncEvent>,
}

/// The view of an optional report.
pub open spec fn opt_event(e: Option<SyncEvent>) -> Option<SyncEventView> {
    match e {
        Some(e) => Some(e@),
        None => None,
    }
}

/// The statement that removes entries from the outbox, if there are any.
pub open spec fn removal(seqs: Seq<i64>) -> Seq<StatementView> {
    match delete_statement(seqs) {
        Some(st) => seq![st],
        None => Seq::empty(),
    }
}

/// The statements that follow the outcome of a push. An accepted change leaves
/// the outbox and its record counts as synced; so leaves a change that lost;
/// one that could not be pushed is put off, if it is still there.
pub open spec fn push_statements(
    entry: EntryView,
    outcome: PushView,
    retry: Option<(i64, Option<Seq<char>>)>,
    now: i64,
) -> Seq<StatementView> {
    match outcome {
        PushView::Accepted { pushed_seqs } => removal(pushed_seqs).push(
            mark_synced_statement(entry.record_id, entry.collection),
        ),
        PushView::ConflictAt { record_id, seq } => removal(seq![seq]),
        PushView::TransientError(text) => match retry {
            Some((retries, log)) => seq![retry_statement(retries, log, entry.seq, text, now)],
            None => Seq::empty(),
        },
    }
}

/// When a change that could not be pushed is tried again: after the wait for as
/// many failures as were noted of it.
pub open spec fn next_attempt(
    entry: EntryView,
    retry: Option<(i64, Option<Seq<char>>)>,
    now: i64,
) -> i64 {
    let failures = match retry {
        Some((retries, _)) => retries as u32,
        None => entry.retries,
    };
    (now + backoff(failures as nat)) as i64
}

/// The report that follows the outcome of a push.
pub open spec fn push_event(
    entry: EntryView,
    outcome: PushView,
    retry: Option<(i64, Option<Seq<char>>)>,
    now: i64,
) -> Option<SyncEventView> {
    match outcome {
        PushView::TransientError(text) => Some(
            SyncEventView::RetryScheduled {
                seq: entry.seq,
                retries: (entry.retries + 1) as u32,
                next_retry_ms: next_attempt(entry, retry, now) as u64,
                error: text,
            },
        ),
        _ => None,
    }
}

/// The counts after the outcome of a push.
pub open spec fn counted(stats: SyncStats, outcome: PushView) -> SyncStats {
    match outcome {
        PushView::Accepted { .. } => SyncStats { pushed: (stats.pushed + 1) as usize, ..stats },
        PushView::ConflictAt { .. } => SyncStats {
            conflicts: (stats.conflicts + 1) as usize,
            ..stats
        },
        PushView::TransientError(_) => SyncStats { errors: (stats.errors + 1) as usize, ..stats },
    }
}

/// The view of a retry state.
pub open spec fn opt_state(s: Option<(i64, Option<String>)>) -> Option<(i64, Option<Seq<char>>)> {
    match s {
        Some((n, log)) => Some((n, opt_text(log))),
        None => None,
    }
}

impl PushCycle {
    /// Every change that is done is counted once, an error ends the cycle, and
    /// no change of the batch stands behind an entry that waits.
    pub open spec fn wf(&self) -> bool {
        &&& self.done <= self.batch@.len()
        &&& all_may_go(self.batch@, self.first_waiting)
        &&& self.earlier + self.batch@.len() <= usize::MAX
        &&& self.stats.pulled == 0
        &&& if self.stopped {
            self.stats.errors == 1 && self.stats.pushed + self.stats.conflicts <= self.earlier
                + self.done
        } else {
            self.stats.errors == 0 && self.stats.pushed + self.stats.conflicts == self.earlier
                + self.done
        }
    }

    /// A cycle over a batch of changes, none of which stands behind the entry
    /// that waits.
    pub fn new(batch: Vec<OutboxPushEntry>, first_waiting: Option<i64>) -> (r: PushCycle)
        requires
            all_may_go(batch@, first_waiting),
        ensures
            r.wf(),
            r.batch@ == batch@,
            r.first_waiting == first_waiting,
            r.done == 0,
            r.earlier == 0,
            !r.stopped,
            r.stats == (SyncStats { pushed: 0, pulled: 0, conflicts: 0, errors: 0 }),
    {
        assert(batch.len() <= usize::MAX);
        PushCycle {
            batch,
            done: 0,
            earlier: 0,
            first_waiting,
            stopped: false,
            stats: SyncStats::default(),
        }
    }

    /// A cycle that could not begin, because the outbox could not be read.
    pub fn failed() -> (r: PushCycle)
        ensures
            r.wf(),
            r.batch@.len() == 0,
            r.done == 0,
            r.earlier == 0,
            r.first_waiting is None,
            r.stopped,
            r.stats == (SyncStats { pushed: 0, pulled: 0, conflicts: 0, errors: 1 }),
    {
        PushCycle {
            batch: Vec::new(),
            done: 0,
            earlier: 0,
            first_waiting: None,
            stopped: true,
            stats: SyncStats { pushed: 0, pulled: 0, conflicts: 0, errors: 1 },
        }
    }

    /// The change to push next.
    pub open spec fn due(&self) -> Option<EntryView> {
        if !self.stopped && self.done < self.batch@.len() {
            Some(self.batch@[self.done as int]@)
        } else {
            None
        }
    }

    /// The change to push next: the first of the batch that is not done, as
    /// long as the cycle has not ended. It never stands behind an entry that
    /// waits.
    pub fn next(&self) -> (r: Option<&OutboxPushEntry>)
        requires
            self.wf(),
        ensures
            if !self.stopped && self.done < self.batch@.len() {
                r is Some && *r->0 == self.batch@[self.done as int]
            } else {
                r is None
            },
            r matches Some(e) ==> may_go(e.seq, self.first_waiting),
            match self.due() {
                Some(e) => r is Some && r->0@ == e,
                None => r is None,
            },
    {
        if !self.stopped && self.done < self.batch.len() {
            Some(&self.batch[self.done])
        } else {
            None
        }
    }

    /// The statement that reads what is needed to put a change off. Only a
    /// push that failed needs it.
    pub fn retry_lookup(&self, outcome: &PushResult) -> (r: Option<Statement>)
        requires
            self.wf(),
            self.done < self.batch@.len(),
        ensures
            match outcome@ {
                PushView::TransientError(_) => r is Some && r->0@ == failures_statement(
                    self.batch@[self.done as int].seq,
                ),
                _ => r is None,
            },
    {
        match outcome {
            PushResult::TransientError(_) => Some(outbox::retry_state(self.batch[self.done].seq)),
            _ => None,
        }
    }

    /// Takes the outcome of pushing the next change. `retry` is what was read
    /// to put it off, and matters only for a push that failed.
    #[verifier::truncate]
    pub fn on_result(
        &mut self,
        outcome: PushResult,
        retry: &Option<(i64, Option<String>)>,
        now: i64,
    ) -> (r: PushStep)
        requires
            old(self).wf(),
            !old(self).stopped,
            old(self).done < old(self).batch@.len(),
            old(self).batch@[old(self).done as int].retries < u32::MAX,
            retry matches Some((retries, _)) ==> retries < i64::MAX,
            now <= i64::MAX - 300_000,
        ensures
            final(self).wf(),
            final(self).batch == old(self).batch,
            final(self).done == old(self).done + 1,
            final(self).earlier == old(self).earlier,
            final(self).first_waiting == old(self).first_waiting,
            final(self).stopped == (outcome@ is TransientError),
            final(self).stats == counted(old(self).stats, outcome@),
            statements_view(r.statements@) == push_statements(
                old(self).batch@[old(self).done as int]@,
                outcome@,
                opt_state(*retry),
                now,
            ),
            opt_event(r.event) == push_event(
                old(self).batch@[old(self).done as int]@,
                outcome@,
                opt_state(*retry),
                now,
            ),
    {
        broadcast use lemma_statements_push;

        let at: usize = self.done;
        assert(at < self.batch.len());
        let entry = &self.batch[at];
        let mut statements: Vec<Statement> = Vec::new();
        assert(statements_view(statements@) =~= Seq::<StatementView>::empty());
        let mut event: Option<SyncEvent> = None;
        let mut stats = self.stats;
        let mut stop: bool = false;
        match outcome {
            PushResult::Accepted { pushed_seqs } => {
                if let Some(st) = outbox::delete_seqs(pushed_seqs.as_slice()) {
                    statements.push(st);
                }
                assert(statements_view(statements@) =~= removal(pushed_seqs@));
                statements.push(
                    records::mark_synced(entry.record_id.as_str(), entry.collection.as_str()),
                );
                stats.pushed = stats.pushed + 1;
            },
            PushResult::ConflictAt { record_id: _, seq } => {
                let seqs: Vec<i64> = vec![seq];
                assert(seqs@ =~= seq![seq]);
                if let Some(st) = outbox::delete_seqs(seqs.as_slice()) {
                    statements.push(st);
                }
                assert(statements_view(statements@) =~= removal(seq![seq]));
                stats.conflicts = stats.conflicts + 1;
            },
            PushResult::TransientError(text) => {
                if let Some(st) = outbox::mark_retry(retry, entry.seq, text.as_str(), now) {
                    statements.push(st);
                }
                assert(statements_view(statements@) =~= push_statements(
                    entry@,
                    PushView::TransientError(text@),
                    opt_state(*retry),
                    now,
                ));
                let failures: u32 = match retry {
                    Some((n, _)) => *n as u32,
                    None => entry.retries,
                };
                let next_at: i64 = now + backoff_ms(failures);
                event = Some(
                    SyncEvent::RetryScheduled {
                        seq: entry.seq,
                        retries: entry.retries + 1,
                        next_retry_ms: next_at as u64,
                        error: text,
                    },
                );
                stats.errors = stats.errors + 1;
                stop = true;
            },
        }
        self.stats = stats;
        self.stopped = stop;
        self.done = at + 1;
        PushStep { statements, event }
    }

    /// Whether the outbox may hold more after this batch, for which `peeked`
    /// entries were read.
    pub open spec fn may_hold_more(&self, peeked: usize, all_written: bool) -> bool {
        &&& all_written
        &&& !self.stopped
        &&& self.done == self.batch@.len()
        &&& self.batch@.len() == peeked
        &&& peeked == PUSH_BATCH
    }

    /// Whether the outbox may hold more: `peeked` entries were read for this
    /// batch, as many as one read gives, and each of them has left the outbox,
    /// since every outcome was written.
    pub fn wants_more(&self, peeked: usize, all_written: bool) -> (r: bool)
        ensures
            r == self.may_hold_more(peeked, all_written),
    {
        all_written && !self.stopped && self.done == self.batch.len() && self.batch.len() == peeked
            && peeked == PUSH_BATCH
    }

    /// Goes on with the next batch, none of which stands behind the entry that
    /// waits now.
    pub fn refill(&mut self, batch: Vec<OutboxPushEntry>, first_waiting: Option<i64>)
        requires
            old(self).wf(),
            all_may_go(batch@, first_waiting),
            !old(self).stopped,
            old(self).done == old(self).batch@.len(),
            old(self).earlier + old(self).done + batch@.len() <= usize::MAX,
        ensures
            final(self).wf(),
            final(self).batch@ == batch@,
            final(self).first_waiting == first_waiting,
            final(self).done == 0,
            final(self).earlier == old(self).earlier + old(self).done,
            !final(self).stopped,
            final(self).stats == old(self).stats,
    {
        self.earlier = self.earlier + self.done;
        self.done = 0;
        self.batch = batch;
        self.first_waiting = first_waiting;
    }

    /// Ends the cycle because the outcome of a push could not be written.
    pub fn on_db_error(&mut self)
        requires
            old(self).wf(),
            !old(self).stopped,
        ensures
            final(self).wf(),
            final(self).batch == old(self).batch,
            final(self).done == old(self).done,
            final(self).earlier == old(self).earlier,
            final(self).first_waiting == old(self).first_waiting,
            final(self).stopped,
            final(self).stats == (SyncStats { errors: 1, ..old(self).stats }),
    {
        self.stopped = true;
        self.stats.errors = self.stats.errors + 1;
    }
}

// ── Pull ────────────────────────────────────────────────────────────────────

/// Whether a pulled record takes the place of the local one: it is later, or
/// there is none.
pub open spec fn wins(local: Option<RecordView>, remote: RemoteView) -> bool {
    match local {
        None => true,
        Some(l) => text_lt(l.hlc, remote.hlc),
    }
}

/// The row that a pulled record is stored as. Where there was a local row, its
/// creation time stays.
pub open spec fn remote_row(local: Option<RecordView>, remote: RemoteView, now: i64) -> RecordView {
    RecordView {
        id: remote.record_id,
        collection: remote.collection,
        data: match remote.data {
            Some(d) => d,
            None => Seq::empty(),
        },
        hlc: remote.hlc,
        schema_version: remote.schema_version,
        format_version: remote.format_version,
        dek_encrypted: None,
        deleted: remote.deleted,
        synced: true,
        created_at: match local {
            Some(l) => l.created_at,
            None => now,
        },
        updated_at: now,
    }
}

/// The statements that apply a pulled record: none where the local one stays,
/// else its row, and the removal of local changes that it has overtaken.
pub open spec fn apply_statements(
    local: Option<RecordView>,
    remote: RemoteView,
    now: i64,
) -> Seq<StatementView> {
    if wins(local, remote) {
        seq![
            upsert_remote_statement(remote_row(local, remote, now)),
            remove_statement(remote.record_id, remote.collection),
        ]
    } else {
        Seq::empty()
    }
}

/// What a pulled record does to the local one that was found for it: the later
/// write wins, and the local one stays on a tie.
pub fn apply_remote_record(local: &Option<RecordRow>, remote: &RemoteRecord, now: i64) -> (r: Vec<
    Statement,
>)
    ensures
        statements_view(r@) == apply_statements(opt_row(*local), remote@, now),
{
    broadcast use lemma_statements_push;

    let mut out: Vec<Statement> = Vec::new();
    assert(statements_view(out@) =~= Seq::<StatementView>::empty());
    let mut created_at: i64 = now;
    if let Some(row) = local {
        if !text_less(row.hlc.as_str(), remote.hlc.as_str()) {
            return out;
        }
        created_at = row.created_at;
    }
    let data: Vec<u8> = match &remote.data {
        Some(d) => copy_bytes(d),
        None => Vec::new(),
    };
    assert(remote@.data is None ==> data@ =~= Seq::<u8>::empty());
    let row = RecordRow {
        id: remote.record_id.clone(),
        collection: remote.collection.clone(),
        data,
        hlc: remote.hlc.clone(),
        schema_version: remote.schema_version,
        format_version: remote.format_version,
        dek_encrypted: None,
        deleted: remote.deleted,
        synced: true,
        created_at,
        updated_at: now,
    };
    assert(row@ == remote_row(opt_row(*local), remote@, now));
    out.push(records::upsert_remote(&row));
    out.push(
        outbox::remove_outbox_for_record(remote.record_id.as_str(), remote.collection.as_str()),
    );
    assert(statements_view(out@) =~= apply_statements(opt_row(*local), remote@, now));
    out
}

/// A pull cycle under way: the checkpoint it began from, the one it has come
/// to, the clock, and the counts.
pub struct PullCycle {
    pub from: Option<String>,
    pub reached: Option<String>,
    pub clock: Hlc,
    pub stats: SyncStats,
}

/// A pull cycle, with its checkpoints as characters.
pub struct PullView {
    pub from: Option<Seq<char>>,
    pub reached: Option<Seq<char>>,
    pub clock: Hlc,
    pub stats: SyncStats,
}

impl View for PullCycle {
    type V = PullView;

    open spec fn view(&self) -> PullView {
        PullView {
            from: opt_text(self.from),
            reached: opt_text(self.reached),
            clock: self.clock,
            stats: self.stats,
        }
    }
}

/// A pull cycle after one more record.
pub open spec fn noted(v: PullView, hlc: Seq<char>, applied: bool, wall_ms: u64) -> PullView {
    if applied {
        PullView {
            reached: Some(advanced(v.reached, hlc)),
            clock: observed(v.clock, hlc, wall_ms),
            stats: SyncStats { pulled: (v.stats.pulled + 1) as usize, ..v.stats },
            ..v
        }
    } else {
        PullView {
            stats: SyncStats { errors: (v.stats.errors + 1) as usize, ..v.stats },
            ..v
        }
    }
}

/// The statement that keeps the checkpoint of a cycle, if it has moved.
pub open spec fn kept_checkpoint(v: PullView, backend_id: Seq<char>) -> Option<StatementView> {
    if v.reached is Some && v.reached != v.from {
        Some(checkpoint_statement(backend_id, v.reached->0))
    } else {
        None
    }
}

/// The later of a checkpoint and a clock reading.
pub open spec fn advanced(checkpoint: Option<Seq<char>>, hlc: Seq<char>) -> Seq<char> {
    match checkpoint {
        Some(cp) => if text_lt(cp, hlc) {
            hlc
        } else {
            cp
        },
        None => hlc,
    }
}

impl PullCycle {
    /// A cycle from a checkpoint on.
    pub fn new(checkpoint: Option<String>, clock: Hlc) -> (r: PullCycle)
        ensures
            r@ == (PullView {
                from: opt_text(checkpoint),
                reached: opt_text(checkpoint),
                clock,
                stats: SyncStats { pushed: 0, pulled: 0, conflicts: 0, errors: 0 },
            }),
    {
        let reached: Option<String> = match &checkpoint {
            Some(cp) => Some(cp.clone()),
            None => None,
        };
        PullCycle { from: checkpoint, reached, clock, stats: SyncStats::default() }
    }

    /// The counts of a cycle that could not begin, or whose remote store could
    /// not be read.
    pub fn failed() -> (r: SyncStats)
        ensures
            r == (SyncStats { pushed: 0, pulled: 0, conflicts: 0, errors: 1 }),
    {
        SyncStats { pushed: 0, pulled: 0, conflicts: 0, errors: 1 }
    }

    /// Takes note of a pulled record. One that was applied, or passed over
    /// because the local one is later, moves the checkpoint and the clock on;
    /// one that could not be written is an error and moves neither.
    pub fn on_record(&mut self, remote: &RemoteRecord, applied: bool, wall_ms: u64)
        requires
            old(self).stats.pulled < usize::MAX,
            old(self).stats.errors < usize::MAX,
        ensures
            final(self)@ == noted(old(self)@, remote.hlc@, applied, wall_ms),
    {
        if !applied {
            self.stats.errors = self.stats.errors + 1;
            return;
        }
        self.stats.pulled = self.stats.pulled + 1;
        self.clock = self.clock.observe(remote.hlc.as_str(), wall_ms);
        let later: bool = match &self.reached {
            Some(cp) => text_less(cp.as_str(), remote.hlc.as_str()),
            None => true,
        };
        if later {
            self.reached = Some(remote.hlc.clone());
        }
    }

    /// The statement that keeps the checkpoint, if it has moved.
    pub fn finish(&self, backend_id: &str) -> (r: Option<Statement>)
        ensures
            match kept_checkpoint(self@, backend_id@) {
                Some(st) => r is Some && r->0@ == st,
                None => r is None,
            },
    {
        match &self.reached {
            None => None,
            Some(cp) => {
                let same: bool = match &self.from {
                    Some(old_cp) => text_same(old_cp.as_str(), cp.as_str()),
                    None => false,
                };
                if same {
                    None
                } else {
                    Some(sync_state::set_checkpoint(backend_id, cp.as_str()))
                }
            },
        }
    }
}

// ── When a cycle runs ───────────────────────────────────────────────────────

/// How long after the last of a burst of writes a cycle runs, in milliseconds.
pub const DEBOUNCE_MS: u64 = 500;

/// How long after a cycle the next runs in any case, in milliseconds.
pub const PERIODIC_MS: u64 = 60_000;

/// What wakes the sync loop.
#[derive(Debug, Clone, Copy, PartialEq, Eq, Structural)]
pub enum LoopEvent {
    /// The engine was opened.
    Opened,
    /// The time that the loop waited for has come.
    Elapsed,
    /// A record was written.
    Kick,
    /// A caller waits for a cycle.
    ForceSync,
    /// Nobody can wake the loop any more.
    Closed,
}

/// What the sync loop does next.
#[derive(Debug, Clone, Copy, PartialEq, Eq, Structural)]
pub enum LoopAction {
    Wait,
    RunCycle,
    Exit,
}

/// The sync loop between cycles: when the next cycle is due, until when a burst
/// of writes is waited out, and how many callers wait for a cycle.
#[derive(Debug, Clone, Copy, PartialEq, Eq, Structural)]
pub struct SyncLoop {
    pub deadline: u64,
    pub debounce: Option<u64>,
    pub waiting: usize,
}

/// Until when the loop waits for an event: the end of a burst of writes, but
/// never past the time at which the next cycle is due.
pub open spec fn waits_until(s: SyncLoop) -> u64 {
    match s.debounce {
        Some(end) => if end < s.deadline {
            end
        } else {
            s.deadline
        },
        None => s.deadline,
    }
}

/// What an event makes of the loop, at the time `now`. A burst of writes is
/// waited out up to the time at which the next cycle is due.
pub open spec fn loop_after(s: SyncLoop, event: LoopEvent, now: u64) -> (SyncLoop, LoopAction) {
    let rested = SyncLoop { deadline: (now + PERIODIC_MS) as u64, debounce: None, ..s };
    match event {
        LoopEvent::Opened => (rested, LoopAction::RunCycle),
        LoopEvent::Elapsed => (rested, LoopAction::RunCycle),
        LoopEvent::Kick => if now < s.deadline {
            (SyncLoop { debounce: Some((now + DEBOUNCE_MS) as u64), ..s }, LoopAction::Wait)
        } else {
            (rested, LoopAction::RunCycle)
        },
        LoopEvent::ForceSync => (
            SyncLoop { waiting: (s.waiting + 1) as usize, ..rested },
            LoopAction::RunCycle,
        ),
        LoopEvent::Closed => if s.debounce is Some {
            (rested, LoopAction::RunCycle)
        } else {
            (s, LoopAction::Exit)
        },
    }
}

/// The loop after a cycle, and how many callers are to be answered.
pub open spec fn loop_answers(s: SyncLoop) -> (SyncLoop, usize) {
    (SyncLoop { waiting: 0, ..s }, s.waiting)
}

impl SyncLoop {
    /// A loop that begins at the time `now`.
    pub fn new(now: u64) -> (r: SyncLoop)
        requires
            now <= u64::MAX - PERIODIC_MS,
        ensures
            r == (SyncLoop {
                deadline: (now + PERIODIC_MS) as u64,
                debounce: None,
                waiting: 0,
            }),
    {
        SyncLoop { deadline: now + PERIODIC_MS, debounce: None, waiting: 0 }
    }

    /// Until when the loop waits for an event: the end of a burst of writes or
    /// the next cycle, whichever comes first.
    pub fn wait_until(&self) -> (r: u64)
        ensures
            r == waits_until(*self),
            r <= self.deadline,
    {
        match self.debounce {
            Some(end) => if end < self.deadline {
                end
            } else {
                self.deadline
            },
            None => self.deadline,
        }
    }

    /// Takes an event. A burst of writes is waited out before the cycle runs; a
    /// caller who waits cuts that short, and so does the time of the next cycle.
    pub fn on_event(&mut self, event: LoopEvent, now: u64) -> (r: LoopAction)
        requires
            now <= u64::MAX - PERIODIC_MS,
            old(self).waiting < usize::MAX,
        ensures
            (*final(self), r) == loop_after(*old(self), event, now),
    {
        match event {
            LoopEvent::Kick => {
                if now < self.deadline {
                    self.debounce = Some(now + DEBOUNCE_MS);
                    return LoopAction::Wait;
                }
            },
            LoopEvent::Closed => {
                if self.debounce.is_none() {
                    return LoopAction::Exit;
                }
            },
            LoopEvent::ForceSync => {
                self.waiting = self.waiting + 1;
            },
            LoopEvent::Opened | LoopEvent::Elapsed => {},
        }
        self.deadline = now + PERIODIC_MS;
        self.debounce = None;
        LoopAction::RunCycle
    }

    /// Ends a cycle: gives how many callers are to be answered.
    pub fn cycle_done(&mut self) -> (r: usize)
        ensures
            (*final(self), r) == loop_answers(*old(self)),
    {
        let n: usize = self.waiting;
        self.waiting = 0;
        n
    }
}

/// The counts of a push and a pull together.
pub open spec fn together(push: SyncStats, pull: SyncStats) -> SyncStats {
    SyncStats {
        pushed: push.pushed,
        pulled: pull.pulled,
        conflicts: push.conflicts,
        errors: (push.errors + pull.errors) as usize,
    }
}

/// The counts of a push and a pull together.
pub fn combine(push: &SyncStats, pull: &SyncStats) -> (r: SyncStats)
    requires
        push.errors + pull.errors <= usize::MAX,
    ensures
        r == together(*push, *pull),
{
    SyncStats {
        pushed: push.pushed,
        pulled: pull.pulled,
        conflicts: push.conflicts,
        errors: push.errors + pull.errors,
    }
}

} // verus!
