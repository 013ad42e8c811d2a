//! What the statements on the outbox do: the outbox as a map from numbers to
//! entries, how each statement changes it, and the entries that each one reads.

use vstd::prelude::*;
use vstd::string::*;

use crate::db::outbox::{
    delete_statement, outbox_columns, outbox_entry_of, OutboxView,
};
use crate::db::row::{
    blob_or_null, int_in, law_rows_are_checked, opt_blob_in, text_in, text_or_null, ColumnKind,
};
use crate::db::statement::{SqlView, StatementView};
use crate::db::table::lemma_no_misfit;
use crate::db::texts;
use crate::error::ErrorView;
use crate::text::joined;

verus! {

/// The entries of the outbox, by their numbers.
pub type Outbox = Map<i64, OutboxView>;

/// Whether every entry stands under its own number.
pub open spec fn well_numbered(t: Outbox) -> bool {
    forall|seq: i64| #[trigger] t.contains_key(seq) ==> t[seq].seq == seq
}

/// Whether a number comes after all that are used.
pub open spec fn is_next(t: Outbox, fresh: i64) -> bool {
    forall|seq: i64| #[trigger] t.contains_key(seq) ==> seq < fresh
}

/// A change as it is queued: it has not failed, and is due at once.
pub open spec fn queued(
    seq: i64,
    record_id: Seq<char>,
    collection: Seq<char>,
    operation: Seq<char>,
    hlc: Seq<char>,
    data: Option<Seq<u8>>,
    now: i64,
) -> OutboxView {
    OutboxView {
        seq,
        record_id,
        collection,
        operation,
        hlc,
        data,
        created_at: now,
        next_retry_at: 0,
        retries: 0,
        last_error: None,
        error_log: None,
    }
}

/// The entries but those of which something holds.
pub open spec fn without(t: Outbox, gone: spec_fn(OutboxView) -> bool) -> Outbox {
    Map::new(|seq: i64| t.contains_key(seq) && !gone(t[seq]), |seq: i64| t[seq])
}

/// Whether an entry is of a record.
pub open spec fn is_of(record_id: Seq<char>, collection: Seq<char>) -> spec_fn(OutboxView) -> bool {
    |e: OutboxView| e.record_id == record_id && e.collection == collection
}

/// Whether an entry has one of some numbers.
pub open spec fn is_one_of(seqs: Seq<SqlView>) -> spec_fn(OutboxView) -> bool {
    |e: OutboxView| seqs.contains(SqlView::Integer(e.seq))
}

/// The outbox after a statement, where `fresh` is the number that a new entry
/// gets. Statements that speak of other tables leave it as it is.
pub open spec fn outbox_ran(t: Outbox, st: StatementView, fresh: i64) -> Outbox {
    let p = st.params;
    if st.sql == texts::queue_change() {
        t.insert(
            fresh,
            queued(
                fresh,
                text_in(p[0]),
                text_in(p[1]),
                text_in(p[2]),
                text_in(p[3]),
                opt_blob_in(p[4]),
                int_in(p[5]),
            ),
        )
    } else if st.sql == texts::put_off_change() {
        if t.contains_key(int_in(p[4])) {
            t.insert(
                int_in(p[4]),
                OutboxView {
                    retries: int_in(p[0]) as u32,
                    next_retry_at: int_in(p[1]),
                    last_error: Some(text_in(p[2])),
                    error_log: Some(text_in(p[3])),
                    ..t[int_in(p[4])]
                },
            )
        } else {
            t
        }
    } else if st.sql == texts::drop_change() {
        t.remove(int_in(p[0]))
    } else if st.sql == texts::drop_changes_of() {
        without(t, is_of(text_in(p[0]), text_in(p[1])))
    } else if st.sql == texts::drop_changes(p.len()) {
        without(t, is_one_of(p))
    } else {
        t
    }
}

/// The outbox after a list of statements, one after the other. At most one of
/// them appends an entry, which gets the number `fresh`.
pub open spec fn outbox_ran_all(t: Outbox, script: Seq<StatementView>, fresh: i64) -> Outbox
    decreases script.len(),
{
    if script.len() == 0 {
        t
    } else {
        outbox_ran(outbox_ran_all(t, script.drop_last(), fresh), script.last(), fresh)
    }
}

/// Whether a statement's text shows that it writes an index.
pub open spec fn is_on_index(st: StatementView) -> bool {
    &&& st.sql.len() > 12
    &&& st.sql[0] == 'D' || st.sql[0] == 'I'
    &&& st.sql[12] == 's' || st.sql[12] == 'f'
}

/// Statements on an index leave the outbox as it is.
pub(crate) proof fn lemma_index_leaves_outbox(t: Outbox, st: StatementView, fresh: i64)
    requires
        is_on_index(st),
    ensures
        outbox_ran(t, st, fresh) == t,
{
    reveal_strlit("INSERT INTO outbox (record_id, collection, operation, hlc, data, created_at) VALUES (?1, ?2, ?3, ?4, ?5, ?6)");
    reveal_strlit("UPDATE outbox SET retries = ?1, next_retry_at = ?2, last_error = ?3, error_log = ?4 WHERE seq = ?5");
    reveal_strlit("DELETE FROM outbox WHERE seq = ?1");
    reveal_strlit("DELETE FROM outbox WHERE record_id = ?1 AND collection = ?2");
    reveal_strlit("DELETE FROM outbox WHERE seq IN (");
    assert(texts::queue_change()[12] == 'o');
    assert(texts::put_off_change()[0] == 'U');
    assert(texts::drop_change()[12] == 'o');
    assert(texts::drop_changes_of()[12] == 'o');
    assert(texts::drop_changes(st.params.len())[12] == 'o');
}

/// The outbox after one statement and others that leave it.
pub(crate) proof fn lemma_two_then_index(
    t: Outbox,
    script: Seq<StatementView>,
    fresh: i64,
)
    requires
        script.len() >= 2,
        forall|i: int| 2 <= i < script.len() ==> is_on_index(#[trigger] script[i]),
    ensures
        outbox_ran_all(t, script, fresh) == outbox_ran(
            outbox_ran(t, script[0], fresh),
            script[1],
            fresh,
        ),
    decreases script.len(),
{
    let front = script.drop_last();
    if script.len() > 2 {
        assert forall|i: int| 2 <= i < front.len() implies is_on_index(#[trigger] front[i]) by {
            assert(script[i] == front[i]);
        }
        lemma_two_then_index(t, front, fresh);
        assert(is_on_index(script[script.len() - 1]));
        lemma_index_leaves_outbox(outbox_ran_all(t, front, fresh), script.last(), fresh);
    } else {
        assert(front.drop_last() =~= Seq::<StatementView>::empty());
        assert(outbox_ran_all(t, front.drop_last(), fresh) == t);
        assert(outbox_ran_all(t, front, fresh) == outbox_ran(t, script[0], fresh));
    }
}

/// The text that discards some changes.
pub(crate) proof fn lemma_drop_text(seqs: Seq<i64>)
    requires
        seqs.len() > 0,
    ensures
        delete_statement(seqs) is Some,
        delete_statement(seqs)->0.sql == texts::drop_changes(seqs.len()),
        delete_statement(seqs)->0.params.len() == seqs.len(),
{
    lemma_marks(seqs.len());
}

proof fn lemma_marks(n: nat)
    ensures
        joined(Seq::new(n, |i: int| "?"@), ","@) == texts::marks(n),
    decreases n,
{
    let all = Seq::new(n, |i: int| "?"@);
    if n > 1 {
        lemma_marks((n - 1) as nat);
        assert(all.drop_last() =~= Seq::new((n - 1) as nat, |i: int| "?"@));
    }
}

// ── Reading ─────────────────────────────────────────────────────────────────

/// Whether entries are those of the outbox of which something holds, oldest
/// first.
pub open spec fn is_queue(
    t: Outbox,
    wanted: spec_fn(OutboxView) -> bool,
    list: Seq<OutboxView>,
) -> bool {
    &&& forall|i: int|
        0 <= i < list.len() ==> {
            &&& t.contains_key((#[trigger] list[i]).seq)
            &&& t[list[i].seq] == list[i]
            &&& wanted(list[i])
        }
    &&& forall|seq: i64| #[trigger]
        t.contains_key(seq) && wanted(t[seq]) ==> exists|i: int|
            0 <= i < list.len() && #[trigger] list[i] == t[seq]
    &&& forall|i: int, j: int|
        0 <= i < j < list.len() ==> (#[trigger] list[i]).seq < (#[trigger] list[j]).seq
}

/// Whether an entry is due at a time.
pub open spec fn is_due(now: i64) -> spec_fn(OutboxView) -> bool {
    |e: OutboxView| e.next_retry_at <= now
}

/// Whether an entry has failed.
pub open spec fn has_failed() -> spec_fn(OutboxView) -> bool {
    |e: OutboxView| e.retries > 0
}

/// The first of some entries. A negative limit is none.
pub open spec fn first_of(list: Seq<OutboxView>, limit: i64) -> Seq<OutboxView> {
    if limit < 0 || limit >= list.len() {
        list
    } else {
        list.take(limit as int)
    }
}

/// Whether a statement may read these entries of the outbox: those that are due
/// at a time, or those that have failed. Nothing is said of others.
pub open spec fn outbox_answers(t: Outbox, st: StatementView, list: Seq<OutboxView>) -> bool {
    &&& st.sql == texts::due_changes() ==> exists|all: Seq<OutboxView>| #[trigger]
        is_queue(t, is_due(int_in(st.params[0])), all) && list == first_of(
            all,
            int_in(st.params[1]),
        )
    &&& st.sql == texts::failed_changes() ==> is_queue(t, has_failed(), list)
}

/// Whether a statement may read this number: the oldest entry that is not due.
pub open spec fn waiting_answers(t: Outbox, st: StatementView, found: Option<i64>) -> bool {
    st.sql == texts::waiting_change() ==> match found {
        Some(w) => {
            &&& t.contains_key(w)
            &&& t[w].next_retry_at > int_in(st.params[0])
            &&& forall|seq: i64| #[trigger]
                t.contains_key(seq) && seq < w ==> t[seq].next_retry_at <= int_in(st.params[0])
        },
        None => forall|seq: i64| #[trigger]
            t.contains_key(seq) ==> t[seq].next_retry_at <= int_in(st.params[0]),
    }
}

/// Whether a statement may read this of an entry: how often it failed, and its
/// error log.
pub open spec fn failures_answer(
    t: Outbox,
    st: StatementView,
    found: Option<(i64, Option<Seq<char>>)>,
) -> bool {
    st.sql == texts::change_failures() ==> found == (if t.contains_key(int_in(st.params[0])) {
        let e = t[int_in(st.params[0])];
        Some((e.retries as i64, e.error_log))
    } else {
        None
    })
}

/// The values of an entry, in the order in which every statement selects them.
pub open spec fn entry_values(e: OutboxView) -> Seq<SqlView> {
    seq![
        SqlView::Integer(e.seq),
        SqlView::Text(e.record_id),
        SqlView::Text(e.collection),
        SqlView::Text(e.operation),
        SqlView::Text(e.hlc),
        blob_or_null(e.data),
        SqlView::Integer(e.created_at),
        SqlView::Integer(e.next_retry_at),
        SqlView::Integer(e.retries as i64),
        text_or_null(e.last_error),
        text_or_null(e.error_log),
    ]
}

/// The values of an entry read back as that entry.
pub proof fn law_entry_round_trip(e: OutboxView)
    ensures
        outbox_entry_of(entry_values(e)) == Ok::<OutboxView, ErrorView>(e),
{
    lemma_no_misfit(entry_values(e), outbox_columns());
}

/// A row is an outbox entry exactly where each of its columns holds what it
/// should, and the entry then says of every column what stands there.
pub proof fn law_entry_is_read_by_columns(row: Seq<SqlView>)
    ensures
        outbox_entry_of(row) is Ok <==> {
            &&& row.len() >= 11
            &&& row[0] is Integer
            &&& row[1] is Text
            &&& row[2] is Text
            &&& row[3] is Text
            &&& row[4] is Text
            &&& row[5] is Blob || row[5] is Null
            &&& row[6] is Integer
            &&& row[7] is Integer
            &&& row[8] is Integer
            &&& row[9] is Text || row[9] is Null
            &&& row[10] is Text || row[10] is Null
        },
        outbox_entry_of(row) matches Ok(r) ==> {
            &&& row[0] == SqlView::Integer(r.seq)
            &&& row[1] == SqlView::Text(r.record_id)
            &&& row[2] == SqlView::Text(r.collection)
            &&& row[3] == SqlView::Text(r.operation)
            &&& row[4] == SqlView::Text(r.hlc)
            &&& row[5] == blob_or_null(r.data)
            &&& row[6] == SqlView::Integer(r.created_at)
            &&& row[7] == SqlView::Integer(r.next_retry_at)
            &&& row[8] matches SqlView::Integer(n) ==> {
                0 <= n <= 0xffff_ffff ==> r.retries == n
            }
            &&& row[9] == text_or_null(r.last_error)
            &&& row[10] == text_or_null(r.error_log)
        },
{
    let columns = outbox_columns();
    law_rows_are_checked(row, columns);
    assert(columns[0].1 == ColumnKind::Integer);
    assert(columns[1].1 == ColumnKind::Text);
    assert(columns[2].1 == ColumnKind::Text);
    assert(columns[3].1 == ColumnKind::Text);
    assert(columns[4].1 == ColumnKind::Text);
    assert(columns[5].1 == ColumnKind::BlobOrNull);
    assert(columns[6].1 == ColumnKind::Integer);
    assert(columns[7].1 == ColumnKind::Integer);
    assert(columns[8].1 == ColumnKind::Integer);
    assert(columns[9].1 == ColumnKind::TextOrNull);
    assert(columns[10].1 == ColumnKind::TextOrNull);
}

} // verus!
