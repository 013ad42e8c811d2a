//! What the statements on blobs do: the blobs as a map from ids to rows, their
//! parts as a map from numbers to tags, how each statement changes them, and the
//! rows that each one reads.

use vstd::prelude::*;
use vstd::string::*;

use crate::db::blobs::{
    blob_columns, blob_of, part_columns, part_of, parts_statement, ready_statement, word_values,
    BlobPartView, BlobView,
};
use crate::db::row::{
    first_misfit, int_in, int_or_null, law_rows_are_checked, opt_int_in, opt_text_in, text_in,
    text_or_null, ColumnKind,
};
use crate::db::statement::{SqlView, StatementView};
use crate::db::table::lemma_no_misfit;
use crate::db::texts;
use crate::error::ErrorView;
use crate::text::{decimal, joined};

verus! {

/// The blobs, by their ids.
pub type Blobs = Map<Seq<char>, BlobView>;

/// The tags of the parts that were uploaded, by blob and number.
pub type Parts = Map<(Seq<char>, i64), Seq<char>>;

/// The blobs with the row of an id replaced, where there is one.
pub open spec fn changed(t: Blobs, id: Seq<char>, row: BlobView) -> Blobs {
    if t.contains_key(id) {
        t.insert(id, row)
    } else {
        t
    }
}

/// The blobs after a statement. Statements that speak of other tables leave them
/// as they are.
pub open spec fn blobs_ran(t: Blobs, st: StatementView) -> Blobs {
    let p = st.params;
    if st.sql == texts::write_blob() {
        t.insert(
            text_in(p[0]),
            BlobView {
                id: text_in(p[0]),
                record_id: opt_text_in(p[1]),
                collection: opt_text_in(p[2]),
                local_path: opt_text_in(p[3]),
                s3_key: text_in(p[4]),
                size_bytes: opt_int_in(p[5]),
                upload_id: opt_text_in(p[6]),
                status: text_in(p[7]),
                format_version: int_in(p[8]) as u8,
                retries: 0,
                next_retry_at: 0,
                last_error: None,
                error_log: None,
                created_at: int_in(p[9]),
                updated_at: int_in(p[10]),
            },
        )
    } else if st.sql == texts::set_blob_status() {
        let id = text_in(p[2]);
        changed(t, id, BlobView { status: text_in(p[0]), updated_at: int_in(p[1]), ..t[id] })
    } else if st.sql == texts::set_blob_path() {
        let id = text_in(p[3]);
        changed(
            t,
            id,
            BlobView {
                local_path: Some(text_in(p[0])),
                size_bytes: Some(int_in(p[1])),
                updated_at: int_in(p[2]),
                ..t[id]
            },
        )
    } else if st.sql == texts::set_blob_upload() {
        let id = text_in(p[2]);
        changed(
            t,
            id,
            BlobView {
                upload_id: Some(text_in(p[0])),
                status: "uploading"@,
                updated_at: int_in(p[1]),
                ..t[id]
            },
        )
    } else if st.sql == texts::clear_blob_upload() {
        let id = text_in(p[1]);
        changed(
            t,
            id,
            BlobView {
                upload_id: None,
                status: "pending"@,
                next_retry_at: 0,
                updated_at: int_in(p[0]),
                ..t[id]
            },
        )
    } else if st.sql == texts::put_off_blob() {
        let id = text_in(p[5]);
        changed(
            t,
            id,
            BlobView {
                retries: int_in(p[0]) as u32,
                next_retry_at: int_in(p[1]),
                last_error: Some(text_in(p[2])),
                error_log: Some(text_in(p[3])),
                updated_at: int_in(p[4]),
                ..t[id]
            },
        )
    } else {
        t
    }
}

/// The parts after a statement.
pub open spec fn parts_ran(t: Parts, st: StatementView) -> Parts {
    let p = st.params;
    if st.sql == texts::write_part() {
        t.insert((text_in(p[0]), int_in(p[1])), text_in(p[2]))
    } else if st.sql == texts::drop_parts() {
        Map::new(
            |k: (Seq<char>, i64)| t.contains_key(k) && k.0 != text_in(p[0]),
            |k: (Seq<char>, i64)| t[k],
        )
    } else {
        t
    }
}

/// The blobs after a list of statements, one after the other.
pub open spec fn blobs_ran_all(t: Blobs, script: Seq<StatementView>) -> Blobs
    decreases script.len(),
{
    if script.len() == 0 {
        t
    } else {
        blobs_ran(blobs_ran_all(t, script.drop_last()), script.last())
    }
}

/// The parts after a list of statements, one after the other.
pub open spec fn parts_ran_all(t: Parts, script: Seq<StatementView>) -> Parts
    decreases script.len(),
{
    if script.len() == 0 {
        t
    } else {
        parts_ran(parts_ran_all(t, script.drop_last()), script.last())
    }
}

// ── Reading ─────────────────────────────────────────────────────────────────

/// The text of the statement that reads the blobs in one of `n` statuses that
/// are due.
pub open spec fn ready_text(n: nat) -> Seq<char> {
    "SELECT id, record_id, collection, local_path, s3_key, size_bytes, upload_id, status, format_version, retries, next_retry_at, last_error, error_log, created_at, updated_at FROM blobs WHERE status IN ("@
        + texts::marks(n) + ") AND next_retry_at <= ?"@ + decimal(n + 1)
        + " ORDER BY created_at ASC"@
}

/// Whether blobs are those of which something holds, each once, oldest first.
pub open spec fn is_ready_list(
    t: Blobs,
    wanted: spec_fn(BlobView) -> bool,
    list: Seq<BlobView>,
) -> bool {
    &&& list.no_duplicates()
    &&& forall|row: BlobView| #[trigger]
        list.contains(row) <==> t.contains_key(row.id) && t[row.id] == row && wanted(row)
    &&& forall|i: int, j: int|
        0 <= i < j < list.len() ==> (#[trigger] list[i]).created_at <= (
        #[trigger] list[j]).created_at
}

/// Whether a blob is in one of the statuses that are bound, and due at the time
/// that is bound behind them.
pub open spec fn is_ready(p: Seq<SqlView>) -> spec_fn(BlobView) -> bool {
    |row: BlobView|
        p.drop_last().contains(SqlView::Text(row.status)) && row.next_retry_at <= int_in(p.last())
}

/// Whether a statement may read these blobs: one by its id, or those that are
/// due. Nothing is said of others.
pub open spec fn blobs_answer(t: Blobs, st: StatementView, list: Seq<BlobView>) -> bool {
    &&& st.sql == texts::read_blob() ==> list == (if t.contains_key(text_in(st.params[0])) {
        seq![t[text_in(st.params[0])]]
    } else {
        Seq::empty()
    })
    &&& st.params.len() > 1 && st.sql == ready_text((st.params.len() - 1) as nat) ==> is_ready_list(
        t,
        is_ready(st.params),
        list,
    )
}

/// Whether a statement may read this of a blob: how often it failed, and its
/// error log.
pub open spec fn blob_failures_answer(
    t: Blobs,
    st: StatementView,
    found: Option<(i64, Option<Seq<char>>)>,
) -> bool {
    st.sql == texts::blob_failures() ==> found == (if t.contains_key(text_in(st.params[0])) {
        let row = t[text_in(st.params[0])];
        Some((row.retries as i64, row.error_log))
    } else {
        None
    })
}

/// Whether the parts of a blob may be read as these: every one that was kept,
/// each once, in the order of their numbers.
pub open spec fn parts_answer(t: Parts, st: StatementView, list: Seq<(i64, Seq<char>)>) -> bool {
    st.sql == texts::read_parts() ==> {
        let blob = text_in(st.params[0]);
        &&& forall|number: i64, etag: Seq<char>| #[trigger]
            list.contains((number, etag)) <==> t.contains_key((blob, number)) && t[(blob, number)]
                == etag
        &&& forall|i: int, j: int|
            0 <= i < j < list.len() ==> (#[trigger] list[i]).0 < (#[trigger] list[j]).0
    }
}

/// The parts that are read of a blob are those that were kept of it and no
/// others, in the order of their numbers.
pub proof fn law_parts_are_read_in_order(t: Parts, blob_id: Seq<char>, list: Seq<(i64, Seq<char>)>)
    requires
        parts_answer(t, parts_statement(blob_id), list),
    ensures
        forall|number: i64, etag: Seq<char>| #[trigger]
            list.contains((number, etag)) <==> t.contains_key((blob_id, number)) && t[(
                blob_id,
                number,
            )] == etag,
        forall|i: int, j: int|
            0 <= i < j < list.len() ==> (#[trigger] list[i]).0 < (#[trigger] list[j]).0,
{
    assert(text_in(parts_statement(blob_id).params[0]) == blob_id);
}

proof fn lemma_ready_marks(n: nat)
    ensures
        joined(Seq::new(n, |i: int| "?"@), ","@) == texts::marks(n),
    decreases n,
{
    let all = Seq::new(n, |i: int| "?"@);
    if n > 1 {
        lemma_ready_marks((n - 1) as nat);
        assert(all.drop_last() =~= Seq::new((n - 1) as nat, |i: int| "?"@));
    }
}

/// The blobs that are read as due are those in one of the asked statuses whose
/// next attempt has come: all of them and no others, oldest first. Where no
/// status is asked for there is nothing to read.
pub proof fn law_due_blobs_are_read(t: Blobs, statuses: Seq<&str>, now: i64, list: Seq<BlobView>)
    requires
        ready_statement(statuses, now) matches Some(st) ==> blobs_answer(t, st, list),
    ensures
        ready_statement(statuses, now) is Some <==> statuses.len() > 0,
        statuses.len() > 0 ==> {
            &&& list.no_duplicates()
            &&& forall|row: BlobView| #[trigger]
                list.contains(row) <==> {
                    &&& t.contains_key(row.id)
                    &&& t[row.id] == row
                    &&& row.next_retry_at <= now
                    &&& exists|k: int|
                        0 <= k < statuses.len() && (#[trigger] statuses[k])@ == row.status
                }
            &&& forall|i: int, j: int|
                0 <= i < j < list.len() ==> (#[trigger] list[i]).created_at <= (
                #[trigger] list[j]).created_at
        },
{
    if statuses.len() > 0 {
        let st = ready_statement(statuses, now)->0;
        lemma_ready_marks(statuses.len());
        assert(st.params.len() == statuses.len() + 1);
        assert(st.sql == ready_text(statuses.len()));
        let p = st.params;
        let wanted = is_ready(p);
        assert(is_ready_list(t, wanted, list));
        assert(p.drop_last() =~= word_values(statuses));
        assert forall|row: BlobView| #[trigger] list.contains(row) <==> {
            &&& t.contains_key(row.id)
            &&& t[row.id] == row
            &&& row.next_retry_at <= now
            &&& exists|k: int| 0 <= k < statuses.len() && (#[trigger] statuses[k])@ == row.status
        } by {
            assert(wanted(row) <==> p.drop_last().contains(SqlView::Text(row.status))
                && row.next_retry_at <= now);
            if p.drop_last().contains(SqlView::Text(row.status)) {
                let k = choose|k: int|
                    0 <= k < p.drop_last().len() && p.drop_last()[k] == SqlView::Text(row.status);
                assert(statuses[k]@ == row.status);
            }
            if exists|k: int| 0 <= k < statuses.len() && (#[trigger] statuses[k])@ == row.status {
                let k = choose|k: int|
                    0 <= k < statuses.len() && (#[trigger] statuses[k])@ == row.status;
                assert(p.drop_last()[k] == SqlView::Text(row.status));
            }
        }
    }
}

/// The values of a blob, in the order in which every statement selects them.
pub open spec fn blob_values(row: BlobView) -> Seq<SqlView> {
    seq![
        SqlView::Text(row.id),
        text_or_null(row.record_id),
        text_or_null(row.collection),
        text_or_null(row.local_path),
        SqlView::Text(row.s3_key),
        int_or_null(row.size_bytes),
        text_or_null(row.upload_id),
        SqlView::Text(row.status),
        SqlView::Integer(row.format_version as i64),
        SqlView::Integer(row.retries as i64),
        SqlView::Integer(row.next_retry_at),
        text_or_null(row.last_error),
        text_or_null(row.error_log),
        SqlView::Integer(row.created_at),
        SqlView::Integer(row.updated_at),
    ]
}

/// The values of a blob read back as that blob.
pub proof fn law_blob_round_trip(row: BlobView)
    ensures
        blob_of(blob_values(row)) == Ok::<BlobView, ErrorView>(row),
{
    lemma_no_misfit(blob_values(row), blob_columns());
}

/// The values of a part read back as that part.
pub proof fn law_part_round_trip(part: BlobPartView)
    ensures
        part_of(
            seq![
                SqlView::Text(part.blob_id),
                SqlView::Integer(part.part_number as i64),
                text_or_null(part.etag),
                SqlView::Integer(if part.uploaded { 1 } else { 0 }),
            ],
        ) == Ok::<BlobPartView, ErrorView>(part),
{
    let row = seq![
        SqlView::Text(part.blob_id),
        SqlView::Integer(part.part_number as i64),
        text_or_null(part.etag),
        SqlView::Integer(if part.uploaded { 1 } else { 0 }),
    ];
    lemma_no_misfit(row, part_columns());
    lemma_no_misfit(row, part_columns().take(2));
    assert(first_misfit(row, part_columns()) is None);
}

/// A row is a blob exactly where each of its columns holds what it should, and
/// the blob then says of every column what stands there.
pub proof fn law_blob_is_read_by_columns(row: Seq<SqlView>)
    ensures
        blob_of(row) is Ok <==> {
            &&& row.len() >= 15
            &&& row[0] is Text
            &&& row[1] is Text || row[1] is Null
            &&& row[2] is Text || row[2] is Null
            &&& row[3] is Text || row[3] is Null
            &&& row[4] is Text
            &&& row[5] is Integer || row[5] is Null
            &&& row[6] is Text || row[6] is Null
            &&& row[7] is Text
            &&& row[8] is Integer
            &&& row[9] is Integer
            &&& row[10] is Integer
            &&& row[11] is Text || row[11] is Null
            &&& row[12] is Text || row[12] is Null
            &&& row[13] is Integer
            &&& row[14] is Integer
        },
        blob_of(row) matches Ok(r) ==> {
            &&& row[0] == SqlView::Text(r.id)
            &&& row[1] == text_or_null(r.record_id)
            &&& row[2] == text_or_null(r.collection)
            &&& row[3] == text_or_null(r.local_path)
            &&& row[4] == SqlView::Text(r.s3_key)
            &&& row[5] == int_or_null(r.size_bytes)
            &&& row[6] == text_or_null(r.upload_id)
            &&& row[7] == SqlView::Text(r.status)
            &&& row[8] matches SqlView::Integer(n) ==> {
                0 <= n <= 255 ==> r.format_version == n
            }
            &&& row[9] matches SqlView::Integer(n) ==> {
                0 <= n <= 0xffff_ffff ==> r.retries == n
            }
            &&& row[10] == SqlView::Integer(r.next_retry_at)
            &&& row[11] == text_or_null(r.last_error)
            &&& row[12] == text_or_null(r.error_log)
            &&& row[13] == SqlView::Integer(r.created_at)
            &&& row[14] == SqlView::Integer(r.updated_at)
        },
{
    let columns = blob_columns();
    law_rows_are_checked(row, columns);
    assert(columns[0].1 == ColumnKind::Text);
    assert(columns[1].1 == ColumnKind::TextOrNull);
    assert(columns[2].1 == ColumnKind::TextOrNull);
    assert(columns[3].1 == ColumnKind::TextOrNull);
    assert(columns[4].1 == ColumnKind::Text);
    assert(columns[5].1 == ColumnKind::IntegerOrNull);
    assert(columns[6].1 == ColumnKind::TextOrNull);
    assert(columns[7].1 == ColumnKind::Text);
    assert(columns[8].1 == ColumnKind::Integer);
    assert(columns[9].1 == ColumnKind::Integer);
    assert(columns[10].1 == ColumnKind::Integer);
    assert(columns[11].1 == ColumnKind::TextOrNull);
    assert(columns[12].1 == ColumnKind::TextOrNull);
    assert(columns[13].1 == ColumnKind::Integer);
    assert(columns[14].1 == ColumnKind::Integer);
}

/// A row is a part exactly where each of its columns holds what it should and the
/// number of the part is in range, and the part then says of every column what
/// stands there. Any number but zero is yes.
pub proof fn law_part_is_read_by_columns(row: Seq<SqlView>)
    ensures
        part_of(row) is Ok <==> {
            &&& row.len() >= 4
            &&& row[0] is Text
            &&& row[1] is Integer && -0x8000_0000 <= row[1]->Integer_0 <= 0x7fff_ffff
            &&& row[2] is Text || row[2] is Null
            &&& row[3] is Integer
        },
        part_of(row) matches Ok(r) ==> {
            &&& row[0] == SqlView::Text(r.blob_id)
            &&& row[1] == SqlView::Integer(r.part_number as i64)
            &&& row[2] == text_or_null(r.etag)
            &&& r.uploaded <==> row[3] != SqlView::Integer(0)
        },
{
    let columns = part_columns();
    law_rows_are_checked(row, columns);
    law_rows_are_checked(row, columns.take(2));
    assert(columns[0].1 == ColumnKind::Text);
    assert(columns[1].1 == ColumnKind::Integer);
    assert(columns[2].1 == ColumnKind::TextOrNull);
    assert(columns[3].1 == ColumnKind::Integer);
    assert(columns.take(2)[0].1 == ColumnKind::Text);
    assert(columns.take(2)[1].1 == ColumnKind::Integer);
}

} // verus!
