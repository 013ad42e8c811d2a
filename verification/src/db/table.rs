//! What the statements on records do: the records table as a map from ids to
//! rows, how each statement changes it, and the rows that each one reads.

use vstd::prelude::*;
use vstd::string::*;

use crate::db::records::{
    latest_statement, lemma_read_texts, lemma_write_texts, list_sql, list_statement, record_columns, record_of,
    RecordView,
};
use crate::db::row::{
    blob_in, blob_or_null, first_misfit, fits, int_in, law_rows_are_checked, opt_blob_in, text_in,
    ColumnKind,
};
use crate::db::statement::{SqlView, StatementView};
use crate::db::texts;
use crate::error::ErrorView;
use crate::text::{lemma_text_lt_order, text_lt};
use crate::types::SortOrder;

verus! {

/// The rows of the records table, by their primary key.
pub type Records = Map<Seq<char>, RecordView>;

/// Whether every row stands under its own id.
pub open spec fn well_keyed(table: Records) -> bool {
    forall|id: Seq<char>| #[trigger] table.contains_key(id) ==> table[id].id == id
}

// ── Writing ─────────────────────────────────────────────────────────────────

/// A row as it is stored: one that takes the place of another keeps that one's
/// time of creation.
pub open spec fn stored(table: Records, row: RecordView) -> RecordView {
    RecordView {
        created_at: if table.contains_key(row.id) {
            table[row.id].created_at
        } else {
            row.created_at
        },
        ..row
    }
}

/// The row that the parameters of a local write hold.
pub open spec fn local_row(p: Seq<SqlView>) -> RecordView {
    RecordView {
        id: text_in(p[0]),
        collection: text_in(p[1]),
        data: blob_in(p[2]),
        hlc: text_in(p[3]),
        schema_version: int_in(p[4]) as u32,
        format_version: int_in(p[5]) as u8,
        dek_encrypted: opt_blob_in(p[6]),
        deleted: false,
        synced: false,
        created_at: int_in(p[7]),
        updated_at: int_in(p[8]),
    }
}

/// The row that the parameters of a pulled write hold.
pub open spec fn pulled_row(p: Seq<SqlView>) -> RecordView {
    RecordView {
        id: text_in(p[0]),
        collection: text_in(p[1]),
        data: blob_in(p[2]),
        hlc: text_in(p[3]),
        schema_version: int_in(p[4]) as u32,
        format_version: int_in(p[5]) as u8,
        dek_encrypted: opt_blob_in(p[6]),
        deleted: int_in(p[7]) != 0,
        synced: true,
        created_at: int_in(p[8]),
        updated_at: int_in(p[9]),
    }
}

/// The row of a record, if it is in the table and of that collection.
pub open spec fn row_found(table: Records, collection: Seq<char>, id: Seq<char>) -> Option<
    RecordView,
> {
    if table.contains_key(id) && table[id].collection == collection {
        Some(table[id])
    } else {
        None
    }
}

/// The records table after a statement. Those that speak of other tables leave
/// it as it is.
pub open spec fn ran(table: Records, st: StatementView) -> Records {
    let p = st.params;
    if st.sql == texts::write_record() {
        table.insert(local_row(p).id, stored(table, local_row(p)))
    } else if st.sql == texts::write_pulled() {
        table.insert(pulled_row(p).id, stored(table, pulled_row(p)))
    } else if st.sql == texts::bury_record() {
        match row_found(table, text_in(p[3]), text_in(p[2])) {
            Some(row) => table.insert(
                text_in(p[2]),
                RecordView {
                    deleted: true,
                    hlc: text_in(p[0]),
                    synced: false,
                    updated_at: int_in(p[1]),
                    ..row
                },
            ),
            None => table,
        }
    } else if st.sql == texts::mark_record() {
        match row_found(table, text_in(p[1]), text_in(p[0])) {
            Some(row) => table.insert(text_in(p[0]), RecordView { synced: true, ..row }),
            None => table,
        }
    } else {
        table
    }
}

/// The records table after a list of statements, one after the other.
pub open spec fn ran_all(table: Records, script: Seq<StatementView>) -> Records
    decreases script.len(),
{
    if script.len() == 0 {
        table
    } else {
        ran(ran_all(table, script.drop_last()), script.last())
    }
}

/// Whether a statement's text shows that it writes no records.
pub open spec fn is_elsewhere(st: StatementView) -> bool {
    &&& st.sql.len() > 12
    &&& st.sql[0] == 'D' || st.sql[0] == 'I' && st.sql[12] != 'r'
}

/// Statements elsewhere leave the records as they are.
pub(crate) proof fn lemma_elsewhere(table: Records, script: Seq<StatementView>, from: int)
    requires
        0 <= from <= script.len(),
        forall|i: int| from <= i < script.len() ==> is_elsewhere(#[trigger] script[i]),
    ensures
        ran_all(table, script) == ran_all(table, script.take(from)),
    decreases script.len() - from,
{
    if from == script.len() {
        assert(script.take(from) =~= script);
    } else {
        let front = script.drop_last();
        assert forall|i: int| from <= i < front.len() implies is_elsewhere(#[trigger] front[i]) by {
            assert(script[i] == front[i]);
        }
        lemma_elsewhere(table, front, from);
        assert(front.take(from) =~= script.take(from));
        lemma_write_texts();
        assert(is_elsewhere(script[script.len() - 1]));
    }
}

// ── Reading ─────────────────────────────────────────────────────────────────

/// Whether a row stands before another in an order of clock readings.
pub open spec fn stands_before(a: RecordView, b: RecordView, order: SortOrder) -> bool {
    match order {
        SortOrder::HlcAsc => text_lt(a.hlc, b.hlc),
        SortOrder::HlcDesc => text_lt(b.hlc, a.hlc),
    }
}

/// Whether rows are in an order of clock readings.
pub open spec fn in_order(rows: Seq<RecordView>, order: SortOrder) -> bool {
    forall|i: int, j: int|
        0 <= i < j < rows.len() ==> !stands_before(#[trigger] rows[j], #[trigger] rows[i], order)
}

/// Whether a row of the table belongs to a listing.
pub open spec fn is_listed(
    table: Records,
    collection: Seq<char>,
    include_deleted: bool,
    row: RecordView,
) -> bool {
    &&& table.contains_key(row.id)
    &&& table[row.id] == row
    &&& row.collection == collection
    &&& include_deleted || !row.deleted
}

/// Whether rows are a listing of a collection: all that belong to it, each once,
/// in order. Rows of the same clock reading may stand either way.
pub open spec fn is_listing(
    table: Records,
    collection: Seq<char>,
    include_deleted: bool,
    order: SortOrder,
    rows: Seq<RecordView>,
) -> bool {
    &&& rows.no_duplicates()
    &&& forall|row: RecordView| #[trigger]
        rows.contains(row) <==> is_listed(table, collection, include_deleted, row)
    &&& in_order(rows, order)
}

/// The rows that a limit and an offset leave. A negative limit is none, and a
/// negative offset is zero.
pub open spec fn window(rows: Seq<RecordView>, limit: i64, offset: i64) -> Seq<RecordView> {
    let from = if offset < 0 {
        0
    } else if offset > rows.len() {
        rows.len() as int
    } else {
        offset as int
    };
    let to = if limit < 0 || limit > rows.len() - from {
        rows.len() as int
    } else {
        from + limit
    };
    rows.subrange(from, to)
}

/// Whether a statement with some parameters may read these rows as a listing.
pub open spec fn lists(
    table: Records,
    p: Seq<SqlView>,
    include_deleted: bool,
    order: SortOrder,
    rows: Seq<RecordView>,
) -> bool {
    exists|full: Seq<RecordView>| #[trigger]
        is_listing(table, text_in(p[0]), include_deleted, order, full) && rows == window(
            full,
            int_in(p[1]),
            int_in(p[2]),
        )
}

/// Whether a statement may read these rows of the records table: the one that
/// reads a record, and those that list a collection. Nothing is said of others.
pub open spec fn answers(table: Records, st: StatementView, rows: Seq<RecordView>) -> bool {
    &&& st.sql == texts::read_record() ==> rows == (match row_found(
        table,
        text_in(st.params[1]),
        text_in(st.params[0]),
    ) {
        Some(row) => seq![row],
        None => Seq::empty(),
    })
    &&& forall|include_deleted: bool, order: SortOrder|
        st.sql == #[trigger] texts::list_records(include_deleted, order) ==> lists(
            table,
            st.params,
            include_deleted,
            order,
            rows,
        )
}

/// Whether the latest of all clock readings may be read as this: the greatest
/// one of all rows, tombstones among them, or nothing where there is no row.
pub open spec fn latest_answers(table: Records, st: StatementView, found: Option<Seq<char>>) -> bool {
    st.sql == texts::latest_reading() && st.params.len() == 0 ==> match found {
        Some(latest) => {
            &&& exists|id: Seq<char>| #[trigger] table.contains_key(id) && table[id].hlc == latest
            &&& forall|id: Seq<char>| #[trigger]
                table.contains_key(id) ==> !text_lt(latest, table[id].hlc)
        },
        None => forall|id: Seq<char>| !(#[trigger] table.contains_key(id)),
    }
}

/// The reading that an engine starts from is the latest of all records that the
/// database has, whatever their collection and whether deleted or not.
pub proof fn law_latest_reading_is_of_all_records(
    table: Records,
    found: Option<Seq<char>>,
    id: Seq<char>,
)
    requires
        latest_answers(table, latest_statement(), found),
        table.contains_key(id),
    ensures
        found is Some,
        found->0 == table[id].hlc || text_lt(table[id].hlc, found->0),
        exists|other: Seq<char>| #[trigger]
            table.contains_key(other) && table[other].hlc == found->0,
{
    lemma_text_lt_order(found->0, table[id].hlc, found->0);
}

/// The first of the rows that were read, if there is one.
pub open spec fn first_row(rows: Seq<RecordView>) -> Option<RecordView> {
    if rows.len() == 0 {
        None
    } else {
        Some(rows[0])
    }
}

/// The values of a row, in the order in which every statement selects them.
pub open spec fn row_values(row: RecordView) -> Seq<SqlView> {
    seq![
        SqlView::Text(row.id),
        SqlView::Text(row.collection),
        SqlView::Blob(row.data),
        SqlView::Text(row.hlc),
        SqlView::Integer(row.schema_version as i64),
        SqlView::Integer(row.format_version as i64),
        blob_or_null(row.dek_encrypted),
        SqlView::Integer(if row.deleted { 1 } else { 0 }),
        SqlView::Integer(if row.synced { 1 } else { 0 }),
        SqlView::Integer(row.created_at),
        SqlView::Integer(row.updated_at),
    ]
}

pub(crate) proof fn lemma_no_misfit(row: Seq<SqlView>, columns: Seq<(&str, ColumnKind)>)
    requires
        columns.len() <= row.len(),
        forall|i: int| 0 <= i < columns.len() ==> fits(row[i], (#[trigger] columns[i]).1),
    ensures
        first_misfit(row, columns) is None,
    decreases columns.len(),
{
    if columns.len() > 0 {
        let front = columns.drop_last();
        assert forall|i: int| 0 <= i < front.len() implies fits(row[i], (#[trigger] front[i]).1) by {
            assert(columns[i] == front[i]);
        }
        lemma_no_misfit(row, front);
        assert(fits(row[columns.len() - 1], columns[columns.len() - 1].1));
    }
}

/// The values of a row read back as that row.
pub proof fn law_row_round_trip(row: RecordView)
    ensures
        record_of(row_values(row)) == Ok::<RecordView, ErrorView>(row),
{
    lemma_no_misfit(row_values(row), record_columns());
}

/// A row is a record exactly where each of its columns holds what it should, and
/// the record then says of every column what stands there. Any number but zero
/// is yes.
pub proof fn law_row_is_read_by_columns(row: Seq<SqlView>)
    ensures
        record_of(row) is Ok <==> {
            &&& row.len() >= 11
            &&& row[0] is Text
            &&& row[1] is Text
            &&& row[2] is Blob
            &&& row[3] is Text
            &&& row[4] is Integer
            &&& row[5] is Integer
            &&& row[6] is Blob || row[6] is Null
            &&& row[7] is Integer
            &&& row[8] is Integer
            &&& row[9] is Integer
            &&& row[10] is Integer
        },
        record_of(row) matches Ok(r) ==> {
            &&& row[0] == SqlView::Text(r.id)
            &&& row[1] == SqlView::Text(r.collection)
            &&& row[2] == SqlView::Blob(r.data)
            &&& row[3] == SqlView::Text(r.hlc)
            &&& row[4] matches SqlView::Integer(n) ==> {
                0 <= n <= 0xffff_ffff ==> r.schema_version == n
            }
            &&& row[5] matches SqlView::Integer(n) ==> {
                0 <= n <= 255 ==> r.format_version == n
            }
            &&& row[6] == blob_or_null(r.dek_encrypted)
            &&& r.deleted <==> row[7] != SqlView::Integer(0)
            &&& r.synced <==> row[8] != SqlView::Integer(0)
            &&& row[9] == SqlView::Integer(r.created_at)
            &&& row[10] == SqlView::Integer(r.updated_at)
        },
{
    let columns = record_columns();
    law_rows_are_checked(row, columns);
    assert(columns[0].1 == ColumnKind::Text);
    assert(columns[1].1 == ColumnKind::Text);
    assert(columns[2].1 == ColumnKind::Blob);
    assert(columns[3].1 == ColumnKind::Text);
    assert(columns[4].1 == ColumnKind::Integer);
    assert(columns[5].1 == ColumnKind::Integer);
    assert(columns[6].1 == ColumnKind::BlobOrNull);
    assert(columns[7].1 == ColumnKind::Integer);
    assert(columns[8].1 == ColumnKind::Integer);
    assert(columns[9].1 == ColumnKind::Integer);
    assert(columns[10].1 == ColumnKind::Integer);
}

// ── Listings ────────────────────────────────────────────────────────────────

/// Whether no two rows have the same clock reading.
pub open spec fn distinct_readings(table: Records) -> bool {
    forall|a: Seq<char>, b: Seq<char>|
        #[trigger] table.contains_key(a) && #[trigger] table.contains_key(b) && a != b
            ==> table[a].hlc != table[b].hlc
}

/// Rows that hold the same, each once, and are strictly in order, are the same.
proof fn lemma_same_order(a: Seq<RecordView>, b: Seq<RecordView>, order: SortOrder)
    requires
        forall|row: RecordView| #[trigger] a.contains(row) <==> b.contains(row),
        forall|i: int, j: int|
            0 <= i < j < a.len() ==> stands_before(#[trigger] a[i], #[trigger] a[j], order),
        forall|i: int, j: int|
            0 <= i < j < b.len() ==> stands_before(#[trigger] b[i], #[trigger] b[j], order),
    ensures
        a == b,
    decreases a.len(),
{
    if a.len() == 0 {
        if b.len() > 0 {
            assert(b.contains(b[0]));
            assert(a.contains(b[0]));
        }
        assert(a =~= b);
    } else {
        assert(a.contains(a[0]));
        assert(b.contains(a[0]));
        assert(b.len() > 0);
        let (x, y) = (a.last(), b.last());
        assert(x == y) by {
            assert(a.contains(x));
            assert(b.contains(y));
            assert(a.contains(y) && b.contains(x));
            let i = choose|i: int| 0 <= i < a.len() && a[i] == y;
            let j = choose|j: int| 0 <= j < b.len() && b[j] == x;
            lemma_text_lt_order(x.hlc, y.hlc, x.hlc);
            if i != a.len() - 1 && j != b.len() - 1 {
                assert(stands_before(a[i], a[a.len() - 1], order));
                assert(stands_before(b[j], b[b.len() - 1], order));
            }
        }
        let (c, d) = (a.drop_last(), b.drop_last());
        assert forall|row: RecordView| #[trigger] c.contains(row) <==> d.contains(row) by {
            lemma_text_lt_order(x.hlc, x.hlc, x.hlc);
            if c.contains(row) {
                let i = choose|i: int| 0 <= i < c.len() && c[i] == row;
                assert(a[i] == row);
                assert(stands_before(a[i], a[a.len() - 1], order));
                assert(a.contains(row));
                assert(b.contains(row));
                let j = choose|j: int| 0 <= j < b.len() && b[j] == row;
                assert(j < d.len() && d[j] == row);
            }
            if d.contains(row) {
                let i = choose|i: int| 0 <= i < d.len() && d[i] == row;
                assert(b[i] == row);
                assert(stands_before(b[i], b[b.len() - 1], order));
                assert(b.contains(row));
                assert(a.contains(row));
                let j = choose|j: int| 0 <= j < a.len() && a[j] == row;
                assert(j < c.len() && c[j] == row);
            }
        }
        assert forall|i: int, j: int| 0 <= i < j < c.len() implies stands_before(
            #[trigger] c[i],
            #[trigger] c[j],
            order,
        ) by {
            assert(stands_before(a[i], a[j], order));
        }
        assert forall|i: int, j: int| 0 <= i < j < d.len() implies stands_before(
            #[trigger] d[i],
            #[trigger] d[j],
            order,
        ) by {
            assert(stands_before(b[i], b[j], order));
        }
        lemma_same_order(c, d, order);
        assert(a =~= c.push(x));
        assert(b =~= d.push(y));
    }
}

/// A listing of rows with different clock readings is strictly in order.
proof fn lemma_strictly_in_order(
    table: Records,
    collection: Seq<char>,
    include_deleted: bool,
    order: SortOrder,
    rows: Seq<RecordView>,
)
    requires
        distinct_readings(table),
        is_listing(table, collection, include_deleted, order, rows),
    ensures
        forall|i: int, j: int|
            0 <= i < j < rows.len() ==> stands_before(#[trigger] rows[i], #[trigger] rows[j], order),
{
    assert forall|i: int, j: int| 0 <= i < j < rows.len() implies stands_before(
        #[trigger] rows[i],
        #[trigger] rows[j],
        order,
    ) by {
        let (a, b) = (rows[i], rows[j]);
        assert(rows.contains(a) && rows.contains(b));
        assert(is_listed(table, collection, include_deleted, a));
        assert(is_listed(table, collection, include_deleted, b));
        assert(a != b);
        assert(a.id != b.id);
        assert(table.contains_key(a.id) && table.contains_key(b.id));
        lemma_text_lt_order(a.hlc, b.hlc, a.hlc);
        assert(!stands_before(b, a, order));
    }
}

/// Where no two rows have the same clock reading, a collection has one listing
/// in each order.
pub proof fn law_one_listing(
    table: Records,
    collection: Seq<char>,
    include_deleted: bool,
    order: SortOrder,
    a: Seq<RecordView>,
    b: Seq<RecordView>,
)
    requires
        distinct_readings(table),
        is_listing(table, collection, include_deleted, order, a),
        is_listing(table, collection, include_deleted, order, b),
    ensures
        a == b,
{
    lemma_strictly_in_order(table, collection, include_deleted, order, a);
    lemma_strictly_in_order(table, collection, include_deleted, order, b);
    assert forall|row: RecordView| #[trigger] a.contains(row) <==> b.contains(row) by {
        assert(a.contains(row) <==> is_listed(table, collection, include_deleted, row));
        assert(b.contains(row) <==> is_listed(table, collection, include_deleted, row));
    }
    lemma_same_order(a, b, order);
}

/// `count` rows from `from` on, or as many as there are.
pub open spec fn page(full: Seq<RecordView>, from: nat, count: nat) -> Seq<RecordView> {
    let rest = if from <= full.len() {
        full.skip(from as int)
    } else {
        Seq::empty()
    };
    if count <= rest.len() {
        rest.take(count as int)
    } else {
        rest
    }
}

/// Listing a collection without a limit gives the rows that belong to the
/// listing, each once, in order. With a limit and an offset it gives that page
/// of them. A limit that no `i64` holds binds as none; no table has as many rows.
pub proof fn law_listing_gives_pages(
    table: Records,
    collection: Seq<char>,
    include_deleted: bool,
    order: SortOrder,
    count: usize,
    from: usize,
    full: Seq<RecordView>,
    some: Seq<RecordView>,
)
    requires
        distinct_readings(table),
        answers(table, list_statement(collection, None, 0, include_deleted, order), full),
        answers(table, list_statement(collection, Some(count), from, include_deleted, order), some),
        from <= i64::MAX,
        count <= i64::MAX || full.len() <= i64::MAX,
    ensures
        is_listing(table, collection, include_deleted, order, full),
        some == page(full, from as nat, count as nat),
{
    let all = list_statement(collection, None, 0, include_deleted, order);
    let part = list_statement(collection, Some(count), from, include_deleted, order);
    assert(all.sql == texts::list_records(include_deleted, order));
    assert(part.sql == texts::list_records(include_deleted, order));
    assert(lists(table, all.params, include_deleted, order, full));
    assert(lists(table, part.params, include_deleted, order, some));
    let a = choose|a: Seq<RecordView>| #[trigger]
        is_listing(table, collection, include_deleted, order, a) && full == window(a, -1i64, 0);
    let b = choose|b: Seq<RecordView>| #[trigger]
        is_listing(table, collection, include_deleted, order, b) && some == window(
            b,
            count as i64,
            from as i64,
        );
    assert(full =~= a);
    law_one_listing(table, collection, include_deleted, order, a, b);
    if count > i64::MAX {
        assert((count as i64) < 0) by (bit_vector)
            requires
                count > 0x7fff_ffff_ffff_ffff,
        ;
    }
    assert(some =~= page(full, from as nat, count as nat));
}

/// Pages that follow each other neither overlap nor leave gaps: two of them are
/// one larger page, and pages up to the end are all rows.
pub proof fn law_pages_join(full: Seq<RecordView>, from: nat, first: nat, second: nat)
    ensures
        page(full, from, first) + page(full, from + first, second) == page(
            full,
            from,
            first + second,
        ),
        first >= full.len() ==> page(full, 0, first) == full,
{
    assert(page(full, from, first) + page(full, from + first, second) =~= page(
        full,
        from,
        first + second,
    ));
    if first >= full.len() {
        assert(page(full, 0, first) =~= full);
    }
}

// ── Every listing can be had ────────────────────────────────────────────────

/// Rows in order, with one more in its place.
spec fn with_row(rows: Seq<RecordView>, row: RecordView, order: SortOrder) -> Seq<RecordView>
    decreases rows.len(),
{
    if rows.len() == 0 || !stands_before(row, rows.last(), order) {
        rows.push(row)
    } else {
        with_row(rows.drop_last(), row, order).push(rows.last())
    }
}

proof fn lemma_with_row(rows: Seq<RecordView>, row: RecordView, order: SortOrder)
    requires
        rows.no_duplicates(),
        !rows.contains(row),
        in_order(rows, order),
    ensures
        with_row(rows, row, order).no_duplicates(),
        in_order(with_row(rows, row, order), order),
        forall|r: RecordView| #[trigger]
            with_row(rows, row, order).contains(r) <==> rows.contains(r) || r == row,
    decreases rows.len(),
{
    let out = with_row(rows, row, order);
    if rows.len() == 0 || !stands_before(row, rows.last(), order) {
        assert forall|i: int, j: int| 0 <= i < j < out.len() implies !stands_before(
            #[trigger] out[j],
            #[trigger] out[i],
            order,
        ) by {
            if j < rows.len() {
                assert(!stands_before(rows[j], rows[i], order));
            } else {
                let last = rows[rows.len() - 1];
                if i < rows.len() - 1 {
                    assert(!stands_before(last, rows[i], order));
                }
                lemma_text_lt_order(row.hlc, last.hlc, rows[i].hlc);
                lemma_text_lt_order(rows[i].hlc, last.hlc, row.hlc);
            }
        }
        assert forall|i: int, j: int| 0 <= i < out.len() && 0 <= j < out.len() && i != j implies out[i]
            != out[j] by {
            if i < rows.len() {
                assert(rows.contains(rows[i]));
            }
            if j < rows.len() {
                assert(rows.contains(rows[j]));
            }
        }
        assert forall|r: RecordView| #[trigger] out.contains(r) <==> rows.contains(r) || r == row by {
            if rows.contains(r) {
                let k = choose|k: int| 0 <= k < rows.len() && rows[k] == r;
                assert(out[k] == r);
            }
            if r == row {
                assert(out[rows.len() as int] == r);
            }
            if out.contains(r) {
                let k = choose|k: int| 0 <= k < out.len() && out[k] == r;
                if k < rows.len() {
                    assert(rows[k] == r);
                }
            }
        }
    } else {
        let (front, last) = (rows.drop_last(), rows.last());
        assert forall|i: int, j: int| 0 <= i < j < front.len() implies !stands_before(
            #[trigger] front[j],
            #[trigger] front[i],
            order,
        ) by {
            assert(!stands_before(rows[j], rows[i], order));
        }
        assert(!front.contains(row)) by {
            if front.contains(row) {
                let k = choose|k: int| 0 <= k < front.len() && front[k] == row;
                assert(rows[k] == row);
            }
        }
        lemma_with_row(front, row, order);
        let inner = with_row(front, row, order);
        assert(!front.contains(last)) by {
            if front.contains(last) {
                let k = choose|k: int| 0 <= k < front.len() && front[k] == last;
                assert(rows[k] == rows[rows.len() - 1]);
            }
        }
        assert(rows.contains(rows[rows.len() - 1]));
        assert(!inner.contains(last));
        assert forall|i: int, j: int| 0 <= i < j < out.len() implies !stands_before(
            #[trigger] out[j],
            #[trigger] out[i],
            order,
        ) by {
            if j < inner.len() {
                assert(!stands_before(inner[j], inner[i], order));
            } else {
                assert(inner.contains(inner[i]));
                if inner[i] == row {
                    lemma_text_lt_order(row.hlc, last.hlc, row.hlc);
                } else {
                    let k = choose|k: int| 0 <= k < front.len() && front[k] == inner[i];
                    assert(!stands_before(rows[rows.len() - 1], rows[k], order));
                }
            }
        }
        assert forall|i: int, j: int| 0 <= i < out.len() && 0 <= j < out.len() && i != j implies out[i]
            != out[j] by {
            if i < inner.len() {
                assert(inner.contains(inner[i]));
            }
            if j < inner.len() {
                assert(inner.contains(inner[j]));
            }
        }
        assert forall|r: RecordView| #[trigger] out.contains(r) <==> rows.contains(r) || r == row by {
            if rows.contains(r) {
                let k = choose|k: int| 0 <= k < rows.len() && rows[k] == r;
                if k < front.len() {
                    assert(front[k] == r);
                    assert(front.contains(r));
                    assert(inner.contains(r));
                    let m = choose|m: int| 0 <= m < inner.len() && inner[m] == r;
                    assert(out[m] == r);
                } else {
                    assert(out[inner.len() as int] == r);
                }
            }
            if r == row {
                assert(inner.contains(r));
                let m = choose|m: int| 0 <= m < inner.len() && inner[m] == r;
                assert(out[m] == r);
            }
            if out.contains(r) {
                let k = choose|k: int| 0 <= k < out.len() && out[k] == r;
                if k < inner.len() {
                    assert(inner[k] == r);
                    assert(inner.contains(r));
                    if front.contains(r) {
                        let m = choose|m: int| 0 <= m < front.len() && front[m] == r;
                        assert(rows[m] == r);
                    }
                }
            }
        }
    }
}

proof fn lemma_listing_exists(
    table: Records,
    collection: Seq<char>,
    include_deleted: bool,
    order: SortOrder,
) -> (rows: Seq<RecordView>)
    requires
        table.dom().finite(),
        well_keyed(table),
    ensures
        is_listing(table, collection, include_deleted, order, rows),
    decreases table.dom().len(),
{
    if table.dom().len() == 0 {
        let rows = Seq::<RecordView>::empty();
        assert(table.dom() =~= Set::empty());
        assert forall|row: RecordView| #[trigger] rows.contains(row) <==> is_listed(
            table,
            collection,
            include_deleted,
            row,
        ) by {
            assert(!table.dom().contains(row.id));
        }
        rows
    } else {
        let id = table.dom().choose();
        let row = table[id];
        let rest = table.remove(id);
        assert(table.contains_key(id));
        assert(rest.dom() =~= table.dom().remove(id));
        assert forall|k: Seq<char>| #[trigger] rest.contains_key(k) implies rest[k].id == k by {
            assert(table.contains_key(k));
        }
        let rows = lemma_listing_exists(rest, collection, include_deleted, order);
        assert(!rows.contains(row)) by {
            assert(!is_listed(rest, collection, include_deleted, row));
        }
        let all = if row.collection == collection && (include_deleted || !row.deleted) {
            with_row(rows, row, order)
        } else {
            rows
        };
        lemma_with_row(rows, row, order);
        assert forall|r: RecordView| #[trigger] all.contains(r) <==> is_listed(
            table,
            collection,
            include_deleted,
            r,
        ) by {
            assert(rows.contains(r) <==> is_listed(rest, collection, include_deleted, r));
            assert(table.contains_key(r.id) && r.id != id ==> rest.contains_key(r.id));
        }
        all
    }
}

/// Every listing of a table can be had: some rows answer each such statement.
pub proof fn law_every_listing_has_an_answer(
    table: Records,
    collection: Seq<char>,
    limit: Option<usize>,
    from: usize,
    include_deleted: bool,
    order: SortOrder,
)
    requires
        table.dom().finite(),
        well_keyed(table),
    ensures
        exists|rows: Seq<RecordView>| #[trigger]
            answers(table, list_statement(collection, limit, from, include_deleted, order), rows),
{
    let st = list_statement(collection, limit, from, include_deleted, order);
    let full = lemma_listing_exists(table, collection, include_deleted, order);
    let rows = window(full, int_in(st.params[1]), int_in(st.params[2]));
    assert(is_listing(table, text_in(st.params[0]), include_deleted, order, full));
    assert(lists(table, st.params, include_deleted, order, rows));
    assert forall|d: bool, o: SortOrder| st.sql == #[trigger] texts::list_records(d, o) implies lists(
        table,
        st.params,
        d,
        o,
        rows,
    ) by {
        assert(texts::list_records(d, o) == list_sql(d, o));
        lemma_read_texts(include_deleted, order, d, o);
    }
    lemma_read_texts(include_deleted, order, include_deleted, order);
    assert(answers(table, st, rows));
}

} // verus!
