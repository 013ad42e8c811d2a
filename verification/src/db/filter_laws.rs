//! What a query means: which records meet a filter, and that the compiled
//! condition, with its bound values, is true of exactly those.

use vstd::prelude::*;
use vstd::string::*;

use crate::db::index::{
    filter_clause, filter_clauses, is_record_column, prefix_of, query_filter, query_statement,
    FilterScope, QueryOpts,
};
use crate::db::records::RecordView;
use crate::db::row::{blob_or_null, text_in};
use crate::db::statement::{SqlView, StatementView};
use crate::db::table::{in_order, page, window, Records};
use crate::text::{decimal, joined};
use crate::types::{IndexDef, IndexValue, QueryFilter, SortOrder};

verus! {

// ── Conditions as the database reads them ───────────────────────────────────

/// A comparison.
pub enum Comparison {
    Equal,
    Less,
    Greater,
    AtMost,
    AtLeast,
}

/// A condition: a constant, a column of the record or of its shadow row
/// compared with the value bound at a place, a search of a full-text table for
/// such a value, or several conditions of which all or any have to be true.
pub enum Condition {
    Constant(bool),
    OfRecord(Seq<char>, Comparison, nat),
    OfShadow(Seq<char>, Comparison, nat),
    Search(Seq<char>, nat),
    All(Seq<Condition>),
    Any(Seq<Condition>),
}

/// The sign of a comparison.
pub open spec fn sign(c: Comparison) -> Seq<char> {
    match c {
        Comparison::Equal => " = ?"@,
        Comparison::Less => " < ?"@,
        Comparison::Greater => " > ?"@,
        Comparison::AtMost => " <= ?"@,
        Comparison::AtLeast => " >= ?"@,
    }
}

/// How a condition is written.
pub open spec fn written(c: Condition) -> Seq<char>
    decreases c,
{
    match c {
        Condition::Constant(b) => if b {
            "1"@
        } else {
            "0"@
        },
        Condition::OfRecord(column, by, at) => "r."@ + column + sign(by) + decimal(at),
        Condition::OfShadow(column, by, at) => "s."@ + column + sign(by) + decimal(at),
        Condition::Search(table, at) => "r.id IN (SELECT record_id FROM fts_"@ + table
            + " WHERE fts_"@ + table + " MATCH ?"@ + decimal(at) + ")"@,
        Condition::All(parts) => "("@ + joined(all_written(parts), " AND "@) + ")"@,
        Condition::Any(parts) => "("@ + joined(all_written(parts), " OR "@) + ")"@,
    }
}

/// How conditions are written, one by one.
pub open spec fn all_written(parts: Seq<Condition>) -> Seq<Seq<char>>
    decreases parts,
{
    Seq::new(
        parts.len(),
        |i: int|
            if 0 <= i < parts.len() {
                written(parts[i])
            } else {
                Seq::empty()
            },
    )
}

/// A row that a condition is asked of: the columns of the record, those of its
/// shadow row, and which searches of which full-text table find it.
pub struct Candidate {
    pub columns: Map<Seq<char>, SqlView>,
    pub fields: Map<Seq<char>, SqlView>,
    pub found_by: spec_fn(Seq<char>, Seq<char>) -> bool,
}

/// How values are ordered. Nothing is assumed of it but that no comparison with
/// null is true.
pub struct ValueOrder {
    pub less: spec_fn(SqlView, SqlView) -> bool,
    pub same: spec_fn(SqlView, SqlView) -> bool,
}

/// Whether a comparison of two values is true.
pub open spec fn compares(by: Comparison, a: SqlView, b: SqlView, order: ValueOrder) -> bool {
    let (less, same) = (order.less, order.same);
    &&& a !is Null
    &&& b !is Null
    &&& match by {
        Comparison::Equal => same(a, b),
        Comparison::Less => less(a, b),
        Comparison::Greater => less(b, a),
        Comparison::AtMost => less(a, b) || same(a, b),
        Comparison::AtLeast => less(b, a) || same(a, b),
    }
}

/// Whether a condition is true of a row when these values are bound. Places
/// are counted from one.
pub open spec fn is_true(
    c: Condition,
    row: Candidate,
    order: ValueOrder,
    bound: Seq<SqlView>,
) -> bool
    decreases c,
{
    match c {
        Condition::Constant(b) => b,
        Condition::OfRecord(column, by, at) => compares(
            by,
            row.columns[column],
            bound[at - 1],
            order,
        ),
        Condition::OfShadow(column, by, at) => compares(
            by,
            row.fields[column],
            bound[at - 1],
            order,
        ),
        Condition::Search(table, at) => bound[at - 1] matches SqlView::Text(t)
            && (row.found_by)(table, t),
        Condition::All(parts) => all_true(parts, row, order, bound),
        Condition::Any(parts) => any_true(parts, row, order, bound),
    }
}

/// Whether every one of some conditions is true.
pub open spec fn all_true(
    parts: Seq<Condition>,
    row: Candidate,
    order: ValueOrder,
    bound: Seq<SqlView>,
) -> bool
    decreases parts,
{
    parts.len() == 0 || all_true(parts.subrange(0, parts.len() - 1), row, order, bound) && is_true(
        parts[parts.len() - 1],
        row,
        order,
        bound,
    )
}

/// Whether at least one of some conditions is true.
pub open spec fn any_true(
    parts: Seq<Condition>,
    row: Candidate,
    order: ValueOrder,
    bound: Seq<SqlView>,
) -> bool
    decreases parts,
{
    parts.len() > 0 && (any_true(parts.subrange(0, parts.len() - 1), row, order, bound) || is_true(
        parts[parts.len() - 1],
        row,
        order,
        bound,
    ))
}

// ── Filters as their users mean them ────────────────────────────────────────

/// The columns that a filter may name besides the fields of the index.
pub open spec fn own_columns() -> Set<Seq<char>> {
    set![
        "id"@,
        "hlc"@,
        "schema_version"@,
        "deleted"@,
        "created_at"@,
        "updated_at"@,
    ]
}

/// The value that a row has for a field. A record's own columns go before the
/// fields of the index; without an index there are no others.
pub open spec fn field_value(row: Candidate, field: Seq<char>, indexed: bool) -> SqlView {
    if indexed && !own_columns().contains(field) {
        row.fields[field]
    } else {
        row.columns[field]
    }
}

/// The value that a filter compares with.
pub open spec fn given(v: IndexValue) -> SqlView {
    match v {
        IndexValue::Text(s) => SqlView::Text(s@),
        IndexValue::Integer(n) => SqlView::Integer(n),
        IndexValue::Real(bits) => SqlView::Real(bits),
        IndexValue::Null => SqlView::Null,
    }
}

/// Whether a record meets a filter: a comparison of a field with a value is
/// true, a search of the collection's text finds it, every one of several
/// filters is met, or at least one of them is.
pub open spec fn meets(
    filter: QueryFilter,
    row: Candidate,
    scope: FilterScope,
    order: ValueOrder,
) -> bool
    decreases filter,
{
    match filter {
        QueryFilter::Eq { field, value } => compares(
            Comparison::Equal,
            field_value(row, field@, scope.has_shadow),
            given(value),
            order,
        ),
        QueryFilter::Lt { field, value } => compares(
            Comparison::Less,
            field_value(row, field@, scope.has_shadow),
            given(value),
            order,
        ),
        QueryFilter::Gt { field, value } => compares(
            Comparison::Greater,
            field_value(row, field@, scope.has_shadow),
            given(value),
            order,
        ),
        QueryFilter::Le { field, value } => compares(
            Comparison::AtMost,
            field_value(row, field@, scope.has_shadow),
            given(value),
            order,
        ),
        QueryFilter::Ge { field, value } => compares(
            Comparison::AtLeast,
            field_value(row, field@, scope.has_shadow),
            given(value),
            order,
        ),
        QueryFilter::Contains { text } => (row.found_by)(scope.collection, text@),
        QueryFilter::And(filters) => meets_all(filters@, row, scope, order),
        QueryFilter::Or(filters) => meets_any(filters@, row, scope, order),
    }
}

/// Whether a record meets every one of some filters.
pub open spec fn meets_all(
    filters: Seq<QueryFilter>,
    row: Candidate,
    scope: FilterScope,
    order: ValueOrder,
) -> bool
    decreases filters,
{
    filters.len() == 0 || meets_all(
        filters.subrange(0, filters.len() - 1),
        row,
        scope,
        order,
    ) && meets(filters[filters.len() - 1], row, scope, order)
}

/// Whether a record meets at least one of some filters.
pub open spec fn meets_any(
    filters: Seq<QueryFilter>,
    row: Candidate,
    scope: FilterScope,
    order: ValueOrder,
) -> bool
    decreases filters,
{
    filters.len() > 0 && (meets_any(
        filters.subrange(0, filters.len() - 1),
        row,
        scope,
        order,
    ) || meets(filters[filters.len() - 1], row, scope, order))
}

/// A record meets all of some filters if it meets each, and any of them if it
/// meets one.
pub proof fn law_all_and_any(
    filters: Seq<QueryFilter>,
    row: Candidate,
    scope: FilterScope,
    order: ValueOrder,
)
    ensures
        meets_all(filters, row, scope, order) <==> forall|i: int|
            0 <= i < filters.len() ==> meets(#[trigger] filters[i], row, scope, order),
        meets_any(filters, row, scope, order) <==> exists|i: int|
            0 <= i < filters.len() && meets(#[trigger] filters[i], row, scope, order),
    decreases filters.len(),
{
    if filters.len() > 0 {
        let front = filters.subrange(0, filters.len() - 1);
        let last = filters[filters.len() - 1];
        law_all_and_any(front, row, scope, order);
        assert(meets_all(filters, row, scope, order) == (meets_all(front, row, scope, order)
            && meets(last, row, scope, order)));
        assert(meets_any(filters, row, scope, order) == (meets_any(front, row, scope, order)
            || meets(last, row, scope, order)));
        if meets_all(filters, row, scope, order) {
            assert forall|i: int| 0 <= i < filters.len() implies meets(
                #[trigger] filters[i],
                row,
                scope,
                order,
            ) by {
                if i < front.len() {
                    assert(front[i] == filters[i]);
                }
            }
        }
        if forall|i: int| 0 <= i < filters.len() ==> meets(#[trigger] filters[i], row, scope, order) {
            assert forall|i: int| 0 <= i < front.len() implies meets(
                #[trigger] front[i],
                row,
                scope,
                order,
            ) by {
                assert(front[i] == filters[i]);
            }
            assert(meets(filters[filters.len() - 1], row, scope, order));
        }
        if meets_any(front, row, scope, order) {
            let i = choose|i: int|
                0 <= i < front.len() && meets(#[trigger] front[i], row, scope, order);
            assert(filters[i] == front[i]);
        }
        if exists|i: int| 0 <= i < filters.len() && meets(#[trigger] filters[i], row, scope, order) {
            let i = choose|i: int|
                0 <= i < filters.len() && meets(#[trigger] filters[i], row, scope, order);
            if i < front.len() {
                assert(front[i] == filters[i]);
            }
        }
    }
}

// ── The compiled condition is true of what meets the filter ─────────────────

/// Whether a text is a condition that is true, with these values bound, of
/// exactly the rows that meet a filter.
pub open spec fn says(
    text: Seq<char>,
    bound: Seq<SqlView>,
    filter: QueryFilter,
    scope: FilterScope,
) -> bool {
    exists|c: Condition| #[trigger] written(c) == text && is_meant(c, bound, filter, scope)
}

/// Whether a condition is true, with these values bound, of exactly the rows
/// that meet a filter.
pub open spec fn is_meant(
    c: Condition,
    bound: Seq<SqlView>,
    filter: QueryFilter,
    scope: FilterScope,
) -> bool {
    forall|row: Candidate, order: ValueOrder| #[trigger]
        is_true(c, row, order, bound) <==> meets(filter, row, scope, order)
}

/// A compiled filter is true of exactly the records that meet it: comparisons
/// compare the field with the value, all filters of an `And` have to be met and
/// one of an `Or`, however many there are and however deep they stand. `bound`
/// is everything that is bound to the statement, and `before` how much of it
/// was bound before the filter.
pub proof fn law_filter_means_what_it_says(
    filter: QueryFilter,
    scope: FilterScope,
    before: nat,
    bound: Seq<SqlView>,
)
    requires
        filter_clause(filter, scope, before) is Ok,
        ({
            let values = filter_clause(filter, scope, before)->Ok_0.1;
            &&& before + values.len() <= bound.len()
            &&& bound.subrange(before as int, (before + values.len()) as int) == values
        }),
    ensures
        says(filter_clause(filter, scope, before)->Ok_0.0, bound, filter, scope),
{
    let c = lemma_filter(filter, scope, before, bound);
    assert(written(c) == filter_clause(filter, scope, before)->Ok_0.0);
}

proof fn lemma_own_columns(field: Seq<char>)
    ensures
        own_columns().contains(field) <==> is_record_column(field),
{
}

proof fn lemma_compare(
    field: Seq<char>,
    by: Comparison,
    value: IndexValue,
    scope: FilterScope,
    before: nat,
) -> (c: Condition)
    ensures
        written(c) == prefix_of(field, scope.has_shadow) + field + sign(by)
            + decimal(before + 1),
        forall|row: Candidate, order: ValueOrder, bound: Seq<SqlView>|
            bound[before as int] == given(value) ==> (#[trigger] is_true(c, row, order, bound)
                <==> compares(
                by,
                field_value(row, field, scope.has_shadow),
                given(value),
                order,
            )),
{
    lemma_own_columns(field);
    if scope.has_shadow && !own_columns().contains(field) {
        Condition::OfShadow(field, by, before + 1)
    } else {
        Condition::OfRecord(field, by, before + 1)
    }
}

proof fn lemma_filter(
    filter: QueryFilter,
    scope: FilterScope,
    before: nat,
    bound: Seq<SqlView>,
) -> (c: Condition)
    requires
        filter_clause(filter, scope, before) is Ok,
        ({
            let values = filter_clause(filter, scope, before)->Ok_0.1;
            &&& before + values.len() <= bound.len()
            &&& bound.subrange(before as int, (before + values.len()) as int) == values
        }),
    ensures
        written(c) == filter_clause(filter, scope, before)->Ok_0.0,
        is_meant(c, bound, filter, scope),
    decreases filter,
{
    let (text, values) = filter_clause(filter, scope, before)->Ok_0;
    if values.len() > 0 {
        assert(bound[before as int] == bound.subrange(before as int, (before + values.len()) as int)[0]);
    }
    match filter {
        QueryFilter::Eq { field, value } => lemma_compare(
            field@,
            Comparison::Equal,
            value,
            scope,
            before,
        ),
        QueryFilter::Lt { field, value } => lemma_compare(
            field@,
            Comparison::Less,
            value,
            scope,
            before,
        ),
        QueryFilter::Gt { field, value } => lemma_compare(
            field@,
            Comparison::Greater,
            value,
            scope,
            before,
        ),
        QueryFilter::Le { field, value } => lemma_compare(
            field@,
            Comparison::AtMost,
            value,
            scope,
            before,
        ),
        QueryFilter::Ge { field, value } => lemma_compare(
            field@,
            Comparison::AtLeast,
            value,
            scope,
            before,
        ),
        QueryFilter::Contains { text } => Condition::Search(scope.collection, before + 1),
        QueryFilter::And(filters) => if filters@.len() == 0 {
            Condition::Constant(true)
        } else {
            let parts = lemma_filters(filters@, scope, before, bound);
            let c = Condition::All(parts);
            assert(all_written(parts) =~= filter_clauses(filters@, scope, before)->Ok_0.0);
            assert forall|row: Candidate, order: ValueOrder| #[trigger]
                is_true(c, row, order, bound) <==> meets(filter, row, scope, order) by {
                lemma_same_parts(parts, filters@, scope, bound, row, order);
            }
            c
        },
        QueryFilter::Or(filters) => if filters@.len() == 0 {
            Condition::Constant(false)
        } else {
            let parts = lemma_filters(filters@, scope, before, bound);
            let c = Condition::Any(parts);
            assert(all_written(parts) =~= filter_clauses(filters@, scope, before)->Ok_0.0);
            assert forall|row: Candidate, order: ValueOrder| #[trigger]
                is_true(c, row, order, bound) <==> meets(filter, row, scope, order) by {
                lemma_same_parts(parts, filters@, scope, bound, row, order);
            }
            c
        },
    }
}

proof fn lemma_same_parts(
    parts: Seq<Condition>,
    filters: Seq<QueryFilter>,
    scope: FilterScope,
    bound: Seq<SqlView>,
    row: Candidate,
    order: ValueOrder,
)
    requires
        parts.len() == filters.len(),
        forall|i: int|
            0 <= i < parts.len() ==> is_meant(#[trigger] parts[i], bound, filters[i], scope),
    ensures
        all_true(parts, row, order, bound) <==> meets_all(filters, row, scope, order),
        any_true(parts, row, order, bound) <==> meets_any(filters, row, scope, order),
    decreases parts.len(),
{
    if parts.len() > 0 {
        let front = parts.subrange(0, parts.len() - 1);
        let rest = filters.subrange(0, filters.len() - 1);
        assert forall|i: int| 0 <= i < front.len() implies is_meant(
            #[trigger] front[i],
            bound,
            rest[i],
            scope,
        ) by {
            assert(front[i] == parts[i] && rest[i] == filters[i]);
        }
        lemma_same_parts(front, rest, scope, bound, row, order);
        assert(is_meant(parts[parts.len() - 1], bound, filters[filters.len() - 1], scope));
        assert(is_true(parts[parts.len() - 1], row, order, bound) <==> meets(
            filters[filters.len() - 1],
            row,
            scope,
            order,
        ));
    }
}

proof fn lemma_filters(
    filters: Seq<QueryFilter>,
    scope: FilterScope,
    before: nat,
    bound: Seq<SqlView>,
) -> (parts: Seq<Condition>)
    requires
        filter_clauses(filters, scope, before) is Ok,
        ({
            let values = filter_clauses(filters, scope, before)->Ok_0.1;
            &&& before + values.len() <= bound.len()
            &&& bound.subrange(before as int, (before + values.len()) as int) == values
        }),
    ensures
        parts.len() == filters.len(),
        parts.len() == filter_clauses(filters, scope, before)->Ok_0.0.len(),
        forall|i: int|
            0 <= i < parts.len() ==> written(#[trigger] parts[i]) == filter_clauses(
                filters,
                scope,
                before,
            )->Ok_0.0[i],
        forall|i: int|
            0 <= i < parts.len() ==> is_meant(#[trigger] parts[i], bound, filters[i], scope),
    decreases filters,
{
    if filters.len() == 0 {
        Seq::empty()
    } else {
        let front = filters.subrange(0, filters.len() - 1);
        let last = filters[filters.len() - 1];
        let (texts, v1) = filter_clauses(front, scope, before)->Ok_0;
        let (text, v2) = filter_clause(last, scope, before + v1.len())->Ok_0;
        let whole = bound.subrange(before as int, (before + v1.len() + v2.len()) as int);
        assert(whole == v1 + v2);
        assert(bound.subrange(before as int, (before + v1.len()) as int) =~= v1) by {
            assert(bound.subrange(before as int, (before + v1.len()) as int) =~= whole.take(
                v1.len() as int,
            ));
        }
        assert(bound.subrange((before + v1.len()) as int, (before + v1.len() + v2.len()) as int)
            =~= v2) by {
            assert(bound.subrange(
                (before + v1.len()) as int,
                (before + v1.len() + v2.len()) as int,
            ) =~= whole.skip(v1.len() as int));
        }
        let parts = lemma_filters(front, scope, before, bound);
        let c = lemma_filter(last, scope, before + v1.len(), bound);
        let all = parts.push(c);
        assert forall|i: int| 0 <= i < all.len() implies is_meant(
            #[trigger] all[i],
            bound,
            filters[i],
            scope,
        ) by {
            if i < parts.len() {
                assert(all[i] == parts[i] && filters[i] == front[i]);
                assert(is_meant(parts[i], bound, front[i], scope));
            }
        }
        assert forall|i: int| 0 <= i < all.len() implies written(#[trigger] all[i])
            == filter_clauses(filters, scope, before)->Ok_0.0[i] by {
            if i < parts.len() {
                assert(all[i] == parts[i]);
            }
        }
        all
    }
}

// ── Queries ─────────────────────────────────────────────────────────────────

/// What a query reads: the records, for each collection the shadow rows of its
/// records, and which records a search of a collection's text finds.
pub struct Indexed {
    pub records: Records,
    pub shadows: Map<Seq<char>, Map<Seq<char>, Map<Seq<char>, SqlView>>>,
    pub finds: spec_fn(Seq<char>, Seq<char>, Seq<char>) -> bool,
}

/// The columns of a record's row, by their names.
pub open spec fn columns_of(row: RecordView) -> Map<Seq<char>, SqlView> {
    map![
        "id"@ => SqlView::Text(row.id),
        "collection"@ => SqlView::Text(row.collection),
        "data"@ => SqlView::Blob(row.data),
        "hlc"@ => SqlView::Text(row.hlc),
        "schema_version"@ => SqlView::Integer(row.schema_version as i64),
        "format_version"@ => SqlView::Integer(row.format_version as i64),
        "dek_encrypted"@ => blob_or_null(row.dek_encrypted),
        "deleted"@ => SqlView::Integer(if row.deleted { 1 } else { 0 }),
        "synced"@ => SqlView::Integer(if row.synced { 1 } else { 0 }),
        "created_at"@ => SqlView::Integer(row.created_at),
        "updated_at"@ => SqlView::Integer(row.updated_at),
    ]
}

/// A record of the database with its row in the shadow table of a collection.
pub open spec fn candidate(db: Indexed, collection: Seq<char>, row: RecordView) -> Candidate {
    let finds = db.finds;
    Candidate {
        columns: columns_of(row),
        fields: db.shadows[collection][row.id],
        found_by: |table: Seq<char>, text: Seq<char>| finds(table, text, row.id),
    }
}

/// Whether rows are those of which something holds, each once, in order.
pub open spec fn is_selection(
    records: Records,
    wanted: spec_fn(RecordView) -> bool,
    order: SortOrder,
    rows: Seq<RecordView>,
) -> bool {
    &&& rows.no_duplicates()
    &&& forall|row: RecordView| #[trigger]
        rows.contains(row) <==> records.contains_key(row.id) && records[row.id] == row && wanted(
            row,
        )
    &&& in_order(rows, order)
}

/// A statement that selects records: with the shadow table that they are joined
/// with, whether tombstones are left out, the condition, the order, and the
/// places at which the limit and the offset are bound.
pub struct Selecting {
    pub joined_with: Option<Seq<char>>,
    pub alive: bool,
    pub condition: Option<Condition>,
    pub order: SortOrder,
    pub limit_at: nat,
    pub offset_at: nat,
}

/// How such a statement is written.
pub open spec fn select_text(s: Selecting) -> Seq<char> {
    "SELECT r.id, r.collection, r.data, r.hlc, r.schema_version, r.format_version, r.dek_encrypted, r.deleted, r.synced, r.created_at, r.updated_at FROM records r"@
        + (match s.joined_with {
        Some(table) => " JOIN sidx_"@ + table + " s ON s.record_id = r.id"@,
        None => Seq::empty(),
    }) + " WHERE r.collection = ?1"@ + (if s.alive {
        " AND r.deleted = 0"@
    } else {
        Seq::empty()
    }) + (match s.condition {
        Some(c) => " AND ("@ + written(c) + ")"@,
        None => Seq::empty(),
    }) + " ORDER BY r.hlc "@ + (match s.order {
        SortOrder::HlcAsc => "ASC"@,
        SortOrder::HlcDesc => "DESC"@,
    }) + " LIMIT ?"@ + decimal(s.limit_at) + " OFFSET ?"@ + decimal(s.offset_at)
}

/// Whether such a statement selects a record when these values are bound.
pub open spec fn selects_row(
    s: Selecting,
    db: Indexed,
    order: ValueOrder,
    bound: Seq<SqlView>,
    row: RecordView,
) -> bool {
    let collection = text_in(bound[0]);
    &&& row.collection == collection
    &&& s.alive ==> !row.deleted
    &&& s.joined_with matches Some(table) ==> db.shadows[table].contains_key(row.id)
    &&& s.condition matches Some(c) ==> is_true(c, candidate(db, collection, row), order, bound)
}

/// The records that such a statement selects.
pub open spec fn selected_by(
    s: Selecting,
    db: Indexed,
    order: ValueOrder,
    bound: Seq<SqlView>,
) -> spec_fn(RecordView) -> bool {
    |row: RecordView| selects_row(s, db, order, bound, row)
}

/// Whether such a statement may read these rows.
pub open spec fn selects(
    s: Selecting,
    db: Indexed,
    order: ValueOrder,
    bound: Seq<SqlView>,
    rows: Seq<RecordView>,
) -> bool {
    exists|full: Seq<RecordView>| #[trigger]
        is_selection(
            db.records,
            selected_by(s, db, order, bound),
            s.order,
            full,
        ) && rows == window(
            full,
            bound[s.limit_at - 1]->Integer_0,
            bound[s.offset_at - 1]->Integer_0,
        )
}

/// Whether a record belongs to what a query asks for: it is of the collection,
/// not deleted unless those are asked for too, in the index where there is one
/// of scalar fields, and meets the filter if there is one.
pub open spec fn is_asked_for(
    db: Indexed,
    collection: Seq<char>,
    def: Option<&IndexDef>,
    opts: QueryOpts,
    order: ValueOrder,
    row: RecordView,
) -> bool {
    let indexed = def matches Some(d) && d.fields@.len() > 0;
    let searched = def matches Some(d) && d.fts_fields@.len() > 0;
    &&& row.collection == collection
    &&& opts.include_deleted || !row.deleted
    &&& indexed ==> db.shadows[collection].contains_key(row.id)
    &&& opts.filter matches Some(f) ==> meets(
        f,
        candidate(db, collection, row),
        FilterScope { collection, has_shadow: indexed, has_fts: searched },
        order,
    )
}

/// The records that a query asks for.
pub open spec fn asked_for(
    db: Indexed,
    collection: Seq<char>,
    def: Option<&IndexDef>,
    opts: QueryOpts,
    order: ValueOrder,
) -> spec_fn(RecordView) -> bool {
    |row: RecordView| is_asked_for(db, collection, def, opts, order, row)
}

/// Whether rows are the page that a query asks for.
pub open spec fn is_query_result(
    db: Indexed,
    collection: Seq<char>,
    def: Option<&IndexDef>,
    opts: QueryOpts,
    order: ValueOrder,
    rows: Seq<RecordView>,
) -> bool {
    exists|full: Seq<RecordView>| #[trigger]
        is_selection(
            db.records,
            asked_for(db, collection, def, opts, order),
            opts.order,
            full,
        ) && rows == (match opts.limit {
            Some(k) => page(full, opts.offset as nat, k as nat),
            None => page(full, opts.offset as nat, full.len()),
        })
}

/// A query reads the records that it asks for and no others: those of the
/// collection that meet the filter, sorted by their clock readings, and of them
/// the page that the limit and the offset give.
pub proof fn law_query_reads_what_it_asks_for(
    collection: Seq<char>,
    def: Option<&IndexDef>,
    opts: QueryOpts,
)
    requires
        query_statement(collection, def, opts) is Ok,
        opts.offset <= i64::MAX,
        opts.limit matches Some(k) ==> k <= i64::MAX,
    ensures
        ({
            let st = query_statement(collection, def, opts)->Ok_0;
            exists|s: Selecting| #[trigger]
                select_text(s) == st.sql && forall|
                    db: Indexed,
                    order: ValueOrder,
                    rows: Seq<RecordView>,
                | #[trigger]
                    selects(s, db, order, st.params, rows) <==> is_query_result(
                        db,
                        collection,
                        def,
                        opts,
                        order,
                        rows,
                    )
        }),
{
    let st = query_statement(collection, def, opts)->Ok_0;
    let (text, values) = query_filter(collection, def, opts.filter)->Ok_0;
    let indexed = def matches Some(d) && d.fields@.len() > 0;
    let searched = def matches Some(d) && d.fts_fields@.len() > 0;
    let scope = FilterScope { collection, has_shadow: indexed, has_fts: searched };
    let condition = match opts.filter {
        Some(f) => {
            assert(st.params.subrange(1, (1 + values.len()) as int) =~= values);
            Some(lemma_filter(f, scope, 1, st.params))
        },
        None => None,
    };
    let s = Selecting {
        joined_with: if indexed {
            Some(collection)
        } else {
            None
        },
        alive: !opts.include_deleted,
        condition,
        order: opts.order,
        limit_at: values.len() + 2,
        offset_at: values.len() + 3,
    };
    assert(select_text(s) =~= st.sql);
    assert forall|db: Indexed, order: ValueOrder, rows: Seq<RecordView>| #[trigger]
        selects(s, db, order, st.params, rows) <==> is_query_result(
            db,
            collection,
            def,
            opts,
            order,
            rows,
        ) by {
        lemma_same_rows(collection, def, opts, s, st, db, order, rows);
    }
}

proof fn lemma_same_rows(
    collection: Seq<char>,
    def: Option<&IndexDef>,
    opts: QueryOpts,
    s: Selecting,
    st: StatementView,
    db: Indexed,
    order: ValueOrder,
    rows: Seq<RecordView>,
)
    requires
        opts.offset <= i64::MAX,
        opts.limit matches Some(k) ==> k <= i64::MAX,
        st.params.len() > 2,
        st.params[0] == SqlView::Text(collection),
        s.limit_at > 0 && st.params[s.limit_at - 1] == SqlView::Integer(
            match opts.limit {
                Some(k) => k as i64,
                None => -1i64,
            },
        ),
        s.offset_at > 0 && st.params[s.offset_at - 1] == SqlView::Integer(opts.offset as i64),
        s.order == opts.order,
        s.alive == !opts.include_deleted,
        ({
            let indexed = def matches Some(d) && d.fields@.len() > 0;
            let searched = def matches Some(d) && d.fts_fields@.len() > 0;
            let scope = FilterScope { collection, has_shadow: indexed, has_fts: searched };
            &&& s.joined_with == (if indexed {
                Some(collection)
            } else {
                None
            })
            &&& s.condition is Some <==> opts.filter is Some
            &&& s.condition matches Some(c) ==> is_meant(c, st.params, opts.filter->0, scope)
        }),
    ensures
        selects(s, db, order, st.params, rows) <==> is_query_result(
            db,
            collection,
            def,
            opts,
            order,
            rows,
        ),
{
    let one = selected_by(s, db, order, st.params);
    let two = asked_for(db, collection, def, opts, order);
    assert forall|row: RecordView| #[trigger] one(row) == two(row) by {
        if let Some(c) = s.condition {
            assert(is_true(c, candidate(db, collection, row), order, st.params) <==> meets(
                opts.filter->0,
                candidate(db, collection, row),
                FilterScope {
                    collection,
                    has_shadow: def matches Some(d) && d.fields@.len() > 0,
                    has_fts: def matches Some(d) && d.fts_fields@.len() > 0,
                },
                order,
            ));
        }
    }
    assert(one =~= two);
    assert forall|full: Seq<RecordView>| window(
        full,
        st.params[s.limit_at - 1]->Integer_0,
        st.params[s.offset_at - 1]->Integer_0,
    ) == (match opts.limit {
        Some(k) => page(full, opts.offset as nat, k as nat),
        None => #[trigger] page(full, opts.offset as nat, full.len()),
    }) by {
        match opts.limit {
            Some(k) => {
                assert(window(full, k as i64, opts.offset as i64) =~= page(
                    full,
                    opts.offset as nat,
                    k as nat,
                ));
            },
            None => {
                assert(window(full, -1i64, opts.offset as i64) =~= page(
                    full,
                    opts.offset as nat,
                    full.len(),
                ));
            },
        }
    }
    if selects(s, db, order, st.params, rows) {
        let full = choose|full: Seq<RecordView>| #[trigger]
            is_selection(db.records, one, s.order, full) && rows == window(
                full,
                st.params[s.limit_at - 1]->Integer_0,
                st.params[s.offset_at - 1]->Integer_0,
            );
        let whole = page(full, opts.offset as nat, full.len());
        assert(is_selection(db.records, two, opts.order, full));
    }
    if is_query_result(db, collection, def, opts, order, rows) {
        let full = choose|full: Seq<RecordView>| #[trigger]
            is_selection(db.records, two, opts.order, full) && rows == (match opts.limit {
                Some(k) => page(full, opts.offset as nat, k as nat),
                None => page(full, opts.offset as nat, full.len()),
            });
        let whole = page(full, opts.offset as nat, full.len());
        assert(is_selection(db.records, one, s.order, full));
    }
}

} // verus!
