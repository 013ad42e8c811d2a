//! The records table.

use vstd::prelude::*;
use vstd::string::*;

use crate::db::index::{limit_value, order_word};
use crate::db::row::{
    blob_in, blob_or_null, blob_value, check_columns, first_misfit, int_in, opt_blob_in,
    opt_blob_value, opt_bytes, take_blob, take_int, take_opt_blob, take_text, text_in, text_value,
    ColumnKind,
};
use crate::db::statement::{values_view, SqlValue, SqlView, Statement, StatementView};
use crate::error::{ErrorView, SquirrelError};
use crate::types::SortOrder;

verus! {

/// A row of the records table.
#[derive(Debug, Clone)]
pub struct RecordRow {
    pub id: String,
    pub collection: String,
    pub data: Vec<u8>,
    pub hlc: String,
    pub schema_version: u32,
    pub format_version: u8,
    pub dek_encrypted: Option<Vec<u8>>,
    pub deleted: bool,
    pub synced: bool,
    pub created_at: i64,
    pub updated_at: i64,
}

/// A row of the records table, as characters and bytes.
pub struct RecordView {
    pub id: Seq<char>,
    pub collection: Seq<char>,
    pub data: Seq<u8>,
    pub hlc: Seq<char>,
    pub schema_version: u32,
    pub format_version: u8,
    pub dek_encrypted: Option<Seq<u8>>,
    pub deleted: bool,
    pub synced: bool,
    pub created_at: i64,
    pub updated_at: i64,
}

impl View for RecordRow {
    type V = RecordView;

    open spec fn view(&self) -> RecordView {
        RecordView {
            id: self.id@,
            collection: self.collection@,
            data: self.data@,
            hlc: self.hlc@,
            schema_version: self.schema_version,
            format_version: self.format_version,
            dek_encrypted: opt_bytes(self.dek_encrypted),
            deleted: self.deleted,
            synced: self.synced,
            created_at: self.created_at,
            updated_at: self.updated_at,
        }
    }
}

/// Writes a record that was changed on this device: not deleted, not synced.
/// An existing row keeps its creation time.
pub const UPSERT_SQL: &'static str = "INSERT INTO records (id, collection, data, hlc, schema_version, format_version, dek_encrypted, deleted, synced, created_at, updated_at) VALUES (?1,?2,?3,?4,?5,?6,?7,0,0,?8,?9) ON CONFLICT(id) DO UPDATE SET collection = excluded.collection, data = excluded.data, hlc = excluded.hlc, schema_version = excluded.schema_version, format_version = excluded.format_version, dek_encrypted = excluded.dek_encrypted, deleted = 0, synced = 0, updated_at = excluded.updated_at";

/// Writes a record that was changed on another device, with its tombstone. An
/// existing row keeps its creation time.
pub const UPSERT_REMOTE_SQL: &'static str = "INSERT INTO records (id, collection, data, hlc, schema_version, format_version, dek_encrypted, deleted, synced, created_at, updated_at) VALUES (?1,?2,?3,?4,?5,?6,?7,?8,1,?9,?10) ON CONFLICT(id) DO UPDATE SET collection = excluded.collection, data = excluded.data, hlc = excluded.hlc, schema_version = excluded.schema_version, format_version = excluded.format_version, dek_encrypted = excluded.dek_encrypted, deleted = excluded.deleted, synced = 1, updated_at = excluded.updated_at";

/// Reads one record.
pub const GET_SQL: &'static str = "SELECT id, collection, data, hlc, schema_version, format_version, dek_encrypted, deleted, synced, created_at, updated_at FROM records WHERE id = ?1 AND collection = ?2";

/// Sets a record's tombstone. The row stays.
pub const SOFT_DELETE_SQL: &'static str = "UPDATE records SET deleted = 1, hlc = ?1, synced = 0, updated_at = ?2 WHERE id = ?3 AND collection = ?4";

/// Marks a record as pushed.
pub const MARK_SYNCED_SQL: &'static str = "UPDATE records SET synced = 1 WHERE id = ?1 AND collection = ?2";

/// Reads the latest clock reading of all records.
pub const MAX_HLC_SQL: &'static str = "SELECT MAX(hlc) FROM records";

/// The statement that writes a record changed on this device.
pub open spec fn upsert_statement(row: RecordView) -> StatementView {
    StatementView {
        sql: UPSERT_SQL@,
        params: seq![
            SqlView::Text(row.id),
            SqlView::Text(row.collection),
            SqlView::Blob(row.data),
            SqlView::Text(row.hlc),
            SqlView::Integer(row.schema_version as i64),
            SqlView::Integer(row.format_version as i64),
            blob_or_null(row.dek_encrypted),
            SqlView::Integer(row.created_at),
            SqlView::Integer(row.updated_at),
        ],
    }
}

/// The statement that writes a record changed on another device.
pub open spec fn upsert_remote_statement(row: RecordView) -> StatementView {
    StatementView {
        sql: UPSERT_REMOTE_SQL@,
        params: seq![
            SqlView::Text(row.id),
            SqlView::Text(row.collection),
            SqlView::Blob(row.data),
            SqlView::Text(row.hlc),
            SqlView::Integer(row.schema_version as i64),
            SqlView::Integer(row.format_version as i64),
            blob_or_null(row.dek_encrypted),
            SqlView::Integer(if row.deleted { 1 } else { 0 }),
            SqlView::Integer(row.created_at),
            SqlView::Integer(row.updated_at),
        ],
    }
}

/// The statement that reads one record.
pub open spec fn get_statement(collection: Seq<char>, id: Seq<char>) -> StatementView {
    StatementView { sql: GET_SQL@, params: seq![SqlView::Text(id), SqlView::Text(collection)] }
}

/// The statement that sets a record's tombstone.
pub open spec fn soft_delete_statement(
    collection: Seq<char>,
    id: Seq<char>,
    hlc: Seq<char>,
    now: i64,
) -> StatementView {
    StatementView {
        sql: SOFT_DELETE_SQL@,
        params: seq![
            SqlView::Text(hlc),
            SqlView::Integer(now),
            SqlView::Text(id),
            SqlView::Text(collection),
        ],
    }
}

/// Writes a record changed on this device. The row's own tombstone and sync
/// mark are not written: both are reset.
pub fn upsert(row: &RecordRow) -> (r: Statement)
    ensures
        r@ == upsert_statement(row@),
{
    let params: Vec<SqlValue> = vec![
        text_value(row.id.as_str()),
        text_value(row.collection.as_str()),
        blob_value(&row.data),
        text_value(row.hlc.as_str()),
        SqlValue::Integer(row.schema_version as i64),
        SqlValue::Integer(row.format_version as i64),
        opt_blob_value(&row.dek_encrypted),
        SqlValue::Integer(row.created_at),
        SqlValue::Integer(row.updated_at),
    ];
    let st = Statement { sql: UPSERT_SQL.to_owned(), params };
    assert(st@.params =~= upsert_statement(row@).params);
    st
}

/// Writes a record changed on another device, marked as synced.
pub fn upsert_remote(row: &RecordRow) -> (r: Statement)
    ensures
        r@ == upsert_remote_statement(row@),
{
    let params: Vec<SqlValue> = vec![
        text_value(row.id.as_str()),
        text_value(row.collection.as_str()),
        blob_value(&row.data),
        text_value(row.hlc.as_str()),
        SqlValue::Integer(row.schema_version as i64),
        SqlValue::Integer(row.format_version as i64),
        opt_blob_value(&row.dek_encrypted),
        SqlValue::Integer(if row.deleted { 1 } else { 0 }),
        SqlValue::Integer(row.created_at),
        SqlValue::Integer(row.updated_at),
    ];
    let st = Statement { sql: UPSERT_REMOTE_SQL.to_owned(), params };
    assert(st@.params =~= upsert_remote_statement(row@).params);
    st
}

/// Reads the record `id` of a collection.
pub fn get(collection: &str, id: &str) -> (r: Statement)
    ensures
        r@ == get_statement(collection@, id@),
{
    let params: Vec<SqlValue> = vec![text_value(id), text_value(collection)];
    let st = Statement { sql: GET_SQL.to_owned(), params };
    assert(st@.params =~= get_statement(collection@, id@).params);
    st
}

/// Sets the tombstone of a record and moves its clock reading on.
pub fn soft_delete(collection: &str, id: &str, hlc: &str, now: i64) -> (r: Statement)
    ensures
        r@ == soft_delete_statement(collection@, id@, hlc@, now),
{
    let params: Vec<SqlValue> = vec![
        text_value(hlc),
        SqlValue::Integer(now),
        text_value(id),
        text_value(collection),
    ];
    let st = Statement { sql: SOFT_DELETE_SQL.to_owned(), params };
    assert(st@.params =~= soft_delete_statement(collection@, id@, hlc@, now).params);
    st
}

/// The statement that marks a record as pushed.
pub open spec fn mark_synced_statement(
    record_id: Seq<char>,
    collection: Seq<char>,
) -> StatementView {
    StatementView {
        sql: MARK_SYNCED_SQL@,
        params: seq![SqlView::Text(record_id), SqlView::Text(collection)],
    }
}

/// Marks a record as pushed.
pub fn mark_synced(record_id: &str, collection: &str) -> (r: Statement)
    ensures
        r@ == mark_synced_statement(record_id@, collection@),
{
    let params: Vec<SqlValue> = vec![text_value(record_id), text_value(collection)];
    let st = Statement { sql: MARK_SYNCED_SQL.to_owned(), params };
    assert(st@.params =~= mark_synced_statement(record_id@, collection@).params);
    st
}

/// The text of the statement that lists a collection.
pub open spec fn list_sql(include_deleted: bool, order: SortOrder) -> Seq<char> {
    "SELECT id, collection, data, hlc, schema_version, format_version, dek_encrypted, deleted, synced, created_at, updated_at FROM records WHERE collection = ?1"@
        + (if include_deleted {
        Seq::empty()
    } else {
        " AND deleted = 0"@
    }) + " ORDER BY hlc "@ + order_word(order) + " LIMIT ?2 OFFSET ?3"@
}

/// The statement that lists a collection.
pub open spec fn list_statement(
    collection: Seq<char>,
    limit: Option<usize>,
    offset: usize,
    include_deleted: bool,
    order: SortOrder,
) -> StatementView {
    StatementView {
        sql: list_sql(include_deleted, order),
        params: seq![
            SqlView::Text(collection),
            SqlView::Integer(limit_value(limit)),
            SqlView::Integer(offset as i64),
        ],
    }
}

/// Lists the records of a collection in the order of their clock readings. A
/// negative limit is none.
#[verifier::truncate]
pub fn list(
    collection: &str,
    limit: Option<usize>,
    offset: usize,
    include_deleted: bool,
    order: SortOrder,
) -> (r: Statement)
    ensures
        r@ == list_statement(collection@, limit, offset, include_deleted, order),
{
    let limit_val: i64 = match limit {
        Some(l) => l as i64,
        None => -1,
    };
    let params: Vec<SqlValue> = vec![
        text_value(collection),
        SqlValue::Integer(limit_val),
        SqlValue::Integer(offset as i64),
    ];
    let mut sql =
        "SELECT id, collection, data, hlc, schema_version, format_version, dek_encrypted, deleted, synced, created_at, updated_at FROM records WHERE collection = ?1".to_owned();
    let mut alive = String::new();
    if !include_deleted {
        alive = " AND deleted = 0".to_owned();
    }
    sql.append(alive.as_str());
    sql.append(" ORDER BY hlc ");
    match order {
        SortOrder::HlcAsc => sql.append("ASC"),
        SortOrder::HlcDesc => sql.append("DESC"),
    }
    sql.append(" LIMIT ?2 OFFSET ?3");
    let st = Statement { sql, params };
    assert(st@.params =~= list_statement(
        collection@,
        limit,
        offset,
        include_deleted,
        order,
    ).params);
    st
}

/// The statements that write records are told apart by their first letters.
pub(crate) proof fn lemma_write_texts()
    ensures
        UPSERT_SQL@.len() > 19 && UPSERT_SQL@[0] == 'I' && UPSERT_SQL@[12] == 'r',
        UPSERT_REMOTE_SQL@.len() > 19 && UPSERT_REMOTE_SQL@[0] == 'I' && UPSERT_REMOTE_SQL@[12]
            == 'r',
        UPSERT_SQL@.len() != UPSERT_REMOTE_SQL@.len(),
        SOFT_DELETE_SQL@.len() > 19 && SOFT_DELETE_SQL@[0] == 'U' && SOFT_DELETE_SQL@[19] == 'd',
        MARK_SYNCED_SQL@.len() > 19 && MARK_SYNCED_SQL@[0] == 'U' && MARK_SYNCED_SQL@[19] == 's',
{
    reveal_strlit("INSERT INTO records (id, collection, data, hlc, schema_version, format_version, dek_encrypted, deleted, synced, created_at, updated_at) VALUES (?1,?2,?3,?4,?5,?6,?7,0,0,?8,?9) ON CONFLICT(id) DO UPDATE SET collection = excluded.collection, data = excluded.data, hlc = excluded.hlc, schema_version = excluded.schema_version, format_version = excluded.format_version, dek_encrypted = excluded.dek_encrypted, deleted = 0, synced = 0, updated_at = excluded.updated_at");
    reveal_strlit("INSERT INTO records (id, collection, data, hlc, schema_version, format_version, dek_encrypted, deleted, synced, created_at, updated_at) VALUES (?1,?2,?3,?4,?5,?6,?7,?8,1,?9,?10) ON CONFLICT(id) DO UPDATE SET collection = excluded.collection, data = excluded.data, hlc = excluded.hlc, schema_version = excluded.schema_version, format_version = excluded.format_version, dek_encrypted = excluded.dek_encrypted, deleted = excluded.deleted, synced = 1, updated_at = excluded.updated_at");
    reveal_strlit("UPDATE records SET deleted = 1, hlc = ?1, synced = 0, updated_at = ?2 WHERE id = ?3 AND collection = ?4");
    reveal_strlit("UPDATE records SET synced = 1 WHERE id = ?1 AND collection = ?2");
}

/// The statements that read records are told apart by their lengths.
pub(crate) proof fn lemma_read_texts(a: bool, x: SortOrder, b: bool, y: SortOrder)
    ensures
        GET_SQL@ != list_sql(a, x),
        list_sql(a, x) == list_sql(b, y) ==> a == b && x == y,
{
    reveal_strlit("SELECT id, collection, data, hlc, schema_version, format_version, dek_encrypted, deleted, synced, created_at, updated_at FROM records WHERE id = ?1 AND collection = ?2");
    reveal_strlit("SELECT id, collection, data, hlc, schema_version, format_version, dek_encrypted, deleted, synced, created_at, updated_at FROM records WHERE collection = ?1");
    reveal_strlit(" AND deleted = 0");
    reveal_strlit(" ORDER BY hlc ");
    reveal_strlit("ASC");
    reveal_strlit("DESC");
    reveal_strlit(" LIMIT ?2 OFFSET ?3");
    assert(list_sql(a, x).len() != GET_SQL@.len());
    assert(a != b || x != y ==> list_sql(a, x).len() != list_sql(b, y).len());
}

/// The statement that reads the latest clock reading of all records.
pub open spec fn latest_statement() -> StatementView {
    StatementView { sql: MAX_HLC_SQL@, params: Seq::empty() }
}

/// Reads the latest clock reading of all records, null where there is none.
pub fn max_hlc() -> (r: Statement)
    ensures
        r@ == latest_statement(),
{
    let st = Statement { sql: MAX_HLC_SQL.to_owned(), params: Vec::new() };
    assert(st@.params =~= Seq::<SqlView>::empty());
    st
}

/// The columns of a record, in the order in which every statement here and in
/// the index selects them.
pub open spec fn record_columns() -> Seq<(&'static str, ColumnKind)> {
    seq![
        ("id", ColumnKind::Text),
        ("collection", ColumnKind::Text),
        ("data", ColumnKind::Blob),
        ("hlc", ColumnKind::Text),
        ("schema_version", ColumnKind::Integer),
        ("format_version", ColumnKind::Integer),
        ("dek_encrypted", ColumnKind::BlobOrNull),
        ("deleted", ColumnKind::Integer),
        ("synced", ColumnKind::Integer),
        ("created_at", ColumnKind::Integer),
        ("updated_at", ColumnKind::Integer),
    ]
}

/// The record that a result row holds, or the error on its first column that
/// does not fit. Versions keep the low bits of what is stored.
pub open spec fn record_of(row: Seq<SqlView>) -> Result<RecordView, ErrorView> {
    match first_misfit(row, record_columns()) {
        Some(e) => Err(e),
        None => Ok(
            RecordView {
                id: text_in(row[0]),
                collection: text_in(row[1]),
                data: blob_in(row[2]),
                hlc: text_in(row[3]),
                schema_version: int_in(row[4]) as u32,
                format_version: int_in(row[5]) as u8,
                dek_encrypted: opt_blob_in(row[6]),
                deleted: int_in(row[7]) != 0,
                synced: int_in(row[8]) != 0,
                created_at: int_in(row[9]),
                updated_at: int_in(row[10]),
            },
        ),
    }
}

/// Reads a record out of a result row.
#[verifier::truncate]
pub fn from_row(row: &Vec<SqlValue>) -> (r: Result<RecordRow, SquirrelError>)
    ensures
        match record_of(values_view(row@)) {
            Ok(v) => r is Ok && r->Ok_0@ == v,
            Err(e) => r is Err && r->Err_0@ == e,
        },
{
    let columns: [(&str, ColumnKind); 11] = [
        ("id", ColumnKind::Text),
        ("collection", ColumnKind::Text),
        ("data", ColumnKind::Blob),
        ("hlc", ColumnKind::Text),
        ("schema_version", ColumnKind::Integer),
        ("format_version", ColumnKind::Integer),
        ("dek_encrypted", ColumnKind::BlobOrNull),
        ("deleted", ColumnKind::Integer),
        ("synced", ColumnKind::Integer),
        ("created_at", ColumnKind::Integer),
        ("updated_at", ColumnKind::Integer),
    ];
    assert(columns@ =~= record_columns());
    check_columns(row, columns.as_slice())?;
    proof {
        assert forall|i: int| 0 <= i < 11 implies crate::db::row::fits(
            (#[trigger] row@[i])@,
            record_columns()[i].1,
        ) by {}
    }
    Ok(
        RecordRow {
            id: take_text(&row[0]),
            collection: take_text(&row[1]),
            data: take_blob(&row[2]),
            hlc: take_text(&row[3]),
            schema_version: take_int(&row[4]) as u32,
            format_version: take_int(&row[5]) as u8,
            dek_encrypted: take_opt_blob(&row[6]),
            deleted: take_int(&row[7]) != 0,
            synced: take_int(&row[8]) != 0,
            created_at: take_int(&row[9]),
            updated_at: take_int(&row[10]),
        },
    )
}

} // verus!
