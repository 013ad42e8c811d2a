//! The blobs table and the parts of multipart uploads.

use vstd::prelude::*;
use vstd::string::*;

use crate::db::outbox::{log_after, plain_placeholders};
use crate::db::row::{
    check_columns, first_misfit, int_in, int_or_null, opt_int_in, opt_int_value, opt_text,
    opt_text_in, opt_text_value, take_int, take_opt_int, take_opt_text, take_text, text_in,
    text_or_null, text_value, ColumnKind,
};
use crate::db::statement::{values_view, SqlValue, SqlView, Statement, StatementView};
use crate::error::{ErrorView, SquirrelError};
use crate::retry::{append_to_error_log, backoff, backoff_ms};
use crate::text::{decimal, decimal_int, decimal_int_text, decimal_text, join, joined};
use crate::types::{status_word, BlobStatus};

verus! {

/// A row of the blobs table.
#[derive(Debug, Clone)]
pub struct BlobRow {
    pub id: String,
    pub record_id: Option<String>,
    pub collection: Option<String>,
    pub local_path: Option<String>,
    pub s3_key: String,
    pub size_bytes: Option<i64>,
    pub upload_id: Option<String>,
    pub status: String,
    pub format_version: u8,
    pub retries: u32,
    pub next_retry_at: i64,
    pub last_error: Option<String>,
    pub error_log: Option<String>,
    pub created_at: i64,
    pub updated_at: i64,
}

/// A row of the blobs table, as characters.
pub struct BlobView {
    pub id: Seq<char>,
    pub record_id: Option<Seq<char>>,
    pub collection: Option<Seq<char>>,
    pub local_path: Option<Seq<char>>,
    pub s3_key: Seq<char>,
    pub size_bytes: Option<i64>,
    pub upload_id: Option<Seq<char>>,
    pub status: Seq<char>,
    pub format_version: u8,
    pub retries: u32,
    pub next_retry_at: i64,
    pub last_error: Option<Seq<char>>,
    pub error_log: Option<Seq<char>>,
    pub created_at: i64,
    pub updated_at: i64,
}

impl View for BlobRow {
    type V = BlobView;

    open spec fn view(&self) -> BlobView {
        BlobView {
            id: self.id@,
            record_id: opt_text(self.record_id),
            collection: opt_text(self.collection),
            local_path: opt_text(self.local_path),
            s3_key: self.s3_key@,
            size_bytes: self.size_bytes,
            upload_id: opt_text(self.upload_id),
            status: self.status@,
            format_version: self.format_version,
            retries: self.retries,
            next_retry_at: self.next_retry_at,
            last_error: opt_text(self.last_error),
            error_log: opt_text(self.error_log),
            created_at: self.created_at,
            updated_at: self.updated_at,
        }
    }
}

/// An uploaded part of a blob.
#[derive(Debug, Clone)]
pub struct BlobPartRow {
    pub blob_id: String,
    pub part_number: i32,
    pub etag: Option<String>,
    pub uploaded: bool,
}

/// An uploaded part of a blob, as characters.
pub struct BlobPartView {
    pub blob_id: Seq<char>,
    pub part_number: i32,
    pub etag: Option<Seq<char>>,
    pub uploaded: bool,
}

impl View for BlobPartRow {
    type V = BlobPartView;

    open spec fn view(&self) -> BlobPartView {
        BlobPartView {
            blob_id: self.blob_id@,
            part_number: self.part_number,
            etag: opt_text(self.etag),
            uploaded: self.uploaded,
        }
    }
}

/// Inserts a blob that never failed.
pub const INSERT_SQL: &'static str = "INSERT INTO blobs (id, record_id, collection, local_path, s3_key, size_bytes, upload_id, status, format_version, retries, next_retry_at, created_at, updated_at) VALUES (?1,?2,?3,?4,?5,?6,?7,?8,?9,0,0,?10,?11)";

/// Reads one blob.
pub const GET_SQL: &'static str = "SELECT id, record_id, collection, local_path, s3_key, size_bytes, upload_id, status, format_version, retries, next_retry_at, last_error, error_log, created_at, updated_at FROM blobs WHERE id = ?1";

/// Writes a blob's status.
pub const SET_STATUS_SQL: &'static str = "UPDATE blobs SET status = ?1, updated_at = ?2 WHERE id = ?3";

/// Writes where a blob's file is and how long it is.
pub const SET_PATH_SQL: &'static str = "UPDATE blobs SET local_path = ?1, size_bytes = ?2, updated_at = ?3 WHERE id = ?4";

/// Writes that a blob is being uploaded.
pub const SET_UPLOAD_SQL: &'static str = "UPDATE blobs SET upload_id = ?1, status = 'uploading', updated_at = ?2 WHERE id = ?3";

/// Writes that a blob's upload begins anew. How often it failed stays counted.
pub const CLEAR_UPLOAD_SQL: &'static str = "UPDATE blobs SET upload_id = NULL, status = 'pending', next_retry_at = 0, updated_at = ?1 WHERE id = ?2";

/// Reads how often a blob failed, and its error log.
pub const RETRY_STATE_SQL: &'static str = "SELECT retries, error_log FROM blobs WHERE id = ?1";

/// Writes what follows a failed attempt.
pub const RETRY_SQL: &'static str = "UPDATE blobs SET retries = ?1, next_retry_at = ?2, last_error = ?3, error_log = ?4, updated_at = ?5 WHERE id = ?6";

/// Writes an uploaded part.
pub const UPSERT_PART_SQL: &'static str = "INSERT INTO blob_parts (blob_id, part_number, etag, uploaded) VALUES (?1, ?2, ?3, 1) ON CONFLICT(blob_id, part_number) DO UPDATE SET etag = excluded.etag, uploaded = 1";

/// Reads the parts of a blob in order.
pub const LIST_PARTS_SQL: &'static str = "SELECT blob_id, part_number, etag, uploaded FROM blob_parts WHERE blob_id = ?1 ORDER BY part_number ASC";

/// Removes the parts of a blob.
pub const CLEAR_PARTS_SQL: &'static str = "DELETE FROM blob_parts WHERE blob_id = ?1";

/// The statement that inserts a blob.
pub open spec fn insert_statement(row: BlobView) -> StatementView {
    StatementView {
        sql: INSERT_SQL@,
        params: seq![
            SqlView::Text(row.id),
            text_or_null(row.record_id),
            text_or_null(row.collection),
            text_or_null(row.local_path),
            SqlView::Text(row.s3_key),
            int_or_null(row.size_bytes),
            text_or_null(row.upload_id),
            SqlView::Text(row.status),
            SqlView::Integer(row.format_version as i64),
            SqlView::Integer(row.created_at),
            SqlView::Integer(row.updated_at),
        ],
    }
}

/// Inserts a blob. What the row says of failures is not written.
pub fn insert(row: &BlobRow) -> (r: Statement)
    ensures
        r@ == insert_statement(row@),
{
    let params: Vec<SqlValue> = vec![
        text_value(row.id.as_str()),
        opt_text_value(&row.record_id),
        opt_text_value(&row.collection),
        opt_text_value(&row.local_path),
        text_value(row.s3_key.as_str()),
        opt_int_value(row.size_bytes),
        opt_text_value(&row.upload_id),
        text_value(row.status.as_str()),
        SqlValue::Integer(row.format_version as i64),
        SqlValue::Integer(row.created_at),
        SqlValue::Integer(row.updated_at),
    ];
    let st = Statement { sql: INSERT_SQL.to_owned(), params };
    assert(st@.params =~= insert_statement(row@).params);
    st
}

/// The statement that reads a blob.
pub open spec fn blob_statement(id: Seq<char>) -> StatementView {
    StatementView { sql: GET_SQL@, params: seq![SqlView::Text(id)] }
}

/// Reads the blob `id`.
pub fn get(id: &str) -> (r: Statement)
    ensures
        r@ == blob_statement(id@),
{
    let params: Vec<SqlValue> = vec![text_value(id)];
    let st = Statement { sql: GET_SQL.to_owned(), params };
    assert(st@.params =~= seq![SqlView::Text(id@)]);
    st
}

/// The bound values of a list of words.
pub open spec fn word_values(words: Seq<&str>) -> Seq<SqlView> {
    Seq::new(words.len(), |i: int| SqlView::Text(words[i]@))
}

/// The statement that reads the blobs in one of some statuses that are due,
/// oldest first. There is none for no status.
pub open spec fn ready_statement(statuses: Seq<&str>, now: i64) -> Option<StatementView> {
    if statuses.len() == 0 {
        None
    } else {
        Some(
            StatementView {
                sql: "SELECT id, record_id, collection, local_path, s3_key, size_bytes, upload_id, status, format_version, retries, next_retry_at, last_error, error_log, created_at, updated_at FROM blobs WHERE status IN ("@
                    + joined(Seq::new(statuses.len(), |i: int| "?"@), ","@)
                    + ") AND next_retry_at <= ?"@ + decimal(statuses.len() + 1)
                    + " ORDER BY created_at ASC"@,
                params: word_values(statuses).push(SqlView::Integer(now)),
            },
        )
    }
}

/// Reads the blobs in one of some statuses that are due at the time `now`.
pub fn list_ready(statuses: &[&str], now: i64) -> (r: Option<Statement>)
    ensures
        match ready_statement(statuses@, now) {
            Some(st) => r is Some && r->0@ == st,
            None => r is None,
        },
{
    if statuses.len() == 0 {
        return None;
    }
    let marks = plain_placeholders(statuses.len());
    let list = join(&marks, ",");
    let number = decimal_text(statuses.len() as u128 + 1);
    let mut sql =
        "SELECT id, record_id, collection, local_path, s3_key, size_bytes, upload_id, status, format_version, retries, next_retry_at, last_error, error_log, created_at, updated_at FROM blobs WHERE status IN (".to_owned();
    sql.append(list.as_str());
    sql.append(") AND next_retry_at <= ?");
    sql.append(number.as_str());
    sql.append(" ORDER BY created_at ASC");
    let mut params: Vec<SqlValue> = Vec::new();
    let mut i: usize = 0;
    while i < statuses.len()
        invariant
            i <= statuses@.len(),
            params@.len() == i,
            forall|k: int| 0 <= k < i ==> (#[trigger] params@[k])@ == SqlView::Text(statuses@[k]@),
        decreases statuses@.len() - i,
    {
        params.push(text_value(statuses[i]));
        i = i + 1;
    }
    params.push(SqlValue::Integer(now));
    let st = Statement { sql, params };
    assert(st@.params =~= word_values(statuses@).push(SqlView::Integer(now)));
    Some(st)
}

/// The statement that writes a blob's status.
pub open spec fn status_statement(id: Seq<char>, status: BlobStatus, now: i64) -> StatementView {
    StatementView {
        sql: SET_STATUS_SQL@,
        params: seq![
            SqlView::Text(status_word(status)),
            SqlView::Integer(now),
            SqlView::Text(id),
        ],
    }
}

/// Writes a blob's status.
pub fn set_status(id: &str, status: BlobStatus, now: i64) -> (r: Statement)
    ensures
        r@ == status_statement(id@, status, now),
{
    let params: Vec<SqlValue> = vec![
        text_value(status.as_str()),
        SqlValue::Integer(now),
        text_value(id),
    ];
    let st = Statement { sql: SET_STATUS_SQL.to_owned(), params };
    assert(st@.params =~= status_statement(id@, status, now).params);
    st
}

/// The statement that writes where a blob's file is and how long it is.
pub open spec fn path_statement(
    id: Seq<char>,
    local_path: Seq<char>,
    size_bytes: u64,
    now: i64,
) -> StatementView {
    StatementView {
        sql: SET_PATH_SQL@,
        params: seq![
            SqlView::Text(local_path),
            SqlView::Integer(size_bytes as i64),
            SqlView::Integer(now),
            SqlView::Text(id),
        ],
    }
}

/// Writes where a blob's file is and how long it is.
#[verifier::truncate]
pub fn set_local_path_and_size(id: &str, local_path: &str, size_bytes: u64, now: i64) -> (r:
    Statement)
    ensures
        r@ == path_statement(id@, local_path@, size_bytes, now),
{
    let params: Vec<SqlValue> = vec![
        text_value(local_path),
        SqlValue::Integer(size_bytes as i64),
        SqlValue::Integer(now),
        text_value(id),
    ];
    let st = Statement { sql: SET_PATH_SQL.to_owned(), params };
    assert(st@.params =~= path_statement(id@, local_path@, size_bytes, now).params);
    st
}

/// The statement that writes that a blob is being uploaded.
pub open spec fn upload_statement(id: Seq<char>, upload_id: Seq<char>, now: i64) -> StatementView {
    StatementView {
        sql: SET_UPLOAD_SQL@,
        params: seq![SqlView::Text(upload_id), SqlView::Integer(now), SqlView::Text(id)],
    }
}

/// Writes that a blob is being uploaded under `upload_id`.
pub fn set_upload_id(id: &str, upload_id: &str, now: i64) -> (r: Statement)
    ensures
        r@ == upload_statement(id@, upload_id@, now),
{
    let params: Vec<SqlValue> = vec![
        text_value(upload_id),
        SqlValue::Integer(now),
        text_value(id),
    ];
    let st = Statement { sql: SET_UPLOAD_SQL.to_owned(), params };
    assert(st@.params =~= upload_statement(id@, upload_id@, now).params);
    st
}

/// The statement that writes that a blob's upload begins anew.
pub open spec fn restart_statement(id: Seq<char>, now: i64) -> StatementView {
    StatementView {
        sql: CLEAR_UPLOAD_SQL@,
        params: seq![SqlView::Integer(now), SqlView::Text(id)],
    }
}

/// Writes that a blob's upload begins anew. How often it failed stays counted.
pub fn clear_upload_id(id: &str, now: i64) -> (r: Statement)
    ensures
        r@ == restart_statement(id@, now),
{
    let params: Vec<SqlValue> = vec![SqlValue::Integer(now), text_value(id)];
    let st = Statement { sql: CLEAR_UPLOAD_SQL.to_owned(), params };
    assert(st@.params =~= restart_statement(id@, now).params);
    st
}

/// The statement that reads how often a blob failed.
pub open spec fn blob_failures_statement(id: Seq<char>) -> StatementView {
    StatementView { sql: RETRY_STATE_SQL@, params: seq![SqlView::Text(id)] }
}

/// Reads how often a blob failed, and its error log.
pub fn retry_state(id: &str) -> (r: Statement)
    ensures
        r@ == blob_failures_statement(id@),
{
    let params: Vec<SqlValue> = vec![text_value(id)];
    let st = Statement { sql: RETRY_STATE_SQL.to_owned(), params };
    assert(st@.params =~= seq![SqlView::Text(id@)]);
    st
}

/// The statement that writes what follows a failed attempt.
pub open spec fn blob_retry_statement(
    retries: i64,
    log: Option<Seq<char>>,
    id: Seq<char>,
    error: Seq<char>,
    now: i64,
) -> StatementView {
    StatementView {
        sql: RETRY_SQL@,
        params: seq![
            SqlView::Integer((retries + 1) as i64),
            SqlView::Integer((now + backoff(retries as u32 as nat)) as i64),
            SqlView::Text(error),
            SqlView::Text(log_after(log, error, now)),
            SqlView::Integer(now),
            SqlView::Text(id),
        ],
    }
}

/// The statement that writes what follows a failed attempt, where `state` was
/// read of the blob. A blob that is gone counts as one that never failed.
pub open spec fn failed_blob_statement(
    state: Option<(i64, Option<Seq<char>>)>,
    id: Seq<char>,
    error: Seq<char>,
    now: i64,
) -> StatementView {
    match state {
        Some((retries, log)) => blob_retry_statement(retries, log, id, error, now),
        None => blob_retry_statement(0, None, id, error, now),
    }
}

/// What follows a failed attempt at the blob `id`, of which `state` was read.
/// A blob that is gone counts as one that never failed.
#[verifier::truncate]
pub fn mark_retry(state: &Option<(i64, Option<String>)>, id: &str, error: &str, now: i64) -> (r:
    Statement)
    requires
        state matches Some((retries, _)) ==> retries < i64::MAX,
        now <= i64::MAX - 300_000,
    ensures
        r@ == failed_blob_statement(
            match *state {
                Some((retries, log)) => Some((retries, opt_text(log))),
                None => None,
            },
            id@,
            error@,
            now,
        ),
{
    let none: Option<String> = None;
    let (retries, log): (i64, &Option<String>) = match state {
        Some((n, l)) => (*n, l),
        None => (0, &none),
    };
    let wait: i64 = backoff_ms(retries as u32);
    let new_log = append_to_error_log(log, error, now);
    let params: Vec<SqlValue> = vec![
        SqlValue::Integer(retries + 1),
        SqlValue::Integer(now + wait),
        text_value(error),
        SqlValue::Text(new_log),
        SqlValue::Integer(now),
        text_value(id),
    ];
    let st = Statement { sql: RETRY_SQL.to_owned(), params };
    assert(st@.params =~= blob_retry_statement(retries, opt_text(*log), id@, error@, now).params);
    st
}

/// The statement that writes an uploaded part.
pub open spec fn part_statement(
    blob_id: Seq<char>,
    part_number: i32,
    etag: Seq<char>,
) -> StatementView {
    StatementView {
        sql: UPSERT_PART_SQL@,
        params: seq![
            SqlView::Text(blob_id),
            SqlView::Integer(part_number as i64),
            SqlView::Text(etag),
        ],
    }
}

/// Writes an uploaded part.
pub fn upsert_part(blob_id: &str, part_number: i32, etag: &str) -> (r: Statement)
    ensures
        r@ == part_statement(blob_id@, part_number, etag@),
{
    let params: Vec<SqlValue> = vec![
        text_value(blob_id),
        SqlValue::Integer(part_number as i64),
        text_value(etag),
    ];
    let st = Statement { sql: UPSERT_PART_SQL.to_owned(), params };
    assert(st@.params =~= part_statement(blob_id@, part_number, etag@).params);
    st
}

/// The statement that reads the parts of a blob.
pub open spec fn parts_statement(blob_id: Seq<char>) -> StatementView {
    StatementView { sql: LIST_PARTS_SQL@, params: seq![SqlView::Text(blob_id)] }
}

/// Reads the parts of a blob in order.
pub fn list_parts(blob_id: &str) -> (r: Statement)
    ensures
        r@ == parts_statement(blob_id@),
{
    let params: Vec<SqlValue> = vec![text_value(blob_id)];
    let st = Statement { sql: LIST_PARTS_SQL.to_owned(), params };
    assert(st@.params =~= seq![SqlView::Text(blob_id@)]);
    st
}

/// The statement that removes the parts of a blob.
pub open spec fn clear_parts_statement(blob_id: Seq<char>) -> StatementView {
    StatementView { sql: CLEAR_PARTS_SQL@, params: seq![SqlView::Text(blob_id)] }
}

/// Removes the parts of a blob.
pub fn clear_parts(blob_id: &str) -> (r: Statement)
    ensures
        r@ == clear_parts_statement(blob_id@),
{
    let params: Vec<SqlValue> = vec![text_value(blob_id)];
    let st = Statement { sql: CLEAR_PARTS_SQL.to_owned(), params };
    assert(st@.params =~= clear_parts_statement(blob_id@).params);
    st
}

/// The columns of a blob.
pub open spec fn blob_columns() -> Seq<(&'static str, ColumnKind)> {
    seq![
        ("id", ColumnKind::Text),
        ("record_id", ColumnKind::TextOrNull),
        ("collection", ColumnKind::TextOrNull),
        ("local_path", ColumnKind::TextOrNull),
        ("s3_key", ColumnKind::Text),
        ("size_bytes", ColumnKind::IntegerOrNull),
        ("upload_id", ColumnKind::TextOrNull),
        ("status", ColumnKind::Text),
        ("format_version", ColumnKind::Integer),
        ("retries", ColumnKind::Integer),
        ("next_retry_at", ColumnKind::Integer),
        ("last_error", ColumnKind::TextOrNull),
        ("error_log", ColumnKind::TextOrNull),
        ("created_at", ColumnKind::Integer),
        ("updated_at", ColumnKind::Integer),
    ]
}

/// The blob that a result row holds, or the error on its first column that
/// does not fit.
pub open spec fn blob_of(row: Seq<SqlView>) -> Result<BlobView, ErrorView> {
    match first_misfit(row, blob_columns()) {
        Some(e) => Err(e),
        None => Ok(
            BlobView {
                id: text_in(row[0]),
                record_id: opt_text_in(row[1]),
                collection: opt_text_in(row[2]),
                local_path: opt_text_in(row[3]),
                s3_key: text_in(row[4]),
                size_bytes: opt_int_in(row[5]),
                upload_id: opt_text_in(row[6]),
                status: text_in(row[7]),
                format_version: int_in(row[8]) as u8,
                retries: int_in(row[9]) as u32,
                next_retry_at: int_in(row[10]),
                last_error: opt_text_in(row[11]),
                error_log: opt_text_in(row[12]),
                created_at: int_in(row[13]),
                updated_at: int_in(row[14]),
            },
        ),
    }
}

/// Reads a blob out of a result row.
#[verifier::truncate]
pub fn from_row(row: &Vec<SqlValue>) -> (r: Result<BlobRow, SquirrelError>)
    ensures
        match blob_of(values_view(row@)) {
            Ok(v) => r is Ok && r->Ok_0@ == v,
            Err(e) => r is Err && r->Err_0@ == e,
        },
{
    let columns: [(&str, ColumnKind); 15] = [
        ("id", ColumnKind::Text),
        ("record_id", ColumnKind::TextOrNull),
        ("collection", ColumnKind::TextOrNull),
        ("local_path", ColumnKind::TextOrNull),
        ("s3_key", ColumnKind::Text),
        ("size_bytes", ColumnKind::IntegerOrNull),
        ("upload_id", ColumnKind::TextOrNull),
        ("status", ColumnKind::Text),
        ("format_version", ColumnKind::Integer),
        ("retries", ColumnKind::Integer),
        ("next_retry_at", ColumnKind::Integer),
        ("last_error", ColumnKind::TextOrNull),
        ("error_log", ColumnKind::TextOrNull),
        ("created_at", ColumnKind::Integer),
        ("updated_at", ColumnKind::Integer),
    ];
    assert(columns@ =~= blob_columns());
    check_columns(row, columns.as_slice())?;
    proof {
        assert forall|i: int| 0 <= i < 15 implies crate::db::row::fits(
            (#[trigger] row@[i])@,
            blob_columns()[i].1,
        ) by {}
    }
    Ok(
        BlobRow {
            id: take_text(&row[0]),
            record_id: take_opt_text(&row[1]),
            collection: take_opt_text(&row[2]),
            local_path: take_opt_text(&row[3]),
            s3_key: take_text(&row[4]),
            size_bytes: take_opt_int(&row[5]),
            upload_id: take_opt_text(&row[6]),
            status: take_text(&row[7]),
            format_version: take_int(&row[8]) as u8,
            retries: take_int(&row[9]) as u32,
            next_retry_at: take_int(&row[10]),
            last_error: take_opt_text(&row[11]),
            error_log: take_opt_text(&row[12]),
            created_at: take_int(&row[13]),
            updated_at: take_int(&row[14]),
        },
    )
}

/// The columns of a part.
pub open spec fn part_columns() -> Seq<(&'static str, ColumnKind)> {
    seq![
        ("blob_id", ColumnKind::Text),
        ("part_number", ColumnKind::Integer),
        ("etag", ColumnKind::TextOrNull),
        ("uploaded", ColumnKind::Integer),
    ]
}

/// The part that a result row holds, or the error on its first column that
/// does not fit.
pub open spec fn part_of(row: Seq<SqlView>) -> Result<BlobPartView, ErrorView> {
    match first_misfit(row, part_columns().take(2)) {
        Some(e) => Err(e),
        None => if !(i32::MIN <= int_in(row[1]) <= i32::MAX) {
            Err(
                ErrorView::Db(
                    "Integer "@ + decimal_int(int_in(row[1]) as int) + " out of range at index 1"@,
                ),
            )
        } else {
            match first_misfit(row, part_columns()) {
                Some(e) => Err(e),
                None => Ok(
                    BlobPartView {
                        blob_id: text_in(row[0]),
                        part_number: int_in(row[1]) as i32,
                        etag: opt_text_in(row[2]),
                        uploaded: int_in(row[3]) != 0,
                    },
                ),
            }
        },
    }
}

/// Reads a part out of a result row.
pub fn part_from_row(row: &Vec<SqlValue>) -> (r: Result<BlobPartRow, SquirrelError>)
    ensures
        match part_of(values_view(row@)) {
            Ok(v) => r is Ok && r->Ok_0@ == v,
            Err(e) => r is Err && r->Err_0@ == e,
        },
{
    let first: [(&str, ColumnKind); 2] = [
        ("blob_id", ColumnKind::Text),
        ("part_number", ColumnKind::Integer),
    ];
    let columns: [(&str, ColumnKind); 4] = [
        ("blob_id", ColumnKind::Text),
        ("part_number", ColumnKind::Integer),
        ("etag", ColumnKind::TextOrNull),
        ("uploaded", ColumnKind::Integer),
    ];
    assert(columns@ =~= part_columns());
    assert(first@ =~= part_columns().take(2));
    check_columns(row, first.as_slice())?;
    assert(crate::db::row::fits(row@[1]@, first@[1].1));
    let number: i64 = take_int(&row[1]);
    if number < -2147483648 || number > 2147483647 {
        let digits = decimal_int_text(number);
        return Err(
            SquirrelError::Db(
                "Integer ".to_owned().concat(digits.as_str()).concat(" out of range at index 1"),
            ),
        );
    }
    check_columns(row, columns.as_slice())?;
    proof {
        assert forall|i: int| 0 <= i < 4 implies crate::db::row::fits(
            (#[trigger] row@[i])@,
            part_columns()[i].1,
        ) by {}
    }
    Ok(
        BlobPartRow {
            blob_id: take_text(&row[0]),
            part_number: number as i32,
            etag: take_opt_text(&row[2]),
            uploaded: take_int(&row[3]) != 0,
        },
    )
}

} // verus!
