//! The outbox: local changes that wait to be pushed, oldest first.

use vstd::prelude::*;
use vstd::string::*;

use crate::db::row::{
    check_columns, first_misfit, int_in, opt_blob_in, opt_int_in, opt_text, opt_text_in, take_int,
    take_opt_blob, take_opt_int, take_opt_text, take_text, text_in, text_value, blob_or_null, copy_bytes,
    opt_bytes, ColumnKind,
};
use crate::db::statement::{values_view, SqlValue, SqlView, Statement, StatementView};
use crate::error::{ErrorView, SquirrelError};
use crate::json::{array_text, entry_text, LogEntry};
use crate::retry::{append_to_error_log, backoff, backoff_ms, last_of, logged_items};
use crate::text::{join, joined, texts_view};

verus! {

/// An entry of the outbox.
#[derive(Debug, Clone)]
pub struct OutboxEntry {
    pub seq: i64,
    pub record_id: String,
    pub collection: String,
    pub operation: String,
    pub hlc: String,
    pub data: Option<Vec<u8>>,
    pub created_at: i64,
    pub next_retry_at: i64,
    pub retries: u32,
    pub last_error: Option<String>,
    pub error_log: Option<String>,
}

/// An entry of the outbox, as characters and bytes.
pub struct OutboxView {
    pub seq: i64,
    pub record_id: Seq<char>,
    pub collection: Seq<char>,
    pub operation: Seq<char>,
    pub hlc: Seq<char>,
    pub data: Option<Seq<u8>>,
    pub created_at: i64,
    pub next_retry_at: i64,
    pub retries: u32,
    pub last_error: Option<Seq<char>>,
    pub error_log: Option<Seq<char>>,
}

impl View for OutboxEntry {
    type V = OutboxView;

    open spec fn view(&self) -> OutboxView {
        OutboxView {
            seq: self.seq,
            record_id: self.record_id@,
            collection: self.collection@,
            operation: self.operation@,
            hlc: self.hlc@,
            data: opt_bytes(self.data),
            created_at: self.created_at,
            next_retry_at: self.next_retry_at,
            retries: self.retries,
            last_error: opt_text(self.last_error),
            error_log: opt_text(self.error_log),
        }
    }
}

/// Appends an entry.
pub const APPEND_SQL: &'static str = "INSERT INTO outbox (record_id, collection, operation, hlc, data, created_at) VALUES (?1, ?2, ?3, ?4, ?5, ?6)";

/// Reads the entries that are due, oldest first.
pub const PEEK_SQL: &'static str = "SELECT seq, record_id, collection, operation, hlc, data, created_at, next_retry_at, retries, last_error, error_log FROM outbox WHERE next_retry_at <= ?1 ORDER BY seq ASC LIMIT ?2";

/// Reads the number of the oldest entry that waits for its next attempt.
pub const FIRST_WAITING_SQL: &'static str = "SELECT MIN(seq) FROM outbox WHERE next_retry_at > ?1";

/// Reads how often an entry failed, and its error log.
pub const RETRY_STATE_SQL: &'static str = "SELECT retries, error_log FROM outbox WHERE seq = ?1";

/// Writes what follows a failed push.
pub const RETRY_SQL: &'static str = "UPDATE outbox SET retries = ?1, next_retry_at = ?2, last_error = ?3, error_log = ?4 WHERE seq = ?5";

/// Reads the entries that failed at least once, oldest first.
pub const PENDING_ERRORS_SQL: &'static str = "SELECT seq, record_id, collection, operation, hlc, data, created_at, next_retry_at, retries, last_error, error_log FROM outbox WHERE retries > 0 ORDER BY seq ASC";

/// Discards one entry.
pub const CLEAR_ERROR_SQL: &'static str = "DELETE FROM outbox WHERE seq = ?1";

/// Discards all entries of a record.
pub const REMOVE_FOR_RECORD_SQL: &'static str = "DELETE FROM outbox WHERE record_id = ?1 AND collection = ?2";

/// The statement that appends an entry at the time `now`.
pub open spec fn append_statement(
    record_id: Seq<char>,
    collection: Seq<char>,
    operation: Seq<char>,
    hlc: Seq<char>,
    data: Option<Seq<u8>>,
    now: i64,
) -> StatementView {
    StatementView {
        sql: APPEND_SQL@,
        params: seq![
            SqlView::Text(record_id),
            SqlView::Text(collection),
            SqlView::Text(operation),
            SqlView::Text(hlc),
            blob_or_null(data),
            SqlView::Integer(now),
        ],
    }
}

/// The bytes of an optional slice.
pub open spec fn opt_slice(data: Option<&[u8]>) -> Option<Seq<u8>> {
    match data {
        Some(d) => Some(d@),
        None => None,
    }
}

/// Appends an entry. It belongs into the transaction that writes the record.
pub fn append(
    record_id: &str,
    collection: &str,
    operation: &str,
    hlc: &str,
    data: Option<&[u8]>,
    now: i64,
) -> (r: Statement)
    ensures
        r@ == append_statement(record_id@, collection@, operation@, hlc@, opt_slice(data), now),
{
    let payload = match data {
        Some(d) => SqlValue::Blob(copy_bytes(d)),
        None => SqlValue::Null,
    };
    let params: Vec<SqlValue> = vec![
        text_value(record_id),
        text_value(collection),
        text_value(operation),
        text_value(hlc),
        payload,
        SqlValue::Integer(now),
    ];
    let st = Statement { sql: APPEND_SQL.to_owned(), params };
    assert(st@.params =~= append_statement(
        record_id@,
        collection@,
        operation@,
        hlc@,
        opt_slice(data),
        now,
    ).params);
    st
}

/// The statement that reads the entries that are due.
pub open spec fn peek_statement(limit: usize, now: i64) -> StatementView {
    StatementView {
        sql: PEEK_SQL@,
        params: seq![SqlView::Integer(now), SqlView::Integer(limit as i64)],
    }
}

/// Reads up to `limit` entries that are due at the time `now`, in the order in
/// which they were appended.
#[verifier::truncate]
pub fn peek_batch(limit: usize, now: i64) -> (r: Statement)
    ensures
        r@ == peek_statement(limit, now),
{
    let params: Vec<SqlValue> = vec![SqlValue::Integer(now), SqlValue::Integer(limit as i64)];
    let st = Statement { sql: PEEK_SQL.to_owned(), params };
    assert(st@.params =~= seq![SqlView::Integer(now), SqlView::Integer(limit as i64)]);
    st
}

/// The statement that reads the number of the oldest entry that is not due.
pub open spec fn waiting_statement(now: i64) -> StatementView {
    StatementView { sql: FIRST_WAITING_SQL@, params: seq![SqlView::Integer(now)] }
}

/// Reads the number of the oldest entry that is not due at the time `now`, null
/// where all are. It holds back every entry behind it.
pub fn first_waiting(now: i64) -> (r: Statement)
    ensures
        r@ == waiting_statement(now),
{
    let params: Vec<SqlValue> = vec![SqlValue::Integer(now)];
    let st = Statement { sql: FIRST_WAITING_SQL.to_owned(), params };
    assert(st@.params =~= seq![SqlView::Integer(now)]);
    st
}

/// The column of the oldest waiting entry.
pub open spec fn waiting_columns() -> Seq<(&'static str, ColumnKind)> {
    seq![("MIN(seq)", ColumnKind::IntegerOrNull)]
}

/// Reads the number of the oldest waiting entry out of a result row.
pub fn first_waiting_of(row: &Vec<SqlValue>) -> (r: Result<Option<i64>, SquirrelError>)
    ensures
        match first_misfit(values_view(row@), waiting_columns()) {
            Some(e) => r is Err && r->Err_0@ == e,
            None => r == Ok::<Option<i64>, SquirrelError>(opt_int_in(row@[0]@)),
        },
{
    let columns: [(&str, ColumnKind); 1] = [("MIN(seq)", ColumnKind::IntegerOrNull)];
    assert(columns@ =~= waiting_columns());
    check_columns(row, columns.as_slice())?;
    Ok(take_opt_int(&row[0]))
}

/// The statement that removes pushed entries, if there are any.
pub open spec fn delete_statement(seqs: Seq<i64>) -> Option<StatementView> {
    if seqs.len() == 0 {
        None
    } else {
        Some(
            StatementView {
                sql: "DELETE FROM outbox WHERE seq IN ("@ + joined(
                    Seq::new(seqs.len(), |i: int| "?"@),
                    ","@,
                ) + ")"@,
                params: Seq::new(seqs.len(), |i: int| SqlView::Integer(seqs[i])),
            },
        )
    }
}

/// `n` placeholders without numbers.
pub fn plain_placeholders(n: usize) -> (r: Vec<String>)
    ensures
        texts_view(r@) == Seq::new(n as nat, |i: int| "?"@),
{
    let mut out: Vec<String> = Vec::new();
    let mut i: usize = 0;
    while i < n
        invariant
            i <= n,
            texts_view(out@) == Seq::new(i as nat, |i: int| "?"@),
        decreases n - i,
    {
        let ghost before = texts_view(out@);
        out.push("?".to_owned());
        i = i + 1;
        assert(texts_view(out@) =~= before.push("?"@));
        assert(texts_view(out@) =~= Seq::new(i as nat, |i: int| "?"@));
    }
    out
}

/// Removes pushed entries. There is nothing to do for none.
pub fn delete_seqs(seqs: &[i64]) -> (r: Option<Statement>)
    ensures
        match delete_statement(seqs@) {
            Some(st) => r is Some && r->0@ == st,
            None => r is None,
        },
{
    if seqs.len() == 0 {
        return None;
    }
    let marks = plain_placeholders(seqs.len());
    let list = join(&marks, ",");
    let sql = "DELETE FROM outbox WHERE seq IN (".to_owned().concat(list.as_str()).concat(")");
    let mut params: Vec<SqlValue> = Vec::new();
    let mut i: usize = 0;
    while i < seqs.len()
        invariant
            i <= seqs@.len(),
            params@.len() == i,
            forall|k: int| 0 <= k < i ==> (#[trigger] params@[k])@ == SqlView::Integer(seqs@[k]),
        decreases seqs@.len() - i,
    {
        params.push(SqlValue::Integer(seqs[i]));
        i = i + 1;
    }
    let st = Statement { sql, params };
    assert(st@.params =~= Seq::new(seqs@.len(), |i: int| SqlView::Integer(seqs@[i])));
    Some(st)
}

/// The statement that reads how often an entry failed.
pub open spec fn failures_statement(seq: i64) -> StatementView {
    StatementView { sql: RETRY_STATE_SQL@, params: seq![SqlView::Integer(seq)] }
}

/// Reads how often an entry failed, and its error log.
pub fn retry_state(seq: i64) -> (r: Statement)
    ensures
        r@ == failures_statement(seq),
{
    let params: Vec<SqlValue> = vec![SqlValue::Integer(seq)];
    let st = Statement { sql: RETRY_STATE_SQL.to_owned(), params };
    assert(st@.params =~= seq![SqlView::Integer(seq)]);
    st
}

/// The columns of a retry state.
pub open spec fn retry_columns() -> Seq<(&'static str, ColumnKind)> {
    seq![("retries", ColumnKind::Integer), ("error_log", ColumnKind::TextOrNull)]
}

/// Reads a retry state out of a result row.
pub fn retry_state_of(row: &Vec<SqlValue>) -> (r: Result<(i64, Option<String>), SquirrelError>)
    ensures
        match first_misfit(values_view(row@), retry_columns()) {
            Some(e) => r is Err && r->Err_0@ == e,
            None => r is Ok && r->Ok_0.0 == int_in(row@[0]@) && opt_text(r->Ok_0.1) == opt_text_in(
                row@[1]@,
            ),
        },
{
    let columns: [(&str, ColumnKind); 2] = [
        ("retries", ColumnKind::Integer),
        ("error_log", ColumnKind::TextOrNull),
    ];
    assert(columns@ =~= retry_columns());
    check_columns(row, columns.as_slice())?;
    assert(crate::db::row::fits(row@[0]@, retry_columns()[0].1));
    Ok((take_int(&row[0]), take_opt_text(&row[1])))
}

/// The log text after one more error.
pub open spec fn log_after(existing: Option<Seq<char>>, error: Seq<char>, now: i64) -> Seq<char> {
    array_text(
        last_of(logged_items(existing).push(entry_text(LogEntry { error, ts: now })), 20),
    )
}

/// The statement that writes what follows a failed push.
pub open spec fn retry_statement(
    retries: i64,
    log: Option<Seq<char>>,
    seq: i64,
    error: Seq<char>,
    now: i64,
) -> StatementView {
    StatementView {
        sql: RETRY_SQL@,
        params: seq![
            SqlView::Integer((retries + 1) as i64),
            SqlView::Integer((now + backoff(retries as u32 as nat)) as i64),
            SqlView::Text(error),
            SqlView::Text(log_after(log, error, now)),
            SqlView::Integer(seq),
        ],
    }
}

/// What follows a failed push of the entry `seq`, of which `state` was read:
/// one more retry, a later time for it, and the error in the log. Nothing is
/// to be done for an entry that is gone.
#[verifier::truncate]
pub fn mark_retry(
    state: &Option<(i64, Option<String>)>,
    seq: i64,
    error: &str,
    now: i64,
) -> (r: Option<Statement>)
    requires
        state matches Some((retries, _)) ==> retries < i64::MAX,
        now <= i64::MAX - 300_000,
    ensures
        match *state {
            Some((retries, log)) => r is Some && r->0@ == retry_statement(
                retries,
                opt_text(log),
                seq,
                error@,
                now,
            ),
            None => r is None,
        },
{
    match state {
        None => None,
        Some((retries, log)) => {
            let wait: i64 = backoff_ms(*retries as u32);
            let new_log = append_to_error_log(log, error, now);
            let params: Vec<SqlValue> = vec![
                SqlValue::Integer(*retries + 1),
                SqlValue::Integer(now + wait),
                text_value(error),
                SqlValue::Text(new_log),
                SqlValue::Integer(seq),
            ];
            let st = Statement { sql: RETRY_SQL.to_owned(), params };
            assert(st@.params =~= retry_statement(
                *retries,
                opt_text(*log),
                seq,
                error@,
                now,
            ).params);
            Some(st)
        },
    }
}

/// The statement that reads the entries that failed at least once.
pub open spec fn pending_statement() -> StatementView {
    StatementView { sql: PENDING_ERRORS_SQL@, params: Seq::empty() }
}

/// Reads the entries that failed at least once.
pub fn list_pending_errors() -> (r: Statement)
    ensures
        r@ == pending_statement(),
{
    let st = Statement { sql: PENDING_ERRORS_SQL.to_owned(), params: Vec::new() };
    assert(st@.params =~= Seq::<SqlView>::empty());
    st
}

/// The statement that discards an entry.
pub open spec fn discard_statement(seq: i64) -> StatementView {
    StatementView { sql: CLEAR_ERROR_SQL@, params: seq![SqlView::Integer(seq)] }
}

/// Discards an entry that is stuck. The record itself stays as it is.
pub fn clear_error(seq: i64) -> (r: Statement)
    ensures
        r@ == discard_statement(seq),
{
    let params: Vec<SqlValue> = vec![SqlValue::Integer(seq)];
    let st = Statement { sql: CLEAR_ERROR_SQL.to_owned(), params };
    assert(st@.params =~= seq![SqlView::Integer(seq)]);
    st
}

/// The statement that discards all entries of a record.
pub open spec fn remove_statement(record_id: Seq<char>, collection: Seq<char>) -> StatementView {
    StatementView {
        sql: REMOVE_FOR_RECORD_SQL@,
        params: seq![SqlView::Text(record_id), SqlView::Text(collection)],
    }
}

/// Discards all entries of a record: the remote already has something newer.
pub fn remove_outbox_for_record(record_id: &str, collection: &str) -> (r: Statement)
    ensures
        r@ == remove_statement(record_id@, collection@),
{
    let params: Vec<SqlValue> = vec![text_value(record_id), text_value(collection)];
    let st = Statement { sql: REMOVE_FOR_RECORD_SQL.to_owned(), params };
    assert(st@.params =~= remove_statement(record_id@, collection@).params);
    st
}

/// The columns of an outbox entry.
pub open spec fn outbox_columns() -> Seq<(&'static str, ColumnKind)> {
    seq![
        ("seq", ColumnKind::Integer),
        ("record_id", ColumnKind::Text),
        ("collection", ColumnKind::Text),
        ("operation", ColumnKind::Text),
        ("hlc", ColumnKind::Text),
        ("data", ColumnKind::BlobOrNull),
        ("created_at", ColumnKind::Integer),
        ("next_retry_at", ColumnKind::Integer),
        ("retries", ColumnKind::Integer),
        ("last_error", ColumnKind::TextOrNull),
        ("error_log", ColumnKind::TextOrNull),
    ]
}

/// The outbox entry that a result row holds, or the error on its first column
/// that does not fit.
pub open spec fn outbox_entry_of(row: Seq<SqlView>) -> Result<OutboxView, ErrorView> {
    match first_misfit(row, outbox_columns()) {
        Some(e) => Err(e),
        None => Ok(
            OutboxView {
                seq: int_in(row[0]),
                record_id: text_in(row[1]),
                collection: text_in(row[2]),
                operation: text_in(row[3]),
                hlc: text_in(row[4]),
                data: opt_blob_in(row[5]),
                created_at: int_in(row[6]),
                next_retry_at: int_in(row[7]),
                retries: int_in(row[8]) as u32,
                last_error: opt_text_in(row[9]),
                error_log: opt_text_in(row[10]),
            },
        ),
    }
}

/// Reads an outbox entry out of a result row.
#[verifier::truncate]
pub fn from_row(row: &Vec<SqlValue>) -> (r: Result<OutboxEntry, SquirrelError>)
    ensures
        match outbox_entry_of(values_view(row@)) {
            Ok(v) => r is Ok && r->Ok_0@ == v,
            Err(e) => r is Err && r->Err_0@ == e,
        },
{
    let columns: [(&str, ColumnKind); 11] = [
        ("seq", ColumnKind::Integer),
        ("record_id", ColumnKind::Text),
        ("collection", ColumnKind::Text),
        ("operation", ColumnKind::Text),
        ("hlc", ColumnKind::Text),
        ("data", ColumnKind::BlobOrNull),
        ("created_at", ColumnKind::Integer),
        ("next_retry_at", ColumnKind::Integer),
        ("retries", ColumnKind::Integer),
        ("last_error", ColumnKind::TextOrNull),
        ("error_log", ColumnKind::TextOrNull),
    ];
    assert(columns@ =~= outbox_columns());
    check_columns(row, columns.as_slice())?;
    proof {
        assert forall|i: int| 0 <= i < 11 implies crate::db::row::fits(
            (#[trigger] row@[i])@,
            outbox_columns()[i].1,
        ) by {}
    }
    Ok(
        OutboxEntry {
            seq: take_int(&row[0]),
            record_id: take_text(&row[1]),
            collection: take_text(&row[2]),
            operation: take_text(&row[3]),
            hlc: take_text(&row[4]),
            data: take_opt_blob(&row[5]),
            created_at: take_int(&row[6]),
            next_retry_at: take_int(&row[7]),
            retries: take_int(&row[8]) as u32,
            last_error: take_opt_text(&row[9]),
            error_log: take_opt_text(&row[10]),
        },
    )
}

/// The statements that keep the outbox beside a record are told by their first
/// letters.
pub(crate) proof fn lemma_outbox_texts()
    ensures
        APPEND_SQL@.len() > 12 && APPEND_SQL@[0] == 'I' && APPEND_SQL@[12] == 'o',
        REMOVE_FOR_RECORD_SQL@.len() > 12 && REMOVE_FOR_RECORD_SQL@[0] == 'D',
{
    reveal_strlit("INSERT INTO outbox (record_id, collection, operation, hlc, data, created_at) VALUES (?1, ?2, ?3, ?4, ?5, ?6)");
    reveal_strlit("DELETE FROM outbox WHERE record_id = ?1 AND collection = ?2");
}

} // verus!
