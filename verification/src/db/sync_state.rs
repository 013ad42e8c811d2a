//! The pull checkpoint of each backend.

use vstd::prelude::*;
use vstd::string::*;

use crate::db::row::text_value;
use crate::db::statement::{SqlValue, SqlView, Statement, StatementView};

verus! {

/// Reads a checkpoint.
pub const GET_CHECKPOINT_SQL: &'static str = "SELECT last_pull_hlc FROM sync_state WHERE backend = ?1";

/// Writes a checkpoint.
pub const SET_CHECKPOINT_SQL: &'static str = "INSERT INTO sync_state (backend, last_pull_hlc) VALUES (?1, ?2) ON CONFLICT(backend) DO UPDATE SET last_pull_hlc = excluded.last_pull_hlc";

/// The statement that writes a checkpoint.
pub open spec fn checkpoint_statement(backend_id: Seq<char>, hlc: Seq<char>) -> StatementView {
    StatementView {
        sql: SET_CHECKPOINT_SQL@,
        params: seq![SqlView::Text(backend_id), SqlView::Text(hlc)],
    }
}

/// The statement that reads a checkpoint.
pub open spec fn last_pull_statement(backend_id: Seq<char>) -> StatementView {
    StatementView { sql: GET_CHECKPOINT_SQL@, params: seq![SqlView::Text(backend_id)] }
}

/// Reads the clock reading up to which a backend was pulled. There is no row
/// before the first pull.
pub fn get_checkpoint(backend_id: &str) -> (r: Statement)
    ensures
        r@ == last_pull_statement(backend_id@),
{
    let params: Vec<SqlValue> = vec![text_value(backend_id)];
    let st = Statement { sql: GET_CHECKPOINT_SQL.to_owned(), params };
    assert(st@.params =~= seq![SqlView::Text(backend_id@)]);
    st
}

/// Writes the clock reading up to which a backend was pulled.
pub fn set_checkpoint(backend_id: &str, hlc: &str) -> (r: Statement)
    ensures
        r@ == checkpoint_statement(backend_id@, hlc@),
{
    let params: Vec<SqlValue> = vec![text_value(backend_id), text_value(hlc)];
    let st = Statement { sql: SET_CHECKPOINT_SQL.to_owned(), params };
    assert(st@.params =~= checkpoint_statement(backend_id@, hlc@).params);
    st
}

} // verus!
