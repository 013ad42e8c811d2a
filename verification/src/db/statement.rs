//! SQL statements with their bound values.

use vstd::prelude::*;

verus! {

/// A value bound to a placeholder. A real number is held by the bits of its
/// IEEE 754 double.
#[derive(Debug, Clone)]
pub enum SqlValue {
    Null,
    Integer(i64),
    Real(u64),
    Text(String),
    Blob(Vec<u8>),
}

/// A bound value, with text as characters and a blob as bytes.
pub enum SqlView {
    Null,
    Integer(i64),
    Real(u64),
    Text(Seq<char>),
    Blob(Seq<u8>),
}

impl View for SqlValue {
    type V = SqlView;

    open spec fn view(&self) -> SqlView {
        match self {
            SqlValue::Null => SqlView::Null,
            SqlValue::Integer(n) => SqlView::Integer(*n),
            SqlValue::Real(bits) => SqlView::Real(*bits),
            SqlValue::Text(s) => SqlView::Text(s@),
            SqlValue::Blob(b) => SqlView::Blob(b@),
        }
    }
}

/// The views of a list of bound values.
pub open spec fn values_view(values: Seq<SqlValue>) -> Seq<SqlView> {
    Seq::new(values.len(), |i: int| values[i]@)
}

/// One SQL statement. The value at position `i` of `params` is bound to the
/// placeholder `?i+1`.
#[derive(Debug, Clone)]
pub struct Statement {
    pub sql: String,
    pub params: Vec<SqlValue>,
}

/// A statement as characters and bound values.
pub struct StatementView {
    pub sql: Seq<char>,
    pub params: Seq<SqlView>,
}

impl View for Statement {
    type V = StatementView;

    open spec fn view(&self) -> StatementView {
        StatementView { sql: self.sql@, params: values_view(self.params@) }
    }
}

/// The views of a list of statements.
pub open spec fn statements_view(statements: Seq<Statement>) -> Seq<StatementView> {
    Seq::new(statements.len(), |i: int| statements[i]@)
}

/// A list of values grows by one view as it grows by one value.
pub broadcast proof fn lemma_values_push(values: Seq<SqlValue>, v: SqlValue)
    ensures
        #[trigger] values_view(values.push(v)) == values_view(values).push(v@),
{
    assert(values_view(values.push(v)) =~= values_view(values).push(v@));
}

/// A list of statements grows by one view as it grows by one statement.
pub broadcast proof fn lemma_statements_push(statements: Seq<Statement>, s: Statement)
    ensures
        #[trigger] statements_view(statements.push(s)) == statements_view(statements).push(s@),
{
    assert(statements_view(statements.push(s)) =~= statements_view(statements).push(s@));
}

} // verus!
