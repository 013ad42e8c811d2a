//! Reading the columns of a result row.

use vstd::prelude::*;
use vstd::string::*;

use crate::db::statement::{values_view, SqlValue, SqlView};
use crate::error::{ErrorView, SquirrelError};
use crate::text::{decimal, decimal_text};

verus! {

/// What a column has to hold.
#[derive(Debug, Clone, Copy, PartialEq, Eq, Structural)]
pub enum ColumnKind {
    Text,
    TextOrNull,
    Integer,
    IntegerOrNull,
    Blob,
    BlobOrNull,
}

/// Whether a value is of the kind that a column has to hold.
pub open spec fn fits(v: SqlView, kind: ColumnKind) -> bool {
    match kind {
        ColumnKind::Text => v is Text,
        ColumnKind::TextOrNull => v is Text || v is Null,
        ColumnKind::Integer => v is Integer,
        ColumnKind::IntegerOrNull => v is Integer || v is Null,
        ColumnKind::Blob => v is Blob,
        ColumnKind::BlobOrNull => v is Blob || v is Null,
    }
}

/// The database's name for the type of a value.
pub open spec fn kind_name(v: SqlView) -> Seq<char> {
    match v {
        SqlView::Null => "Null"@,
        SqlView::Integer(_) => "Integer"@,
        SqlView::Real(_) => "Real"@,
        SqlView::Text(_) => "Text"@,
        SqlView::Blob(_) => "Blob"@,
    }
}

/// The error on a column that is missing or of another type.
pub open spec fn misfit(row: Seq<SqlView>, i: nat, name: Seq<char>) -> ErrorView {
    if i >= row.len() {
        ErrorView::Db("Invalid column index: "@ + decimal(i))
    } else {
        ErrorView::Db(
            "Invalid column type "@ + kind_name(row[i as int]) + " at index: "@ + decimal(i)
                + ", name: "@ + name,
        )
    }
}

/// The error on the first column that does not fit, if there is one.
pub open spec fn first_misfit(row: Seq<SqlView>, columns: Seq<(&str, ColumnKind)>) -> Option<
    ErrorView,
>
    decreases columns.len(),
{
    if columns.len() == 0 {
        None
    } else {
        match first_misfit(row, columns.drop_last()) {
            Some(e) => Some(e),
            None => {
                let i = (columns.len() - 1) as nat;
                if i < row.len() && fits(row[i as int], columns.last().1) {
                    None
                } else {
                    Some(misfit(row, i, columns.last().0@))
                }
            },
        }
    }
}

/// A row is taken exactly where it has a value for each column, of the kind that
/// the column holds; null stands only where the column may be without a value.
pub proof fn law_rows_are_checked(row: Seq<SqlView>, columns: Seq<(&str, ColumnKind)>)
    ensures
        first_misfit(row, columns) is None <==> {
            &&& columns.len() <= row.len()
            &&& forall|i: int|
                0 <= i < columns.len() ==> match (#[trigger] columns[i]).1 {
                    ColumnKind::Text => row[i] is Text,
                    ColumnKind::TextOrNull => row[i] is Text || row[i] is Null,
                    ColumnKind::Integer => row[i] is Integer,
                    ColumnKind::IntegerOrNull => row[i] is Integer || row[i] is Null,
                    ColumnKind::Blob => row[i] is Blob,
                    ColumnKind::BlobOrNull => row[i] is Blob || row[i] is Null,
                }
        },
{
    lemma_fit_or_not(row, columns);
    if first_misfit(row, columns) is None {
        assert forall|i: int| 0 <= i < columns.len() implies match (#[trigger] columns[i]).1 {
            ColumnKind::Text => row[i] is Text,
            ColumnKind::TextOrNull => row[i] is Text || row[i] is Null,
            ColumnKind::Integer => row[i] is Integer,
            ColumnKind::IntegerOrNull => row[i] is Integer || row[i] is Null,
            ColumnKind::Blob => row[i] is Blob,
            ColumnKind::BlobOrNull => row[i] is Blob || row[i] is Null,
        } by {
            assert(fits(row[i], columns[i].1));
        }
    }
}

proof fn lemma_fit_or_not(row: Seq<SqlView>, columns: Seq<(&str, ColumnKind)>)
    ensures
        first_misfit(row, columns) is None <==> {
            &&& columns.len() <= row.len()
            &&& forall|i: int| 0 <= i < columns.len() ==> fits(row[i], (#[trigger] columns[i]).1)
        },
    decreases columns.len(),
{
    if columns.len() > 0 {
        let front = columns.drop_last();
        lemma_fit_or_not(row, front);
        assert(columns.last() == columns[columns.len() - 1]);
        assert(forall|i: int| 0 <= i < front.len() ==> (#[trigger] front[i]) == columns[i]);
        if first_misfit(row, columns) is None {
            assert forall|i: int| 0 <= i < columns.len() implies fits(
                row[i],
                (#[trigger] columns[i]).1,
            ) by {
                if i < front.len() {
                    assert(front[i] == columns[i]);
                }
            }
        } else if first_misfit(row, front) is Some && front.len() <= row.len() {
            let i = choose|i: int| 0 <= i < front.len() && !fits(row[i], (#[trigger] front[i]).1);
            assert(front[i] == columns[i]);
        }
    }
}

/// The characters of a text value.
pub open spec fn text_in(v: SqlView) -> Seq<char> {
    v->Text_0
}

/// The characters of a text value, or nothing for null.
pub open spec fn opt_text_in(v: SqlView) -> Option<Seq<char>> {
    match v {
        SqlView::Text(s) => Some(s),
        _ => None,
    }
}

/// The number of an integer value.
pub open spec fn int_in(v: SqlView) -> i64 {
    v->Integer_0
}

/// The number of an integer value, or nothing for null.
pub open spec fn opt_int_in(v: SqlView) -> Option<i64> {
    match v {
        SqlView::Integer(n) => Some(n),
        _ => None,
    }
}

/// The bytes of a blob value.
pub open spec fn blob_in(v: SqlView) -> Seq<u8> {
    v->Blob_0
}

/// The bytes of a blob value, or nothing for null.
pub open spec fn opt_blob_in(v: SqlView) -> Option<Seq<u8>> {
    match v {
        SqlView::Blob(b) => Some(b),
        _ => None,
    }
}

/// The characters of an optional string.
pub open spec fn opt_text(o: Option<String>) -> Option<Seq<char>> {
    match o {
        Some(s) => Some(s@),
        None => None,
    }
}

/// The bytes of an optional vector.
pub open spec fn opt_bytes(o: Option<Vec<u8>>) -> Option<Seq<u8>> {
    match o {
        Some(b) => Some(b@),
        None => None,
    }
}

/// The bound value of an optional text.
pub open spec fn text_or_null(o: Option<Seq<char>>) -> SqlView {
    match o {
        Some(s) => SqlView::Text(s),
        None => SqlView::Null,
    }
}

/// The bound value of optional bytes.
pub open spec fn blob_or_null(o: Option<Seq<u8>>) -> SqlView {
    match o {
        Some(b) => SqlView::Blob(b),
        None => SqlView::Null,
    }
}

/// The bound value of an optional integer.
pub open spec fn int_or_null(o: Option<i64>) -> SqlView {
    match o {
        Some(n) => SqlView::Integer(n),
        None => SqlView::Null,
    }
}

fn kind_word(v: &SqlValue) -> (r: &'static str)
    ensures
        r@ == kind_name(v@),
{
    match v {
        SqlValue::Null => "Null",
        SqlValue::Integer(_) => "Integer",
        SqlValue::Real(_) => "Real",
        SqlValue::Text(_) => "Text",
        SqlValue::Blob(_) => "Blob",
    }
}

fn fits_kind(v: &SqlValue, kind: ColumnKind) -> (r: bool)
    ensures
        r == fits(v@, kind),
{
    match (kind, v) {
        (ColumnKind::Text, SqlValue::Text(_)) => true,
        (ColumnKind::TextOrNull, SqlValue::Text(_)) => true,
        (ColumnKind::TextOrNull, SqlValue::Null) => true,
        (ColumnKind::Integer, SqlValue::Integer(_)) => true,
        (ColumnKind::IntegerOrNull, SqlValue::Integer(_)) => true,
        (ColumnKind::IntegerOrNull, SqlValue::Null) => true,
        (ColumnKind::Blob, SqlValue::Blob(_)) => true,
        (ColumnKind::BlobOrNull, SqlValue::Blob(_)) => true,
        (ColumnKind::BlobOrNull, SqlValue::Null) => true,
        _ => false,
    }
}

/// A misfit among the first columns is the first of all.
proof fn lemma_first_misfit(row: Seq<SqlView>, columns: Seq<(&str, ColumnKind)>, k: int)
    requires
        0 <= k <= columns.len(),
        first_misfit(row, columns.take(k)) is Some,
    ensures
        first_misfit(row, columns) == first_misfit(row, columns.take(k)),
    decreases columns.len(),
{
    if k == columns.len() {
        assert(columns.take(k) =~= columns);
    } else {
        assert(columns.drop_last().take(k) =~= columns.take(k));
        lemma_first_misfit(row, columns.drop_last(), k);
    }
}

/// Columns without a misfit are there and fit.
proof fn lemma_all_fit(row: Seq<SqlView>, columns: Seq<(&str, ColumnKind)>)
    requires
        first_misfit(row, columns) is None,
    ensures
        columns.len() <= row.len(),
        forall|i: int| 0 <= i < columns.len() ==> fits(#[trigger] row[i], columns[i].1),
    decreases columns.len(),
{
    if columns.len() > 0 {
        lemma_all_fit(row, columns.drop_last());
        assert forall|i: int| 0 <= i < columns.len() implies fits(
            #[trigger] row[i],
            columns[i].1,
        ) by {
            if i < columns.len() - 1 {
                assert(columns.drop_last()[i] == columns[i]);
            }
        }
    }
}

/// Holds a row against the columns it should have, and fails on the first
/// that is missing or of another type.
pub fn check_columns(row: &Vec<SqlValue>, columns: &[(&str, ColumnKind)]) -> (r: Result<
    (),
    SquirrelError,
>)
    ensures
        match first_misfit(values_view(row@), columns@) {
            Some(e) => r is Err && r->Err_0@ == e,
            None => {
                &&& r is Ok
                &&& columns@.len() <= row@.len()
                &&& forall|i: int|
                    0 <= i < columns@.len() ==> fits((#[trigger] row@[i])@, columns@[i].1)
            },
        },
{
    let ghost view = values_view(row@);
    let mut i: usize = 0;
    while i < columns.len()
        invariant
            i <= columns@.len(),
            view == values_view(row@),
            first_misfit(view, columns@.take(i as int)) is None,
        decreases columns@.len() - i,
    {
        assert(columns@.take(i + 1).drop_last() =~= columns@.take(i as int));
        if i >= row.len() || !fits_kind(&row[i], columns[i].1) {
            proof {
                lemma_first_misfit(view, columns@, i + 1);
            }
            let number = decimal_text(i as u128);
            if i >= row.len() {
                return Err(
                    SquirrelError::Db("Invalid column index: ".to_owned().concat(number.as_str())),
                );
            }
            let mut text = "Invalid column type ".to_owned();
            text.append(kind_word(&row[i]));
            text.append(" at index: ");
            text.append(number.as_str());
            text.append(", name: ");
            text.append(columns[i].0);
            return Err(SquirrelError::Db(text));
        }
        i = i + 1;
    }
    proof {
        assert(columns@.take(i as int) =~= columns@);
        lemma_all_fit(view, columns@);
        assert forall|k: int| 0 <= k < columns@.len() implies fits(
            (#[trigger] row@[k])@,
            columns@[k].1,
        ) by {
            assert(fits(view[k], columns@[k].1));
        }
    }
    Ok(())
}

/// The text of a column that is known to hold one.
pub fn take_text(v: &SqlValue) -> (r: String)
    requires
        v@ is Text,
    ensures
        r@ == text_in(v@),
{
    match v {
        SqlValue::Text(s) => s.clone(),
        _ => String::new(),
    }
}

/// The text of a column, or nothing where it is null.
pub fn take_opt_text(v: &SqlValue) -> (r: Option<String>)
    ensures
        opt_text(r) == opt_text_in(v@),
{
    match v {
        SqlValue::Text(s) => Some(s.clone()),
        _ => None,
    }
}

/// The number of a column that is known to hold one.
pub fn take_int(v: &SqlValue) -> (r: i64)
    requires
        v@ is Integer,
    ensures
        r == int_in(v@),
{
    match v {
        SqlValue::Integer(n) => *n,
        _ => 0,
    }
}

/// The number of a column, or nothing where it is null.
pub fn take_opt_int(v: &SqlValue) -> (r: Option<i64>)
    ensures
        r == opt_int_in(v@),
{
    match v {
        SqlValue::Integer(n) => Some(*n),
        _ => None,
    }
}

/// The bytes of a column that is known to hold some.
pub fn take_blob(v: &SqlValue) -> (r: Vec<u8>)
    requires
        v@ is Blob,
    ensures
        r@ == blob_in(v@),
{
    match v {
        SqlValue::Blob(b) => copy_bytes(b),
        _ => Vec::new(),
    }
}

/// The bytes of a column, or nothing where it is null.
pub fn take_opt_blob(v: &SqlValue) -> (r: Option<Vec<u8>>)
    ensures
        opt_bytes(r) == opt_blob_in(v@),
{
    match v {
        SqlValue::Blob(b) => Some(copy_bytes(b)),
        _ => None,
    }
}

/// A copy of some bytes.
pub fn copy_bytes(b: &[u8]) -> (r: Vec<u8>)
    ensures
        r@ == b@,
{
    let mut out: Vec<u8> = Vec::new();
    out.extend_from_slice(b);
    assert(out@ =~= b@);
    out
}

/// A copy of an optional text.
pub fn copy_opt_text(o: &Option<String>) -> (r: Option<String>)
    ensures
        opt_text(r) == opt_text(*o),
{
    match o {
        Some(s) => Some(s.clone()),
        None => None,
    }
}

/// A copy of optional bytes.
pub fn copy_opt_bytes(o: &Option<Vec<u8>>) -> (r: Option<Vec<u8>>)
    ensures
        opt_bytes(r) == opt_bytes(*o),
{
    match o {
        Some(b) => Some(copy_bytes(b)),
        None => None,
    }
}

/// The bound value of a string.
pub fn text_value(s: &str) -> (r: SqlValue)
    ensures
        r@ == SqlView::Text(s@),
{
    SqlValue::Text(s.to_owned())
}

/// The bound value of an optional string.
pub fn opt_text_value(o: &Option<String>) -> (r: SqlValue)
    ensures
        r@ == text_or_null(opt_text(*o)),
{
    match o {
        Some(s) => SqlValue::Text(s.clone()),
        None => SqlValue::Null,
    }
}

/// The bound value of some bytes.
pub fn blob_value(b: &[u8]) -> (r: SqlValue)
    ensures
        r@ == SqlView::Blob(b@),
{
    SqlValue::Blob(copy_bytes(b))
}

/// The bound value of optional bytes.
pub fn opt_blob_value(o: &Option<Vec<u8>>) -> (r: SqlValue)
    ensures
        r@ == blob_or_null(opt_bytes(*o)),
{
    match o {
        Some(b) => SqlValue::Blob(copy_bytes(b)),
        None => SqlValue::Null,
    }
}

/// The bound value of an optional integer.
pub fn opt_int_value(o: Option<i64>) -> (r: SqlValue)
    ensures
        r@ == int_or_null(o),
{
    match o {
        Some(n) => SqlValue::Integer(n),
        None => SqlValue::Null,
    }
}

} // verus!
