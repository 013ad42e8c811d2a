//! Shadow index and full-text index of a collection: the statements that
//! create, fill and query them.

use vstd::prelude::*;
use vstd::string::*;

use crate::db::statement::{
    lemma_statements_push, lemma_values_push, statements_view, values_view, SqlValue, SqlView,
    Statement, StatementView,
};
use crate::error::{ErrorView, SquirrelError};
use crate::text::{
    chars_of, debug_str, debug_text, decimal, decimal_int, decimal_int_text, decimal_text, join,
    joined, text_same, texts_view,
};
use crate::types::{sql_type, FieldDef, IndexDef, IndexValue, QueryFilter, SortOrder};

verus! {

// ── Identifiers ─────────────────────────────────────────────────────────────

/// A letter of the ASCII alphabet.
pub open spec fn is_letter(c: char) -> bool {
    'a' <= c <= 'z' || 'A' <= c <= 'Z'
}

/// A character that an identifier may hold after its first.
pub open spec fn is_word(c: char) -> bool {
    is_letter(c) || '0' <= c <= '9' || c == '_'
}

/// A valid SQL identifier: letters, digits and underscores, not starting with
/// a digit, and not empty.
pub open spec fn is_ident(s: Seq<char>) -> bool {
    &&& s.len() > 0
    &&& is_letter(s[0]) || s[0] == '_'
    &&& forall|i: int| 0 <= i < s.len() ==> is_word(#[trigger] s[i])
}

/// The error on a name that is no identifier.
pub open spec fn bad_ident(name: Seq<char>) -> ErrorView {
    ErrorView::Other("invalid identifier: "@ + debug_text(name))
}

/// Hands `name` back if it is a valid SQL identifier.
pub fn sanitize_ident(name: &str) -> (r: Result<&str, SquirrelError>)
    ensures
        match r {
            Ok(n) => is_ident(name@) && n@ == name@,
            Err(e) => !is_ident(name@) && e@ == bad_ident(name@),
        },
{
    let chars = chars_of(name);
    let n: usize = chars.len();
    let mut good: bool = n > 0 && (is_letter_char(chars[0]) || chars[0] == '_');
    let mut i: usize = 0;
    while good && i < n
        invariant
            n == chars@.len(),
            chars@ == name@,
            i <= n,
            good ==> n > 0 && (is_letter(chars@[0]) || chars@[0] == '_'),
            good ==> forall|k: int| 0 <= k < i ==> is_word(#[trigger] name@[k]),
            !good ==> !is_ident(name@),
        decreases n - i, if good { 1int } else { 0 },
    {
        if !is_word_char(chars[i]) {
            assert(!is_word(name@[i as int]));
            good = false;
        } else {
            i = i + 1;
        }
    }
    if good {
        Ok(name)
    } else {
        let quoted = debug_str(name);
        Err(SquirrelError::Other("invalid identifier: ".to_owned().concat(quoted.as_str())))
    }
}

fn is_letter_char(c: char) -> (r: bool)
    ensures
        r == is_letter(c),
{
    ('a' <= c && c <= 'z') || ('A' <= c && c <= 'Z')
}

fn is_word_char(c: char) -> (r: bool)
    ensures
        r == is_word(c),
{
    is_letter_char(c) || ('0' <= c && c <= '9') || c == '_'
}

// ── Filters ─────────────────────────────────────────────────────────────────

/// The bound value of an index value.
pub open spec fn sql_of(v: IndexValue) -> SqlView {
    match v {
        IndexValue::Text(s) => SqlView::Text(s@),
        IndexValue::Integer(n) => SqlView::Integer(n),
        IndexValue::Real(bits) => SqlView::Real(bits),
        IndexValue::Null => SqlView::Null,
    }
}

/// The columns that every record has, whatever its index.
pub open spec fn is_record_column(field: Seq<char>) -> bool {
    ||| field == "id"@
    ||| field == "hlc"@
    ||| field == "schema_version"@
    ||| field == "deleted"@
    ||| field == "created_at"@
    ||| field == "updated_at"@
}

/// The table alias under which a filter's field is found: the record table
/// for its own columns and where there is no shadow table.
pub open spec fn prefix_of(field: Seq<char>, has_shadow: bool) -> Seq<char> {
    if !has_shadow || is_record_column(field) {
        "r."@
    } else {
        "s."@
    }
}

/// The condition and the bound values of a filter, or its error.
pub type Clause = Result<(Seq<char>, Seq<SqlView>), ErrorView>;

/// The conditions and the bound values of several filters, or the error of
/// the first that has one.
pub type Clauses = Result<(Seq<Seq<char>>, Seq<SqlView>), ErrorView>;

/// What a filter is compiled for: the collection, and which of its index
/// tables exist.
pub struct FilterScope {
    pub collection: Seq<char>,
    pub has_shadow: bool,
    pub has_fts: bool,
}

/// The error on a full-text filter without a full-text index.
pub open spec fn needs_fts() -> ErrorView {
    ErrorView::Other(
        "QueryFilter::Contains requires an FTS index (fts_fields) for this collection"@,
    )
}

/// A comparison of a field with one bound value, placeholder `n`.
pub open spec fn comparison(
    field: Seq<char>,
    operator: Seq<char>,
    value: IndexValue,
    scope: FilterScope,
    n: nat,
) -> Clause {
    if is_ident(field) {
        Ok(
            (
                prefix_of(field, scope.has_shadow) + field + operator + decimal(n),
                seq![sql_of(value)],
            ),
        )
    } else {
        Err(bad_ident(field))
    }
}

/// A search of the full-text table, placeholder `n`.
pub open spec fn search(text: Seq<char>, scope: FilterScope, n: nat) -> Clause {
    if scope.has_fts {
        Ok(
            (
                "r.id IN (SELECT record_id FROM fts_"@ + scope.collection + " WHERE fts_"@
                    + scope.collection + " MATCH ?"@ + decimal(n) + ")"@,
                seq![SqlView::Text(text)],
            ),
        )
    } else {
        Err(needs_fts())
    }
}

/// What a filter compiles to when `bound` values are bound before it.
pub open spec fn filter_clause(filter: QueryFilter, scope: FilterScope, bound: nat) -> Clause
    decreases filter,
{
    match filter {
        QueryFilter::Eq { field, value } => comparison(field@, " = ?"@, value, scope, bound + 1),
        QueryFilter::Lt { field, value } => comparison(field@, " < ?"@, value, scope, bound + 1),
        QueryFilter::Gt { field, value } => comparison(field@, " > ?"@, value, scope, bound + 1),
        QueryFilter::Le { field, value } => comparison(field@, " <= ?"@, value, scope, bound + 1),
        QueryFilter::Ge { field, value } => comparison(field@, " >= ?"@, value, scope, bound + 1),
        QueryFilter::Contains { text } => search(text@, scope, bound + 1),
        QueryFilter::And(filters) => if filters@.len() == 0 {
            Ok(("1"@, Seq::empty()))
        } else {
            combined(filter_clauses(filters@, scope, bound), " AND "@)
        },
        QueryFilter::Or(filters) => if filters@.len() == 0 {
            Ok(("0"@, Seq::empty()))
        } else {
            combined(filter_clauses(filters@, scope, bound), " OR "@)
        },
    }
}

/// What several filters compile to, each bound after the one before it.
pub open spec fn filter_clauses(
    filters: Seq<QueryFilter>,
    scope: FilterScope,
    bound: nat,
) -> Clauses
    decreases filters,
{
    if filters.len() == 0 {
        Ok((Seq::empty(), Seq::empty()))
    } else {
        match filter_clauses(filters.subrange(0, filters.len() - 1), scope, bound) {
            Err(e) => Err(e),
            Ok((texts, values)) => match filter_clause(
                filters[filters.len() - 1],
                scope,
                bound + values.len(),
            ) {
                Err(e) => Err(e),
                Ok((text, more)) => Ok((texts.push(text), values + more)),
            },
        }
    }
}

/// Conditions joined by an operator, in parentheses.
pub open spec fn combined(clauses: Clauses, operator: Seq<char>) -> Clause {
    match clauses {
        Err(e) => Err(e),
        Ok((texts, values)) => Ok(("("@ + joined(texts, operator) + ")"@, values)),
    }
}

/// The bound value of an index value.
pub fn to_sql_value(v: &IndexValue) -> (r: SqlValue)
    ensures
        r@ == sql_of(*v),
{
    match v {
        IndexValue::Text(s) => SqlValue::Text(s.clone()),
        IndexValue::Integer(n) => SqlValue::Integer(*n),
        IndexValue::Real(bits) => SqlValue::Real(*bits),
        IndexValue::Null => SqlValue::Null,
    }
}

/// The table alias under which a filter's field is found.
pub fn col_prefix(field: &str, has_shadow: bool) -> (r: &'static str)
    ensures
        r@ == prefix_of(field@, has_shadow),
{
    if !has_shadow || text_same(field, "id") || text_same(field, "hlc") || text_same(
        field,
        "schema_version",
    ) || text_same(field, "deleted") || text_same(field, "created_at") || text_same(
        field,
        "updated_at",
    ) {
        "r."
    } else {
        "s."
    }
}

/// Compiles a comparison and binds its value.
fn build_comparison(
    field: &str,
    operator: &str,
    value: &IndexValue,
    has_shadow: bool,
    params: &mut Vec<SqlValue>,
) -> (r: Result<String, SquirrelError>)
    ensures
        ({
            let scope = FilterScope { collection: Seq::empty(), has_shadow, has_fts: false };
            match comparison(field@, operator@, *value, scope, old(params)@.len() + 1) {
                Ok((text, values)) => r is Ok && r->Ok_0@ == text && values_view(final(params)@)
                    == values_view(old(params)@) + values,
                Err(e) => r is Err && r->Err_0@ == e && final(params)@ == old(params)@,
            }
        }),
        final(params)@.len() >= old(params)@.len(),
        final(params)@.take(old(params)@.len() as int) == old(params)@,
{
    broadcast use lemma_values_push;

    let ghost before = params@;
    match sanitize_ident(field) {
        Err(e) => {
            assert(params@.take(before.len() as int) =~= before);
            Err(e)
        },
        Ok(col) => {
            let mut text = col_prefix(field, has_shadow).to_owned();
            let v = to_sql_value(value);
            params.push(v);
            let number = decimal_text(params.len() as u128);
            text.append(col);
            text.append(operator);
            text.append(number.as_str());
            assert(params@.take(before.len() as int) =~= before);
            assert(values_view(params@) =~= values_view(before) + seq![sql_of(*value)]);
            Ok(text)
        },
    }
}

/// Compiles a filter into a condition on the records of `collection`. The
/// values that it compares with are appended to `params`, each behind the
/// placeholder of its position, and never stand in the text.
pub fn build_filter_sql(
    filter: &QueryFilter,
    collection: &str,
    has_shadow: bool,
    has_fts: bool,
    params: &mut Vec<SqlValue>,
) -> (r: Result<String, SquirrelError>)
    ensures
        match filter_clause(
            *filter,
            FilterScope { collection: collection@, has_shadow, has_fts },
            old(params)@.len(),
        ) {
            Ok((text, values)) => r is Ok && r->Ok_0@ == text && values_view(final(params)@)
                == values_view(old(params)@) + values,
            Err(e) => r is Err && r->Err_0@ == e,
        },
        final(params)@.len() >= old(params)@.len(),
        final(params)@.take(old(params)@.len() as int) == old(params)@,
    decreases *filter,
{
    broadcast use lemma_values_push;

    let ghost scope = FilterScope { collection: collection@, has_shadow, has_fts };
    let ghost before = params@;
    match filter {
        QueryFilter::Eq { field, value } => build_comparison(
            field.as_str(),
            " = ?",
            value,
            has_shadow,
            params,
        ),
        QueryFilter::Lt { field, value } => build_comparison(
            field.as_str(),
            " < ?",
            value,
            has_shadow,
            params,
        ),
        QueryFilter::Gt { field, value } => build_comparison(
            field.as_str(),
            " > ?",
            value,
            has_shadow,
            params,
        ),
        QueryFilter::Le { field, value } => build_comparison(
            field.as_str(),
            " <= ?",
            value,
            has_shadow,
            params,
        ),
        QueryFilter::Ge { field, value } => build_comparison(
            field.as_str(),
            " >= ?",
            value,
            has_shadow,
            params,
        ),
        QueryFilter::Contains { text } => {
            if !has_fts {
                assert(params@.take(before.len() as int) =~= before);
                return Err(
                    SquirrelError::Other(
                        "QueryFilter::Contains requires an FTS index (fts_fields) for this collection".to_owned(),
                    ),
                );
            }
            params.push(SqlValue::Text(text.clone()));
            let number = decimal_text(params.len() as u128);
            let mut out = "r.id IN (SELECT record_id FROM fts_".to_owned();
            out.append(collection);
            out.append(" WHERE fts_");
            out.append(collection);
            out.append(" MATCH ?");
            out.append(number.as_str());
            out.append(")");
            assert(params@.take(before.len() as int) =~= before);
            assert(values_view(params@) =~= values_view(before) + seq![SqlView::Text(text@)]);
            Ok(out)
        },
        QueryFilter::And(filters) => {
            if filters.len() == 0 {
                assert(params@.take(before.len() as int) =~= before);
                assert(values_view(params@) =~= values_view(before) + Seq::<SqlView>::empty());
                return Ok("1".to_owned());
            }
            let parts = build_filter_list(filters, collection, has_shadow, has_fts, params)?;
            let body = join(&parts, " AND ");
            Ok("(".to_owned().concat(body.as_str()).concat(")"))
        },
        QueryFilter::Or(filters) => {
            if filters.len() == 0 {
                assert(params@.take(before.len() as int) =~= before);
                assert(values_view(params@) =~= values_view(before) + Seq::<SqlView>::empty());
                return Ok("0".to_owned());
            }
            let parts = build_filter_list(filters, collection, has_shadow, has_fts, params)?;
            let body = join(&parts, " OR ");
            Ok("(".to_owned().concat(body.as_str()).concat(")"))
        },
    }
}

/// Compiles filters one after the other, up to the first that fails.
fn build_filter_list(
    filters: &Vec<QueryFilter>,
    collection: &str,
    has_shadow: bool,
    has_fts: bool,
    params: &mut Vec<SqlValue>,
) -> (r: Result<Vec<String>, SquirrelError>)
    ensures
        match filter_clauses(
            filters@,
            FilterScope { collection: collection@, has_shadow, has_fts },
            old(params)@.len(),
        ) {
            Ok((texts, values)) => r is Ok && texts_view(r->Ok_0@) == texts && values_view(
                final(params)@,
            ) == values_view(old(params)@) + values,
            Err(e) => r is Err && r->Err_0@ == e,
        },
        final(params)@.len() >= old(params)@.len(),
        final(params)@.take(old(params)@.len() as int) == old(params)@,
    decreases *filters,
{
    let ghost scope = FilterScope { collection: collection@, has_shadow, has_fts };
    let ghost before = params@;
    let ghost bound = before.len();
    let mut parts: Vec<String> = Vec::new();
    let mut i: usize = 0;
    proof {
        assert(params@.take(before.len() as int) =~= before);
        assert(values_view(before) =~= values_view(before) + Seq::<SqlView>::empty());
        assert(texts_view(parts@) =~= Seq::<Seq<char>>::empty());
    }
    while i < filters.len()
        invariant
            i <= filters@.len(),
            scope == (FilterScope { collection: collection@, has_shadow, has_fts }),
            bound == before.len(),
            before == old(params)@,
            filter_clauses(filters@.subrange(0, i as int), scope, bound) is Ok,
            texts_view(parts@) == filter_clauses(
                filters@.subrange(0, i as int),
                scope,
                bound,
            )->Ok_0.0,
            values_view(params@) == values_view(before) + filter_clauses(
                filters@.subrange(0, i as int),
                scope,
                bound,
            )->Ok_0.1,
            params@.len() >= before.len(),
            params@.take(before.len() as int) == before,
        decreases filters@.len() - i,
    {
        let ghost done = filters@.subrange(0, i as int);
        let ghost upto = filters@.subrange(0, i + 1);
        let ghost here = params@;
        proof {
            assert(upto.subrange(0, upto.len() - 1) =~= done);
            assert(upto[upto.len() - 1] == filters@[i as int]);
            assert(values_view(here).len() == here.len());
            assert(decreases_to!(*filters => filters@[i as int]));
        }
        match build_filter_sql(&filters[i], collection, has_shadow, has_fts, params) {
            Err(e) => {
                proof {
                    lemma_clauses_err(filters@, scope, bound, i + 1);
                    assert(params@.take(before.len() as int) =~= params@.take(
                        here.len() as int,
                    ).take(before.len() as int));
                }
                return Err(e);
            },
            Ok(text) => {
                proof {
                    assert(params@.take(before.len() as int) =~= params@.take(
                        here.len() as int,
                    ).take(before.len() as int));
                    let (_, v1) = filter_clauses(done, scope, bound)->Ok_0;
                    let (_, v2) = filter_clause(
                        filters@[i as int],
                        scope,
                        bound + v1.len(),
                    )->Ok_0;
                    assert(values_view(before) + v1 + v2 =~= values_view(before) + (v1 + v2));
                    assert(texts_view(parts@.push(text)) =~= texts_view(parts@).push(text@));
                }
                parts.push(text);
            },
        }
        i = i + 1;
    }
    assert(filters@.subrange(0, i as int) =~= filters@);
    Ok(parts)
}

/// An error among the first filters is the error of them all.
proof fn lemma_clauses_err(filters: Seq<QueryFilter>, scope: FilterScope, bound: nat, k: int)
    requires
        0 <= k <= filters.len(),
        filter_clauses(filters.subrange(0, k), scope, bound) is Err,
    ensures
        filter_clauses(filters, scope, bound) == filter_clauses(
            filters.subrange(0, k),
            scope,
            bound,
        ),
    decreases filters.len(),
{
    if k == filters.len() {
        assert(filters.subrange(0, k) =~= filters);
    } else {
        let front = filters.subrange(0, filters.len() - 1);
        assert(front.subrange(0, k) =~= filters.subrange(0, k));
        lemma_clauses_err(front, scope, bound, k);
    }
}

// ── Names and values of an index ────────────────────────────────────────────

/// The names of the scalar fields.
pub open spec fn field_names(fields: Seq<FieldDef>) -> Seq<Seq<char>> {
    Seq::new(fields.len(), |i: int| fields[i].name@)
}

/// The first name that is no identifier.
pub open spec fn first_bad(names: Seq<Seq<char>>) -> Option<Seq<char>>
    decreases names.len(),
{
    if names.len() == 0 {
        None
    } else {
        match first_bad(names.drop_last()) {
            Some(n) => Some(n),
            None => if is_ident(names.last()) {
                None
            } else {
                Some(names.last())
            },
        }
    }
}

/// The value that is given for a field.
pub open spec fn value_of(values: Seq<(String, IndexValue)>, name: Seq<char>) -> Option<IndexValue>
    decreases values.len(),
{
    if values.len() == 0 {
        None
    } else if values[0].0@ == name {
        Some(values[0].1)
    } else {
        value_of(values.drop_first(), name)
    }
}

/// What the shadow table holds for a field: its value, or null.
pub open spec fn column_value(values: Seq<(String, IndexValue)>, name: Seq<char>) -> SqlView {
    match value_of(values, name) {
        Some(v) => sql_of(v),
        None => SqlView::Null,
    }
}

/// What the full-text table holds for a field: its text, the numeral of a
/// whole number, or nothing.
pub open spec fn fts_value(values: Seq<(String, IndexValue)>, name: Seq<char>) -> SqlView {
    match value_of(values, name) {
        Some(IndexValue::Text(s)) => SqlView::Text(s@),
        Some(IndexValue::Integer(n)) => SqlView::Text(decimal_int(n as int)),
        _ => SqlView::Text(Seq::empty()),
    }
}

/// An early name that is no identifier is the first of all.
proof fn lemma_first_bad_prefix(names: Seq<Seq<char>>, k: int)
    requires
        0 <= k <= names.len(),
        first_bad(names.take(k)) is Some,
    ensures
        first_bad(names) == first_bad(names.take(k)),
    decreases names.len(),
{
    if k == names.len() {
        assert(names.take(k) =~= names);
    } else {
        assert(names.drop_last().take(k) =~= names.take(k));
        lemma_first_bad_prefix(names.drop_last(), k);
    }
}

/// Fails on the first name that is no identifier.
fn check_names(names: &Vec<String>) -> (r: Result<(), SquirrelError>)
    ensures
        match first_bad(texts_view(names@)) {
            Some(n) => r is Err && r->Err_0@ == bad_ident(n),
            None => r is Ok,
        },
{
    let ghost all = texts_view(names@);
    let mut i: usize = 0;
    while i < names.len()
        invariant
            i <= names@.len(),
            all == texts_view(names@),
            first_bad(all.take(i as int)) is None,
        decreases names@.len() - i,
    {
        assert(all.take(i + 1).drop_last() =~= all.take(i as int));
        match sanitize_ident(names[i].as_str()) {
            Err(e) => {
                proof {
                    lemma_first_bad_prefix(all, i + 1);
                }
                return Err(e);
            },
            Ok(_) => {},
        }
        i = i + 1;
    }
    assert(all.take(i as int) =~= all);
    Ok(())
}

/// The names of the scalar fields.
fn names_of(fields: &Vec<FieldDef>) -> (r: Vec<String>)
    ensures
        texts_view(r@) == field_names(fields@),
{
    let mut out: Vec<String> = Vec::new();
    let mut i: usize = 0;
    while i < fields.len()
        invariant
            i <= fields@.len(),
            texts_view(out@) == field_names(fields@).take(i as int),
        decreases fields@.len() - i,
    {
        let ghost before = out@;
        out.push(fields[i].name.clone());
        i = i + 1;
        assert(texts_view(out@) =~= texts_view(before).push(fields@[i - 1].name@));
        assert(texts_view(out@) =~= field_names(fields@).take(i as int));
    }
    assert(field_names(fields@).take(i as int) =~= field_names(fields@));
    out
}

/// Finds the value that is given for a field.
fn find_value<'a>(values: &'a Vec<(String, IndexValue)>, name: &str) -> (r: Option<&'a IndexValue>)
    ensures
        match value_of(values@, name@) {
            Some(v) => r is Some && *r->0 == v,
            None => r is None,
        },
{
    let mut i: usize = 0;
    assert(values@.skip(0) =~= values@);
    while i < values.len()
        invariant
            i <= values@.len(),
            value_of(values@, name@) == value_of(values@.skip(i as int), name@),
        decreases values@.len() - i,
    {
        if text_same(values[i].0.as_str(), name) {
            return Some(&values[i].1);
        }
        assert(values@.skip(i as int).drop_first() =~= values@.skip(i + 1));
        i = i + 1;
    }
    None
}

// ── Creating the index tables ───────────────────────────────────────────────

/// The column definitions of the scalar fields.
pub open spec fn column_defs(fields: Seq<FieldDef>) -> Seq<Seq<char>> {
    Seq::new(fields.len(), |i: int| fields[i].name@ + " "@ + sql_type(fields[i].affinity))
}

/// The statement that creates a shadow table, if there are scalar fields.
pub open spec fn shadow_table(def: IndexDef) -> Result<Option<StatementView>, ErrorView> {
    if !is_ident(def.collection@) {
        Err(bad_ident(def.collection@))
    } else if def.fields@.len() == 0 {
        Ok(None)
    } else {
        match first_bad(field_names(def.fields@)) {
            Some(n) => Err(bad_ident(n)),
            None => Ok(
                Some(
                    StatementView {
                        sql: "CREATE TABLE IF NOT EXISTS sidx_"@ + def.collection@
                            + " (record_id TEXT PRIMARY KEY, "@ + joined(
                            column_defs(def.fields@),
                            ", "@,
                        ) + ")"@,
                        params: Seq::empty(),
                    },
                ),
            ),
        }
    }
}

/// The statement that creates a full-text table, if there are text fields.
pub open spec fn fts_table(def: IndexDef) -> Result<Option<StatementView>, ErrorView> {
    if !is_ident(def.collection@) {
        Err(bad_ident(def.collection@))
    } else if def.fts_fields@.len() == 0 {
        Ok(None)
    } else {
        match first_bad(texts_view(def.fts_fields@)) {
            Some(n) => Err(bad_ident(n)),
            None => Ok(
                Some(
                    StatementView {
                        sql: "CREATE VIRTUAL TABLE IF NOT EXISTS fts_"@ + def.collection@
                            + " USING fts5(record_id UNINDEXED, "@ + joined(
                            texts_view(def.fts_fields@),
                            ", "@,
                        ) + ", tokenize=\"unicode61\")"@,
                        params: Seq::empty(),
                    },
                ),
            ),
        }
    }
}

/// Whether an outcome is the statement, or the error, that is specified.
pub open spec fn is_plan(
    r: Result<Option<Statement>, SquirrelError>,
    plan: Result<Option<StatementView>, ErrorView>,
) -> bool {
    match plan {
        Ok(Some(st)) => r is Ok && r->Ok_0 is Some && r->Ok_0->0@ == st,
        Ok(None) => r is Ok && r->Ok_0 is None,
        Err(e) => r is Err && r->Err_0@ == e,
    }
}

/// The statement that creates the shadow table `sidx_{collection}`.
pub fn create_shadow_table(def: &IndexDef) -> (r: Result<Option<Statement>, SquirrelError>)
    ensures
        is_plan(r, shadow_table(*def)),
{
    let col = sanitize_ident(def.collection.as_str())?;
    if def.fields.len() == 0 {
        return Ok(None);
    }
    let names = names_of(&def.fields);
    check_names(&names)?;
    let mut defs: Vec<String> = Vec::new();
    let mut i: usize = 0;
    while i < def.fields.len()
        invariant
            i <= def.fields@.len(),
            texts_view(defs@) == column_defs(def.fields@).take(i as int),
        decreases def.fields@.len() - i,
    {
        let ghost before = defs@;
        let text = def.fields[i].name.clone().concat(" ").concat(def.fields[i].affinity.as_sql_type());
        let ghost t = text@;
        defs.push(text);
        i = i + 1;
        assert(texts_view(defs@) =~= texts_view(before).push(t));
        assert(texts_view(defs@) =~= column_defs(def.fields@).take(i as int));
    }
    assert(column_defs(def.fields@).take(i as int) =~= column_defs(def.fields@));
    let cols = join(&defs, ", ");
    let mut sql = "CREATE TABLE IF NOT EXISTS sidx_".to_owned();
    sql.append(col);
    sql.append(" (record_id TEXT PRIMARY KEY, ");
    sql.append(cols.as_str());
    sql.append(")");
    let st = Statement { sql, params: Vec::new() };
    assert(st@.params =~= Seq::<SqlView>::empty());
    Ok(Some(st))
}

/// The statement that creates the full-text table `fts_{collection}`.
pub fn create_fts_table(def: &IndexDef) -> (r: Result<Option<Statement>, SquirrelError>)
    ensures
        is_plan(r, fts_table(*def)),
{
    let col = sanitize_ident(def.collection.as_str())?;
    if def.fts_fields.len() == 0 {
        return Ok(None);
    }
    check_names(&def.fts_fields)?;
    let cols = join(&def.fts_fields, ", ");
    let mut sql = "CREATE VIRTUAL TABLE IF NOT EXISTS fts_".to_owned();
    sql.append(col);
    sql.append(" USING fts5(record_id UNINDEXED, ");
    sql.append(cols.as_str());
    sql.append(", tokenize=\"unicode61\")");
    let st = Statement { sql, params: Vec::new() };
    assert(st@.params =~= Seq::<SqlView>::empty());
    Ok(Some(st))
}

// ── Row maintenance ─────────────────────────────────────────────────────────

/// The placeholders `?2`, `?3`, … of `n` columns behind the record id.
pub open spec fn placeholders(n: nat) -> Seq<Seq<char>> {
    Seq::new(n, |i: int| "?"@ + decimal((i + 2) as nat))
}

/// An assignment of its placeholder to each column.
pub open spec fn assignments(names: Seq<Seq<char>>) -> Seq<Seq<char>> {
    Seq::new(names.len(), |i: int| names[i] + " = ?"@ + decimal((i + 2) as nat))
}

/// The statement that writes a record's row of the shadow table.
pub open spec fn index_row(
    def: IndexDef,
    record_id: Seq<char>,
    values: Seq<(String, IndexValue)>,
) -> Result<Option<StatementView>, ErrorView> {
    let names = field_names(def.fields@);
    if !is_ident(def.collection@) {
        Err(bad_ident(def.collection@))
    } else if names.len() == 0 {
        Ok(None)
    } else {
        match first_bad(names) {
            Some(n) => Err(bad_ident(n)),
            None => Ok(
                Some(
                    StatementView {
                        sql: "INSERT INTO sidx_"@ + def.collection@ + " (record_id, "@ + joined(
                            names,
                            ", "@,
                        ) + ") VALUES (?1, "@ + joined(placeholders(names.len()), ", "@)
                            + ") ON CONFLICT(record_id) DO UPDATE SET "@ + joined(
                            assignments(names),
                            ", "@,
                        ),
                        params: seq![SqlView::Text(record_id)] + Seq::new(
                            names.len(),
                            |i: int| column_value(values, names[i]),
                        ),
                    },
                ),
            ),
        }
    }
}

/// The statement that removes a record's row from an index table.
pub open spec fn index_delete(
    table: Seq<char>,
    collection: Seq<char>,
    record_id: Seq<char>,
) -> StatementView {
    StatementView {
        sql: "DELETE FROM "@ + table + collection + " WHERE record_id = ?1"@,
        params: seq![SqlView::Text(record_id)],
    }
}

/// The statements that write a record's row of the full-text table: the old
/// row goes first, for a full-text table knows no conflict of keys.
pub open spec fn fts_row(
    def: IndexDef,
    record_id: Seq<char>,
    values: Seq<(String, IndexValue)>,
) -> Result<Seq<StatementView>, ErrorView> {
    let names = texts_view(def.fts_fields@);
    if !is_ident(def.collection@) {
        Err(bad_ident(def.collection@))
    } else if names.len() == 0 {
        Ok(Seq::empty())
    } else {
        match first_bad(names) {
            Some(n) => Err(bad_ident(n)),
            None => Ok(
                seq![
                    index_delete("fts_"@, def.collection@, record_id),
                    StatementView {
                        sql: "INSERT INTO fts_"@ + def.collection@ + " (record_id, "@ + joined(
                            names,
                            ", "@,
                        ) + ") VALUES (?1, "@ + joined(placeholders(names.len()), ", "@) + ")"@,
                        params: seq![SqlView::Text(record_id)] + Seq::new(
                            names.len(),
                            |i: int| fts_value(values, names[i]),
                        ),
                    },
                ],
            ),
        }
    }
}

/// The statements that remove a record from the index tables that exist.
pub open spec fn index_deletes(def: IndexDef, record_id: Seq<char>) -> Result<
    Seq<StatementView>,
    ErrorView,
> {
    if !is_ident(def.collection@) {
        Err(bad_ident(def.collection@))
    } else {
        let shadow = if def.fields@.len() > 0 {
            seq![index_delete("sidx_"@, def.collection@, record_id)]
        } else {
            Seq::empty()
        };
        let fts = if def.fts_fields@.len() > 0 {
            seq![index_delete("fts_"@, def.collection@, record_id)]
        } else {
            Seq::empty()
        };
        Ok(shadow + fts)
    }
}

/// Whether an outcome is the list of statements, or the error, that is
/// specified.
pub open spec fn is_script(
    r: Result<Vec<Statement>, SquirrelError>,
    script: Result<Seq<StatementView>, ErrorView>,
) -> bool {
    match script {
        Ok(list) => r is Ok && statements_view(r->Ok_0@) == list,
        Err(e) => r is Err && r->Err_0@ == e,
    }
}

/// The placeholders of `n` columns behind the record id.
fn placeholder_texts(n: usize) -> (r: Vec<String>)
    ensures
        texts_view(r@) == placeholders(n as nat),
{
    let mut out: Vec<String> = Vec::new();
    let mut i: usize = 0;
    while i < n
        invariant
            i <= n,
            texts_view(out@) == placeholders(n as nat).take(i as int),
        decreases n - i,
    {
        let ghost before = out@;
        let number = decimal_text(i as u128 + 2);
        let text = "?".to_owned().concat(number.as_str());
        let ghost t = text@;
        out.push(text);
        i = i + 1;
        assert(texts_view(out@) =~= texts_view(before).push(t));
        assert(texts_view(out@) =~= placeholders(n as nat).take(i as int));
    }
    assert(placeholders(n as nat).take(i as int) =~= placeholders(n as nat));
    out
}

/// An assignment of its placeholder to each column.
fn assignment_texts(names: &Vec<String>) -> (r: Vec<String>)
    ensures
        texts_view(r@) == assignments(texts_view(names@)),
{
    let mut out: Vec<String> = Vec::new();
    let ghost all = assignments(texts_view(names@));
    let mut i: usize = 0;
    while i < names.len()
        invariant
            i <= names@.len(),
            all == assignments(texts_view(names@)),
            texts_view(out@) == all.take(i as int),
        decreases names@.len() - i,
    {
        let ghost before = out@;
        let number = decimal_text(i as u128 + 2);
        let text = names[i].clone().concat(" = ?").concat(number.as_str());
        let ghost t = text@;
        out.push(text);
        i = i + 1;
        assert(texts_view(out@) =~= texts_view(before).push(t));
        assert(texts_view(out@) =~= all.take(i as int));
    }
    assert(all.take(i as int) =~= all);
    out
}

/// The statement that writes the row of `record_id` in the shadow table, with
/// null for each field without a value.
pub fn upsert_index_row(
    def: &IndexDef,
    record_id: &str,
    values: &Vec<(String, IndexValue)>,
) -> (r: Result<Option<Statement>, SquirrelError>)
    ensures
        is_plan(r, index_row(*def, record_id@, values@)),
{
    broadcast use lemma_values_push;

    let col = sanitize_ident(def.collection.as_str())?;
    if def.fields.len() == 0 {
        return Ok(None);
    }
    let names = names_of(&def.fields);
    check_names(&names)?;
    let ghost all = texts_view(names@);
    assert(all.len() == names@.len());
    let col_list = join(&names, ", ");
    let marks = placeholder_texts(names.len());
    let mark_list = join(&marks, ", ");
    let sets = assignment_texts(&names);
    let set_list = join(&sets, ", ");
    let mut sql = "INSERT INTO sidx_".to_owned();
    sql.append(col);
    sql.append(" (record_id, ");
    sql.append(col_list.as_str());
    sql.append(") VALUES (?1, ");
    sql.append(mark_list.as_str());
    sql.append(") ON CONFLICT(record_id) DO UPDATE SET ");
    sql.append(set_list.as_str());
    let ghost tail = Seq::new(all.len(), |i: int| column_value(values@, all[i]));
    let ghost head = seq![SqlView::Text(record_id@)];
    let mut params: Vec<SqlValue> = Vec::new();
    params.push(SqlValue::Text(record_id.to_owned()));
    assert(values_view(params@) =~= head + tail.take(0));
    let mut i: usize = 0;
    while i < names.len()
        invariant
            i <= names@.len(),
            all == texts_view(names@),
            tail == Seq::new(all.len(), |i: int| column_value(values@, all[i])),
            values_view(params@) == head + tail.take(i as int),
        decreases names@.len() - i,
    {
        let v = match find_value(values, names[i].as_str()) {
            Some(iv) => to_sql_value(iv),
            None => SqlValue::Null,
        };
        let ghost before = params@;
        params.push(v);
        i = i + 1;
        assert(values_view(params@) =~= values_view(before).push(tail[i - 1]));
        assert(values_view(params@) =~= head + tail.take(i as int));
    }
    assert(tail.take(i as int) =~= tail);
    Ok(Some(Statement { sql, params }))
}

/// The statement that removes a record's row from an index table.
fn delete_statement(table: &str, collection: &str, record_id: &str) -> (r: Statement)
    ensures
        r@ == index_delete(table@, collection@, record_id@),
{
    let mut sql = "DELETE FROM ".to_owned();
    sql.append(table);
    sql.append(collection);
    sql.append(" WHERE record_id = ?1");
    let mut params: Vec<SqlValue> = Vec::new();
    params.push(SqlValue::Text(record_id.to_owned()));
    let st = Statement { sql, params };
    assert(st@.params =~= seq![SqlView::Text(record_id@)]);
    st
}

/// The statements that write the row of `record_id` in the full-text table.
pub fn upsert_fts_row(
    def: &IndexDef,
    record_id: &str,
    values: &Vec<(String, IndexValue)>,
) -> (r: Result<Vec<Statement>, SquirrelError>)
    ensures
        is_script(r, fts_row(*def, record_id@, values@)),
{
    broadcast use lemma_values_push, lemma_statements_push;

    let col = sanitize_ident(def.collection.as_str())?;
    let mut out: Vec<Statement> = Vec::new();
    if def.fts_fields.len() == 0 {
        assert(statements_view(out@) =~= Seq::<StatementView>::empty());
        return Ok(out);
    }
    check_names(&def.fts_fields)?;
    let names = &def.fts_fields;
    let ghost all = texts_view(names@);
    let col_list = join(names, ", ");
    let marks = placeholder_texts(names.len());
    let mark_list = join(&marks, ", ");
    let mut sql = "INSERT INTO fts_".to_owned();
    sql.append(col);
    sql.append(" (record_id, ");
    sql.append(col_list.as_str());
    sql.append(") VALUES (?1, ");
    sql.append(mark_list.as_str());
    sql.append(")");
    let ghost tail = Seq::new(all.len(), |i: int| fts_value(values@, all[i]));
    let ghost head = seq![SqlView::Text(record_id@)];
    let mut params: Vec<SqlValue> = Vec::new();
    params.push(SqlValue::Text(record_id.to_owned()));
    assert(values_view(params@) =~= head + tail.take(0));
    let mut i: usize = 0;
    while i < names.len()
        invariant
            i <= names@.len(),
            all == texts_view(names@),
            tail == Seq::new(all.len(), |i: int| fts_value(values@, all[i])),
            values_view(params@) == head + tail.take(i as int),
        decreases names@.len() - i,
    {
        let v = match find_value(values, names[i].as_str()) {
            Some(IndexValue::Text(s)) => SqlValue::Text(s.clone()),
            Some(IndexValue::Integer(n)) => SqlValue::Text(decimal_int_text(*n)),
            _ => SqlValue::Text(String::new()),
        };
        let ghost before = params@;
        params.push(v);
        i = i + 1;
        assert(values_view(params@) =~= values_view(before).push(tail[i - 1]));
        assert(values_view(params@) =~= head + tail.take(i as int));
    }
    assert(tail.take(i as int) =~= tail);
    out.push(delete_statement("fts_", col, record_id));
    out.push(Statement { sql, params });
    assert(statements_view(out@) =~= fts_row(*def, record_id@, values@)->Ok_0);
    Ok(out)
}

/// The statements that remove `record_id` from the index tables.
pub fn delete_index_rows(def: &IndexDef, record_id: &str) -> (r: Result<
    Vec<Statement>,
    SquirrelError,
>)
    ensures
        is_script(r, index_deletes(*def, record_id@)),
{
    broadcast use lemma_statements_push;

    let col = sanitize_ident(def.collection.as_str())?;
    let mut out: Vec<Statement> = Vec::new();
    if def.fields.len() > 0 {
        out.push(delete_statement("sidx_", col, record_id));
    }
    if def.fts_fields.len() > 0 {
        out.push(delete_statement("fts_", col, record_id));
    }
    assert(statements_view(out@) =~= index_deletes(*def, record_id@)->Ok_0);
    Ok(out)
}

// ── Query ───────────────────────────────────────────────────────────────────

/// What a query asks for.
#[derive(Debug)]
pub struct QueryOpts {
    pub filter: Option<QueryFilter>,
    pub limit: Option<usize>,
    pub offset: usize,
    pub include_deleted: bool,
    pub order: SortOrder,
}

impl Default for QueryOpts {
    fn default() -> (r: QueryOpts)
        ensures
            r.filter is None,
            r.limit is None,
            r.offset == 0,
            !r.include_deleted,
            r.order == SortOrder::HlcDesc,
    {
        QueryOpts {
            filter: None,
            limit: None,
            offset: 0,
            include_deleted: false,
            order: SortOrder::HlcDesc,
        }
    }
}

/// A limit as the database takes it: a negative number where there is none.
pub open spec fn limit_value(limit: Option<usize>) -> i64 {
    match limit {
        Some(l) => l as i64,
        None => -1i64,
    }
}

/// The word for a sort order.
pub open spec fn order_word(order: SortOrder) -> Seq<char> {
    match order {
        SortOrder::HlcAsc => "ASC"@,
        SortOrder::HlcDesc => "DESC"@,
    }
}

/// Whether an index keeps scalar fields.
pub open spec fn has_shadow(def: Option<&IndexDef>) -> bool {
    def is Some && def->0.fields@.len() > 0
}

/// Whether an index keeps full-text fields.
pub open spec fn has_fts(def: Option<&IndexDef>) -> bool {
    def is Some && def->0.fts_fields@.len() > 0
}

/// The condition that a query adds for its filter, with its bound values. The
/// collection is bound before them.
pub open spec fn query_filter(
    collection: Seq<char>,
    def: Option<&IndexDef>,
    filter: Option<QueryFilter>,
) -> Clause {
    let scope = FilterScope { collection, has_shadow: has_shadow(def), has_fts: has_fts(def) };
    match filter {
        None => Ok((Seq::empty(), Seq::empty())),
        Some(f) => match filter_clause(f, scope, 1) {
            Err(e) => Err(e),
            Ok((text, values)) => Ok((" AND ("@ + text + ")"@, values)),
        },
    }
}

/// The statement of a query.
pub open spec fn query_statement(
    collection: Seq<char>,
    def: Option<&IndexDef>,
    opts: QueryOpts,
) -> Result<StatementView, ErrorView> {
    if !is_ident(collection) {
        Err(bad_ident(collection))
    } else {
        match query_filter(collection, def, opts.filter) {
            Err(e) => Err(e),
            Ok((condition, values)) => Ok(
                StatementView {
                    sql: "SELECT r.id, r.collection, r.data, r.hlc, r.schema_version, r.format_version, r.dek_encrypted, r.deleted, r.synced, r.created_at, r.updated_at FROM records r"@
                        + (if has_shadow(def) {
                        " JOIN sidx_"@ + collection + " s ON s.record_id = r.id"@
                    } else {
                        Seq::empty()
                    }) + " WHERE r.collection = ?1"@ + (if opts.include_deleted {
                        Seq::empty()
                    } else {
                        " AND r.deleted = 0"@
                    }) + condition + " ORDER BY r.hlc "@ + order_word(opts.order) + " LIMIT ?"@
                        + decimal(values.len() + 2) + " OFFSET ?"@ + decimal(values.len() + 3),
                    params: seq![SqlView::Text(collection)] + values + seq![
                        SqlView::Integer(limit_value(opts.limit)),
                        SqlView::Integer(opts.offset as i64),
                    ],
                },
            ),
        }
    }
}

/// The statement that selects the records of a collection that meet the
/// query's filter, in the order of their clock readings.
#[verifier::truncate]
pub fn query(collection: &str, def: Option<&IndexDef>, opts: &QueryOpts) -> (r: Result<
    Statement,
    SquirrelError,
>)
    ensures
        match query_statement(collection@, def, *opts) {
            Ok(st) => r is Ok && r->Ok_0@ == st,
            Err(e) => r is Err && r->Err_0@ == e,
        },
{
    broadcast use lemma_values_push;

    let col = sanitize_ident(collection)?;
    let (shadow, fts): (bool, bool) = match def {
        Some(d) => (d.fields.len() > 0, d.fts_fields.len() > 0),
        None => (false, false),
    };
    let mut params: Vec<SqlValue> = Vec::new();
    params.push(SqlValue::Text(collection.to_owned()));
    let ghost head = seq![SqlView::Text(collection@)];
    assert(values_view(params@) =~= head);
    let condition = match &opts.filter {
        Some(f) => {
            let clause = build_filter_sql(f, col, shadow, fts, &mut params)?;
            " AND (".to_owned().concat(clause.as_str()).concat(")")
        },
        None => {
            assert(values_view(params@) =~= head + Seq::<SqlView>::empty());
            String::new()
        },
    };
    let ghost values = query_filter(collection@, def, opts.filter)->Ok_0.1;
    assert(values_view(params@) == head + values);
    assert(params@.len() == values_view(params@).len());
    let limit_idx = decimal_text(params.len() as u128 + 1);
    let offset_idx = decimal_text(params.len() as u128 + 2);
    let limit: i64 = match opts.limit {
        Some(l) => l as i64,
        None => -1,
    };
    let offset: i64 = opts.offset as i64;
    params.push(SqlValue::Integer(limit));
    params.push(SqlValue::Integer(offset));
    assert(values_view(params@) =~= head + values + seq![
        SqlView::Integer(limit),
        SqlView::Integer(offset),
    ]);
    let mut sql =
        "SELECT r.id, r.collection, r.data, r.hlc, r.schema_version, r.format_version, r.dek_encrypted, r.deleted, r.synced, r.created_at, r.updated_at FROM records r".to_owned();
    let mut join_shadow = String::new();
    if shadow {
        join_shadow = " JOIN sidx_".to_owned().concat(col).concat(" s ON s.record_id = r.id");
    }
    let mut alive = String::new();
    if !opts.include_deleted {
        alive = " AND r.deleted = 0".to_owned();
    }
    sql.append(join_shadow.as_str());
    sql.append(" WHERE r.collection = ?1");
    sql.append(alive.as_str());
    sql.append(condition.as_str());
    sql.append(" ORDER BY r.hlc ");
    match opts.order {
        SortOrder::HlcAsc => sql.append("ASC"),
        SortOrder::HlcDesc => sql.append("DESC"),
    }
    sql.append(" LIMIT ?");
    sql.append(limit_idx.as_str());
    sql.append(" OFFSET ?");
    sql.append(offset_idx.as_str());
    Ok(Statement { sql, params })
}

} // verus!
