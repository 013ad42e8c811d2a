//! Laws of compiled filters.

use vstd::prelude::*;
use vstd::string::*;

use crate::db::index::{
    filter_clause, filter_clauses, has_fts, has_shadow, is_ident, is_word, prefix_of,
    query_statement, sql_of, Clause, FilterScope, QueryOpts,
};
use crate::db::statement::SqlView;
use crate::text::{decimal, joined};
use crate::types::{IndexDef, QueryFilter};

verus! {

// ── When a filter compiles ──────────────────────────────────────────────────

/// Whether a filter names only identifiers, and searches text only where
/// there is a full-text index.
pub open spec fn compiles(filter: QueryFilter, has_fts: bool) -> bool
    decreases filter,
{
    match filter {
        QueryFilter::Eq { field, value } => is_ident(field@),
        QueryFilter::Lt { field, value } => is_ident(field@),
        QueryFilter::Gt { field, value } => is_ident(field@),
        QueryFilter::Le { field, value } => is_ident(field@),
        QueryFilter::Ge { field, value } => is_ident(field@),
        QueryFilter::Contains { text } => has_fts,
        QueryFilter::And(filters) => all_compile(filters@, has_fts),
        QueryFilter::Or(filters) => all_compile(filters@, has_fts),
    }
}

/// Whether every filter of a list compiles.
pub open spec fn all_compile(filters: Seq<QueryFilter>, has_fts: bool) -> bool
    decreases filters,
{
    if filters.len() == 0 {
        true
    } else {
        all_compile(filters.subrange(0, filters.len() - 1), has_fts) && compiles(
            filters[filters.len() - 1],
            has_fts,
        )
    }
}

/// A filter compiles exactly where its names are identifiers and its searches
/// have an index.
pub proof fn law_filter_compiles(filter: QueryFilter, scope: FilterScope, bound: nat)
    ensures
        filter_clause(filter, scope, bound) is Ok <==> compiles(filter, scope.has_fts),
    decreases filter,
{
    match filter {
        QueryFilter::And(filters) => {
            lemma_list_compiles(filters@, scope, bound);
        },
        QueryFilter::Or(filters) => {
            lemma_list_compiles(filters@, scope, bound);
        },
        _ => {},
    }
}

/// A query is taken exactly where its collection and the fields that it filters
/// by are identifiers, and it searches only where there is a text index.
pub proof fn law_query_compiles(collection: Seq<char>, def: Option<&IndexDef>, opts: QueryOpts)
    ensures
        query_statement(collection, def, opts) is Ok <==> {
            &&& is_ident(collection)
            &&& opts.filter matches Some(f) ==> compiles(
                f,
                def matches Some(d) && d.fts_fields@.len() > 0,
            )
        },
{
    if let Some(f) = opts.filter {
        let scope = FilterScope { collection, has_shadow: has_shadow(def), has_fts: has_fts(def) };
        law_filter_compiles(f, scope, 1);
    }
}

proof fn lemma_list_compiles(filters: Seq<QueryFilter>, scope: FilterScope, bound: nat)
    ensures
        filter_clauses(filters, scope, bound) is Ok <==> all_compile(filters, scope.has_fts),
    decreases filters,
{
    if filters.len() > 0 {
        let front = filters.subrange(0, filters.len() - 1);
        lemma_list_compiles(front, scope, bound);
        match filter_clauses(front, scope, bound) {
            Ok((_, values)) => {
                law_filter_compiles(filters[filters.len() - 1], scope, bound + values.len());
            },
            Err(_) => {},
        }
    }
}

// ── What is bound ───────────────────────────────────────────────────────────

/// The values that a filter compares with, from left to right.
pub open spec fn compared_values(filter: QueryFilter) -> Seq<SqlView>
    decreases filter,
{
    match filter {
        QueryFilter::Eq { field, value } => seq![sql_of(value)],
        QueryFilter::Lt { field, value } => seq![sql_of(value)],
        QueryFilter::Gt { field, value } => seq![sql_of(value)],
        QueryFilter::Le { field, value } => seq![sql_of(value)],
        QueryFilter::Ge { field, value } => seq![sql_of(value)],
        QueryFilter::Contains { text } => seq![SqlView::Text(text@)],
        QueryFilter::And(filters) => all_compared(filters@),
        QueryFilter::Or(filters) => all_compared(filters@),
    }
}

/// The values that a list of filters compares with, from left to right.
pub open spec fn all_compared(filters: Seq<QueryFilter>) -> Seq<SqlView>
    decreases filters,
{
    if filters.len() == 0 {
        Seq::empty()
    } else {
        all_compared(filters.subrange(0, filters.len() - 1)) + compared_values(
            filters[filters.len() - 1],
        )
    }
}

/// A compiled filter binds the values that it compares with, each once and
/// from left to right, wherever it stands.
pub proof fn law_filter_binds_values(filter: QueryFilter, scope: FilterScope, bound: nat)
    requires
        compiles(filter, scope.has_fts),
    ensures
        filter_clause(filter, scope, bound) is Ok,
        filter_clause(filter, scope, bound)->Ok_0.1 == compared_values(filter),
    decreases filter,
{
    law_filter_compiles(filter, scope, bound);
    match filter {
        QueryFilter::And(filters) => {
            lemma_list_binds(filters@, scope, bound);
        },
        QueryFilter::Or(filters) => {
            lemma_list_binds(filters@, scope, bound);
        },
        _ => {},
    }
}

proof fn lemma_list_binds(filters: Seq<QueryFilter>, scope: FilterScope, bound: nat)
    requires
        all_compile(filters, scope.has_fts),
    ensures
        filter_clauses(filters, scope, bound) is Ok,
        filter_clauses(filters, scope, bound)->Ok_0.1 == all_compared(filters),
    decreases filters,
{
    if filters.len() > 0 {
        let front = filters.subrange(0, filters.len() - 1);
        lemma_list_binds(front, scope, bound);
        let values = filter_clauses(front, scope, bound)->Ok_0.1;
        law_filter_binds_values(filters[filters.len() - 1], scope, bound + values.len());
    }
}

// ── Values never reach the text ─────────────────────────────────────────────

/// Whether two filters differ at most in the values that they compare with.
pub open spec fn same_shape(f: QueryFilter, g: QueryFilter) -> bool
    decreases f,
{
    match (f, g) {
        (QueryFilter::Eq { field: a, .. }, QueryFilter::Eq { field: b, .. }) => a@ == b@,
        (QueryFilter::Lt { field: a, .. }, QueryFilter::Lt { field: b, .. }) => a@ == b@,
        (QueryFilter::Gt { field: a, .. }, QueryFilter::Gt { field: b, .. }) => a@ == b@,
        (QueryFilter::Le { field: a, .. }, QueryFilter::Le { field: b, .. }) => a@ == b@,
        (QueryFilter::Ge { field: a, .. }, QueryFilter::Ge { field: b, .. }) => a@ == b@,
        (QueryFilter::Contains { .. }, QueryFilter::Contains { .. }) => true,
        (QueryFilter::And(a), QueryFilter::And(b)) => same_shapes(a@, b@),
        (QueryFilter::Or(a), QueryFilter::Or(b)) => same_shapes(a@, b@),
        _ => false,
    }
}

/// Whether two lists of filters differ at most in the compared values.
pub open spec fn same_shapes(fs: Seq<QueryFilter>, gs: Seq<QueryFilter>) -> bool
    decreases fs,
{
    if fs.len() == 0 || gs.len() == 0 {
        fs.len() == gs.len()
    } else {
        same_shapes(fs.subrange(0, fs.len() - 1), gs.subrange(0, gs.len() - 1)) && same_shape(
            fs[fs.len() - 1],
            gs[gs.len() - 1],
        )
    }
}

/// Whether two outcomes have the same text and bind as many values, or are
/// the same error.
pub open spec fn same_text(a: Clause, b: Clause) -> bool {
    match (a, b) {
        (Ok((s, v)), Ok((t, w))) => s == t && v.len() == w.len(),
        (Err(e), Err(d)) => e == d,
        _ => false,
    }
}

/// The text of a compiled filter does not depend on the values that it
/// compares with: no value ever stands in the statement.
pub proof fn law_text_holds_no_value(
    f: QueryFilter,
    g: QueryFilter,
    scope: FilterScope,
    bound: nat,
)
    requires
        same_shape(f, g),
    ensures
        same_text(filter_clause(f, scope, bound), filter_clause(g, scope, bound)),
    decreases f,
{
    match (f, g) {
        (QueryFilter::And(a), QueryFilter::And(b)) => {
            lemma_list_holds_no_value(a@, b@, scope, bound);
        },
        (QueryFilter::Or(a), QueryFilter::Or(b)) => {
            lemma_list_holds_no_value(a@, b@, scope, bound);
        },
        _ => {},
    }
}

proof fn lemma_list_holds_no_value(
    fs: Seq<QueryFilter>,
    gs: Seq<QueryFilter>,
    scope: FilterScope,
    bound: nat,
)
    requires
        same_shapes(fs, gs),
    ensures
        fs.len() == gs.len(),
        match (filter_clauses(fs, scope, bound), filter_clauses(gs, scope, bound)) {
            (Ok((s, v)), Ok((t, w))) => s == t && v.len() == w.len(),
            (Err(e), Err(d)) => e == d,
            _ => false,
        },
    decreases fs,
{
    if fs.len() > 0 && gs.len() > 0 {
        let (ff, gg) = (fs.subrange(0, fs.len() - 1), gs.subrange(0, gs.len() - 1));
        lemma_list_holds_no_value(ff, gg, scope, bound);
        match filter_clauses(ff, scope, bound) {
            Ok((_, values)) => {
                law_text_holds_no_value(
                    fs[fs.len() - 1],
                    gs[gs.len() - 1],
                    scope,
                    bound + values.len(),
                );
            },
            Err(_) => {},
        }
    }
}

// ── Nothing but plain characters ────────────────────────────────────────────

/// A character of a condition: of an identifier, or of its plain syntax. No
/// quote, no semicolon, no comment can be made of them.
pub open spec fn is_plain(c: char) -> bool {
    ||| is_word(c)
    ||| c == ' '
    ||| c == '.'
    ||| c == '='
    ||| c == '<'
    ||| c == '>'
    ||| c == '?'
    ||| c == '('
    ||| c == ')'
}

/// Whether a text is made of such characters alone.
pub open spec fn all_plain(s: Seq<char>) -> bool {
    forall|i: int| 0 <= i < s.len() ==> is_plain(#[trigger] s[i])
}

proof fn lemma_plain_concat(a: Seq<char>, b: Seq<char>)
    requires
        all_plain(a),
        all_plain(b),
    ensures
        all_plain(a + b),
{
    assert forall|i: int| 0 <= i < (a + b).len() implies is_plain(#[trigger] (a + b)[i]) by {
        if i < a.len() {
            assert(is_plain(a[i]));
        } else {
            assert(is_plain(b[i - a.len()]));
        }
    }
}

proof fn lemma_plain_decimal(n: nat)
    ensures
        all_plain(decimal(n)),
    decreases n,
{
    if n >= 10 {
        lemma_plain_decimal(n / 10);
        assert forall|i: int| 0 <= i < decimal(n).len() implies is_plain(
            #[trigger] decimal(n)[i],
        ) by {
            if i < decimal(n / 10).len() {
                assert(decimal(n)[i] == decimal(n / 10)[i]);
            }
        }
    }
}

proof fn lemma_plain_joined(parts: Seq<Seq<char>>, sep: Seq<char>)
    requires
        all_plain(sep),
        forall|i: int| 0 <= i < parts.len() ==> all_plain(#[trigger] parts[i]),
    ensures
        all_plain(joined(parts, sep)),
    decreases parts.len(),
{
    if parts.len() > 1 {
        assert forall|i: int| 0 <= i < parts.drop_last().len() implies all_plain(
            #[trigger] parts.drop_last()[i],
        ) by {
            assert(all_plain(parts[i]));
        }
        lemma_plain_joined(parts.drop_last(), sep);
        lemma_plain_concat(joined(parts.drop_last(), sep), sep);
        assert(all_plain(parts[parts.len() - 1]));
        lemma_plain_concat(joined(parts.drop_last(), sep) + sep, parts.last());
    }
}

proof fn lemma_plain_comparison(
    field: Seq<char>,
    operator: Seq<char>,
    scope: FilterScope,
    bound: nat,
)
    requires
        is_ident(field),
        all_plain(operator),
    ensures
        all_plain(prefix_of(field, scope.has_shadow) + field + operator + decimal(bound)),
{
    let prefix = prefix_of(field, scope.has_shadow);
    reveal_strlit("r.");
    reveal_strlit("s.");
    assert(all_plain(prefix));
    assert(all_plain(field)) by {
        assert forall|i: int| 0 <= i < field.len() implies is_plain(#[trigger] field[i]) by {
            assert(is_word(field[i]));
        }
    }
    lemma_plain_concat(prefix, field);
    lemma_plain_concat(prefix + field, operator);
    lemma_plain_decimal(bound);
    lemma_plain_concat(prefix + field + operator, decimal(bound));
}

/// A compiled condition is made of identifiers, numbers, spaces, brackets and
/// comparison signs, whatever the filter holds.
pub proof fn law_text_is_plain(filter: QueryFilter, scope: FilterScope, bound: nat)
    requires
        is_ident(scope.collection),
        filter_clause(filter, scope, bound) is Ok,
    ensures
        all_plain(filter_clause(filter, scope, bound)->Ok_0.0),
    decreases filter,
{
    reveal_strlit(" = ?");
    reveal_strlit(" < ?");
    reveal_strlit(" > ?");
    reveal_strlit(" <= ?");
    reveal_strlit(" >= ?");
    match filter {
        QueryFilter::Eq { field, value } => {
            lemma_plain_comparison(field@, " = ?"@, scope, bound + 1);
        },
        QueryFilter::Lt { field, value } => {
            lemma_plain_comparison(field@, " < ?"@, scope, bound + 1);
        },
        QueryFilter::Gt { field, value } => {
            lemma_plain_comparison(field@, " > ?"@, scope, bound + 1);
        },
        QueryFilter::Le { field, value } => {
            lemma_plain_comparison(field@, " <= ?"@, scope, bound + 1);
        },
        QueryFilter::Ge { field, value } => {
            lemma_plain_comparison(field@, " >= ?"@, scope, bound + 1);
        },
        QueryFilter::Contains { text } => {
            lemma_plain_search(scope.collection, bound + 1);
        },
        QueryFilter::And(filters) => {
            reveal_strlit("1");
            reveal_strlit(" AND ");
            lemma_list_is_plain(filters@, scope, bound);
            if filters@.len() > 0 {
                lemma_plain_group(filter_clauses(filters@, scope, bound)->Ok_0.0, " AND "@);
            }
        },
        QueryFilter::Or(filters) => {
            reveal_strlit("0");
            reveal_strlit(" OR ");
            lemma_list_is_plain(filters@, scope, bound);
            if filters@.len() > 0 {
                lemma_plain_group(filter_clauses(filters@, scope, bound)->Ok_0.0, " OR "@);
            }
        },
    }
}

proof fn lemma_plain_group(texts: Seq<Seq<char>>, sep: Seq<char>)
    requires
        all_plain(sep),
        forall|i: int| 0 <= i < texts.len() ==> all_plain(#[trigger] texts[i]),
    ensures
        all_plain("("@ + joined(texts, sep) + ")"@),
{
    reveal_strlit("(");
    reveal_strlit(")");
    lemma_plain_joined(texts, sep);
    lemma_plain_concat("("@, joined(texts, sep));
    lemma_plain_concat("("@ + joined(texts, sep), ")"@);
}

proof fn lemma_plain_search(collection: Seq<char>, n: nat)
    requires
        is_ident(collection),
    ensures
        all_plain(
            "r.id IN (SELECT record_id FROM fts_"@ + collection + " WHERE fts_"@ + collection
                + " MATCH ?"@ + decimal(n) + ")"@,
        ),
{
    let a = "r.id IN (SELECT record_id FROM fts_"@;
    let b = " WHERE fts_"@;
    let c = " MATCH ?"@;
    let d = ")"@;
    reveal_strlit("r.id IN (SELECT record_id FROM fts_");
    reveal_strlit(" WHERE fts_");
    reveal_strlit(" MATCH ?");
    reveal_strlit(")");
    assert(all_plain(collection)) by {
        assert forall|i: int| 0 <= i < collection.len() implies is_plain(
            #[trigger] collection[i],
        ) by {
            assert(is_word(collection[i]));
        }
    }
    lemma_plain_decimal(n);
    lemma_plain_concat(a, collection);
    lemma_plain_concat(a + collection, b);
    lemma_plain_concat(a + collection + b, collection);
    lemma_plain_concat(a + collection + b + collection, c);
    lemma_plain_concat(a + collection + b + collection + c, decimal(n));
    lemma_plain_concat(a + collection + b + collection + c + decimal(n), d);
}

proof fn lemma_list_is_plain(filters: Seq<QueryFilter>, scope: FilterScope, bound: nat)
    requires
        is_ident(scope.collection),
        filter_clauses(filters, scope, bound) is Ok,
    ensures
        forall|i: int|
            0 <= i < filter_clauses(filters, scope, bound)->Ok_0.0.len() ==> all_plain(
                #[trigger] filter_clauses(filters, scope, bound)->Ok_0.0[i],
            ),
    decreases filters,
{
    if filters.len() > 0 {
        let front = filters.subrange(0, filters.len() - 1);
        lemma_list_is_plain(front, scope, bound);
        let (texts, values) = filter_clauses(front, scope, bound)->Ok_0;
        law_text_is_plain(filters[filters.len() - 1], scope, bound + values.len());
        let whole = filter_clauses(filters, scope, bound)->Ok_0.0;
        assert forall|i: int| 0 <= i < whole.len() implies all_plain(#[trigger] whole[i]) by {
            if i < texts.len() {
                assert(whole[i] == texts[i]);
            }
        }
    }
}

} // verus!
