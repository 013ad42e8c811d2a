//! What holds of an index: its tables have a column for each of its fields, a
//! put fills every one of them, and a delete empties them.

use vstd::prelude::*;
use vstd::string::*;

use crate::db::index::{fts_row, fts_table, index_row, is_ident, shadow_table};
use crate::db::records::RecordView;
use crate::db::statement::{SqlView, StatementView};
use crate::engine::{delete_script, put_script, register_script};
use crate::hlc::Hlc;
use crate::id::{ulid_text, Ulid};
use crate::text::{decimal, decimal_int, joined};
use crate::types::{ColumnAffinity, IndexDef, IndexValue};

verus! {

// ── What the texts mean ─────────────────────────────────────────────────────

/// The names of an index's scalar fields.
pub open spec fn scalar_names(def: IndexDef) -> Seq<Seq<char>> {
    Seq::new(def.fields@.len(), |i: int| def.fields@[i].name@)
}

/// The names of an index's text fields.
pub open spec fn text_names(def: IndexDef) -> Seq<Seq<char>> {
    Seq::new(def.fts_fields@.len(), |i: int| def.fts_fields@[i]@)
}

/// The text that creates a shadow table with columns of these names and types.
pub open spec fn create_shadow_text(
    collection: Seq<char>,
    names: Seq<Seq<char>>,
    types: Seq<Seq<char>>,
) -> Seq<char> {
    "CREATE TABLE IF NOT EXISTS sidx_"@ + collection + " (record_id TEXT PRIMARY KEY, "@ + joined(
        Seq::new(names.len(), |i: int| names[i] + " "@ + types[i]),
        ", "@,
    ) + ")"@
}

/// The text that creates a full-text table with columns of these names.
pub open spec fn create_fts_text(collection: Seq<char>, names: Seq<Seq<char>>) -> Seq<char> {
    "CREATE VIRTUAL TABLE IF NOT EXISTS fts_"@ + collection
        + " USING fts5(record_id UNINDEXED, "@ + joined(names, ", "@)
        + ", tokenize=\"unicode61\")"@
}

/// The text that writes the row of a record in a shadow table: the value bound
/// at place `k + 2` goes into the column of the name `k`.
pub open spec fn fill_shadow_text(collection: Seq<char>, names: Seq<Seq<char>>) -> Seq<char> {
    "INSERT INTO sidx_"@ + collection + " (record_id, "@ + joined(names, ", "@)
        + ") VALUES (?1, "@ + joined(
        Seq::new(names.len(), |i: int| "?"@ + decimal((i + 2) as nat)),
        ", "@,
    ) + ") ON CONFLICT(record_id) DO UPDATE SET "@ + joined(
        Seq::new(names.len(), |i: int| names[i] + " = ?"@ + decimal((i + 2) as nat)),
        ", "@,
    )
}

/// The text that inserts the row of a record in a full-text table: the value
/// bound at place `k + 2` goes into the column of the name `k`.
pub open spec fn fill_fts_text(collection: Seq<char>, names: Seq<Seq<char>>) -> Seq<char> {
    "INSERT INTO fts_"@ + collection + " (record_id, "@ + joined(names, ", "@)
        + ") VALUES (?1, "@ + joined(
        Seq::new(names.len(), |i: int| "?"@ + decimal((i + 2) as nat)),
        ", "@,
    ) + ")"@
}

/// Whether a statement removes the row of a record from an index table.
pub open spec fn empties(
    st: StatementView,
    table: Seq<char>,
    collection: Seq<char>,
    record_id: Seq<char>,
) -> bool {
    &&& st.sql == "DELETE FROM "@ + table + collection + " WHERE record_id = ?1"@
    &&& st.params == seq![SqlView::Text(record_id)]
}

// ── What the caller gave ────────────────────────────────────────────────────

/// Whether a value is the one that the caller gave for a field: that of the
/// first pair of its name.
pub open spec fn is_given(
    values: Seq<(String, IndexValue)>,
    name: Seq<char>,
    at: int,
) -> bool {
    &&& 0 <= at < values.len()
    &&& values[at].0@ == name
    &&& forall|j: int| 0 <= j < at ==> (#[trigger] values[j]).0@ != name
}

/// Whether the caller gave nothing for a field.
pub open spec fn is_missing(values: Seq<(String, IndexValue)>, name: Seq<char>) -> bool {
    forall|j: int| 0 <= j < values.len() ==> (#[trigger] values[j]).0@ != name
}

/// Whether the values bound behind the record's id are, field by field, those
/// that the caller gave, and null where none was given.
pub open spec fn binds_scalars(
    params: Seq<SqlView>,
    names: Seq<Seq<char>>,
    values: Seq<(String, IndexValue)>,
    record_id: Seq<char>,
) -> bool {
    &&& params.len() == names.len() + 1
    &&& params[0] == SqlView::Text(record_id)
    &&& forall|k: int, at: int|
        0 <= k < names.len() && #[trigger] is_given(values, names[k], at) ==> params[k + 1] == (
        match values[at].1 {
            IndexValue::Text(s) => SqlView::Text(s@),
            IndexValue::Integer(n) => SqlView::Integer(n),
            IndexValue::Real(bits) => SqlView::Real(bits),
            IndexValue::Null => SqlView::Null,
        })
    &&& forall|k: int|
        0 <= k < names.len() && #[trigger] is_missing(values, names[k]) ==> params[k + 1]
            == SqlView::Null
}

/// Whether the values bound behind the record's id are, field by field, the
/// texts that the caller gave, or the numerals of the whole numbers, and empty
/// where neither was given.
pub open spec fn binds_texts(
    params: Seq<SqlView>,
    names: Seq<Seq<char>>,
    values: Seq<(String, IndexValue)>,
    record_id: Seq<char>,
) -> bool {
    &&& params.len() == names.len() + 1
    &&& params[0] == SqlView::Text(record_id)
    &&& forall|k: int, at: int|
        0 <= k < names.len() && #[trigger] is_given(values, names[k], at) ==> params[k + 1]
            == SqlView::Text(
            match values[at].1 {
                IndexValue::Text(s) => s@,
                IndexValue::Integer(n) => decimal_int(n as int),
                _ => Seq::empty(),
            },
        )
    &&& forall|k: int|
        0 <= k < names.len() && #[trigger] is_missing(values, names[k]) ==> params[k + 1]
            == SqlView::Text(Seq::empty())
}

proof fn lemma_value_of(values: Seq<(String, IndexValue)>, name: Seq<char>)
    ensures
        forall|at: int| #[trigger]
            is_given(values, name, at) ==> crate::db::index::value_of(values, name) == Some(
                values[at].1,
            ),
        is_missing(values, name) ==> crate::db::index::value_of(values, name) is None,
    decreases values.len(),
{
    if values.len() > 0 {
        let rest = values.drop_first();
        lemma_value_of(rest, name);
        assert forall|at: int| #[trigger] is_given(values, name, at) implies
            crate::db::index::value_of(values, name) == Some(values[at].1) by {
            if at > 0 {
                assert(values[0].0@ != name);
                assert(rest[at - 1] == values[at]);
                assert(is_given(rest, name, at - 1)) by {
                    assert forall|j: int| 0 <= j < at - 1 implies (#[trigger] rest[j]).0@ != name by {
                        assert(rest[j] == values[j + 1]);
                    }
                }
            }
        }
        if is_missing(values, name) {
            assert(values[0].0@ != name);
            assert forall|j: int| 0 <= j < rest.len() implies (#[trigger] rest[j]).0@ != name by {
                assert(rest[j] == values[j + 1]);
            }
        }
    }
}

// ── Filling ─────────────────────────────────────────────────────────────────

/// The row of a record in the shadow table holds, for every scalar field, the
/// value that the caller gave for it.
pub proof fn law_shadow_row_holds_every_field(
    def: IndexDef,
    record_id: Seq<char>,
    values: Seq<(String, IndexValue)>,
)
    requires
        index_row(def, record_id, values) is Ok,
        def.fields@.len() > 0,
    ensures
        index_row(def, record_id, values)->Ok_0 is Some,
        ({
            let st = index_row(def, record_id, values)->Ok_0->0;
            &&& st.sql == fill_shadow_text(def.collection@, scalar_names(def))
            &&& binds_scalars(st.params, scalar_names(def), values, record_id)
        }),
{
    let st = index_row(def, record_id, values)->Ok_0->0;
    let names = scalar_names(def);
    assert(names =~= crate::db::index::field_names(def.fields@));
    assert forall|k: int, at: int|
        0 <= k < names.len() && #[trigger] is_given(values, names[k], at) implies st.params[k + 1]
        == (match values[at].1 {
        IndexValue::Text(s) => SqlView::Text(s@),
        IndexValue::Integer(n) => SqlView::Integer(n),
        IndexValue::Real(bits) => SqlView::Real(bits),
        IndexValue::Null => SqlView::Null,
    }) by {
        lemma_value_of(values, names[k]);
    }
    assert forall|k: int| 0 <= k < names.len() && #[trigger] is_missing(values, names[k]) implies
        st.params[k + 1] == SqlView::Null by {
        lemma_value_of(values, names[k]);
    }
    assert(st.sql =~= fill_shadow_text(def.collection@, names));
}

/// The row of a record in the full-text table holds, for every text field, the
/// text that the caller gave for it, so that a search finds a word of any of
/// them. The row that was there before is removed first.
pub proof fn law_text_row_holds_every_field(
    def: IndexDef,
    record_id: Seq<char>,
    values: Seq<(String, IndexValue)>,
)
    requires
        fts_row(def, record_id, values) is Ok,
        def.fts_fields@.len() > 0,
    ensures
        ({
            let script = fts_row(def, record_id, values)->Ok_0;
            &&& script.len() == 2
            &&& empties(script[0], "fts_"@, def.collection@, record_id)
            &&& script[1].sql == fill_fts_text(def.collection@, text_names(def))
            &&& binds_texts(script[1].params, text_names(def), values, record_id)
        }),
{
    let st = fts_row(def, record_id, values)->Ok_0[1];
    let names = text_names(def);
    assert(names =~= crate::text::texts_view(def.fts_fields@));
    assert forall|k: int, at: int|
        0 <= k < names.len() && #[trigger] is_given(values, names[k], at) implies st.params[k + 1]
        == SqlView::Text(
        match values[at].1 {
            IndexValue::Text(s) => s@,
            IndexValue::Integer(n) => decimal_int(n as int),
            _ => Seq::empty(),
        },
    ) by {
        lemma_value_of(values, names[k]);
    }
    assert forall|k: int| 0 <= k < names.len() && #[trigger] is_missing(values, names[k]) implies
        st.params[k + 1] == SqlView::Text(Seq::empty()) by {
        lemma_value_of(values, names[k]);
    }
    assert(st.sql =~= fill_fts_text(def.collection@, names));
}

/// A put fills the index of its collection: the shadow row where there are
/// scalar fields, and after it the full-text row where there are text fields.
pub proof fn law_put_fills_the_index(
    row: RecordView,
    data: Seq<u8>,
    def: IndexDef,
    values: Seq<(String, IndexValue)>,
    now: i64,
)
    requires
        put_script(row, data, Some(def), values, now) is Ok,
    ensures
        ({
            let script = put_script(row, data, Some(def), values, now)->Ok_0;
            let n = script.len();
            &&& def.fields@.len() > 0 ==> {
                &&& n > 2
                &&& script[2].sql == fill_shadow_text(def.collection@, scalar_names(def))
                &&& binds_scalars(script[2].params, scalar_names(def), values, row.id)
            }
            &&& def.fts_fields@.len() > 0 ==> {
                &&& n > 3
                &&& empties(script[n - 2], "fts_"@, def.collection@, row.id)
                &&& script[n - 1].sql == fill_fts_text(def.collection@, text_names(def))
                &&& binds_texts(script[n - 1].params, text_names(def), values, row.id)
            }
            &&& n == 2 + (if def.fields@.len() > 0 {
                1int
            } else {
                0
            }) + (if def.fts_fields@.len() > 0 {
                2int
            } else {
                0
            })
        }),
{
    if def.fields@.len() > 0 {
        law_shadow_row_holds_every_field(def, row.id, values);
    }
    if def.fts_fields@.len() > 0 {
        law_text_row_holds_every_field(def, row.id, values);
    }
}

/// An index with good names never refuses a put, whatever values are given.
pub proof fn law_good_index_takes_every_put(
    row: RecordView,
    data: Seq<u8>,
    def: IndexDef,
    values: Seq<(String, IndexValue)>,
    now: i64,
)
    requires
        is_ident(def.collection@),
        forall|k: int| 0 <= k < def.fields@.len() ==> is_ident((#[trigger] def.fields@[k]).name@),
        forall|k: int| 0 <= k < def.fts_fields@.len() ==> is_ident((#[trigger] def.fts_fields@[k])@),
    ensures
        put_script(row, data, Some(def), values, now) is Ok,
        put_script(row, data, None, values, now) is Ok,
{
    let names = crate::db::index::field_names(def.fields@);
    assert forall|k: int| 0 <= k < names.len() implies is_ident(#[trigger] names[k]) by {
        assert(is_ident(def.fields@[k].name@));
    }
    lemma_no_bad(names);
    let words = crate::text::texts_view(def.fts_fields@);
    assert forall|k: int| 0 <= k < words.len() implies is_ident(#[trigger] words[k]) by {
        assert(is_ident(def.fts_fields@[k]@));
    }
    lemma_no_bad(words);
}

proof fn lemma_no_bad(names: Seq<Seq<char>>)
    requires
        forall|k: int| 0 <= k < names.len() ==> is_ident(#[trigger] names[k]),
    ensures
        crate::db::index::first_bad(names) is None,
    decreases names.len(),
{
    if names.len() > 0 {
        let front = names.drop_last();
        assert forall|k: int| 0 <= k < front.len() implies is_ident(#[trigger] front[k]) by {
            assert(names[k] == front[k]);
        }
        lemma_no_bad(front);
        assert(is_ident(names[names.len() - 1]));
    }
}

// ── Emptying ────────────────────────────────────────────────────────────────

/// A delete removes the record from every table that its index has.
pub proof fn law_delete_empties_the_index(
    collection: Seq<char>,
    id: Ulid,
    hlc: Hlc,
    def: IndexDef,
    now: i64,
)
    ensures
        delete_script(collection, id, hlc, Some(def), now) is Ok <==> is_ident(def.collection@),
        delete_script(collection, id, hlc, Some(def), now) matches Ok(script) ==> {
            &&& def.fields@.len() > 0 ==> script.len() > 2 && empties(
                script[2],
                "sidx_"@,
                def.collection@,
                ulid_text(id),
            )
            &&& def.fts_fields@.len() > 0 ==> script.len() > 2 && empties(
                script[script.len() - 1],
                "fts_"@,
                def.collection@,
                ulid_text(id),
            )
        },
{
}

// ── Creating ────────────────────────────────────────────────────────────────

/// The type of a column.
pub open spec fn type_words(def: IndexDef) -> Seq<Seq<char>> {
    Seq::new(
        def.fields@.len(),
        |i: int|
            match def.fields@[i].affinity {
                ColumnAffinity::Text => "TEXT"@,
                ColumnAffinity::Integer => "INTEGER"@,
                ColumnAffinity::Real => "REAL"@,
            },
    )
}

/// The tables of an index have a column for each field, in the order in which a
/// put fills them, and there is a table of a kind exactly where there are fields
/// of that kind.
pub proof fn law_tables_have_every_field(def: IndexDef)
    ensures
        shadow_table(def) matches Ok(plan) ==> {
            &&& plan is Some <==> def.fields@.len() > 0
            &&& plan matches Some(st) ==> st.sql == create_shadow_text(
                def.collection@,
                scalar_names(def),
                type_words(def),
            ) && st.params.len() == 0
        },
        fts_table(def) matches Ok(plan) ==> {
            &&& plan is Some <==> def.fts_fields@.len() > 0
            &&& plan matches Some(st) ==> st.sql == create_fts_text(
                def.collection@,
                text_names(def),
            ) && st.params.len() == 0
        },
{
    assert(crate::db::index::column_defs(def.fields@) =~= Seq::new(
        scalar_names(def).len(),
        |i: int| scalar_names(def)[i] + " "@ + type_words(def)[i],
    ));
    assert(text_names(def) =~= crate::text::texts_view(def.fts_fields@));
}

/// Registering an index makes the tables that it has fields for: the one of the
/// plain fields, then the one of the text fields.
pub proof fn law_index_makes_its_tables(def: IndexDef)
    ensures
        register_script(def) is Ok <==> shadow_table(def) is Ok && fts_table(def) is Ok,
        register_script(def) matches Ok(script) ==> {
            let plain = def.fields@.len() > 0;
            let text = def.fts_fields@.len() > 0;
            &&& script.len() == (if plain {
                1int
            } else {
                0
            }) + (if text {
                1int
            } else {
                0
            })
            &&& plain ==> script[0].sql == create_shadow_text(
                def.collection@,
                scalar_names(def),
                type_words(def),
            )
            &&& text ==> script[script.len() - 1].sql == create_fts_text(
                def.collection@,
                text_names(def),
            )
        },
{
    law_tables_have_every_field(def);
}

/// A name is good exactly if it is made of letters, digits and underscores, and
/// does not begin with a digit.
pub proof fn law_good_names(name: Seq<char>)
    ensures
        is_ident(name) <==> {
            &&& name.len() > 0
            &&& !('0' <= name[0] <= '9')
            &&& forall|i: int|
                0 <= i < name.len() ==> {
                    let c = #[trigger] name[i];
                    'a' <= c <= 'z' || 'A' <= c <= 'Z' || '0' <= c <= '9' || c == '_'
                }
        },
{
    if is_ident(name) {
        assert(crate::db::index::is_word(name[0]));
        assert forall|i: int| 0 <= i < name.len() implies ({
            let c = #[trigger] name[i];
            'a' <= c <= 'z' || 'A' <= c <= 'Z' || '0' <= c <= '9' || c == '_'
        }) by {
            assert(crate::db::index::is_word(name[i]));
        }
    }
}

/// An index is refused exactly where its collection or one of its fields has no
/// good name.
pub proof fn law_bad_names_are_refused(def: IndexDef)
    ensures
        shadow_table(def) is Ok && fts_table(def) is Ok <==> {
            &&& is_ident(def.collection@)
            &&& forall|k: int|
                0 <= k < def.fields@.len() ==> is_ident((#[trigger] def.fields@[k]).name@)
            &&& forall|k: int|
                0 <= k < def.fts_fields@.len() ==> is_ident((#[trigger] def.fts_fields@[k])@)
        },
{
    let names = crate::db::index::field_names(def.fields@);
    let words = crate::text::texts_view(def.fts_fields@);
    lemma_bad_iff(names);
    lemma_bad_iff(words);
    if forall|k: int| 0 <= k < def.fields@.len() ==> is_ident((#[trigger] def.fields@[k]).name@) {
        assert forall|k: int| 0 <= k < names.len() implies is_ident(#[trigger] names[k]) by {
            assert(is_ident(def.fields@[k].name@));
        }
    }
    if forall|k: int|
        0 <= k < def.fts_fields@.len() ==> is_ident((#[trigger] def.fts_fields@[k])@) {
        assert forall|k: int| 0 <= k < words.len() implies is_ident(#[trigger] words[k]) by {
            assert(is_ident(def.fts_fields@[k]@));
        }
    }
    if shadow_table(def) is Ok && fts_table(def) is Ok {
        assert forall|k: int| 0 <= k < def.fields@.len() implies is_ident(
            (#[trigger] def.fields@[k]).name@,
        ) by {
            assert(is_ident(names[k]));
        }
        assert forall|k: int| 0 <= k < def.fts_fields@.len() implies is_ident(
            (#[trigger] def.fts_fields@[k])@,
        ) by {
            assert(is_ident(words[k]));
        }
    }
}

proof fn lemma_bad_iff(names: Seq<Seq<char>>)
    ensures
        crate::db::index::first_bad(names) is None <==> forall|k: int|
            0 <= k < names.len() ==> is_ident(#[trigger] names[k]),
    decreases names.len(),
{
    if names.len() > 0 {
        let front = names.drop_last();
        lemma_bad_iff(front);
        if crate::db::index::first_bad(names) is None {
            assert forall|k: int| 0 <= k < names.len() implies is_ident(#[trigger] names[k]) by {
                if k < front.len() {
                    assert(is_ident(front[k]));
                }
            }
        }
        if forall|k: int| 0 <= k < names.len() ==> is_ident(#[trigger] names[k]) {
            lemma_no_bad(names);
        }
    }
}

} // verus!
