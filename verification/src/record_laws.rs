//! What holds of records in the database: how a write changes the table, and
//! what is read after it.

use vstd::prelude::*;

use crate::backend::wire::RemoteView;
use crate::db::outbox::lemma_outbox_texts;
use crate::db::records::{get_statement, lemma_write_texts, RecordView};
use crate::db::statement::StatementView;
use crate::db::table::{
    answers, first_row, is_elsewhere, lemma_elsewhere, ran, ran_all, row_found, stored, well_keyed,
    Records,
};
use crate::engine::{delete_script, payload_of, put_index, put_script};
use crate::error::{ErrorView, SquirrelError};
use crate::hlc::{hlc_text, law_text_round_trip, Hlc};
use crate::id::{law_id_round_trip, ulid_text, Ulid};
use crate::reading::reads_as;
use crate::sync::{apply_statements, wins};
use crate::sync_laws::applied;
use crate::text::text_lt;
use crate::types::{IndexDef, IndexValue, Record};

verus! {

// ── What a write changes ────────────────────────────────────────────────────

/// Keeping an index writes no records.
proof fn lemma_index_is_elsewhere(
    def: Option<IndexDef>,
    id: Seq<char>,
    values: Seq<(String, IndexValue)>,
)
    requires
        put_index(def, id, values) is Ok,
    ensures
        forall|i: int|
            0 <= i < put_index(def, id, values)->Ok_0.len() ==> is_elsewhere(
                #[trigger] put_index(def, id, values)->Ok_0[i],
            ),
{
    reveal_strlit("INSERT INTO sidx_");
    reveal_strlit("INSERT INTO fts_");
    reveal_strlit("DELETE FROM ");
    reveal_strlit("fts_");
}

/// The table after a script whose later statements write no records.
proof fn lemma_first_alone(table: Records, script: Seq<StatementView>)
    requires
        script.len() > 0,
        forall|i: int| 1 <= i < script.len() ==> is_elsewhere(#[trigger] script[i]),
    ensures
        ran_all(table, script) == ran(table, script[0]),
{
    lemma_elsewhere(table, script, 1);
    let one = script.take(1);
    assert(one.drop_last() =~= Seq::<StatementView>::empty());
    assert(ran_all(table, one.drop_last()) == table);
    assert(ran_all(table, one) == ran(table, script[0]));
}

/// A put writes its record and no other. A record that was there keeps its time
/// of creation.
pub proof fn law_put_changes_one_record(
    table: Records,
    row: RecordView,
    data: Seq<u8>,
    def: Option<IndexDef>,
    values: Seq<(String, IndexValue)>,
    now: i64,
)
    requires
        !row.deleted,
        !row.synced,
    ensures
        put_script(row, data, def, values, now) matches Ok(script) ==> {
            &&& ran_all(table, script) == table.insert(row.id, stored(table, row))
            &&& well_keyed(table) ==> well_keyed(ran_all(table, script))
        },
{
    if let Ok(script) = put_script(row, data, def, values, now) {
        lemma_index_is_elsewhere(def, row.id, values);
        lemma_outbox_texts();
        let keeping = put_index(def, row.id, values)->Ok_0;
        assert forall|i: int| 1 <= i < script.len() implies is_elsewhere(#[trigger] script[i]) by {
            if i >= 2 {
                assert(script[i] == keeping[i - 2]);
            }
        }
        lemma_first_alone(table, script);
    }
}

/// A delete turns its record into a tombstone and leaves all others. One that
/// is not there, or in another collection, is left too.
pub proof fn law_delete_changes_one_record(
    table: Records,
    collection: Seq<char>,
    id: Ulid,
    hlc: Hlc,
    def: Option<IndexDef>,
    now: i64,
)
    ensures
        delete_script(collection, id, hlc, def, now) matches Ok(script) ==> {
            &&& ran_all(table, script) == (match row_found(table, collection, ulid_text(id)) {
                Some(row) => table.insert(
                    ulid_text(id),
                    RecordView {
                        deleted: true,
                        hlc: hlc_text(hlc),
                        synced: false,
                        updated_at: now,
                        ..row
                    },
                ),
                None => table,
            })
            &&& well_keyed(table) ==> well_keyed(ran_all(table, script))
        },
{
    if let Ok(script) = delete_script(collection, id, hlc, def, now) {
        lemma_outbox_texts();
        lemma_write_texts();
        reveal_strlit("DELETE FROM ");
        reveal_strlit("fts_");
        reveal_strlit("sidx_");
        assert forall|i: int| 1 <= i < script.len() implies is_elsewhere(#[trigger] script[i]) by {}
        lemma_first_alone(table, script);
    }
}

/// Applying a pulled record writes that record as the later write wins, and no
/// other.
pub proof fn law_pull_changes_one_record(table: Records, remote: RemoteView, now: i64)
    requires
        well_keyed(table),
        table.contains_key(remote.record_id) ==> table[remote.record_id].collection
            == remote.collection,
    ensures
        ({
            let local = row_found(table, remote.collection, remote.record_id);
            let after = ran_all(table, apply_statements(local, remote, now));
            &&& after == (if wins(local, remote) {
                table.insert(remote.record_id, applied(local, remote, now))
            } else {
                table
            })
            &&& well_keyed(after)
            &&& row_found(after, remote.collection, remote.record_id) == Some(
                applied(local, remote, now),
            )
        }),
{
    let local = row_found(table, remote.collection, remote.record_id);
    let script = apply_statements(local, remote, now);
    lemma_outbox_texts();
    lemma_write_texts();
    if wins(local, remote) {
        lemma_first_alone(table, script);
    }
}

/// A pulled record that is later than the local one, or that there is no local
/// one of, is taken over with everything that it says; it counts as synced, and
/// keeps the time at which the local one was made.
pub proof fn law_later_pull_is_taken_over(table: Records, remote: RemoteView, now: i64)
    requires
        well_keyed(table),
        table.contains_key(remote.record_id) ==> {
            &&& table[remote.record_id].collection == remote.collection
            &&& text_lt(table[remote.record_id].hlc, remote.hlc)
        },
    ensures
        ({
            let local = row_found(table, remote.collection, remote.record_id);
            let after = ran_all(table, apply_statements(local, remote, now));
            let row = after[remote.record_id];
            &&& after.dom() == table.dom().insert(remote.record_id)
            &&& forall|id: Seq<char>|
                id != remote.record_id && table.contains_key(id) ==> #[trigger] after[id]
                    == table[id]
            &&& row.id == remote.record_id
            &&& row.collection == remote.collection
            &&& row.hlc == remote.hlc
            &&& remote.data matches Some(d) ==> row.data == d
            &&& remote.data is None ==> row.data.len() == 0
            &&& row.schema_version == remote.schema_version
            &&& row.format_version == remote.format_version
            &&& row.deleted == remote.deleted
            &&& row.synced
            &&& table.contains_key(remote.record_id) ==> row.created_at
                == table[remote.record_id].created_at
            &&& !table.contains_key(remote.record_id) ==> row.created_at == now
            &&& row.updated_at == now
        }),
{
    law_pull_changes_one_record(table, remote, now);
}

// ── What is read after a write ──────────────────────────────────────────────

/// A record that was put reads back as it was put, with its id, its clock
/// reading and its payload, whether that was encrypted or not; and no other
/// collection has it.
pub proof fn law_put_then_get(
    table: Records,
    id: Ulid,
    hlc: Hlc,
    row: RecordView,
    data: Seq<u8>,
    def: Option<IndexDef>,
    values: Seq<(String, IndexValue)>,
    now: i64,
    kek: Option<Seq<u8>>,
    collection: Seq<char>,
    rows: Seq<RecordView>,
    seen: Result<Option<Record>, SquirrelError>,
)
    requires
        row.id == ulid_text(id),
        row.hlc == hlc_text(hlc),
        !row.deleted,
        !row.synced,
        payload_of(row, kek) == Ok::<Seq<u8>, ErrorView>(data),
        put_script(row, data, def, values, now) is Ok,
        answers(
            ran_all(table, put_script(row, data, def, values, now)->Ok_0),
            get_statement(collection, ulid_text(id)),
            rows,
        ),
        reads_as(seen, first_row(rows), kek),
    ensures
        collection == row.collection ==> {
            &&& seen matches Ok(Some(record))
            &&& record.id == id
            &&& record.collection@ == row.collection
            &&& record.hlc == hlc
            &&& record.data@ == data
            &&& record.schema_version == row.schema_version
            &&& !record.deleted
        },
        collection != row.collection ==> seen matches Ok(None),
{
    law_put_changes_one_record(table, row, data, def, values, now);
    let after = ran_all(table, put_script(row, data, def, values, now)->Ok_0);
    assert(after[row.id] == stored(table, row));
    law_id_round_trip(id);
    law_text_round_trip(hlc);
    if collection == row.collection {
        assert(rows =~= seq![stored(table, row)]);
        assert(payload_of(stored(table, row), kek) == payload_of(row, kek));
        assert(seen->Ok_0->0.hlc.node_id =~= hlc.node_id);
    } else {
        assert(rows =~= Seq::empty());
    }
}

/// A record that was deleted is not read any more.
pub proof fn law_delete_then_get(
    table: Records,
    collection: Seq<char>,
    id: Ulid,
    hlc: Hlc,
    def: Option<IndexDef>,
    now: i64,
    kek: Option<Seq<u8>>,
    rows: Seq<RecordView>,
    seen: Result<Option<Record>, SquirrelError>,
)
    requires
        delete_script(collection, id, hlc, def, now) is Ok,
        answers(
            ran_all(table, delete_script(collection, id, hlc, def, now)->Ok_0),
            get_statement(collection, ulid_text(id)),
            rows,
        ),
        reads_as(seen, first_row(rows), kek),
    ensures
        seen matches Ok(None),
{
    law_delete_changes_one_record(table, collection, id, hlc, def, now);
}

/// A write leaves what is read of other records: after a put or a delete of one
/// record, the row that is found of another is the same as before.
pub proof fn law_writes_leave_other_records(
    table: Records,
    row: RecordView,
    data: Seq<u8>,
    id: Ulid,
    hlc: Hlc,
    def: Option<IndexDef>,
    values: Seq<(String, IndexValue)>,
    now: i64,
    collection: Seq<char>,
    other: Seq<char>,
)
    requires
        !row.deleted,
        !row.synced,
        row.id == ulid_text(id),
        other != ulid_text(id),
    ensures
        put_script(row, data, def, values, now) matches Ok(script) ==> row_found(
            ran_all(table, script),
            collection,
            other,
        ) == row_found(table, collection, other),
        delete_script(row.collection, id, hlc, def, now) matches Ok(script) ==> row_found(
            ran_all(table, script),
            collection,
            other,
        ) == row_found(table, collection, other),
{
    law_put_changes_one_record(table, row, data, def, values, now);
    law_delete_changes_one_record(table, row.collection, id, hlc, def, now);
}

} // verus!
