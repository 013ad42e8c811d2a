//! What the engine does with records: the statements of each operation, and
//! what is made of the rows that come back.

use vstd::prelude::*;
use vstd::string::*;
use vstd::utf8::*;

use crate::collection::{
    config_of, find_config, lemma_config_of, names_differ, CollectionConfig, CollectionEncryption,
};
use crate::crypto::{
    decrypt_record, derivable, encrypt_record, kdf_error, kek_of, random_salt, record_opened,
    seal_error, MAX_MESSAGE,
};
use crate::db::config::{
    kept_kek, law_kek_is_stable, law_node_id_is_stable, node_id_in, node_id_or, resolve_kek_with,
    set_statement, KeySource, KDF_SALT_KEY, NODE_ID_KEY,
};
use crate::db::index::{
    self, fts_row, fts_table, index_deletes, index_row, is_script, query_statement, shadow_table,
    QueryOpts,
};
use crate::db::outbox::{self, append_statement};
use crate::db::records::{
    self, get_statement, list_statement, soft_delete_statement, upsert_statement, RecordRow,
    RecordView,
};
use crate::db::row::{copy_bytes, opt_text};
use crate::db::statement::{
    lemma_statements_push, statements_view, Statement, StatementView,
};
use crate::error::{ErrorView, SquirrelError};
use crate::hlc::{
    first_reading, hlc_lt, hlc_parsed, hlc_text, is_last, later_of, law_hlc_order,
    law_merge_follows, law_text_round_trip, law_tick_follows, merged, observed, ticked,
    wall_clock_ms, Hlc,
};
use crate::id::{ulid_text, Ulid};
use crate::random::random_array;
use crate::text::{bytes_lt, hex_bytes, text_same};
use crate::types::{
    now_ms, IndexDef, IndexValue, ItemEncryption, ListOpts, PutOpts,
};

verus! {

// ── State ───────────────────────────────────────────────────────────────────

/// What the engine holds besides its database: the clock, the settings of the
/// collections, their indexes, and the key.
pub struct EngineState {
    pub last_hlc: Hlc,
    pub collections: Vec<(String, CollectionConfig)>,
    pub indexes: Vec<IndexDef>,
    pub kek: Option<[u8; 32]>,
}

/// The index of a collection: the one that was registered last.
pub open spec fn index_of(indexes: Seq<IndexDef>, collection: Seq<char>) -> Option<IndexDef>
    decreases indexes.len(),
{
    if indexes.len() == 0 {
        None
    } else if indexes.last().collection@ == collection {
        Some(indexes.last())
    } else {
        index_of(indexes.drop_last(), collection)
    }
}

/// The bytes of the engine's key.
pub open spec fn kek_view(kek: Option<[u8; 32]>) -> Option<Seq<u8>> {
    match kek {
        Some(k) => Some(k@),
        None => None,
    }
}

/// Finds the index of a collection.
fn find_index<'a>(indexes: &'a Vec<IndexDef>, collection: &str) -> (r: Option<&'a IndexDef>)
    ensures
        match index_of(indexes@, collection@) {
            Some(d) => r is Some && *r->0 == d,
            None => r is None,
        },
{
    let mut i: usize = indexes.len();
    assert(indexes@.take(i as int) =~= indexes@);
    while i > 0
        invariant
            i <= indexes@.len(),
            index_of(indexes@, collection@) == index_of(indexes@.take(i as int), collection@),
        decreases i,
    {
        assert(indexes@.take(i as int).drop_last() =~= indexes@.take(i - 1));
        if text_same(indexes[i - 1].collection.as_str(), collection) {
            return Some(&indexes[i - 1]);
        }
        i = i - 1;
    }
    None
}

/// The clock that an engine starts with. It stands at the latest reading that
/// was found among the records, taken over for this device's node, or else at
/// the wall clock.
pub open spec fn start_reading(found: Option<Seq<char>>, node_id: [u8; 6], wall_ms: u64) -> Hlc {
    let now = first_reading(node_id, wall_ms);
    match found {
        Some(text) => match hlc_parsed(text) {
            Some((physical, logical, _)) => Hlc {
                physical_ms: physical as u64,
                logical: logical as u16,
                node_id,
            },
            None => now,
        },
        None => now,
    }
}

/// The clock that an engine starts with, given the latest reading that was
/// found among the records.
pub fn start_clock(found: &Option<String>, node_id: [u8; 6], wall_ms: u64) -> (r: Hlc)
    ensures
        r == start_reading(opt_text(*found), node_id, wall_ms),
{
    match found {
        Some(text) => match Hlc::from_text(text.as_str()) {
            Ok(h) => Hlc { physical_ms: h.physical_ms, logical: h.logical, node_id },
            Err(_) => Hlc::new_at(node_id, wall_ms),
        },
        None => Hlc::new_at(node_id, wall_ms),
    }
}

/// An engine that is ready: its state, and the statements that keep what was
/// made for it.
pub struct Opened {
    pub state: EngineState,
    pub node_id: [u8; 6],
    pub keep: Vec<Statement>,
}

/// What was found in the database when an engine is opened: the node id, the
/// salt of key derivation, and the latest clock reading of all records.
pub struct Found {
    pub node_id: Option<String>,
    pub kdf_salt: Option<String>,
    pub latest_hlc: Option<String>,
}

/// The node id of an engine, with the statement that keeps a new one.
pub open spec fn opened_node(found: Option<Seq<char>>, fresh: Seq<u8>) -> Result<
    (Seq<u8>, Seq<StatementView>),
    ErrorView,
> {
    match found {
        Some(value) => match node_id_in(value) {
            Ok(id) => Ok((id, Seq::empty())),
            Err(e) => Err(e),
        },
        None => Ok((fresh, seq![set_statement(NODE_ID_KEY@, hex_bytes(fresh))])),
    }
}

/// The key of an engine, with the statement that keeps a new salt.
pub open spec fn opened_key(
    source: Option<KeySource>,
    found: Option<Seq<char>>,
    fresh: Seq<u8>,
) -> Result<(Option<Seq<u8>>, Seq<StatementView>), ErrorView> {
    match source {
        None => Ok((None, Seq::empty())),
        Some(KeySource::RawKey(key)) => Ok((Some(key@), Seq::empty())),
        Some(KeySource::Passphrase(pass)) => match found {
            Some(salt) => match kept_kek(pass@, salt) {
                Ok(key) => Ok((Some(key), Seq::empty())),
                Err(e) => Err(e),
            },
            None => if derivable(encode_utf8(pass@).len(), fresh.len()) {
                Ok(
                    (
                        Some(kek_of(pass@, fresh)),
                        seq![set_statement(KDF_SALT_KEY@, hex_bytes(fresh))],
                    ),
                )
            } else {
                Err(kdf_error(pass@, fresh))
            },
        },
    }
}

/// Opens an engine on what was found, with a node id and a salt to take where
/// none was.
pub fn open_with(
    found: &Found,
    key: &Option<KeySource>,
    collections: Vec<(String, CollectionConfig)>,
    fresh_node: [u8; 6],
    fresh_salt: [u8; 16],
    wall_ms: u64,
) -> (r: Result<Opened, SquirrelError>)
    ensures
        match (
            opened_node(opt_text(found.node_id), fresh_node@),
            opened_key(*key, opt_text(found.kdf_salt), fresh_salt@),
        ) {
            (Err(e), _) => r is Err && r->Err_0@ == e,
            (Ok(_), Err(e)) => r is Err && r->Err_0@ == e,
            (Ok((node, keep_node)), Ok((kek, keep_salt))) => {
                &&& r is Ok
                &&& r->Ok_0.node_id@ == node
                &&& r->Ok_0.state.last_hlc == start_reading(
                    opt_text(found.latest_hlc),
                    r->Ok_0.node_id,
                    wall_ms,
                )
                &&& r->Ok_0.state.collections == collections
                &&& r->Ok_0.state.indexes@.len() == 0
                &&& kek_view(r->Ok_0.state.kek) == kek
                &&& statements_view(r->Ok_0.keep@) == keep_node + keep_salt
            },
        },
{
    broadcast use lemma_statements_push;

    let mut keep: Vec<Statement> = Vec::new();
    assert(statements_view(keep@) =~= Seq::<StatementView>::empty());
    let (node_id, keep_node) = node_id_or(&found.node_id, fresh_node)?;
    if let Some(st) = keep_node {
        keep.push(st);
    }
    let ghost kept = statements_view(keep@);
    assert(kept =~= opened_node(opt_text(found.node_id), fresh_node@)->Ok_0.1);
    let mut kek: Option<[u8; 32]> = None;
    if let Some(source) = key {
        let (derived, keep_salt) = resolve_kek_with(source, &found.kdf_salt, fresh_salt)?;
        kek = Some(derived);
        if let Some(st) = keep_salt {
            keep.push(st);
        }
    }
    assert(statements_view(keep@) =~= kept + opened_key(
        *key,
        opt_text(found.kdf_salt),
        fresh_salt@,
    )->Ok_0.1);
    let last_hlc = start_clock(&found.latest_hlc, node_id, wall_ms);
    let state = EngineState { last_hlc, collections, indexes: Vec::new(), kek };
    Ok(Opened { state, node_id, keep })
}

/// Opens an engine on what was found. A node id or a salt that is missing is
/// made at random.
pub fn open(
    found: &Found,
    key: &Option<KeySource>,
    collections: Vec<(String, CollectionConfig)>,
) -> (r: Result<Opened, SquirrelError>)
    ensures
        exists|fresh_node: [u8; 6], fresh_salt: [u8; 16]|
            {
                let node = #[trigger] opened_node(opt_text(found.node_id), fresh_node@);
                let kek = #[trigger] opened_key(*key, opt_text(found.kdf_salt), fresh_salt@);
                &&& r is Ok <==> node is Ok && kek is Ok
                &&& r matches Err(e) ==> e@ == (if node is Err {
                    node->Err_0
                } else {
                    kek->Err_0
                })
                &&& r matches Ok(o) ==> {
                    &&& o.node_id@ == node->Ok_0.0
                    &&& exists|wall_ms: u64|
                        o.state.last_hlc == #[trigger] start_reading(
                            opt_text(found.latest_hlc),
                            o.node_id,
                            wall_ms,
                        )
                    &&& o.state.collections == collections
                    &&& o.state.indexes@.len() == 0
                    &&& kek_view(o.state.kek) == kek->Ok_0.0
                    &&& statements_view(o.keep@) == node->Ok_0.1 + kek->Ok_0.1
                }
            },
{
    let fresh_node = random_array::<6>();
    let fresh_salt = random_salt();
    let wall_ms: u64 = wall_clock_ms();
    open_with(found, key, collections, fresh_node, fresh_salt, wall_ms)
}

/// An engine that is opened again finds what was kept, and has the same node
/// id and, with the same passphrase, the same key.
pub proof fn law_reopening_changes_nothing(
    fresh_node: [u8; 6],
    fresh_salt: [u8; 16],
    other_node: [u8; 6],
    other_salt: [u8; 16],
    pass: String,
)
    requires
        derivable(encode_utf8(pass@).len(), 16),
    ensures
        ({
            let node = opened_node(None, fresh_node@)->Ok_0.0;
            let again = opened_node(Some(hex_bytes(node)), other_node@);
            again == Ok::<(Seq<u8>, Seq<StatementView>), ErrorView>((node, Seq::empty()))
        }),
        ({
            let source = Some(KeySource::Passphrase(pass));
            let kek = opened_key(source, None, fresh_salt@)->Ok_0.0;
            let again = opened_key(source, Some(hex_bytes(fresh_salt@)), other_salt@);
            again == Ok::<(Option<Seq<u8>>, Seq<StatementView>), ErrorView>((kek, Seq::empty()))
        }),
{
    law_node_id_is_stable(fresh_node);
    law_kek_is_stable(pass@, fresh_salt);
}

// ── Encryption ──────────────────────────────────────────────────────────────

/// The error on a record that is to be encrypted without a key.
pub open spec fn no_kek() -> ErrorView {
    ErrorView::Other("encryption is enabled but no encryption key is configured"@)
}

/// Whether a record is encrypted: as it says itself, or else as its collection
/// says, or else if the engine has a key.
pub open spec fn encrypts(
    item: ItemEncryption,
    collection: CollectionEncryption,
    has_kek: bool,
) -> Result<bool, ErrorView> {
    let wanted = match item {
        ItemEncryption::Enabled => true,
        ItemEncryption::Disabled => false,
        ItemEncryption::Default => match collection {
            CollectionEncryption::Enabled => true,
            CollectionEncryption::Disabled => false,
            CollectionEncryption::Default => has_kek,
        },
    };
    if wanted && !has_kek {
        Err(no_kek())
    } else {
        Ok(wanted)
    }
}

/// Whether a record is encrypted. It is an error to ask for it without a key.
pub fn resolve_encryption(
    item: ItemEncryption,
    collection: CollectionEncryption,
    has_kek: bool,
) -> (r: Result<bool, SquirrelError>)
    ensures
        match encrypts(item, collection, has_kek) {
            Ok(b) => r == Ok::<bool, SquirrelError>(b),
            Err(e) => r is Err && r->Err_0@ == e,
        },
{
    let wanted: bool = match item {
        ItemEncryption::Enabled => true,
        ItemEncryption::Disabled => false,
        ItemEncryption::Default => match collection {
            CollectionEncryption::Enabled => true,
            CollectionEncryption::Disabled => false,
            CollectionEncryption::Default => has_kek,
        },
    };
    if wanted && !has_kek {
        Err(
            SquirrelError::Other(
                "encryption is enabled but no encryption key is configured".to_owned(),
            ),
        )
    } else {
        Ok(wanted)
    }
}

/// The setting of a collection, which is the engine's where nothing else is
/// said.
pub open spec fn collection_setting(
    collections: Seq<(String, CollectionConfig)>,
    name: Seq<char>,
) -> CollectionEncryption {
    match config_of(collections, name) {
        Some(c) => c.encryption,
        None => CollectionEncryption::Default,
    }
}

/// The payload that a row holds. Format one is encrypted, with a key of its own
/// beside it; every other format is plain.
pub open spec fn payload_of(row: RecordView, kek: Option<Seq<u8>>) -> Result<Seq<u8>, ErrorView> {
    if row.format_version != 1 {
        Ok(row.data)
    } else {
        match (kek, row.dek_encrypted) {
            (None, _) => Err(
                ErrorView::Other("record is encrypted but no encryption key is configured"@),
            ),
            (Some(_), None) => Err(ErrorView::Other("encrypted record has no key"@)),
            (Some(k), Some(dek)) => record_opened(k, row.data, dek),
        }
    }
}

/// Opens the payload of a row.
pub fn open_payload(row: &RecordRow, kek: &Option<[u8; 32]>) -> (r: Result<Vec<u8>, SquirrelError>)
    ensures
        match payload_of(row@, kek_view(*kek)) {
            Ok(data) => r is Ok && r->Ok_0@ == data,
            Err(e) => r is Err && r->Err_0@ == e,
        },
{
    if row.format_version != 1 {
        return Ok(copy_bytes(&row.data));
    }
    match (kek, &row.dek_encrypted) {
        (None, _) => Err(
            SquirrelError::Other(
                "record is encrypted but no encryption key is configured".to_owned(),
            ),
        ),
        (Some(_), None) => Err(SquirrelError::Other("encrypted record has no key".to_owned())),
        (Some(k), Some(dek)) => decrypt_record(k, row.data.as_slice(), dek.as_slice()),
    }
}

// ── Put ─────────────────────────────────────────────────────────────────────

/// A write that is ready: the record's id, its clock reading, its row, and the
/// statements of the transaction that stores it.
pub struct PutPlan {
    pub id: Ulid,
    pub hlc: Hlc,
    pub row: RecordRow,
    pub statements: Vec<Statement>,
}

/// The row that a record is stored as: plain, or encrypted with its own key
/// beside it.
pub open spec fn put_row(
    collection: Seq<char>,
    id: Ulid,
    data: Seq<u8>,
    sealed: Option<(Seq<u8>, Seq<u8>)>,
    schema_version: Option<u32>,
    hlc: Hlc,
    now: i64,
) -> RecordView {
    RecordView {
        id: ulid_text(id),
        collection,
        data: match sealed {
            Some((enc_data, _)) => enc_data,
            None => data,
        },
        hlc: hlc_text(hlc),
        schema_version: match schema_version {
            Some(v) => v,
            None => 0,
        },
        format_version: if sealed is Some { 1 } else { 0 },
        dek_encrypted: match sealed {
            Some((_, enc_dek)) => Some(enc_dek),
            None => None,
        },
        deleted: false,
        synced: false,
        created_at: now,
        updated_at: now,
    }
}

/// The statements that keep the index of a record, if its collection has one.
pub open spec fn put_index(
    def: Option<IndexDef>,
    id: Seq<char>,
    values: Seq<(String, IndexValue)>,
) -> Result<Seq<StatementView>, ErrorView> {
    match def {
        None => Ok(Seq::empty()),
        Some(d) => {
            let scalar = if values.len() == 0 && d.fields@.len() == 0 {
                Ok(None)
            } else {
                index_row(d, id, values)
            };
            let text = if d.fts_fields@.len() == 0 {
                Ok(Seq::empty())
            } else {
                fts_row(d, id, values)
            };
            match (scalar, text) {
                (Err(e), _) => Err(e),
                (Ok(_), Err(e)) => Err(e),
                (Ok(None), Ok(t)) => Ok(t),
                (Ok(Some(s)), Ok(t)) => Ok(seq![s] + t),
            }
        },
    }
}

/// The statements that store a record: its row, an outbox entry with the plain
/// payload, and its index.
pub open spec fn put_script(
    row: RecordView,
    data: Seq<u8>,
    def: Option<IndexDef>,
    values: Seq<(String, IndexValue)>,
    now: i64,
) -> Result<Seq<StatementView>, ErrorView> {
    match put_index(def, row.id, values) {
        Err(e) => Err(e),
        Ok(keeping) => Ok(
            seq![
                upsert_statement(row),
                append_statement(row.id, row.collection, "upsert"@, row.hlc, Some(data), now),
            ] + keeping,
        ),
    }
}

/// The view of an encrypted payload and its key.
pub open spec fn sealed_view(sealed: Option<(Vec<u8>, Vec<u8>)>) -> Option<(Seq<u8>, Seq<u8>)> {
    match sealed {
        Some((a, b)) => Some((a@, b@)),
        None => None,
    }
}

/// Appends the statements that keep the index of a record.
fn append_index(
    out: &mut Vec<Statement>,
    def: &IndexDef,
    id: &str,
    values: &Vec<(String, IndexValue)>,
) -> (r: Result<(), SquirrelError>)
    ensures
        match put_index(Some(*def), id@, values@) {
            Ok(keeping) => r is Ok && statements_view(final(out)@) == statements_view(old(out)@)
                + keeping,
            Err(e) => r is Err && r->Err_0@ == e,
        },
        final(out)@.len() >= old(out)@.len(),
        final(out)@.take(old(out)@.len() as int) == old(out)@,
{
    broadcast use lemma_statements_push;

    let ghost before = out@;
    assert(out@.take(before.len() as int) =~= before);
    if values.len() != 0 || def.fields.len() != 0 {
        if let Some(st) = index::upsert_index_row(def, id, values)? {
            out.push(st);
        }
    }
    let ghost middle = statements_view(out@);
    assert(out@.take(before.len() as int) =~= before);
    if def.fts_fields.len() != 0 {
        let mut more = index::upsert_fts_row(def, id, values)?;
        let ghost tail = more@;
        out.append(&mut more);
        assert(statements_view(out@) =~= middle + statements_view(tail));
        assert(out@.take(before.len() as int) =~= before);
    }
    assert(statements_view(out@) =~= statements_view(before) + put_index(
        Some(*def),
        id@,
        values@,
    )->Ok_0);
    Ok(())
}

impl EngineState {
    /// Plans a write of which everything is decided: `sealed` holds the
    /// encrypted payload and its key where the record is to be encrypted.
    pub fn put_with(
        &self,
        collection: &str,
        id: Ulid,
        data: &[u8],
        sealed: Option<(Vec<u8>, Vec<u8>)>,
        opts: &PutOpts,
        wall_ms: u64,
        now: i64,
    ) -> (r: Result<PutPlan, SquirrelError>)
        ensures
            ({
                let hlc = ticked(self.last_hlc, wall_ms);
                let row = put_row(
                    collection@,
                    id,
                    data@,
                    sealed_view(sealed),
                    opts.schema_version,
                    hlc,
                    now,
                );
                match put_script(
                    row,
                    data@,
                    index_of(self.indexes@, collection@),
                    opts.index_fields@,
                    now,
                ) {
                    Ok(script) => {
                        &&& r is Ok
                        &&& r->Ok_0.id == id
                        &&& r->Ok_0.hlc == hlc
                        &&& r->Ok_0.row@ == row
                        &&& statements_view(r->Ok_0.statements@) == script
                    },
                    Err(e) => r is Err && r->Err_0@ == e,
                }
            }),
    {
        broadcast use lemma_statements_push;

        let hlc = self.last_hlc.tick_at(wall_ms);
        let id_text = id.to_text();
        let hlc_string = hlc.to_text();
        let (stored, format_version, dek_encrypted): (Vec<u8>, u8, Option<Vec<u8>>) = match sealed {
            Some((enc_data, enc_dek)) => (enc_data, 1, Some(enc_dek)),
            None => (copy_bytes(data), 0, None),
        };
        let schema_version: u32 = match opts.schema_version {
            Some(v) => v,
            None => 0,
        };
        let row = RecordRow {
            id: id_text,
            collection: collection.to_owned(),
            data: stored,
            hlc: hlc_string,
            schema_version,
            format_version,
            dek_encrypted,
            deleted: false,
            synced: false,
            created_at: now,
            updated_at: now,
        };
        let mut statements: Vec<Statement> = Vec::new();
        assert(statements_view(statements@) =~= Seq::<StatementView>::empty());
        statements.push(records::upsert(&row));
        statements.push(
            outbox::append(
                row.id.as_str(),
                collection,
                "upsert",
                row.hlc.as_str(),
                Some(data),
                now,
            ),
        );
        assert(statements_view(statements@) =~= seq![
            upsert_statement(row@),
            append_statement(row@.id, row@.collection, "upsert"@, row@.hlc, Some(data@), now),
        ]);
        if let Some(def) = find_index(&self.indexes, collection) {
            append_index(&mut statements, def, row.id.as_str(), &opts.index_fields)?;
        } else {
            assert(statements_view(statements@) =~= statements_view(statements@) + Seq::<
                StatementView,
            >::empty());
        }
        Ok(PutPlan { id, hlc, row, statements })
    }

    /// Plans a write: encrypts the payload where it is to be encrypted, gives
    /// the record an id where it has none, and stamps it with the next clock
    /// reading. What is stored opens to the payload again, and the outbox
    /// carries it plain.
    pub fn handle_put(&self, collection: &str, id: Option<Ulid>, data: &[u8], opts: &PutOpts) -> (r:
        Result<PutPlan, SquirrelError>)
        ensures
            ({
                let secret = encrypts(
                    opts.encryption,
                    collection_setting(self.collections@, collection@),
                    self.kek is Some,
                );
                let too_long = secret == Ok::<bool, ErrorView>(true) && data@.len() > MAX_MESSAGE;
                let index = put_index(
                    index_of(self.indexes@, collection@),
                    Seq::empty(),
                    opts.index_fields@,
                );
                match r {
                    Ok(plan) => {
                        &&& secret is Ok
                        &&& !too_long
                        &&& id matches Some(given) ==> plan.id == given
                        &&& exists|wall_ms: u64| plan.hlc == #[trigger] ticked(
                            self.last_hlc,
                            wall_ms,
                        )
                        &&& plan.row@.id == ulid_text(plan.id)
                        &&& plan.row@.collection == collection@
                        &&& plan.row@.hlc == hlc_text(plan.hlc)
                        &&& plan.row@.schema_version == (match opts.schema_version {
                            Some(v) => v,
                            None => 0u32,
                        })
                        &&& plan.row@.format_version == (if secret->Ok_0 { 1u8 } else { 0u8 })
                        &&& !plan.row@.deleted
                        &&& !plan.row@.synced
                        &&& plan.row@.created_at == plan.row@.updated_at
                        &&& payload_of(plan.row@, kek_view(self.kek)) == Ok::<Seq<u8>, ErrorView>(
                            data@,
                        )
                        &&& put_script(
                            plan.row@,
                            data@,
                            index_of(self.indexes@, collection@),
                            opts.index_fields@,
                            plan.row@.updated_at,
                        ) == Ok::<Seq<StatementView>, ErrorView>(
                            statements_view(plan.statements@),
                        )
                    },
                    Err(e) => {
                        ||| secret is Err && e@ == secret->Err_0
                        ||| too_long && e@ == seal_error()
                        ||| secret is Ok && !too_long && index is Err && e@ == index->Err_0
                    },
                }
            }),
    {
        let setting = match find_config(&self.collections, collection) {
            Some(c) => c.encryption,
            None => CollectionEncryption::Default,
        };
        let secret: bool = resolve_encryption(opts.encryption, setting, self.kek.is_some())?;
        let sealed: Option<(Vec<u8>, Vec<u8>)> = match &self.kek {
            Some(kek) => if secret {
                Some(encrypt_record(kek, data)?)
            } else {
                None
            },
            None => None,
        };
        let id = match id {
            Some(given) => given,
            None => Ulid::new(),
        };
        let wall_ms: u64 = wall_clock_ms();
        let now: i64 = now_ms();
        proof {
            lemma_index_error(
                index_of(self.indexes@, collection@),
                ulid_text(id),
                Seq::empty(),
                opts.index_fields@,
            );
        }
        let plan = self.put_with(collection, id, data, sealed, opts, wall_ms, now)?;
        Ok(plan)
    }

    /// Takes over a reading that was seen elsewhere, if it is later.
    pub fn catch_up(&mut self, seen: Hlc)
        ensures
            *final(self) == (EngineState {
                last_hlc: later_of(old(self).last_hlc, seen),
                ..*old(self)
            }),
    {
        self.last_hlc = self.last_hlc.later(seen);
    }

    /// Takes over the clock reading of a write that was committed.
    pub fn committed(&mut self, hlc: Hlc)
        ensures
            *final(self) == (EngineState { last_hlc: hlc, ..*old(self) }),
    {
        self.last_hlc = hlc;
    }
}

/// Whether keeping an index fails, and how, does not depend on the record's id.
proof fn lemma_index_error(
    def: Option<IndexDef>,
    a: Seq<char>,
    b: Seq<char>,
    values: Seq<(String, IndexValue)>,
)
    ensures
        put_index(def, a, values) is Err <==> put_index(def, b, values) is Err,
        put_index(def, a, values) is Err ==> put_index(def, a, values)->Err_0 == put_index(
            def,
            b,
            values,
        )->Err_0,
{
}

// ── Delete ──────────────────────────────────────────────────────────────────

/// A delete that is ready: its clock reading, and the statements of its
/// transaction.
pub struct DeletePlan {
    pub hlc: Hlc,
    pub statements: Vec<Statement>,
}

/// The statements that delete a record: its tombstone, an outbox entry without
/// a payload, and the removal of its index.
pub open spec fn delete_script(
    collection: Seq<char>,
    id: Ulid,
    hlc: Hlc,
    def: Option<IndexDef>,
    now: i64,
) -> Result<Seq<StatementView>, ErrorView> {
    let writes = seq![
        soft_delete_statement(collection, ulid_text(id), hlc_text(hlc), now),
        append_statement(ulid_text(id), collection, "delete"@, hlc_text(hlc), None, now),
    ];
    match def {
        None => Ok(writes),
        Some(d) => match index_deletes(d, ulid_text(id)) {
            Err(e) => Err(e),
            Ok(more) => Ok(writes + more),
        },
    }
}

impl EngineState {
    /// Plans a delete at a given time.
    pub fn delete_at(&self, collection: &str, id: Ulid, wall_ms: u64, now: i64) -> (r: Result<
        DeletePlan,
        SquirrelError,
    >)
        ensures
            match delete_script(
                collection@,
                id,
                ticked(self.last_hlc, wall_ms),
                index_of(self.indexes@, collection@),
                now,
            ) {
                Ok(script) => {
                    &&& r is Ok
                    &&& r->Ok_0.hlc == ticked(self.last_hlc, wall_ms)
                    &&& statements_view(r->Ok_0.statements@) == script
                },
                Err(e) => r is Err && r->Err_0@ == e,
            },
    {
        broadcast use lemma_statements_push;

        let hlc = self.last_hlc.tick_at(wall_ms);
        let id_text = id.to_text();
        let hlc_string = hlc.to_text();
        let mut statements: Vec<Statement> = Vec::new();
        assert(statements_view(statements@) =~= Seq::<StatementView>::empty());
        statements.push(
            records::soft_delete(collection, id_text.as_str(), hlc_string.as_str(), now),
        );
        statements.push(
            outbox::append(
                id_text.as_str(),
                collection,
                "delete",
                hlc_string.as_str(),
                None,
                now,
            ),
        );
        let ghost writes = statements_view(statements@);
        assert(writes =~= seq![
            soft_delete_statement(collection@, ulid_text(id), hlc_text(hlc), now),
            append_statement(ulid_text(id), collection@, "delete"@, hlc_text(hlc), None, now),
        ]);
        if let Some(def) = find_index(&self.indexes, collection) {
            let mut more = index::delete_index_rows(def, id_text.as_str())?;
            let ghost tail = more@;
            statements.append(&mut more);
            assert(statements_view(statements@) =~= writes + statements_view(tail));
        }
        Ok(DeletePlan { hlc, statements })
    }

    /// Plans a delete now. The row stays, as a tombstone that is later than the
    /// record it replaces.
    pub fn handle_delete(&self, collection: &str, id: Ulid) -> (r: Result<DeletePlan, SquirrelError>)
        ensures
            ({
                let def = index_of(self.indexes@, collection@);
                let failing = def matches Some(d) && index_deletes(d, ulid_text(id)) is Err;
                match r {
                    Ok(plan) => {
                        &&& !failing
                        &&& exists|wall_ms: u64| plan.hlc == #[trigger] ticked(
                            self.last_hlc,
                            wall_ms,
                        )
                        &&& exists|now: i64| #[trigger]
                            delete_script(collection@, id, plan.hlc, def, now) == Ok::<
                                Seq<StatementView>,
                                ErrorView,
                            >(statements_view(plan.statements@))
                    },
                    Err(e) => failing && e@ == index_deletes(def->0, ulid_text(id))->Err_0,
                }
            }),
    {
        let wall_ms: u64 = wall_clock_ms();
        let now: i64 = now_ms();
        self.delete_at(collection, id, wall_ms, now)
    }

    // ── Indexes ─────────────────────────────────────────────────────────────

    /// Takes over an index whose tables were created.
    pub fn add_index(&mut self, def: IndexDef)
        ensures
            *final(self) == (EngineState { indexes: final(self).indexes, ..*old(self) }),
            forall|c: Seq<char>| #[trigger]
                index_of(final(self).indexes@, c) == (if c == def.collection@ {
                    Some(def)
                } else {
                    index_of(old(self).indexes@, c)
                }),
    {
        let ghost before = self.indexes@;
        self.indexes.push(def);
        assert(self.indexes@.drop_last() =~= before);
    }

    /// The statement that lists a collection.
    pub fn handle_list(&self, collection: &str, opts: &ListOpts) -> (r: Statement)
        ensures
            r@ == listing_statement(collection@, *opts),
    {
        records::list(collection, opts.limit, opts.offset, opts.include_deleted, opts.order)
    }

    /// The statement that queries a collection, through its index if it has
    /// one.
    pub fn handle_query(&self, collection: &str, opts: &QueryOpts) -> (r: Result<
        Statement,
        SquirrelError,
    >)
        ensures
            match query_statement(
                collection@,
                opt_ref(&index_of(self.indexes@, collection@)),
                *opts,
            ) {
                Ok(st) => r is Ok && r->Ok_0@ == st,
                Err(e) => r is Err && r->Err_0@ == e,
            },
    {
        let def = find_index(&self.indexes, collection);
        assert(def == opt_ref(&index_of(self.indexes@, collection@)));
        index::query(collection, def, opts)
    }

    /// The statement that reads a record.
    pub fn handle_get(&self, collection: &str, id: Ulid) -> (r: Statement)
        ensures
            r@ == get_statement(collection@, ulid_text(id)),
    {
        let id_text = id.to_text();
        records::get(collection, id_text.as_str())
    }
}

/// The statement that lists a collection as is asked for.
pub open spec fn listing_statement(collection: Seq<char>, opts: ListOpts) -> StatementView {
    list_statement(collection, opts.limit, opts.offset, opts.include_deleted, opts.order)
}

/// A reference to what an option holds.
pub open spec fn opt_ref<A>(o: &Option<A>) -> Option<&A> {
    match o {
        Some(a) => Some(a),
        None => None,
    }
}

/// The statements that create the tables of an index.
pub open spec fn register_script(def: IndexDef) -> Result<Seq<StatementView>, ErrorView> {
    match (shadow_table(def), fts_table(def)) {
        (Err(e), _) => Err(e),
        (Ok(_), Err(e)) => Err(e),
        (Ok(a), Ok(b)) => Ok(opt_statement(a) + opt_statement(b)),
    }
}

/// The list of an optional statement.
pub open spec fn opt_statement(o: Option<StatementView>) -> Seq<StatementView> {
    match o {
        Some(st) => seq![st],
        None => Seq::empty(),
    }
}

/// The statements that create the tables of an index.
pub fn handle_register_index(def: &IndexDef) -> (r: Result<Vec<Statement>, SquirrelError>)
    ensures
        is_script(r, register_script(*def)),
{
    broadcast use lemma_statements_push;

    let mut out: Vec<Statement> = Vec::new();
    let shadow = index::create_shadow_table(def)?;
    let fts = index::create_fts_table(def)?;
    if let Some(st) = shadow {
        out.push(st);
    }
    if let Some(st) = fts {
        out.push(st);
    }
    assert(statements_view(out@) =~= register_script(*def)->Ok_0);
    Ok(out)
}

// ── Laws of local writes ────────────────────────────────────────────────────

/// Every write is queued for the remote store by the transaction that stores
/// it, with the clock reading of its row: an upsert with the plain payload, a
/// delete with none.
pub proof fn law_every_write_is_queued(
    row: RecordView,
    data: Seq<u8>,
    id: Ulid,
    hlc: Hlc,
    def: Option<IndexDef>,
    values: Seq<(String, IndexValue)>,
    now: i64,
)
    ensures
        put_script(row, data, def, values, now) matches Ok(script) ==> {
            &&& script.len() >= 2
            &&& script[0] == upsert_statement(row)
            &&& script[1] == append_statement(
                row.id,
                row.collection,
                "upsert"@,
                row.hlc,
                Some(data),
                now,
            )
            &&& put_index(def, row.id, values) == Ok::<Seq<StatementView>, ErrorView>(
                script.skip(2),
            )
        },
        delete_script(row.collection, id, hlc, def, now) matches Ok(script) ==> {
            &&& script.len() >= 2
            &&& script[0] == soft_delete_statement(
                row.collection,
                ulid_text(id),
                hlc_text(hlc),
                now,
            )
            &&& script[1] == append_statement(
                ulid_text(id),
                row.collection,
                "delete"@,
                hlc_text(hlc),
                None,
                now,
            )
        },
{
    if let Ok(script) = put_script(row, data, def, values, now) {
        assert(script.skip(2) =~= put_index(def, row.id, values)->Ok_0);
    }
}

/// Of two writes of an engine, one after the other, the second has the later
/// clock reading, wherever the wall clock stands, unless the first has the very
/// last that the clock can show. Both are readings of the engine's node.
pub proof fn law_writes_follow_each_other(last: Hlc, first_ms: u64, second_ms: u64)
    ensures
        ({
            let first = ticked(last, first_ms);
            let second = ticked(first, second_ms);
            &&& hlc_lt(first, second) <==> !is_last(first)
            &&& first.node_id == last.node_id
            &&& second.node_id == last.node_id
        }),
{
    law_tick_follows(last, first_ms);
    law_tick_follows(ticked(last, first_ms), second_ms);
}

/// The first write of an engine is later than the latest record that it found,
/// whichever device wrote that, and is of the engine's own node. The one
/// exception is a record with the very last reading that the clock can show,
/// of a node that does not stand before the engine's.
pub proof fn law_first_write_follows_all(found: Hlc, node_id: [u8; 6], open_ms: u64, wall_ms: u64)
    ensures
        ({
            let clock = start_reading(Some(hlc_text(found)), node_id, open_ms);
            let first = ticked(clock, wall_ms);
            &&& hlc_lt(found, first) <==> !(is_last(found) && !bytes_lt(found.node_id@, node_id@))
            &&& first.node_id == node_id
        }),
{
    law_text_round_trip(found);
}

/// What moves the clock of an engine: a write when the wall clock shows some
/// time, the text of a reading that was pulled then, or a reading that was
/// taken over.
pub enum ClockStep {
    Write { wall_ms: u64 },
    Pull { text: Seq<char>, wall_ms: u64 },
    CatchUp { seen: Hlc },
}

/// The clock after one step.
pub open spec fn stepped(clock: Hlc, step: ClockStep) -> Hlc {
    match step {
        ClockStep::Write { wall_ms } => ticked(clock, wall_ms),
        ClockStep::Pull { text, wall_ms } => observed(clock, text, wall_ms),
        ClockStep::CatchUp { seen } => later_of(clock, seen),
    }
}

/// The clock after some steps, one after the other.
pub open spec fn clock_after(clock: Hlc, steps: Seq<ClockStep>) -> Hlc
    decreases steps.len(),
{
    if steps.len() == 0 {
        clock
    } else {
        stepped(clock_after(clock, steps.drop_last()), steps.last())
    }
}

/// Whether all readings that are taken over are of one node.
pub open spec fn of_node(steps: Seq<ClockStep>, node_id: [u8; 6]) -> bool {
    forall|i: int|
        0 <= i < steps.len() ==> ((#[trigger] steps[i]) matches ClockStep::CatchUp { seen }
            ==> seen.node_id == node_id)
}

/// No step takes the clock back.
proof fn lemma_step_never_goes_back(clock: Hlc, step: ClockStep)
    ensures
        !hlc_lt(stepped(clock, step), clock),
{
    let next = stepped(clock, step);
    law_hlc_order(clock, next, clock);
    match step {
        ClockStep::Write { wall_ms } => {
            law_tick_follows(clock, wall_ms);
        },
        ClockStep::Pull { text, wall_ms } => {
            if let Some((physical, logical, node)) = hlc_parsed(text) {
                let remote = Hlc {
                    physical_ms: physical as u64,
                    logical: logical as u16,
                    node_id: clock.node_id,
                };
                law_merge_follows(clock, remote, wall_ms);
            }
        },
        ClockStep::CatchUp { .. } => {},
    }
}

/// Every reading of an engine is of its own node, whatever record it found when
/// it was opened, and whatever it wrote and pulled since. So two devices never
/// have the same reading.
pub proof fn law_readings_are_of_the_own_node(
    found: Option<Seq<char>>,
    node_id: [u8; 6],
    open_ms: u64,
    steps: Seq<ClockStep>,
    other: Hlc,
)
    requires
        of_node(steps, node_id),
    ensures
        clock_after(start_reading(found, node_id, open_ms), steps).node_id == node_id,
        other.node_id != node_id ==> {
            let clock = clock_after(start_reading(found, node_id, open_ms), steps);
            clock != other && hlc_text(clock) != hlc_text(other)
        },
    decreases steps.len(),
{
    let clock = clock_after(start_reading(found, node_id, open_ms), steps);
    if steps.len() > 0 {
        let front = steps.drop_last();
        assert forall|i: int| 0 <= i < front.len() implies ((
        #[trigger] front[i]) matches ClockStep::CatchUp { seen } ==> seen.node_id == node_id) by {
            assert(steps[i] == front[i]);
        }
        law_readings_are_of_the_own_node(found, node_id, open_ms, front, other);
        assert(steps[steps.len() - 1] == steps.last());
    }
    law_text_round_trip(clock);
    law_text_round_trip(other);
    if other.node_id@ == node_id@ {
        assert(other.node_id =~= node_id);
    }
}

/// The step that pulls a reading.
pub open spec fn pull_of(seen: Hlc, wall_ms: u64) -> ClockStep {
    ClockStep::Pull { text: hlc_text(seen), wall_ms }
}

/// Whether a clock has seen a reading: it started from it, pulled it or took it
/// over.
pub open spec fn has_seen(clock: Hlc, steps: Seq<ClockStep>, seen: Hlc) -> bool {
    ||| seen == clock
    ||| exists|i: int, at: u64|
        0 <= i < steps.len() && #[trigger] steps[i] == (#[trigger] pull_of(seen, at))
    ||| exists|i: int|
        0 <= i < steps.len() && #[trigger] steps[i] == (ClockStep::CatchUp { seen })
}

/// A write comes after everything that its device has seen: it is later than
/// the clock it started from, than every reading that was pulled before it, and
/// than every one that was taken over, wherever the wall clock stands. Only the
/// very last reading that a clock can show is followed by none.
pub proof fn law_write_follows_all_seen(
    clock: Hlc,
    steps: Seq<ClockStep>,
    seen: Hlc,
    wall_ms: u64,
)
    requires
        !is_last(seen),
        has_seen(clock, steps, seen),
    ensures
        hlc_lt(seen, ticked(clock_after(clock, steps), wall_ms)),
{
    let now = clock_after(clock, steps);
    let next = ticked(now, wall_ms);
    lemma_seen_is_kept(clock, steps, seen);
    law_tick_follows(now, wall_ms);
    law_hlc_order(seen, now, next);
    law_hlc_order(now, seen, next);
}

/// The clock is never before what it has seen.
proof fn lemma_seen_is_kept(clock: Hlc, steps: Seq<ClockStep>, seen: Hlc)
    requires
        !is_last(seen),
        has_seen(clock, steps, seen),
    ensures
        !hlc_lt(clock_after(clock, steps), seen),
    decreases steps.len(),
{
    law_hlc_order(seen, seen, seen);
    if steps.len() > 0 {
        let front = steps.drop_last();
        let (before, step) = (clock_after(clock, front), steps.last());
        let after = stepped(before, step);
        lemma_step_never_goes_back(before, step);
        law_hlc_order(before, seen, after);
        law_hlc_order(after, before, seen);
        law_hlc_order(after, seen, before);
        law_hlc_order(seen, after, before);
        if step == (ClockStep::CatchUp { seen }) {
        } else if exists|at: u64| step == #[trigger] pull_of(seen, at) {
            let at = choose|at: u64| step == #[trigger] pull_of(seen, at);
            law_text_round_trip(seen);
            law_merge_follows(before, seen, at);
            assert(after == merged(before, seen, at));
        } else {
            if exists|i: int, at: u64|
                0 <= i < steps.len() && #[trigger] steps[i] == (#[trigger] pull_of(seen, at)) {
                let (i, at) = choose|i: int, at: u64|
                    0 <= i < steps.len() && #[trigger] steps[i] == (#[trigger] pull_of(seen, at));
                assert(front[i] == pull_of(seen, at));
            } else if seen != clock {
                let i = choose|i: int|
                    0 <= i < steps.len() && #[trigger] steps[i] == (ClockStep::CatchUp { seen });
                assert(front[i] == (ClockStep::CatchUp { seen }));
            }
            lemma_seen_is_kept(clock, front, seen);
        }
    }
}

/// A record's own setting decides whether it is encrypted; where it leaves it
/// open, the collection's does; and only then the engine's key.
pub proof fn law_encryption_precedence(
    item: ItemEncryption,
    collection: CollectionEncryption,
    other: CollectionEncryption,
    has_kek: bool,
)
    ensures
        item != ItemEncryption::Default ==> encrypts(item, collection, has_kek) == encrypts(
            item,
            other,
            has_kek,
        ),
        item == ItemEncryption::Default && collection != CollectionEncryption::Default ==> encrypts(
            item,
            collection,
            true,
        ) == Ok::<bool, ErrorView>(collection == CollectionEncryption::Enabled),
        item == ItemEncryption::Default && collection == CollectionEncryption::Default ==> encrypts(
            item,
            collection,
            has_kek,
        ) == Ok::<bool, ErrorView>(has_kek),
        item == ItemEncryption::Enabled && !has_kek ==> encrypts(item, collection, has_kek) is Err,
        item == ItemEncryption::Disabled ==> encrypts(item, collection, has_kek) == Ok::<
            bool,
            ErrorView,
        >(false),
{
}

/// What a record says of itself is done, then what its collection says, and with
/// a key at hand everything else is encrypted. A record is refused exactly where
/// it is to be encrypted and there is no key.
pub proof fn law_encryption_is_as_asked(
    item: ItemEncryption,
    collection: CollectionEncryption,
    has_kek: bool,
)
    ensures
        item == ItemEncryption::Enabled && has_kek ==> encrypts(item, collection, has_kek) == Ok::<
            bool,
            ErrorView,
        >(true),
        item == ItemEncryption::Disabled ==> encrypts(item, collection, has_kek) == Ok::<
            bool,
            ErrorView,
        >(false),
        item == ItemEncryption::Default && collection == CollectionEncryption::Enabled && has_kek
            ==> encrypts(item, collection, has_kek) == Ok::<bool, ErrorView>(true),
        item == ItemEncryption::Default && collection == CollectionEncryption::Disabled
            ==> encrypts(item, collection, has_kek) == Ok::<bool, ErrorView>(false),
        item == ItemEncryption::Default && collection == CollectionEncryption::Default
            ==> encrypts(item, collection, has_kek) == Ok::<bool, ErrorView>(has_kek),
        encrypts(item, collection, has_kek) is Err <==> !has_kek && (item
            == ItemEncryption::Enabled || item == ItemEncryption::Default && collection
            == CollectionEncryption::Enabled),
{
}

/// A collection has the setting that it was registered with, and one that was
/// not registered has the engine's.
pub proof fn law_collection_has_its_setting(
    collections: Seq<(String, CollectionConfig)>,
    name: Seq<char>,
    i: int,
)
    requires
        names_differ(collections),
    ensures
        0 <= i < collections.len() && collections[i].0@ == name ==> collection_setting(
            collections,
            name,
        ) == collections[i].1.encryption,
        (forall|k: int| 0 <= k < collections.len() ==> (#[trigger] collections[k]).0@ != name)
            ==> collection_setting(collections, name) == CollectionEncryption::Default,
{
    lemma_config_of(collections, name);
}

/// The row of a put holds what was given: its id, its collection, its clock
/// reading, its schema version or zero, and the payload, plain or encrypted with
/// its key beside it. It is neither deleted nor synced.
pub proof fn law_put_row_holds_what_was_given(
    collection: Seq<char>,
    id: Ulid,
    data: Seq<u8>,
    enc_data: Seq<u8>,
    enc_dek: Seq<u8>,
    version: u32,
    hlc: Hlc,
    now: i64,
)
    ensures
        ({
            let plain = put_row(collection, id, data, None, Some(version), hlc, now);
            let sealed = put_row(
                collection,
                id,
                data,
                Some((enc_data, enc_dek)),
                Some(version),
                hlc,
                now,
            );
            &&& plain == (RecordView {
                id: ulid_text(id),
                collection,
                data,
                hlc: hlc_text(hlc),
                schema_version: version,
                format_version: 0,
                dek_encrypted: None,
                deleted: false,
                synced: false,
                created_at: now,
                updated_at: now,
            })
            &&& sealed == (RecordView {
                data: enc_data,
                format_version: 1,
                dek_encrypted: Some(enc_dek),
                ..plain
            })
            &&& put_row(collection, id, data, None, None, hlc, now) == (RecordView {
                schema_version: 0,
                ..plain
            })
        }),
{
}

/// An engine on a database without records, or whose latest reading is none,
/// starts at the wall clock. On any other it starts at the latest reading.
pub proof fn law_engine_starts_at_the_latest(
    found: Option<Seq<char>>,
    latest: Hlc,
    node_id: [u8; 6],
    wall_ms: u64,
)
    ensures
        found is None || hlc_parsed(found->0) is None ==> start_reading(found, node_id, wall_ms)
            == (Hlc { physical_ms: wall_ms, logical: 0, node_id }),
        start_reading(Some(hlc_text(latest)), node_id, wall_ms) == (Hlc {
            physical_ms: latest.physical_ms,
            logical: latest.logical,
            node_id,
        }),
{
    law_text_round_trip(latest);
}

/// A collection has the index that was registered for it last, and registering
/// one leaves those of other collections.
pub proof fn law_last_index_counts(indexes: Seq<IndexDef>, def: IndexDef, collection: Seq<char>)
    ensures
        index_of(indexes.push(def), collection) == (if def.collection@ == collection {
            Some(def)
        } else {
            index_of(indexes, collection)
        }),
        index_of(Seq::empty(), collection) is None,
{
    assert(indexes.push(def).drop_last() =~= indexes);
}

} // verus!
