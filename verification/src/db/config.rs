//! The config table: the node id and the salt of key derivation, each made once
//! and kept.

use vstd::prelude::*;
use vstd::string::*;
use vstd::utf8::*;

use crate::crypto::{derivable, derive_kek, kdf_error, kek_of, random_salt};
use crate::db::row::{opt_text, text_value};
use crate::db::statement::{SqlValue, SqlView, Statement, StatementView};
use crate::error::{ErrorView, SquirrelError};
use crate::random::random_array;
use crate::text::{
    hex_bytes, hex_decode, hex_encode, lemma_hex_round_trip, unhex_bytes,
};

verus! {

/// Reads a value.
pub const GET_SQL: &'static str = "SELECT value FROM config WHERE key = ?1";

/// Writes a value.
pub const SET_SQL: &'static str = "INSERT INTO config (key, value) VALUES (?1, ?2) ON CONFLICT(key) DO UPDATE SET value = excluded.value";

/// The key under which the node id is kept.
pub const NODE_ID_KEY: &'static str = "node_id";

/// The key under which the salt of key derivation is kept.
pub const KDF_SALT_KEY: &'static str = "kdf_salt";

/// The statement that writes a value.
pub open spec fn set_statement(key: Seq<char>, value: Seq<char>) -> StatementView {
    StatementView { sql: SET_SQL@, params: seq![SqlView::Text(key), SqlView::Text(value)] }
}

/// The statement that reads a value.
pub open spec fn value_statement(key: Seq<char>) -> StatementView {
    StatementView { sql: GET_SQL@, params: seq![SqlView::Text(key)] }
}

/// Reads the value of a key.
pub fn get(key: &str) -> (r: Statement)
    ensures
        r@ == value_statement(key@),
{
    let params: Vec<SqlValue> = vec![text_value(key)];
    let st = Statement { sql: GET_SQL.to_owned(), params };
    assert(st@.params =~= seq![SqlView::Text(key@)]);
    st
}

/// Writes the value of a key.
pub fn set(key: &str, value: &str) -> (r: Statement)
    ensures
        r@ == set_statement(key@, value@),
{
    let params: Vec<SqlValue> = vec![text_value(key), text_value(value)];
    let st = Statement { sql: SET_SQL.to_owned(), params };
    assert(st@.params =~= set_statement(key@, value@).params);
    st
}

/// The node id that a kept value stands for, or the error on it.
pub open spec fn node_id_in(value: Seq<char>) -> Result<Seq<u8>, ErrorView> {
    match unhex_bytes(value) {
        None => Err(ErrorView::Other("corrupt node_id in config: "@ + value)),
        Some(bytes) => if bytes.len() == 6 {
            Ok(bytes)
        } else {
            Err(ErrorView::Other("node_id must be exactly 6 bytes"@))
        },
    }
}

/// The device's node id. It is read from the value that was found, or else
/// is `fresh`, with the statement that keeps it.
pub fn node_id_or(found: &Option<String>, fresh: [u8; 6]) -> (r: Result<
    ([u8; 6], Option<Statement>),
    SquirrelError,
>)
    ensures
        match opt_text(*found) {
            Some(value) => match node_id_in(value) {
                Ok(id) => r matches Ok((node, keep)) && node@ == id && keep is None,
                Err(e) => r is Err && r->Err_0@ == e,
            },
            None => r matches Ok((node, keep)) && node == fresh && keep is Some && keep->0@
                == set_statement(NODE_ID_KEY@, hex_bytes(fresh@)),
        },
{
    match found {
        Some(value) => match hex_decode(value.as_str()) {
            Err(_) => Err(
                SquirrelError::Other(
                    "corrupt node_id in config: ".to_owned().concat(value.as_str()),
                ),
            ),
            Ok(b) => {
                if b.len() != 6 {
                    return Err(
                        SquirrelError::Other("node_id must be exactly 6 bytes".to_owned()),
                    );
                }
                let node: [u8; 6] = [b[0], b[1], b[2], b[3], b[4], b[5]];
                assert(node@ =~= b@);
                Ok((node, None))
            },
        },
        None => {
            let text = hex_encode(fresh.as_slice());
            Ok((fresh, Some(set(NODE_ID_KEY, text.as_str()))))
        },
    }
}

/// The device's node id: the one that is kept, or a random one with the
/// statement that keeps it.
pub fn get_or_create_node_id(found: &Option<String>) -> (r: Result<
    ([u8; 6], Option<Statement>),
    SquirrelError,
>)
    ensures
        match opt_text(*found) {
            Some(value) => match node_id_in(value) {
                Ok(id) => r matches Ok((node, keep)) && node@ == id && keep is None,
                Err(e) => r is Err && r->Err_0@ == e,
            },
            None => r matches Ok((node, keep)) && keep is Some && keep->0@ == set_statement(
                NODE_ID_KEY@,
                hex_bytes(node@),
            ),
        },
{
    let fresh = random_array::<6>();
    node_id_or(found, fresh)
}

/// A node id that was kept is the one that is read from then on.
pub proof fn law_node_id_is_stable(node: [u8; 6])
    ensures
        node_id_in(hex_bytes(node@)) == Ok::<Seq<u8>, ErrorView>(node@),
{
    lemma_hex_round_trip(node@);
}

// ── The engine's key ────────────────────────────────────────────────────────

/// Where the engine's key comes from.
#[derive(Debug, Clone)]
pub enum KeySource {
    /// Derived from a passphrase with Argon2id and a salt that is kept.
    Passphrase(String),
    /// Handed in as it is.
    RawKey([u8; 32]),
}

/// The key of a passphrase and a salt that was kept as text, or the error.
pub open spec fn kept_kek(passphrase: Seq<char>, salt: Seq<char>) -> Result<Seq<u8>, ErrorView> {
    match unhex_bytes(salt) {
        None => Err(ErrorView::Other("corrupt kdf_salt in config: "@ + salt)),
        Some(bytes) => if derivable(encode_utf8(passphrase).len(), bytes.len()) {
            Ok(kek_of(passphrase, bytes))
        } else {
            Err(kdf_error(passphrase, bytes))
        },
    }
}

/// The engine's key, with the statement that keeps a salt that is new. A raw
/// key needs no salt. A passphrase takes the salt that was found, or `fresh`.
pub fn resolve_kek_with(source: &KeySource, found: &Option<String>, fresh: [u8; 16]) -> (r: Result<
    ([u8; 32], Option<Statement>),
    SquirrelError,
>)
    ensures
        match (*source, opt_text(*found)) {
            (KeySource::RawKey(key), _) => r matches Ok((kek, keep)) && kek == key && keep is None,
            (KeySource::Passphrase(pass), Some(salt)) => match kept_kek(pass@, salt) {
                Ok(key) => r matches Ok((kek, keep)) && kek@ == key && keep is None,
                Err(e) => r is Err && r->Err_0@ == e,
            },
            (KeySource::Passphrase(pass), None) => if derivable(encode_utf8(pass@).len(), 16) {
                r matches Ok((kek, keep)) && kek@ == kek_of(pass@, fresh@) && keep is Some
                    && keep->0@ == set_statement(KDF_SALT_KEY@, hex_bytes(fresh@))
            } else {
                r is Err && r->Err_0@ == kdf_error(pass@, fresh@)
            },
        },
{
    match source {
        KeySource::RawKey(key) => Ok((*key, None)),
        KeySource::Passphrase(pass) => match found {
            Some(text) => match hex_decode(text.as_str()) {
                Err(_) => Err(
                    SquirrelError::Other(
                        "corrupt kdf_salt in config: ".to_owned().concat(text.as_str()),
                    ),
                ),
                Ok(salt) => {
                    let kek = derive_kek(pass.as_str(), salt.as_slice())?;
                    Ok((kek, None))
                },
            },
            None => {
                let kek = derive_kek(pass.as_str(), fresh.as_slice())?;
                let text = hex_encode(fresh.as_slice());
                Ok((kek, Some(set(KDF_SALT_KEY, text.as_str()))))
            },
        },
    }
}

/// The engine's key, with the statement that keeps a salt that is new.
pub fn resolve_kek(source: &KeySource, found: &Option<String>) -> (r: Result<
    ([u8; 32], Option<Statement>),
    SquirrelError,
>)
    ensures
        match (*source, opt_text(*found)) {
            (KeySource::RawKey(key), _) => r matches Ok((kek, keep)) && kek == key && keep is None,
            (KeySource::Passphrase(pass), Some(salt)) => match kept_kek(pass@, salt) {
                Ok(key) => r matches Ok((kek, keep)) && kek@ == key && keep is None,
                Err(e) => r is Err && r->Err_0@ == e,
            },
            (KeySource::Passphrase(pass), None) => if derivable(encode_utf8(pass@).len(), 16) {
                exists|fresh: [u8; 16]|
                    r matches Ok((kek, keep)) && kek@ == #[trigger] kek_of(pass@, fresh@)
                        && keep is Some && keep->0@ == set_statement(
                        KDF_SALT_KEY@,
                        hex_bytes(fresh@),
                    )
            } else {
                r is Err && r->Err_0@ == ErrorView::Other(
                    "key derivation: "@ + "password is too long"@,
                )
            },
        },
{
    let fresh = random_salt();
    resolve_kek_with(source, found, fresh)
}

/// The key of a passphrase is derived with the salt that was kept, all of it,
/// and a kept salt that is not made of bytes is refused.
pub proof fn law_kept_salt_is_used(passphrase: Seq<char>, kept: Seq<char>, salt: Seq<u8>)
    ensures
        derivable(encode_utf8(passphrase).len(), salt.len()) ==> kept_kek(
            passphrase,
            hex_bytes(salt),
        ) == Ok::<Seq<u8>, ErrorView>(kek_of(passphrase, salt)),
        !derivable(encode_utf8(passphrase).len(), salt.len()) ==> kept_kek(
            passphrase,
            hex_bytes(salt),
        ) is Err,
        unhex_bytes(kept) is None ==> kept_kek(passphrase, kept) is Err,
{
    lemma_hex_round_trip(salt);
}

/// A passphrase gives the same key on every open: the salt that was kept with
/// the first key leads back to it.
pub proof fn law_kek_is_stable(passphrase: Seq<char>, fresh: [u8; 16])
    requires
        derivable(encode_utf8(passphrase).len(), 16),
    ensures
        kept_kek(passphrase, hex_bytes(fresh@)) == Ok::<Seq<u8>, ErrorView>(
            kek_of(passphrase, fresh@),
        ),
{
    lemma_hex_round_trip(fresh@);
}

} // verus!
