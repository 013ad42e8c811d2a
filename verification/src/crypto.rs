//! AES-256-GCM envelope encryption.
//!
//! Everything encrypted is laid out as a nonce of twelve bytes, the ciphertext,
//! and a tag of sixteen bytes. A record's payload is encrypted with a key of
//! its own; that key is encrypted with the engine's key and kept beside it.

use aes_gcm::aead::{Aead, AeadCore, KeyInit, OsRng};
use vstd::prelude::*;
use vstd::string::*;
use vstd::utf8::*;

use crate::error::{ErrorView, SquirrelError};
use crate::random::random_array;

verus! {

// ── What the cipher computes ────────────────────────────────────────────────

/// The ciphertext of a message with its tag behind it.
pub uninterp spec fn aes_sealed(key: Seq<u8>, nonce: Seq<u8>, message: Seq<u8>) -> Seq<u8>;

/// The message that a ciphertext with its tag stands for, or nothing where the
/// tag does not match.
pub uninterp spec fn aes_opened(key: Seq<u8>, nonce: Seq<u8>, sealed: Seq<u8>) -> Option<Seq<u8>>;

/// The key that a password and a salt stand for.
pub uninterp spec fn argon2id_key(
    password: Seq<u8>,
    salt: Seq<u8>,
    memory_kib: u32,
    passes: u32,
    lanes: u32,
) -> Seq<u8>;

/// The longest message that the cipher accepts: 2^36 bytes.
pub const MAX_MESSAGE: u64 = 0x10_0000_0000;

/// `Aes256Gcm::generate_nonce` with the system's randomness. Nothing is known
/// of the nonce.
#[verifier::external_body]
fn random_nonce() -> [u8; 12] {
    aes_gcm::Aes256Gcm::generate_nonce(&mut OsRng).into()
}

/// `Aes256Gcm::encrypt` with no associated data. The claims: it fails on a
/// message over the limit alone; otherwise the result depends on nothing but
/// the arguments, is longer than the message by a tag of sixteen bytes, and
/// is what `Aes256Gcm::decrypt` with the same key and nonce opens to the
/// message. It returns on every length: the check of the key stream's counter,
/// for which the `cipher` crate documents a panic, compares the length's
/// remainder by the block size and so never fires, and the counter wraps.
#[verifier::external_body]
fn aes_encrypt(key: &[u8; 32], nonce: &[u8; 12], message: &[u8]) -> (r: Option<Vec<u8>>)
    ensures
        r is Some <==> message@.len() <= MAX_MESSAGE,
        r is Some ==> {
            &&& r->0@ == aes_sealed(key@, nonce@, message@)
            &&& r->0@.len() == message@.len() + 16
            &&& aes_opened(key@, nonce@, r->0@) == Some(message@)
        },
{
    let cipher = aes_gcm::Aes256Gcm::new(key.into());
    cipher.encrypt(nonce.into(), message).ok()
}

/// `Aes256Gcm::decrypt` with no associated data. The claims: the result
/// depends on nothing but the arguments, is shorter by the tag of sixteen
/// bytes where there is one, and there is none for less than a tag. It returns
/// on every length, as encryption does.
#[verifier::external_body]
fn aes_decrypt(key: &[u8; 32], nonce: &[u8; 12], sealed: &[u8]) -> (r: Option<Vec<u8>>)
    ensures
        match aes_opened(key@, nonce@, sealed@) {
            Some(message) => r is Some && r->0@ == message && sealed@.len() == message.len() + 16,
            None => r is None,
        },
{
    let cipher = aes_gcm::Aes256Gcm::new(key.into());
    cipher.decrypt(nonce.into(), sealed).ok()
}

/// Whether Argon2 takes a password and a salt of these lengths.
pub open spec fn derivable(password_len: nat, salt_len: nat) -> bool {
    password_len <= u32::MAX && 8 <= salt_len <= u32::MAX
}

/// What Argon2 says of a password and a salt that it does not take.
pub open spec fn underivable(password_len: nat, salt_len: nat) -> Seq<char> {
    if password_len > u32::MAX {
        "password is too long"@
    } else if salt_len < 8 {
        "salt is too short"@
    } else {
        "salt is too long"@
    }
}

/// `Argon2::hash_password_into` as Argon2id of version 0x13 with 32 bytes of
/// output. The claims: it fails, with the text given, on lengths outside its
/// limits alone, and otherwise the key depends on nothing but the arguments.
#[verifier::external_body]
fn argon2id(
    password: &[u8],
    salt: &[u8],
    memory_kib: u32,
    passes: u32,
    lanes: u32,
) -> (r: Result<[u8; 32], String>)
    requires
        1 <= lanes <= 0xff_ffff,
        8 * lanes <= memory_kib,
        1 <= passes,
    ensures
        match r {
            Ok(key) => derivable(password@.len(), salt@.len()) && key@ == argon2id_key(
                password@,
                salt@,
                memory_kib,
                passes,
                lanes,
            ),
            Err(text) => !derivable(password@.len(), salt@.len()) && text@ == underivable(
                password@.len(),
                salt@.len(),
            ),
        },
{
    let mut key = [0u8; 32];
    let params = argon2::Params::new(memory_kib, passes, lanes, Some(32)).map_err(|e| e.to_string())?;
    let hasher = argon2::Argon2::new(argon2::Algorithm::Argon2id, argon2::Version::V0x13, params);
    match hasher.hash_password_into(password, salt, &mut key) {
        Ok(()) => Ok(key),
        Err(e) => Err(e.to_string()),
    }
}

// ── Sealing and opening ─────────────────────────────────────────────────────

/// What is stored for a message that is encrypted with a nonce.
pub open spec fn sealed_with(key: Seq<u8>, nonce: Seq<u8>, message: Seq<u8>) -> Seq<u8> {
    nonce + aes_sealed(key, nonce, message)
}

/// What stored bytes open to with a key, or the error.
pub open spec fn opened(key: Seq<u8>, data: Seq<u8>) -> Result<Seq<u8>, ErrorView> {
    if data.len() < 28 {
        Err(ErrorView::Other("ciphertext too short"@))
    } else {
        match aes_opened(key, data.take(12), data.skip(12)) {
            Some(message) => Ok(message),
            None => Err(ErrorView::Other("decrypt: aead::Error"@)),
        }
    }
}

/// The error on a message that is too long to encrypt.
pub open spec fn seal_error() -> ErrorView {
    ErrorView::Other("encrypt: aead::Error"@)
}

/// Encrypts a message with a nonce that is at hand.
pub fn encrypt_with(key: &[u8; 32], nonce: &[u8; 12], plaintext: &[u8]) -> (r: Result<
    Vec<u8>,
    SquirrelError,
>)
    ensures
        match r {
            Ok(data) => {
                &&& plaintext@.len() <= MAX_MESSAGE
                &&& data@ == sealed_with(key@, nonce@, plaintext@)
                &&& data@.len() == plaintext@.len() + 28
                &&& opened(key@, data@) == Ok::<Seq<u8>, ErrorView>(plaintext@)
            },
            Err(e) => plaintext@.len() > MAX_MESSAGE && e@ == seal_error(),
        },
{
    match aes_encrypt(key, nonce, plaintext) {
        None => Err(SquirrelError::Other("encrypt: aead::Error".to_owned())),
        Some(sealed) => {
            let mut out: Vec<u8> = Vec::new();
            out.extend_from_slice(nonce.as_slice());
            out.extend_from_slice(sealed.as_slice());
            assert(out@ =~= sealed_with(key@, nonce@, plaintext@));
            assert(out@.take(12) =~= nonce@);
            assert(out@.skip(12) =~= sealed@);
            Ok(out)
        },
    }
}

/// Encrypts a message with a fresh nonce.
pub fn encrypt(key: &[u8; 32], plaintext: &[u8]) -> (r: Result<Vec<u8>, SquirrelError>)
    ensures
        match r {
            Ok(data) => {
                &&& plaintext@.len() <= MAX_MESSAGE
                &&& exists|nonce: [u8; 12]|
                    data@ == #[trigger] sealed_with(key@, nonce@, plaintext@)
                &&& data@.len() == plaintext@.len() + 28
                &&& opened(key@, data@) == Ok::<Seq<u8>, ErrorView>(plaintext@)
            },
            Err(e) => plaintext@.len() > MAX_MESSAGE && e@ == seal_error(),
        },
{
    let nonce = random_nonce();
    encrypt_with(key, &nonce, plaintext)
}

/// Decrypts what `encrypt` made.
pub fn decrypt(key: &[u8; 32], data: &[u8]) -> (r: Result<Vec<u8>, SquirrelError>)
    ensures
        match opened(key@, data@) {
            Ok(message) => r is Ok && r->Ok_0@ == message && data@.len() == message.len() + 28,
            Err(e) => r is Err && r->Err_0@ == e,
        },
{
    if data.len() < 28 {
        return Err(SquirrelError::Other("ciphertext too short".to_owned()));
    }
    let (head, sealed) = data.split_at(12);
    assert(head@ =~= data@.take(12));
    assert(sealed@ =~= data@.skip(12));
    let nonce: [u8; 12] = [
        head[0],
        head[1],
        head[2],
        head[3],
        head[4],
        head[5],
        head[6],
        head[7],
        head[8],
        head[9],
        head[10],
        head[11],
    ];
    assert(nonce@ =~= head@);
    match aes_decrypt(key, &nonce, sealed) {
        Some(message) => Ok(message),
        None => Err(SquirrelError::Other("decrypt: aead::Error".to_owned())),
    }
}

// ── Keys ────────────────────────────────────────────────────────────────────

/// The memory that key derivation fills, in KiB: 64 MiB.
pub const KDF_MEMORY_KIB: u32 = 65536;

/// How often key derivation passes over its memory.
pub const KDF_PASSES: u32 = 3;

/// How many lanes key derivation has.
pub const KDF_LANES: u32 = 1;

/// The engine's key of a passphrase and a salt.
pub open spec fn kek_of(passphrase: Seq<char>, salt: Seq<u8>) -> Seq<u8> {
    argon2id_key(encode_utf8(passphrase), salt, KDF_MEMORY_KIB, KDF_PASSES, KDF_LANES)
}

/// The error on a passphrase or a salt that no key can be derived from.
pub open spec fn kdf_error(passphrase: Seq<char>, salt: Seq<u8>) -> ErrorView {
    ErrorView::Other(
        "key derivation: "@ + underivable(encode_utf8(passphrase).len(), salt.len()),
    )
}

/// Derives the engine's key from a passphrase with Argon2id. The salt has at
/// least eight bytes.
pub fn derive_kek(passphrase: &str, salt: &[u8]) -> (r: Result<[u8; 32], SquirrelError>)
    ensures
        match r {
            Ok(kek) => derivable(encode_utf8(passphrase@).len(), salt@.len()) && kek@ == kek_of(
                passphrase@,
                salt@,
            ),
            Err(e) => !derivable(encode_utf8(passphrase@).len(), salt@.len()) && e@ == kdf_error(
                passphrase@,
                salt@,
            ),
        },
{
    match argon2id(passphrase.as_bytes(), salt, KDF_MEMORY_KIB, KDF_PASSES, KDF_LANES) {
        Ok(key) => Ok(key),
        Err(text) => Err(
            SquirrelError::Other("key derivation: ".to_owned().concat(text.as_str())),
        ),
    }
}

/// A fresh key.
pub(crate) fn random_key() -> [u8; 32] {
    random_array::<32>()
}

/// A fresh salt for key derivation.
pub(crate) fn random_salt() -> [u8; 16] {
    random_array::<16>()
}

// ── Records ─────────────────────────────────────────────────────────────────

/// What a record's stored payload opens to, with its own key stored beside it
/// under the engine's key.
pub open spec fn record_opened(kek: Seq<u8>, enc_data: Seq<u8>, enc_dek: Seq<u8>) -> Result<
    Seq<u8>,
    ErrorView,
> {
    match opened(kek, enc_dek) {
        Err(e) => Err(e),
        Ok(dek) => if dek.len() != 32 {
            Err(ErrorView::Other("decrypted DEK has wrong length"@))
        } else {
            opened(dek, enc_data)
        },
    }
}

/// Encrypts a payload with a key of its own that is at hand, and that key with
/// the engine's key.
pub fn encrypt_record_with(
    kek: &[u8; 32],
    dek: &[u8; 32],
    data_nonce: &[u8; 12],
    dek_nonce: &[u8; 12],
    data: &[u8],
) -> (r: Result<(Vec<u8>, Vec<u8>), SquirrelError>)
    ensures
        match r {
            Ok((enc_data, enc_dek)) => {
                &&& data@.len() <= MAX_MESSAGE
                &&& enc_data@ == sealed_with(dek@, data_nonce@, data@)
                &&& enc_dek@ == sealed_with(kek@, dek_nonce@, dek@)
                &&& record_opened(kek@, enc_data@, enc_dek@) == Ok::<Seq<u8>, ErrorView>(data@)
            },
            Err(e) => data@.len() > MAX_MESSAGE && e@ == seal_error(),
        },
{
    let enc_data = encrypt_with(dek, data_nonce, data)?;
    let enc_dek = encrypt_with(kek, dek_nonce, dek.as_slice())?;
    Ok((enc_data, enc_dek))
}

/// Encrypts a payload with a fresh key, and that key with the engine's key.
/// Gives the encrypted payload and the encrypted key, which `decrypt_record`
/// turns back into the payload.
pub fn encrypt_record(kek: &[u8; 32], data: &[u8]) -> (r: Result<(Vec<u8>, Vec<u8>), SquirrelError>)
    ensures
        match r {
            Ok((enc_data, enc_dek)) => {
                &&& data@.len() <= MAX_MESSAGE
                &&& exists|dek: [u8; 32], a: [u8; 12], b: [u8; 12]|
                    enc_data@ == #[trigger] sealed_with(dek@, a@, data@) && enc_dek@
                        == #[trigger] sealed_with(kek@, b@, dek@)
                &&& enc_data@.len() == data@.len() + 28
                &&& enc_dek@.len() == 60
                &&& record_opened(kek@, enc_data@, enc_dek@) == Ok::<Seq<u8>, ErrorView>(data@)
            },
            Err(e) => data@.len() > MAX_MESSAGE && e@ == seal_error(),
        },
{
    let dek = random_key();
    let enc_data = encrypt(&dek, data)?;
    let enc_dek = encrypt(kek, dek.as_slice())?;
    Ok((enc_data, enc_dek))
}

/// Decrypts a record's own key with the engine's key, and the payload with it.
pub fn decrypt_record(kek: &[u8; 32], enc_data: &[u8], enc_dek: &[u8]) -> (r: Result<
    Vec<u8>,
    SquirrelError,
>)
    ensures
        match record_opened(kek@, enc_data@, enc_dek@) {
            Ok(data) => r is Ok && r->Ok_0@ == data,
            Err(e) => r is Err && r->Err_0@ == e,
        },
{
    let dek_bytes = decrypt(kek, enc_dek)?;
    if dek_bytes.len() != 32 {
        return Err(SquirrelError::Other("decrypted DEK has wrong length".to_owned()));
    }
    let mut dek: [u8; 32] = [0u8; 32];
    let mut i: usize = 0;
    while i < 32
        invariant
            i <= 32,
            dek_bytes@.len() == 32,
            forall|k: int| 0 <= k < i ==> dek@[k] == dek_bytes@[k],
        decreases 32 - i,
    {
        dek[i] = dek_bytes[i];
        i = i + 1;
    }
    assert(dek@ =~= dek_bytes@);
    decrypt(&dek, enc_data)
}

// ── Laws of keys and payloads ───────────────────────────────────────────────

/// The engine's key is the Argon2id key of the passphrase's bytes and the salt,
/// over 64 MiB, three times and in one lane.
pub proof fn law_key_is_derived_at_full_cost(passphrase: Seq<char>, salt: Seq<u8>)
    ensures
        kek_of(passphrase, salt) == argon2id_key(encode_utf8(passphrase), salt, 65536, 3, 1),
{
}

/// Stored bytes are a nonce of twelve bytes and the cipher's bytes behind it.
/// What is too short to hold a nonce and a tag is no ciphertext.
pub proof fn law_nonce_stands_in_front(key: Seq<u8>, nonce: Seq<u8>, body: Seq<u8>, message: Seq<u8>)
    requires
        nonce.len() == 12,
    ensures
        body.len() >= 16 ==> (opened(key, nonce + body) == Ok::<Seq<u8>, ErrorView>(message)
            <==> aes_opened(key, nonce, body) == Some(message)),
        body.len() >= 16 ==> (opened(key, nonce + body) is Err <==> aes_opened(key, nonce, body)
            is None),
        body.len() < 16 ==> opened(key, nonce + body) is Err,
        sealed_with(key, nonce, message) == nonce + aes_sealed(key, nonce, message),
{
    assert((nonce + body).take(12) =~= nonce);
    assert((nonce + body).skip(12) =~= body);
}

/// A record opens to a payload exactly where the engine's key opens the record's
/// own key, of thirty-two bytes, and that key opens the payload.
pub proof fn law_record_opens_with_its_own_key(
    kek: Seq<u8>,
    enc_data: Seq<u8>,
    enc_dek: Seq<u8>,
    data: Seq<u8>,
)
    ensures
        record_opened(kek, enc_data, enc_dek) == Ok::<Seq<u8>, ErrorView>(data) <==> exists|
            dek: Seq<u8>,
        |
            {
                &&& dek.len() == 32
                &&& opened(kek, enc_dek) == Ok::<Seq<u8>, ErrorView>(dek)
                &&& #[trigger] opened(dek, enc_data) == Ok::<Seq<u8>, ErrorView>(data)
            },
{
    if record_opened(kek, enc_data, enc_dek) == Ok::<Seq<u8>, ErrorView>(data) {
        assert(opened(opened(kek, enc_dek)->Ok_0, enc_data) == Ok::<Seq<u8>, ErrorView>(data));
    }
}

} // verus!
