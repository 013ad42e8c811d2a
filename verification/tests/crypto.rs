use squirreld::crypto;
use squirreld::db::config::{self, KeySource};
use squirreld::db::statement::SqlValue;

fn hex(s: &str) -> Vec<u8> {
    squirreld::text::hex_decode(s).unwrap()
}

#[test]
fn the_cipher_is_aes_256_gcm() {
    let empty = crypto::encrypt_with(&[0; 32], &[0; 12], b"").unwrap();
    assert_eq!(empty, hex("000000000000000000000000530f8afbc74536b9a963b4f1c4cb738b"));
    let block = crypto::encrypt_with(&[0; 32], &[0; 12], &[0; 16]).unwrap();
    assert_eq!(
        block,
        hex(
            "000000000000000000000000\
             cea7403d4d606b6e074ec5d3baf39d18d0d1c8a799996bf0265b98b5d48ab919"
        )
    );
    assert_eq!(crypto::decrypt(&[0; 32], &block).unwrap(), vec![0; 16]);
}

#[test]
fn encryption_round_trips() {
    let key = [7u8; 32];
    let a = crypto::encrypt(&key, b"some message").unwrap();
    let b = crypto::encrypt(&key, b"some message").unwrap();
    assert_ne!(a, b, "every message has a nonce of its own");
    assert_eq!(a.len(), 12 + 12 + 16);
    assert_eq!(crypto::decrypt(&key, &a).unwrap(), b"some message");
    assert_eq!(crypto::decrypt(&key, &b).unwrap(), b"some message");
}

#[test]
fn decryption_fails_where_it_should() {
    let key = [7u8; 32];
    let mut data = crypto::encrypt(&key, b"x").unwrap();
    assert_eq!(
        crypto::decrypt(&key, &data[..27]).unwrap_err().message(),
        "ciphertext too short"
    );
    assert_eq!(
        crypto::decrypt(&[8u8; 32], &data).unwrap_err().message(),
        "decrypt: aead::Error"
    );
    let last = data.len() - 1;
    data[last] ^= 1;
    assert!(crypto::decrypt(&key, &data).is_err());
    data[last] ^= 1;
    data[0] ^= 1;
    assert!(crypto::decrypt(&key, &data).is_err());
}

#[test]
fn records_have_keys_of_their_own() {
    let kek = [1u8; 32];
    let (data, dek) = crypto::encrypt_record(&kek, b"payload").unwrap();
    assert_eq!(crypto::decrypt_record(&kek, &data, &dek).unwrap(), b"payload");
    assert!(crypto::decrypt_record(&[2u8; 32], &data, &dek).is_err());
    let (other, _) = crypto::encrypt_record(&kek, b"payload").unwrap();
    assert!(crypto::decrypt_record(&kek, &other, &dek).is_err());
    let short = crypto::encrypt(&kek, b"not a key").unwrap();
    assert_eq!(
        crypto::decrypt_record(&kek, &data, &short).unwrap_err().message(),
        "decrypted DEK has wrong length"
    );
    let (d, k) =
        crypto::encrypt_record_with(&kek, &[3; 32], &[4; 12], &[5; 12], b"payload").unwrap();
    assert_eq!(&d[..12], &[4; 12]);
    assert_eq!(&k[..12], &[5; 12]);
    assert_eq!(crypto::decrypt(&kek, &k).unwrap(), vec![3; 32]);
    assert_eq!(crypto::decrypt_record(&kek, &d, &k).unwrap(), b"payload");
}

#[test]
fn keys_are_derived_with_argon2id() {
    let salt = b"0123456789abcdef";
    let kek = crypto::derive_kek("passphrase", salt).unwrap();
    let mut expected = [0u8; 32];
    let params = argon2::Params::new(65536, 3, 1, Some(32)).unwrap();
    argon2::Argon2::new(argon2::Algorithm::Argon2id, argon2::Version::V0x13, params)
        .hash_password_into(b"passphrase", salt, &mut expected)
        .unwrap();
    assert_eq!(kek, expected);
    assert_ne!(kek, crypto::derive_kek("passphrasf", salt).unwrap());
    assert_ne!(kek, crypto::derive_kek("passphrase", b"0123456789abcdeg").unwrap());
    assert_eq!(
        crypto::derive_kek("passphrase", b"1234567").unwrap_err().message(),
        "key derivation: salt is too short"
    );
}

#[test]
fn raw_keys_are_taken_as_they_are() {
    let (kek, keep) = config::resolve_kek(&KeySource::RawKey([9; 32]), &None).unwrap();
    assert_eq!(kek, [9; 32]);
    assert!(keep.is_none());
}

#[test]
fn a_kept_salt_leads_back_to_the_key() {
    let source = KeySource::Passphrase("pass".into());
    let (kek, keep) = config::resolve_kek(&source, &None).unwrap();
    let st = keep.unwrap();
    let salt = match &st.params[1] {
        SqlValue::Text(t) => t.clone(),
        other => panic!("{other:?}"),
    };
    assert_eq!(salt.len(), 32);
    let (again, keep) = config::resolve_kek(&source, &Some(salt)).unwrap();
    assert_eq!(kek, again);
    assert!(keep.is_none());
    assert_eq!(
        config::resolve_kek(&source, &Some("xyz".into())).unwrap_err().message(),
        "corrupt kdf_salt in config: xyz"
    );
    assert_eq!(
        config::resolve_kek(&source, &Some("00".into())).unwrap_err().message(),
        "key derivation: salt is too short"
    );
    let (fixed, _) = config::resolve_kek_with(&source, &None, [1; 16]).unwrap();
    assert_eq!(fixed, crypto::derive_kek("pass", &[1; 16]).unwrap());
}
