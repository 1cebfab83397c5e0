use dryoc::classic::crypto_secretbox::{crypto_secretbox_keygen, Key, Nonce};
use dryoc::types::NewByteArray;

use king::db::{read_grades_db, save_db, GradeDb, StoreError};
use king::encryption::{
    create_encryption_key, create_nonce, decrypt_to_string, encrypt_string, obtain_key,
    obtain_nonce, read_b64_from_file, vec_to_key, vec_to_nonce,
};

#[test]
fn encryption_should_not_fail() {
    let to_encrypt = "Tityre tu patulae recubans sub tegmine fagi ... (Il n'a pas d'examens...)";
    let key: Key = crypto_secretbox_keygen();
    let nonce: Nonce = NewByteArray::generate();
    let cipher = encrypt_string(&to_encrypt.to_string(), &key, &nonce);
    assert!(cipher.is_ok());
}

#[test]
fn decryption_should_not_fail() {
    let to_encrypt = "Tityre tu patulae recubans sub tegmine fagi ... (Il n'a pas d'examens... utf-8: ä ü Ç)";
    let key: Key = crypto_secretbox_keygen();
    let nonce: Nonce = NewByteArray::generate();
    let cipher = encrypt_string(&to_encrypt.to_string(), &key, &nonce);
    assert!(cipher.is_ok());
    let dec_str = decrypt_to_string(&cipher.unwrap(), &key, &nonce);
    assert!(dec_str.is_ok());
    assert_eq!(dec_str.unwrap().as_str(), to_encrypt);
}

#[test]
fn key_encoding_decodes_to_32_bytes() {
    let (key, encoded) = create_encryption_key();
    let decoded = read_b64_from_file(encoded.as_str()).unwrap();
    assert_eq!(decoded.len(), 32);
    assert_eq!(decoded, key.to_vec());
}

#[test]
fn nonce_encoding_decodes_to_24_bytes() {
    let (nonce, encoded) = create_nonce();
    let decoded = read_b64_from_file(encoded.as_str()).unwrap();
    assert_eq!(decoded.len(), 24);
    assert_eq!(decoded, nonce.to_vec());
}

#[test]
fn vec_to_key_accepts_exactly_32() {
    assert!(vec_to_key(vec![7u8; 32]).is_some());
    assert!(vec_to_key(vec![7u8; 31]).is_none());
    assert!(vec_to_key(vec![7u8; 33]).is_none());
    assert!(vec_to_key(Vec::new()).is_none());
    let k = vec_to_key((0u8..32).collect()).unwrap();
    assert_eq!(k[31], 31);
}

#[test]
fn vec_to_nonce_accepts_exactly_24() {
    assert!(vec_to_nonce(vec![1u8; 24]).is_some());
    assert!(vec_to_nonce(vec![1u8; 23]).is_none());
    assert!(vec_to_nonce(vec![1u8; 25]).is_none());
}

#[test]
fn tampered_tag_is_rejected() {
    let key: Key = crypto_secretbox_keygen();
    let nonce: Nonce = NewByteArray::generate();
    let cipher = encrypt_string(&"alice:45\n".to_string(), &key, &nonce).unwrap();
    let mut corrupted = cipher.clone();
    // the integrity tag leads the ciphertext: flip one of its bits
    corrupted[0] ^= 0x01;
    assert!(decrypt_to_string(&corrupted, &key, &nonce).is_err());
}

// Scenario: an encrypted store with no prior key or nonce file.  The first
// save generates both files and a ciphertext; corrupting one byte of the
// ciphertext's tag and reloading fails with a cryptographic error, never an
// empty map.
#[test]
fn first_save_generates_key_material_and_tamper_is_fatal() {
    // no key file, no nonce file: both are generated and handed back
    let (key, key_file) = obtain_key(None).unwrap();
    let (nonce, nonce_file) = obtain_nonce(None).unwrap();
    let key_file = key_file.expect("a fresh key must be persisted");
    let nonce_file = nonce_file.expect("a fresh nonce must be persisted");

    // a later save finds the files and reuses the same material
    let (key2, again) = obtain_key(Some(&key_file)).unwrap();
    assert!(again.is_none());
    assert_eq!(key2, key);
    let (nonce2, again) = obtain_nonce(Some(&nonce_file)).unwrap();
    assert!(again.is_none());
    assert_eq!(nonce2, nonce);

    let mut db = GradeDb::new();
    db.entries.push(("alice".to_string(), vec![45, 60]));
    let users = king::db::UserDb::new();
    let (cipher, _users_text) = save_db(&db, &users, &key, &nonce).unwrap();

    // honest reload: the same map comes back
    let loaded = read_grades_db(&cipher, None, Some(&key_file), Some(&nonce_file)).unwrap();
    assert_eq!(loaded.entries, db.entries);

    // tampered reload: fatal, not an empty store
    let mut corrupted = cipher.clone();
    corrupted[0] ^= 0x80;
    let r = read_grades_db(&corrupted, None, Some(&key_file), Some(&nonce_file));
    assert_eq!(r.unwrap_err(), StoreError::Corrupt);
}

#[test]
fn missing_key_material_is_fatal() {
    let key: Key = crypto_secretbox_keygen();
    let nonce: Nonce = NewByteArray::generate();
    let cipher = encrypt_string(&"alice:45\n".to_string(), &key, &nonce).unwrap();
    let nonce_file = "AAAA".to_string();
    assert_eq!(
        read_grades_db(&cipher, None, None, Some(&nonce_file)).unwrap_err(),
        StoreError::MissingKey
    );
    let key_file = "AAAA".to_string();
    assert_eq!(
        read_grades_db(&cipher, None, Some(&key_file), None).unwrap_err(),
        StoreError::MissingNonce
    );
}

#[test]
fn malformed_key_material_is_fatal() {
    let key: Key = crypto_secretbox_keygen();
    let nonce: Nonce = NewByteArray::generate();
    let cipher = encrypt_string(&"alice:45\n".to_string(), &key, &nonce).unwrap();
    // not base64 at all
    let bad = "@@not-base64@@".to_string();
    let (_, nonce_file) = create_nonce();
    assert_eq!(
        read_grades_db(&cipher, None, Some(&bad), Some(&nonce_file)).unwrap_err(),
        StoreError::BadKeyMaterial
    );
    // decodes, but to the wrong length
    let short = "AAAA".to_string();
    assert_eq!(
        read_grades_db(&cipher, None, Some(&short), Some(&nonce_file)).unwrap_err(),
        StoreError::BadKeyMaterial
    );
    // malformed key file on the load-or-generate path is fatal too
    assert!(obtain_key(Some(&bad)).is_err());
    assert!(obtain_key(Some(&short)).is_err());
    assert!(obtain_nonce(Some(&short)).is_err());
}
