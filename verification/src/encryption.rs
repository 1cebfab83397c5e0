use vstd::prelude::*;

use base64::engine::general_purpose;
use base64::Engine;
use dryoc::classic::crypto_secretbox::{crypto_secretbox_keygen, Key, Nonce};
use dryoc::dryocsecretbox::VecBox;
use dryoc::types::NewByteArray;

verus! {

/// A value could not be converted to or from its stored form: a key or nonce
/// of the wrong shape, an undecodable encoding, or a ciphertext that fails its
/// integrity check.
#[derive(Debug, Copy, Clone, PartialEq, Eq, Structural)]
pub struct ConversionError;

impl ConversionError {
    /// The message a caller may show for this error.
    pub fn message(&self) -> (r: &'static str)
        ensures
            r@ == "Cannot convert object to key or nonce."@,
    {
        "Cannot convert object to key or nonce."
    }
}

/// The ciphertext (integrity tag included) that the fixed authenticated cipher
/// produces for a given plaintext, key and nonce.  It is a function of those
/// three values alone; nothing further is assumed about it.
pub uninterp spec fn cipher_of(pt: Seq<char>, key: Seq<u8>, nonce: Seq<u8>) -> Seq<u8>;

/// The standard unpadded base64 encoding of a byte string: a function of the
/// bytes alone.
pub uninterp spec fn b64_of(b: Seq<u8>) -> Seq<char>;

/// Authenticated encryption of a text under `key` and `nonce`.
///
/// Relies on dryoc's `DryocSecretBox::encrypt_to_vecbox` and `to_vec`: the
/// result (tag, then encrypted bytes) is computed from the message bytes, the
/// nonce and the key alone, and encryption of a `usize`-length message cannot
/// fail.
#[verifier::external_body]
pub fn encrypt_string(to_encrypt: &String, key: &Key, nonce: &Nonce) -> (r: Result<
    Vec<u8>,
    ConversionError,
>)
    ensures
        r is Ok,
        r matches Ok(c) ==> c@ == cipher_of(to_encrypt@, key@, nonce@),
{
    match VecBox::encrypt_to_vecbox(to_encrypt.as_bytes(), nonce, key) {
        Ok(b) => Ok(b.to_vec()),
        Err(_) => Err(ConversionError),
    }
}

/// Authenticated decryption of a ciphertext back to its text.
///
/// Relies on dryoc's `DryocSecretBox::from_bytes` and `decrypt_to_vec`, and on
/// `String::from_utf8`: opening a box that `encrypt_string` sealed, under the
/// same key and nonce, recovers exactly the encrypted text.  On any other
/// input nothing is promised; a failed integrity check surfaces as an error.
#[verifier::external_body]
pub fn decrypt_to_string(to_decrypt: &Vec<u8>, key: &Key, nonce: &Nonce) -> (r: Result<
    String,
    ConversionError,
>)
    ensures
        forall|pt: Seq<char>|
            to_decrypt@ == cipher_of(pt, key@, nonce@) ==> r is Ok && r->Ok_0@ == pt,
{
    let b = match VecBox::from_bytes(to_decrypt.as_slice()) {
        Ok(b) => b,
        Err(_) => return Err(ConversionError),
    };
    let clear = match b.decrypt_to_vec(nonce, key) {
        Ok(v) => v,
        Err(_) => return Err(ConversionError),
    };
    match String::from_utf8(clear) {
        Ok(s) => Ok(s),
        Err(_) => Err(ConversionError),
    }
}

/// Relies on dryoc's `crypto_secretbox_keygen`: a fresh random key.  Nothing
/// is assumed about its value.
#[verifier::external_body]
fn gen_key() -> (r: Key) {
    crypto_secretbox_keygen()
}

/// Relies on dryoc's `NewByteArray::generate`: a fresh random nonce.  Nothing
/// is assumed about its value.
#[verifier::external_body]
fn gen_nonce() -> (r: Nonce) {
    Nonce::generate()
}

/// Relies on base64's `Engine::encode` with the standard unpadded alphabet:
/// the encoding is a function of the bytes alone, and encoding a short input
/// cannot fail or panic.
#[verifier::external_body]
fn b64_encode(b: &[u8]) -> (r: String)
    requires
        b@.len() <= 0x100000,
    ensures
        r@ == b64_of(b@),
{
    general_purpose::STANDARD_NO_PAD.encode(b)
}

/// Decode the text of a key or nonce file.
///
/// Relies on base64's `Engine::decode` with the standard unpadded alphabet:
/// decoding inverts `Engine::encode`, so the exact encoding of any byte string
/// decodes back to it; anything undecodable is reported as an error.
#[verifier::external_body]
pub fn read_b64_from_file(contents: &str) -> (r: Result<Vec<u8>, ConversionError>)
    ensures
        forall|b: Seq<u8>| contents@ == b64_of(b) ==> r is Ok && r->Ok_0@ == b,
{
    match general_purpose::STANDARD_NO_PAD.decode(contents) {
        Ok(v) => Ok(v),
        Err(_) => Err(ConversionError),
    }
}

/// A byte vector as a fixed-length key, if it has exactly the key length.
pub fn vec_to_key(key: Vec<u8>) -> (r: Option<Key>)
    ensures
        match r {
            Some(k) => key@.len() == 32 && k@ == key@,
            None => key@.len() != 32,
        },
{
    let len = key.len();
    if len != 32 {
        return None;
    }
    let mut out: Key = [0u8; 32];
    let mut i: usize = 0;
    while i < 32
        invariant
            0 <= i <= 32,
            key@.len() == 32,
            out@.len() == 32,
            forall|j: int| 0 <= j < i ==> out@[j] == key@[j],
        decreases 32 - i,
    {
        out[i] = key[i];
        i += 1;
    }
    proof {
        assert(out@ =~= key@);
    }
    Some(out)
}

/// A byte vector as a fixed-length nonce, if it has exactly the nonce length.
pub fn vec_to_nonce(nonce: Vec<u8>) -> (r: Option<Nonce>)
    ensures
        match r {
            Some(n) => nonce@.len() == 24 && n@ == nonce@,
            None => nonce@.len() != 24,
        },
{
    let len = nonce.len();
    if len != 24 {
        return None;
    }
    let mut out: Nonce = [0u8; 24];
    let mut i: usize = 0;
    while i < 24
        invariant
            0 <= i <= 24,
            nonce@.len() == 24,
            out@.len() == 24,
            forall|j: int| 0 <= j < i ==> out@[j] == nonce@[j],
        decreases 24 - i,
    {
        out[i] = nonce[i];
        i += 1;
    }
    proof {
        assert(out@ =~= nonce@);
    }
    Some(out)
}

/// A fresh random key together with the text under which it is persisted.
pub fn create_encryption_key() -> (r: (Key, String))
    ensures
        r.1@ == b64_of(r.0@),
{
    let key = gen_key();
    let encoded = b64_encode(key.as_slice());
    (key, encoded)
}

/// A fresh random nonce together with the text under which it is persisted.
pub fn create_nonce() -> (r: (Nonce, String))
    ensures
        r.1@ == b64_of(r.0@),
{
    let nonce = gen_nonce();
    let encoded = b64_encode(nonce.as_slice());
    (nonce, encoded)
}

/// Obtain the symmetric key: reuse the one stored in the key file when the
/// caller found one, generate (and hand back for persisting) a fresh one when
/// no file existed, and treat a malformed file as fatal.
pub fn obtain_key(stored: Option<&String>) -> (r: Result<(Key, Option<String>), ConversionError>)
    ensures
        stored is None ==> r is Ok && r->Ok_0.1 is Some && r->Ok_0.1->0@ == b64_of(r->Ok_0.0@),
        forall|k: Seq<u8>|
            (stored matches Some(s) && s@ == #[trigger] b64_of(k) && k.len() == 32) ==> r is Ok
                && r->Ok_0.0@ == k && r->Ok_0.1 is None,
{
    match stored {
        None => {
            let (key, encoded) = create_encryption_key();
            Ok((key, Some(encoded)))
        },
        Some(s) => {
            let bytes = match read_b64_from_file(s.as_str()) {
                Ok(v) => v,
                Err(e) => {
                    return Err(e);
                },
            };
            match vec_to_key(bytes) {
                Some(k) => Ok((k, None)),
                None => Err(ConversionError),
            }
        },
    }
}

/// Obtain the nonce, by the same rule as [`obtain_key`].
pub fn obtain_nonce(stored: Option<&String>) -> (r: Result<
    (Nonce, Option<String>),
    ConversionError,
>)
    ensures
        stored is None ==> r is Ok && r->Ok_0.1 is Some && r->Ok_0.1->0@ == b64_of(r->Ok_0.0@),
        forall|n: Seq<u8>|
            (stored matches Some(s) && s@ == #[trigger] b64_of(n) && n.len() == 24) ==> r is Ok
                && r->Ok_0.0@ == n && r->Ok_0.1 is None,
{
    match stored {
        None => {
            let (nonce, encoded) = create_nonce();
            Ok((nonce, Some(encoded)))
        },
        Some(s) => {
            let bytes = match read_b64_from_file(s.as_str()) {
                Ok(v) => v,
                Err(e) => {
                    return Err(e);
                },
            };
            match vec_to_nonce(bytes) {
                Some(n) => Ok((n, None)),
                None => Err(ConversionError),
            }
        },
    }
}

} // verus!
