//! Authenticated encryption of byte payloads under a 256-bit key, framed as
//! `[12-byte nonce][ciphertext and 16-byte tag]`.
use crate::error::BunkeysError;
use aes_gcm::aead::{Aead, AeadCore, KeyInit, OsRng};
use aes_gcm::{Aes256Gcm, Key, Nonce};
use vstd::prelude::*;

verus! {

/// Length of an encryption key, in bytes.
pub const KEY_BYTES: usize = 32;

/// Length of a nonce, in bytes.
pub const NONCE_BYTES: usize = 12;

/// Length of an authentication tag, in bytes.
pub const TAG_BYTES: usize = 16;

/// Longest plaintext that AES-256-GCM seals, in bytes.
pub const MAX_PLAINTEXT: u64 = 0x10_0000_0000;

#[verifier::external_type_specification]
#[verifier::external_body]
pub struct ExAeadError(aead::Error);

/// The AES-256-GCM ciphertext and tag of `plaintext` under `key` and `nonce`.
pub uninterp spec fn aes256gcm_seal(key: Seq<u8>, nonce: Seq<u8>, plaintext: Seq<u8>) -> Seq<u8>;

/// The plaintext that an AES-256-GCM ciphertext and tag authenticate to under
/// `key` and `nonce`, or `None` where the tag does not verify.
pub uninterp spec fn aes256gcm_open(key: Seq<u8>, nonce: Seq<u8>, sealed: Seq<u8>) -> Option<
    Seq<u8>,
>;

/// Relies on `Aes256Gcm::generate_nonce` over the operating system's random
/// source: a fresh 12-byte nonce.
#[verifier::external_body]
fn fresh_nonce() -> (r: Vec<u8>)
    ensures
        r@.len() == NONCE_BYTES,
{
    Aes256Gcm::generate_nonce(&mut OsRng).to_vec()
}

/// Relies on `Aead::encrypt` of `Aes256Gcm`: the ciphertext followed by the
/// 16-byte tag, which `Aead::decrypt` opens back to the plaintext; it fails only
/// on a plaintext longer than 2^36 bytes.
#[verifier::external_body]
fn aes_seal(key: &[u8], nonce: &[u8], plaintext: &[u8]) -> (r: Result<Vec<u8>, aead::Error>)
    requires
        key@.len() == KEY_BYTES,
        nonce@.len() == NONCE_BYTES,
    ensures
        r is Ok <==> plaintext@.len() <= MAX_PLAINTEXT,
        r matches Ok(c) ==> c@ == aes256gcm_seal(key@, nonce@, plaintext@) && c@.len()
            == plaintext@.len() + TAG_BYTES && aes256gcm_open(key@, nonce@, c@) == Some(
            plaintext@,
        ),
{
    let cipher = Aes256Gcm::new(Key::<Aes256Gcm>::from_slice(key));
    cipher.encrypt(Nonce::from_slice(nonce), plaintext)
}

/// Relies on `Aead::decrypt` of `Aes256Gcm`: the plaintext when the tag verifies.
#[verifier::external_body]
fn aes_open(key: &[u8], nonce: &[u8], sealed: &[u8]) -> (r: Result<Vec<u8>, aead::Error>)
    requires
        key@.len() == KEY_BYTES,
        nonce@.len() == NONCE_BYTES,
    ensures
        r is Ok <==> aes256gcm_open(key@, nonce@, sealed@) is Some,
        r matches Ok(p) ==> aes256gcm_open(key@, nonce@, sealed@) == Some(p@),
{
    let cipher = Aes256Gcm::new(Key::<Aes256Gcm>::from_slice(key));
    cipher.decrypt(Nonce::from_slice(nonce), sealed)
}

/// `blob` is a sealing of `plaintext` under `key`: a nonce, then the
/// ciphertext and tag made with that nonce, which open back to `plaintext`.
pub open spec fn is_sealing(key: Seq<u8>, plaintext: Seq<u8>, blob: Seq<u8>) -> bool {
    let nonce = blob.take(NONCE_BYTES as int);
    let sealed = blob.skip(NONCE_BYTES as int);
    &&& blob.len() >= NONCE_BYTES
    &&& sealed == aes256gcm_seal(key, nonce, plaintext)
    &&& aes256gcm_open(key, nonce, sealed) == Some(plaintext)
}

/// What decrypting `blob` under `key` gives.
pub open spec fn decrypt_result(key: Seq<u8>, blob: Seq<u8>) -> Result<Seq<u8>, BunkeysError> {
    if blob.len() < NONCE_BYTES {
        Err(BunkeysError::DataTooShort)
    } else if key.len() != KEY_BYTES {
        Err(BunkeysError::InvalidKeyLength)
    } else {
        match aes256gcm_open(key, blob.take(NONCE_BYTES as int), blob.skip(NONCE_BYTES as int)) {
            Some(p) => Ok(p),
            None => Err(BunkeysError::AuthenticationFailed),
        }
    }
}

/// Seal `plaintext` under `key` with the given 12-byte nonce, and frame the
/// result as the nonce followed by the ciphertext and tag.
pub fn encrypt_with_nonce(key: &[u8], nonce: &[u8], plaintext: &[u8]) -> (r: Result<
    Vec<u8>,
    BunkeysError,
>)
    requires
        nonce@.len() == NONCE_BYTES,
    ensures
        r is Ok <==> key@.len() == KEY_BYTES && plaintext@.len() <= MAX_PLAINTEXT,
        r matches Ok(b) ==> is_sealing(key@, plaintext@, b@) && b@.take(NONCE_BYTES as int)
            == nonce@ && b@.len() == NONCE_BYTES + plaintext@.len() + TAG_BYTES,
        r matches Err(e) ==> (e == BunkeysError::InvalidKeyLength <==> key@.len() != KEY_BYTES),
        r matches Err(e) ==> (e == BunkeysError::InvalidKeyLength || e == BunkeysError::EncryptionFailed),
{
    if key.len() != KEY_BYTES {
        return Err(BunkeysError::InvalidKeyLength);
    }
    match aes_seal(key, nonce, plaintext) {
        Ok(sealed) => {
            let mut out: Vec<u8> = Vec::new();
            let mut i: usize = 0;
            while i < NONCE_BYTES
                invariant
                    i <= NONCE_BYTES,
                    nonce@.len() == NONCE_BYTES,
                    out@ == nonce@.take(i as int),
                decreases NONCE_BYTES - i,
            {
                out.push(nonce[i]);
                proof {
                    assert(out@ =~= nonce@.take(i + 1));
                }
                i = i + 1;
            }
            let mut i: usize = 0;
            while i < sealed.len()
                invariant
                    i <= sealed.len(),
                    nonce@.len() == NONCE_BYTES,
                    out@ == nonce@ + sealed@.take(i as int),
                decreases sealed.len() - i,
            {
                out.push(sealed[i]);
                proof {
                    assert(out@ =~= nonce@ + sealed@.take(i + 1));
                }
                i = i + 1;
            }
            proof {
                assert(nonce@.take(NONCE_BYTES as int) =~= nonce@);
                assert(sealed@.take(sealed@.len() as int) =~= sealed@);
                assert(out@.take(NONCE_BYTES as int) =~= nonce@);
                assert(out@.skip(NONCE_BYTES as int) =~= sealed@);
            }
            Ok(out)
        },
        Err(_) => Err(BunkeysError::EncryptionFailed),
    }
}

/// Encrypt `plaintext` under `key` with a fresh random nonce. The output is
/// the nonce followed by the ciphertext and tag.
pub fn encrypt_string(key: Vec<u8>, plaintext: Vec<u8>) -> (r: Result<Vec<u8>, BunkeysError>)
    ensures
        r is Ok <==> key@.len() == KEY_BYTES && plaintext@.len() <= MAX_PLAINTEXT,
        r matches Ok(b) ==> is_sealing(key@, plaintext@, b@) && b@.len() == NONCE_BYTES
            + plaintext@.len() + TAG_BYTES,
        r matches Err(e) ==> (e == BunkeysError::InvalidKeyLength <==> key@.len() != KEY_BYTES),
        r matches Err(e) ==> (e == BunkeysError::InvalidKeyLength || e == BunkeysError::EncryptionFailed),
{
    let nonce = fresh_nonce();
    encrypt_with_nonce(key.as_slice(), nonce.as_slice(), plaintext.as_slice())
}

/// Decrypt a blob made of a 12-byte nonce followed by the ciphertext and tag.
pub fn decrypt_string(key: Vec<u8>, data: Vec<u8>) -> (r: Result<Vec<u8>, BunkeysError>)
    ensures
        match r {
            Ok(p) => decrypt_result(key@, data@) == Ok::<Seq<u8>, BunkeysError>(p@),
            Err(e) => decrypt_result(key@, data@) == Err::<Seq<u8>, BunkeysError>(e),
        },
{
    if data.len() < NONCE_BYTES {
        return Err(BunkeysError::DataTooShort);
    }
    if key.len() != KEY_BYTES {
        return Err(BunkeysError::InvalidKeyLength);
    }
    let mut nonce: Vec<u8> = Vec::new();
    let mut sealed: Vec<u8> = Vec::new();
    let mut i: usize = 0;
    while i < data.len()
        invariant
            i <= data.len(),
            data@.len() >= NONCE_BYTES,
            nonce@ == data@.take(if i < NONCE_BYTES { i as int } else { NONCE_BYTES as int }),
            sealed@ == (if i < NONCE_BYTES {
                seq![]
            } else {
                data@.subrange(NONCE_BYTES as int, i as int)
            }),
        decreases data.len() - i,
    {
        if i < NONCE_BYTES {
            nonce.push(data[i]);
        } else {
            sealed.push(data[i]);
        }
        proof {
            if i < NONCE_BYTES {
                assert(nonce@ =~= data@.take(i + 1));
            } else {
                assert(sealed@ =~= data@.subrange(NONCE_BYTES as int, i + 1));
            }
        }
        i = i + 1;
    }
    proof {
        assert(sealed@ =~= data@.skip(NONCE_BYTES as int));
    }
    match aes_open(key.as_slice(), nonce.as_slice(), sealed.as_slice()) {
        Ok(p) => Ok(p),
        Err(_) => Err(BunkeysError::AuthenticationFailed),
    }
}

/// Decrypting a sealing of a plaintext under the same key gives back the
/// plaintext.
pub proof fn lemma_decrypt_encrypt(key: Seq<u8>, plaintext: Seq<u8>, blob: Seq<u8>)
    requires
        key.len() == KEY_BYTES,
        is_sealing(key, plaintext, blob),
    ensures
        decrypt_result(key, blob) == Ok::<Seq<u8>, BunkeysError>(plaintext),
{
}

} // verus!
