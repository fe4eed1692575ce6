//! Key derivation and authenticated encryption.
//!
//! The primitives themselves are PBKDF2 with HMAC-SHA-256 and AES-256 in
//! Galois/Counter Mode. They are computed by the `pbkdf2` and `aes-gcm`
//! crates; this module names what they compute and states the contracts under
//! which the rest of the library calls them.

use aes_gcm::aead::Aead;
use aes_gcm::{Aes256Gcm, KeyInit, Nonce};
use pbkdf2::pbkdf2_hmac_array;
use rand::seq::SliceRandom;
use rand::Rng;
use sha2::digest::crypto_common::InvalidLength;
use sha2::Sha256;
use vstd::prelude::*;

use crate::error::EncryptionError;

verus! {

/// The number of bytes in a salt.
pub const SALT_SIZE: usize = 16;

/// The number of bytes in a nonce.
pub const NONCE_SIZE: usize = 12;

/// The number of bytes in a symmetric key.
pub const KEY_SIZE: usize = 32;

/// The number of bytes in an authentication tag.
pub const TAG_SIZE: usize = 16;

/// The number of PBKDF2 rounds spent on every derivation.
pub const ITERATIONS: u32 = 100_000;

/// The longest plaintext, in bytes, that AES-GCM encrypts.
pub const MAX_PLAINTEXT: u64 = 0x10_0000_0000;

/// The 32 bytes that PBKDF2 with HMAC-SHA-256 derives from a password and a
/// salt in the given number of rounds.
pub uninterp spec fn pbkdf2_hmac_sha256(password: Seq<u8>, salt: Seq<u8>, rounds: u32) -> Seq<u8>;

/// The ciphertext, with its authentication tag appended, that AES-256-GCM
/// makes of a plaintext under a key and a nonce, with no associated data.
pub uninterp spec fn aes256_gcm_seal(key: Seq<u8>, nonce: Seq<u8>, plaintext: Seq<u8>) -> Seq<u8>;

/// The plaintext that AES-256-GCM recovers from a ciphertext with appended
/// tag under a key and a nonce, with no associated data; `None` where the tag
/// does not verify.
pub uninterp spec fn aes256_gcm_open(key: Seq<u8>, nonce: Seq<u8>, sealed: Seq<u8>) -> Option<
    Seq<u8>,
>;

/// Calls `pbkdf2::pbkdf2_hmac_array` with SHA-256 for 32 bytes of output.
/// The contract only names the result: it is a function of the password, the
/// salt and the number of rounds.
#[verifier::external_body]
fn pbkdf2_sha256(password: &[u8], salt: &[u8], rounds: u32) -> (key: [u8; 32])
    ensures
        key@ == pbkdf2_hmac_sha256(password@, salt@, rounds),
{
    pbkdf2_hmac_array::<Sha256, 32>(password, salt, rounds)
}

/// Calls `Aes256Gcm::new_from_slice` and, on the cipher it gives,
/// `Aead::encrypt`. The outer error is that of the key: it comes exactly when
/// the key is not 32 bytes long. The inner error comes exactly when the
/// plaintext is longer than AES-GCM allows. Otherwise the result is the named
/// ciphertext, 16 bytes longer than the plaintext, and decrypting it under the
/// same key and nonce gives the plaintext back.
#[verifier::external_body]
fn aes256_gcm_encrypt(key: &[u8], nonce: &[u8; 12], plaintext: &[u8]) -> (r: Result<
    Result<Vec<u8>, aes_gcm::Error>,
    InvalidLength,
>)
    ensures
        r is Err <==> key@.len() != KEY_SIZE,
        r matches Ok(inner) ==> (inner is Err <==> plaintext@.len() > MAX_PLAINTEXT),
        r matches Ok(Ok(sealed)) ==> sealed@ == aes256_gcm_seal(key@, nonce@, plaintext@),
        r matches Ok(Ok(sealed)) ==> sealed@.len() == plaintext@.len() + TAG_SIZE,
        r matches Ok(Ok(sealed)) ==> aes256_gcm_open(key@, nonce@, sealed@) == Some(plaintext@),
{
    let cipher = Aes256Gcm::new_from_slice(key)?;
    Ok(cipher.encrypt(Nonce::from_slice(nonce), plaintext))
}

/// Calls `Aes256Gcm::new_from_slice` and, on the cipher it gives,
/// `Aead::decrypt`. The outer error is that of the key: it comes exactly when
/// the key is not 32 bytes long. The inner result is the named one: the
/// plaintext, 16 bytes shorter than what was given, or the error where the
/// tag does not verify.
#[verifier::external_body]
fn aes256_gcm_decrypt(key: &[u8], nonce: &[u8; 12], sealed: &[u8]) -> (r: Result<
    Result<Vec<u8>, aes_gcm::Error>,
    InvalidLength,
>)
    ensures
        r is Err <==> key@.len() != KEY_SIZE,
        r matches Ok(inner) ==> (inner is Err <==> aes256_gcm_open(key@, nonce@, sealed@) is None),
        r matches Ok(Ok(plaintext)) ==> aes256_gcm_open(key@, nonce@, sealed@) == Some(
            plaintext@,
        ),
        r matches Ok(Ok(plaintext)) ==> plaintext@.len() + TAG_SIZE == sealed@.len(),
{
    let cipher = Aes256Gcm::new_from_slice(key)?;
    Ok(cipher.decrypt(Nonce::from_slice(nonce), sealed))
}

/// Draws a salt from `rand`'s thread-local generator. Nothing is promised of
/// the bytes.
#[verifier::external_body]
pub(crate) fn random_salt() -> [u8; 16] {
    rand::thread_rng().gen::<[u8; 16]>()
}

/// Draws a nonce from `rand`'s thread-local generator. Nothing is promised of
/// the bytes.
#[verifier::external_body]
pub(crate) fn random_nonce() -> [u8; 12] {
    rand::thread_rng().gen::<[u8; 12]>()
}

/// Draws a number from `rand`'s thread-local generator with `Rng::gen_range`
/// on a half-open range, which must not be empty. The number lies in the
/// range; nothing else is promised of it.
#[verifier::external_body]
pub(crate) fn random_in_range(low: usize, high: usize) -> (n: usize)
    requires
        low < high,
    ensures
        low <= n < high,
{
    rand::thread_rng().gen_range(low..high)
}

/// Calls `SliceRandom::shuffle` with `rand`'s thread-local generator. The
/// bytes are the same afterwards, each as often as before; nothing is
/// promised of their order.
#[verifier::external_body]
pub(crate) fn shuffle_bytes(bytes: &mut Vec<u8>)
    ensures
        final(bytes)@.to_multiset() == old(bytes)@.to_multiset(),
{
    bytes.shuffle(&mut rand::thread_rng())
}

/// The key that a password and a salt derive.
pub open spec fn derived_key(password: Seq<u8>, salt: Seq<u8>) -> Seq<u8> {
    pbkdf2_hmac_sha256(password, salt, ITERATIONS)
}

/// Deriving a key is deterministic: the same password and the same salt
/// derive the same key.
pub proof fn lemma_derivation_deterministic(
    password: Seq<u8>,
    salt: Seq<u8>,
    other_password: Seq<u8>,
    other_salt: Seq<u8>,
)
    requires
        password == other_password,
        salt == other_salt,
    ensures
        derived_key(password, salt) == derived_key(other_password, other_salt),
{
}

/// Derives the 32-byte key of a password under a given salt.
pub fn derive_key_with_salt(password: &[u8], salt: &[u8; 16]) -> (key: [u8; 32])
    ensures
        key@ == derived_key(password@, salt@),
{
    pbkdf2_sha256(password, salt.as_slice(), ITERATIONS)
}

/// Derives a 32-byte key from a password. With a salt given, the key is that
/// of the password under that salt; without one, a fresh random salt is drawn.
/// The salt that was used is returned beside the key.
pub fn derive_encryption_key(master_password: &str, predefined_salt: Option<[u8; 16]>) -> (r: (
    [u8; 32],
    [u8; 16],
))
    ensures
        predefined_salt matches Some(s) ==> r.1 == s,
        r.0@ == derived_key(vstd::utf8::encode_utf8(master_password@), r.1@),
{
    let salt = match predefined_salt {
        Some(s) => s,
        None => random_salt(),
    };
    let key = derive_key_with_salt(master_password.as_bytes(), &salt);
    (key, salt)
}

/// What encrypting a plaintext under a key and a nonce gives.
pub open spec fn encryption_of(plaintext: Seq<u8>, key: Seq<u8>, nonce: Seq<u8>) -> Result<
    Seq<u8>,
    EncryptionError,
> {
    if key.len() != KEY_SIZE {
        Err(EncryptionError::InvalidLength)
    } else if plaintext.len() > MAX_PLAINTEXT {
        Err(EncryptionError::Aes)
    } else {
        Ok(aes256_gcm_seal(key, nonce, plaintext))
    }
}

/// What decrypting a ciphertext with appended tag under a key and a nonce
/// gives.
pub open spec fn decryption_of(sealed: Seq<u8>, key: Seq<u8>, nonce: Seq<u8>) -> Result<
    Seq<u8>,
    EncryptionError,
> {
    if key.len() != KEY_SIZE {
        Err(EncryptionError::InvalidLength)
    } else {
        match aes256_gcm_open(key, nonce, sealed) {
            Some(plaintext) => Ok(plaintext),
            None => Err(EncryptionError::Aes),
        }
    }
}

/// The failure of an encryption that fails: it does not depend on the nonce.
pub open spec fn encryption_failure(plaintext: Seq<u8>, key: Seq<u8>) -> EncryptionError {
    if key.len() != KEY_SIZE {
        EncryptionError::InvalidLength
    } else {
        EncryptionError::Aes
    }
}

/// Whether a ciphertext is what encrypting the plaintext under the key and
/// the nonce gives, and decrypts to that plaintext under them.
pub open spec fn seals(sealed: Seq<u8>, plaintext: Seq<u8>, key: Seq<u8>, nonce: Seq<u8>) -> bool {
    &&& encryption_of(plaintext, key, nonce) == Ok::<Seq<u8>, EncryptionError>(sealed)
    &&& decryption_of(sealed, key, nonce) == Ok::<Seq<u8>, EncryptionError>(plaintext)
    &&& sealed.len() == plaintext.len() + TAG_SIZE
}

/// Encrypts a plaintext under a key and a given nonce. A nonce must never
/// serve twice under one key: callers other than tests use
/// [`encrypt_plaintext`], which draws a fresh one.
pub fn encrypt_with_nonce(bytes: &[u8], key_bytes: &[u8], nonce: &[u8; 12]) -> (r: Result<
    Vec<u8>,
    EncryptionError,
>)
    ensures
        r matches Ok(sealed) ==> seals(sealed@, bytes@, key_bytes@, nonce@),
        r matches Err(e) ==> encryption_of(bytes@, key_bytes@, nonce@) == Err::<
            Seq<u8>,
            EncryptionError,
        >(e),
{
    match aes256_gcm_encrypt(key_bytes, nonce, bytes) {
        Err(e) => Err(EncryptionError::from(e)),
        Ok(Err(e)) => Err(EncryptionError::from(e)),
        Ok(Ok(sealed)) => Ok(sealed),
    }
}

/// Encrypts a plaintext under a key and a fresh random nonce, and returns the
/// nonce with the ciphertext, which ends in its 16-byte authentication tag.
pub fn encrypt_plaintext(bytes: &[u8], key_bytes: &[u8]) -> (r: Result<
    ([u8; 12], Vec<u8>),
    EncryptionError,
>)
    ensures
        r matches Ok((nonce, sealed)) ==> seals(sealed@, bytes@, key_bytes@, nonce@),
        r matches Err(e) ==> e == encryption_failure(bytes@, key_bytes@),
        r is Err <==> key_bytes@.len() != KEY_SIZE || bytes@.len() > MAX_PLAINTEXT,
{
    let nonce = random_nonce();
    match encrypt_with_nonce(bytes, key_bytes, &nonce) {
        Ok(sealed) => Ok((nonce, sealed)),
        Err(e) => Err(e),
    }
}

/// Decrypts a ciphertext with appended tag under a key and a nonce. Fails,
/// and returns no bytes, where the tag does not verify.
pub fn decrypt_ciphertext(ciphertext: &[u8], key_bytes: &[u8], nonce_bytes: &[u8; 12]) -> (r:
    Result<Vec<u8>, EncryptionError>)
    ensures
        r matches Ok(plaintext) ==> decryption_of(ciphertext@, key_bytes@, nonce_bytes@) == Ok::<
            Seq<u8>,
            EncryptionError,
        >(plaintext@),
        r matches Err(e) ==> decryption_of(ciphertext@, key_bytes@, nonce_bytes@) == Err::<
            Seq<u8>,
            EncryptionError,
        >(e),
        r matches Ok(plaintext) ==> plaintext@.len() + TAG_SIZE == ciphertext@.len(),
{
    match aes256_gcm_decrypt(key_bytes, nonce_bytes, ciphertext) {
        Err(e) => Err(EncryptionError::from(e)),
        Ok(Err(e)) => Err(EncryptionError::from(e)),
        Ok(Ok(plaintext)) => Ok(plaintext),
    }
}

/// What decrypting a ciphertext gives where the plaintext must have a given
/// number of bytes: the plaintext of that size, or the error of the
/// decryption, or `InvalidLength` for a plaintext of another size.
pub open spec fn sized_decryption_of(sealed: Seq<u8>, key: Seq<u8>, nonce: Seq<u8>, n: nat) -> Result<
    Seq<u8>,
    EncryptionError,
> {
    match decryption_of(sealed, key, nonce) {
        Ok(plaintext) => if plaintext.len() == n {
            Ok(plaintext)
        } else {
            Err(EncryptionError::InvalidLength)
        },
        Err(e) => Err(e),
    }
}

/// Decrypts a ciphertext whose plaintext is to have exactly `N` bytes, such
/// as a wrapped key.
pub fn decrypt_ciphertext_of_size<const N: usize>(
    ciphertext: &[u8],
    key_bytes: &[u8],
    nonce_bytes: &[u8; 12],
) -> (r: Result<[u8; N], EncryptionError>)
    ensures
        r matches Ok(plaintext) ==> sized_decryption_of(
            ciphertext@,
            key_bytes@,
            nonce_bytes@,
            N as nat,
        ) == Ok::<Seq<u8>, EncryptionError>(plaintext@),
        r matches Err(e) ==> sized_decryption_of(ciphertext@, key_bytes@, nonce_bytes@, N as nat)
            == Err::<Seq<u8>, EncryptionError>(e),
{
    let text = match decrypt_ciphertext(ciphertext, key_bytes, nonce_bytes) {
        Ok(text) => text,
        Err(e) => return Err(e),
    };
    if text.len() != N {
        return Err(EncryptionError::InvalidLength);
    }
    let mut out = [0u8; N];
    let mut i: usize = 0;
    while i < N
        invariant
            i <= N,
            text@.len() == N,
            forall|j: int| 0 <= j < i ==> out@[j] == text@[j],
        decreases N - i,
    {
        out[i] = text[i];
        i += 1;
    }
    assert(out@ =~= text@);
    Ok(out)
}

} // verus!
