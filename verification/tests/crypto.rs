use aes_gcm::aead::Aead;
use aes_gcm::{Aes256Gcm, KeyInit, Nonce};
use spartankey::crypto::{
    decrypt_ciphertext, decrypt_ciphertext_of_size, derive_encryption_key, derive_key_with_salt,
    encrypt_plaintext, encrypt_with_nonce, ITERATIONS, KEY_SIZE, NONCE_SIZE, SALT_SIZE, TAG_SIZE,
};
use spartankey::error::{EncryptionError, VaultError};
use spartankey::password::generate_password;

const KEY: [u8; 32] = [7u8; 32];
const NONCE: [u8; 12] = [3u8; 12];

#[test]
fn sizes_are_those_of_the_format() {
    assert_eq!(SALT_SIZE, 16);
    assert_eq!(NONCE_SIZE, 12);
    assert_eq!(KEY_SIZE, 32);
    assert_eq!(TAG_SIZE, 16);
    assert_eq!(ITERATIONS, 100_000);
}

#[test]
fn derived_key_is_that_of_pbkdf2_hmac_sha256() {
    let salt = [9u8; 16];
    let key = derive_key_with_salt(b"password", &salt);
    let expected = pbkdf2::pbkdf2_hmac_array::<sha2::Sha256, 32>(b"password", &salt, 100_000);
    assert_eq!(key, expected);
    assert_ne!(&key[..8], b"password");
}

#[test]
fn key_derivation_is_deterministic() {
    let salt = [1u8; 16];
    let (first, first_salt) = derive_encryption_key("Alpha123!", Some(salt));
    let (second, second_salt) = derive_encryption_key("Alpha123!", Some(salt));
    assert_eq!(first, second);
    assert_eq!(first_salt, salt);
    assert_eq!(second_salt, salt);
}

#[test]
fn derivation_without_a_salt_can_be_repeated_with_the_salt_it_drew() {
    let (key, salt) = derive_encryption_key("Alpha123!", None);
    let (again, same_salt) = derive_encryption_key("Alpha123!", Some(salt));
    assert_eq!(key, again);
    assert_eq!(salt, same_salt);
}

#[test]
fn another_salt_derives_another_key() {
    let first = derive_key_with_salt(b"Alpha123!", &[1u8; 16]);
    let second = derive_key_with_salt(b"Alpha123!", &[2u8; 16]);
    assert_ne!(first, second);
}

#[test]
fn ciphertext_is_that_of_aes_256_gcm() {
    let sealed = encrypt_with_nonce(b"attack at dawn", &KEY, &NONCE).unwrap();
    let cipher = Aes256Gcm::new_from_slice(&KEY).unwrap();
    let expected = cipher.encrypt(Nonce::from_slice(&NONCE), &b"attack at dawn"[..]).unwrap();
    assert_eq!(sealed, expected);
    assert_eq!(sealed.len(), 14 + 16);
    assert_ne!(&sealed[..14], b"attack at dawn");
}

#[test]
fn decryption_gives_the_plaintext_back() {
    let sealed = encrypt_with_nonce(b"attack at dawn", &KEY, &NONCE).unwrap();
    let plain = decrypt_ciphertext(&sealed, &KEY, &NONCE).unwrap();
    assert_eq!(plain, b"attack at dawn".to_vec());
}

#[test]
fn fresh_nonce_round_trip() {
    let (nonce, sealed) = encrypt_plaintext(b"secret entries", &KEY).unwrap();
    assert_eq!(sealed.len(), 14 + 16);
    assert_eq!(decrypt_ciphertext(&sealed, &KEY, &nonce).unwrap(), b"secret entries".to_vec());
}

#[test]
fn empty_plaintext_round_trip() {
    let (nonce, sealed) = encrypt_plaintext(b"", &KEY).unwrap();
    assert_eq!(sealed.len(), 16);
    assert_eq!(decrypt_ciphertext(&sealed, &KEY, &nonce).unwrap(), Vec::<u8>::new());
}

#[test]
fn two_encryptions_draw_two_nonces() {
    let (first, _) = encrypt_plaintext(b"same", &KEY).unwrap();
    let (second, _) = encrypt_plaintext(b"same", &KEY).unwrap();
    assert_ne!(first, second);
}

#[test]
fn wrong_key_fails_authentication() {
    let sealed = encrypt_with_nonce(b"attack at dawn", &KEY, &NONCE).unwrap();
    let other = [8u8; 32];
    assert_eq!(decrypt_ciphertext(&sealed, &other, &NONCE), Err(EncryptionError::Aes));
}

#[test]
fn wrong_nonce_fails_authentication() {
    let sealed = encrypt_with_nonce(b"attack at dawn", &KEY, &NONCE).unwrap();
    let other = [4u8; 12];
    assert_eq!(decrypt_ciphertext(&sealed, &KEY, &other), Err(EncryptionError::Aes));
}

#[test]
fn every_flipped_bit_fails_authentication() {
    let sealed = encrypt_with_nonce(b"attack at dawn", &KEY, &NONCE).unwrap();
    for byte in 0..sealed.len() {
        for bit in 0..8 {
            let mut altered = sealed.clone();
            altered[byte] ^= 1 << bit;
            assert_eq!(decrypt_ciphertext(&altered, &KEY, &NONCE), Err(EncryptionError::Aes));
        }
    }
}

#[test]
fn ciphertext_shorter_than_a_tag_fails_authentication() {
    assert_eq!(decrypt_ciphertext(&[0u8; 15], &KEY, &NONCE), Err(EncryptionError::Aes));
    assert_eq!(decrypt_ciphertext(&[], &KEY, &NONCE), Err(EncryptionError::Aes));
}

#[test]
fn key_of_wrong_length_is_refused() {
    assert_eq!(
        encrypt_with_nonce(b"x", &[7u8; 31], &NONCE),
        Err(EncryptionError::InvalidLength)
    );
    assert_eq!(
        encrypt_with_nonce(b"x", &[7u8; 33], &NONCE),
        Err(EncryptionError::InvalidLength)
    );
    assert_eq!(
        encrypt_plaintext(b"x", &[7u8; 16]).map(|p| p.1),
        Err(EncryptionError::InvalidLength)
    );
    let sealed = encrypt_with_nonce(b"x", &KEY, &NONCE).unwrap();
    assert_eq!(
        decrypt_ciphertext(&sealed, &[7u8; 16], &NONCE),
        Err(EncryptionError::InvalidLength)
    );
    assert_eq!(decrypt_ciphertext(&sealed, &[], &NONCE), Err(EncryptionError::InvalidLength));
}

#[test]
fn sized_decryption_gives_an_array() {
    let secret = [5u8; 32];
    let sealed = encrypt_with_nonce(&secret, &KEY, &NONCE).unwrap();
    assert_eq!(decrypt_ciphertext_of_size::<32>(&sealed, &KEY, &NONCE), Ok(secret));
}

#[test]
fn sized_decryption_refuses_another_size() {
    let sealed = encrypt_with_nonce(&[5u8; 31], &KEY, &NONCE).unwrap();
    assert_eq!(
        decrypt_ciphertext_of_size::<32>(&sealed, &KEY, &NONCE),
        Err(EncryptionError::InvalidLength)
    );
    assert_eq!(
        decrypt_ciphertext_of_size::<31>(&sealed, &KEY, &NONCE),
        Ok([5u8; 31])
    );
}

#[test]
fn sized_decryption_reports_authentication_first() {
    let sealed = encrypt_with_nonce(&[5u8; 31], &KEY, &NONCE).unwrap();
    assert_eq!(
        decrypt_ciphertext_of_size::<32>(&sealed, &[8u8; 32], &NONCE),
        Err(EncryptionError::Aes)
    );
}

#[test]
fn errors_describe_themselves() {
    assert_eq!(EncryptionError::InvalidLength.message(), "EncryptionError: Invalid Length");
    assert_eq!(EncryptionError::Aes.message(), "EncryptionError: aead::Error");
    assert_eq!(
        EncryptionError::InvalidLength.message(),
        format!("EncryptionError: {}", sha2::digest::crypto_common::InvalidLength)
    );
    assert_eq!(EncryptionError::Aes.message(), format!("EncryptionError: {}", aes_gcm::Error));
}

#[test]
fn outside_errors_convert() {
    assert_eq!(EncryptionError::from(aes_gcm::Error), EncryptionError::Aes);
    assert_eq!(
        EncryptionError::from(sha2::digest::crypto_common::InvalidLength),
        EncryptionError::InvalidLength
    );
    assert_eq!(VaultError::from(EncryptionError::Aes), VaultError::Authentication);
    assert_eq!(VaultError::from(EncryptionError::InvalidLength), VaultError::KeyLength);
}

fn is_special(b: u8) -> bool {
    b"!@#$%^&*".contains(&b)
}

#[test]
fn generated_password_has_every_kind_of_character() {
    for _ in 0..50 {
        let password = generate_password(32);
        let bytes = password.as_bytes();
        assert_eq!(bytes.len(), 32);
        assert!(bytes.iter().any(|b| b.is_ascii_lowercase()));
        assert!(bytes.iter().any(|b| b.is_ascii_uppercase()));
        assert!(bytes.iter().any(|b| b.is_ascii_digit()));
        assert!(bytes.iter().any(|b| is_special(*b)));
        assert!(bytes
            .iter()
            .all(|b| b.is_ascii_lowercase()
                || b.is_ascii_uppercase()
                || b.is_ascii_digit()
                || is_special(*b)));
        assert!(!bytes.contains(&b'U'));
    }
}

#[test]
fn shortest_password_has_five_characters() {
    for _ in 0..50 {
        let password = generate_password(5);
        let bytes = password.as_bytes();
        assert_eq!(bytes.len(), 5);
        assert_eq!(bytes.iter().filter(|b| b.is_ascii_lowercase()).count(), 1);
        assert_eq!(bytes.iter().filter(|b| b.is_ascii_uppercase()).count(), 1);
        assert_eq!(bytes.iter().filter(|b| b.is_ascii_digit()).count(), 1);
        assert_eq!(bytes.iter().filter(|b| is_special(**b)).count(), 2);
    }
}

#[test]
fn generated_passwords_differ() {
    assert_ne!(generate_password(32), generate_password(32));
}
