use std::collections::HashMap;

use spartankey::crypto::{decrypt_ciphertext, derive_key_with_salt, encrypt_with_nonce};
use spartankey::entries::{decode_entries, encode_entries, VaultEntry};
use spartankey::error::{EncryptionError, VaultError};
use spartankey::header::{VaultHeader, SIGNATURE};
use spartankey::name_map::NameMap;
use spartankey::vault::Vault;

const INTERNAL_KEY: [u8; 32] = [0x11; 32];
const SALT: [u8; 16] = [0x22; 16];
const MP_NONCE: [u8; 12] = [0x33; 12];
const RK_NONCE: [u8; 12] = [0x44; 12];
const RECOVERY_KEY: [u8; 32] = [0x55; 32];
const ENTRIES_NONCE: [u8; 12] = [0x66; 12];

fn entry(username: &str, password: &str, url: &str) -> VaultEntry {
    VaultEntry::new(username.to_string(), password.to_string(), url.to_string())
}

fn triple(e: &VaultEntry) -> (String, String, String) {
    (e.username().to_string(), e.password().to_string(), e.url().to_string())
}

/// A vault whose internal key is wrapped for the given master password and for `RECOVERY_KEY`.
fn vault_for(path: &str, master_password: &str) -> Vault {
    let mp_key = derive_key_with_salt(master_password.as_bytes(), &SALT);
    let wrapped_mp = encrypt_with_nonce(&INTERNAL_KEY, &mp_key, &MP_NONCE).unwrap();
    let wrapped_rk = encrypt_with_nonce(&INTERNAL_KEY, &RECOVERY_KEY, &RK_NONCE).unwrap();
    Vault::new(path, SALT, MP_NONCE, RK_NONCE, INTERNAL_KEY, wrapped_mp, wrapped_rk)
}

/// A vault that only `RECOVERY_KEY` unlocks: no password is derived for it.
fn recovery_vault(path: &str) -> Vault {
    let wrapped_rk = encrypt_with_nonce(&INTERNAL_KEY, &RECOVERY_KEY, &RK_NONCE).unwrap();
    Vault::new(path, SALT, MP_NONCE, RK_NONCE, INTERNAL_KEY, vec![0xAB; 48], wrapped_rk)
}

fn framed(bytes: &[u8]) -> Vec<u8> {
    let mut out = (bytes.len() as u64).to_le_bytes().to_vec();
    out.extend_from_slice(bytes);
    out
}

#[test]
fn test_read() {
    let path = "/home/loucas/.config/com.spartankey/vault";
    let bytes = vault_for(path, "password").write().unwrap();
    let vault = Vault::read(path, &bytes, "password").unwrap();
    assert_eq!(vault.path(), path);
    assert_eq!(vault.entry_count(), 0);
    assert_eq!(vault.internal_key(), &INTERNAL_KEY);
}

#[test]
fn new_vault_has_the_given_parts_and_no_entries() {
    let vault = Vault::new(
        "a/b",
        SALT,
        MP_NONCE,
        RK_NONCE,
        INTERNAL_KEY,
        vec![1, 2, 3],
        vec![4, 5],
    );
    assert_eq!(vault.path(), "a/b");
    assert_eq!(vault.internal_key(), &INTERNAL_KEY);
    assert_eq!(vault.entry_count(), 0);
    assert!(vault.entries().is_empty());
    assert_eq!(vault.header().salt(), &SALT);
    assert_eq!(vault.header().master_password_nonce(), &MP_NONCE);
    assert_eq!(vault.header().recovery_key_nonce(), &RK_NONCE);
    assert_eq!(vault.header().master_password_key(), &vec![1, 2, 3]);
    assert_eq!(vault.header().recovery_key(), &vec![4, 5]);
}

#[test]
fn header_bytes_follow_the_layout() {
    let header = VaultHeader::new(SALT, MP_NONCE, RK_NONCE, vec![1, 2, 3], vec![4, 5]);
    let mut out = vec![0xFF];
    header.encode(&mut out);
    let mut expected = vec![0xFF, 0xED];
    expected.extend_from_slice(&SALT);
    expected.extend_from_slice(&MP_NONCE);
    expected.extend_from_slice(&RK_NONCE);
    expected.extend_from_slice(&[3, 0, 0, 0, 0, 0, 0, 0, 1, 2, 3]);
    expected.extend_from_slice(&[2, 0, 0, 0, 0, 0, 0, 0, 4, 5]);
    assert_eq!(out, expected);
    assert_eq!(SIGNATURE, 0xED);
}

#[test]
fn header_bytes_are_those_of_bincode() {
    let header = VaultHeader::new(SALT, MP_NONCE, RK_NONCE, vec![1, 2, 3], vec![4, 5]);
    let mut out = Vec::new();
    header.encode(&mut out);
    let expected =
        bincode::serialize(&([0xEDu8; 1], SALT, MP_NONCE, RK_NONCE, vec![1u8, 2, 3], vec![4u8, 5]))
            .unwrap();
    assert_eq!(out, expected);
}

#[test]
fn header_is_read_back() {
    let header = VaultHeader::new(SALT, MP_NONCE, RK_NONCE, vec![1, 2, 3], vec![4, 5]);
    let mut bytes = vec![9, 9];
    header.encode(&mut bytes);
    let end = bytes.len();
    bytes.extend_from_slice(&[7, 7, 7]);
    let (read, next) = VaultHeader::decode(&bytes, 2).unwrap();
    assert_eq!(next, end);
    assert_eq!(read.salt(), &SALT);
    assert_eq!(read.master_password_nonce(), &MP_NONCE);
    assert_eq!(read.recovery_key_nonce(), &RK_NONCE);
    assert_eq!(read.master_password_key(), &vec![1, 2, 3]);
    assert_eq!(read.recovery_key(), &vec![4, 5]);
}

#[test]
fn header_cut_short_is_not_read() {
    let header = VaultHeader::new(SALT, MP_NONCE, RK_NONCE, vec![1, 2, 3], vec![4, 5]);
    let mut bytes = Vec::new();
    header.encode(&mut bytes);
    for len in 0..bytes.len() {
        assert!(VaultHeader::decode(&bytes[..len], 0).is_none());
    }
    assert!(VaultHeader::decode(&bytes, 0).is_some());
}

#[test]
fn header_without_the_signature_is_not_read() {
    let header = VaultHeader::new(SALT, MP_NONCE, RK_NONCE, vec![1, 2, 3], vec![4, 5]);
    let mut bytes = Vec::new();
    header.encode(&mut bytes);
    bytes[0] = 0xEE;
    assert!(VaultHeader::decode(&bytes, 0).is_none());
}

#[test]
fn header_with_a_length_beyond_the_input_is_not_read() {
    let header = VaultHeader::new(SALT, MP_NONCE, RK_NONCE, vec![1, 2, 3], vec![4, 5]);
    let mut bytes = Vec::new();
    header.encode(&mut bytes);
    bytes[41..49].copy_from_slice(&u64::MAX.to_le_bytes());
    assert!(VaultHeader::decode(&bytes, 0).is_none());
    bytes[41..49].copy_from_slice(&14u64.to_le_bytes());
    assert!(VaultHeader::decode(&bytes, 0).is_none());
}

#[test]
fn entries_bytes_follow_the_layout() {
    let mut entries = NameMap::new();
    entries.insert("site.com".to_string(), entry("alice", "pw", "site.com"));
    let mut expected = 1u64.to_le_bytes().to_vec();
    expected.extend(framed(b"site.com"));
    expected.extend(framed(b"alice"));
    expected.extend(framed(b"pw"));
    expected.extend(framed(b"site.com"));
    assert_eq!(encode_entries(&entries), expected);
}

#[test]
fn entries_bytes_are_those_of_bincode() {
    let mut entries = NameMap::new();
    entries.insert("site.com".to_string(), entry("alice", "pässwörd", "https://site.com"));
    let mut map = HashMap::new();
    map.insert(
        "site.com".to_string(),
        ("alice".to_string(), "pässwörd".to_string(), "https://site.com".to_string()),
    );
    assert_eq!(encode_entries(&entries), bincode::serialize(&map).unwrap());
}

#[test]
fn no_entries_are_eight_zero_bytes() {
    let entries: NameMap<VaultEntry> = NameMap::new();
    assert_eq!(encode_entries(&entries), vec![0u8; 8]);
    assert_eq!(decode_entries(&[0u8; 8]).unwrap().len(), 0);
}

#[test]
fn entries_are_read_back_in_their_order() {
    let mut entries = NameMap::new();
    entries.insert("b.org".to_string(), entry("bob", "2", "b.org"));
    entries.insert("a.org".to_string(), entry("ann", "1", "a.org"));
    entries.insert("c.org".to_string(), entry("", "", ""));
    let read = decode_entries(&encode_entries(&entries)).unwrap();
    assert_eq!(read.len(), 3);
    assert_eq!(read.name_at(0), "b.org");
    assert_eq!(read.name_at(1), "a.org");
    assert_eq!(read.name_at(2), "c.org");
    assert_eq!(triple(read.value_at(0)), triple(&entry("bob", "2", "b.org")));
    assert_eq!(triple(read.value_at(1)), triple(&entry("ann", "1", "a.org")));
    assert_eq!(triple(read.value_at(2)), triple(&entry("", "", "")));
}

#[test]
fn entries_written_by_bincode_are_read() {
    let mut map = HashMap::new();
    map.insert("x".to_string(), ("u".to_string(), "p".to_string(), "x".to_string()));
    map.insert("y".to_string(), ("v".to_string(), "q".to_string(), "y".to_string()));
    let read = decode_entries(&bincode::serialize(&map).unwrap()).unwrap();
    assert_eq!(read.len(), 2);
    assert_eq!(triple(read.get("x").unwrap()), triple(&entry("u", "p", "x")));
    assert_eq!(triple(read.get("y").unwrap()), triple(&entry("v", "q", "y")));
}

#[test]
fn last_record_of_a_title_is_kept() {
    let mut bytes = 3u64.to_le_bytes().to_vec();
    for (title, user) in [("a", "first"), ("b", "other"), ("a", "last")] {
        bytes.extend(framed(title.as_bytes()));
        bytes.extend(framed(user.as_bytes()));
        bytes.extend(framed(b"pw"));
        bytes.extend(framed(title.as_bytes()));
    }
    let read = decode_entries(&bytes).unwrap();
    assert_eq!(read.len(), 2);
    assert_eq!(read.name_at(0), "a");
    assert_eq!(read.name_at(1), "b");
    assert_eq!(read.get("a").unwrap().username(), "last");
    assert_eq!(read.get("b").unwrap().username(), "other");
}

#[test]
fn bytes_behind_the_entries_are_left_unread() {
    let mut entries = NameMap::new();
    entries.insert("a".to_string(), entry("u", "p", "a"));
    let mut bytes = encode_entries(&entries);
    bytes.extend_from_slice(&[1, 2, 3]);
    assert_eq!(decode_entries(&bytes).unwrap().len(), 1);
}

#[test]
fn entries_cut_short_are_a_format_error() {
    let mut entries = NameMap::new();
    entries.insert("a".to_string(), entry("u", "p", "a"));
    entries.insert("b".to_string(), entry("v", "q", "b"));
    let bytes = encode_entries(&entries);
    for len in 0..bytes.len() {
        assert_eq!(decode_entries(&bytes[..len]).err(), Some(VaultError::Format));
    }
}

#[test]
fn entries_with_a_count_beyond_the_input_are_a_format_error() {
    assert_eq!(decode_entries(&u64::MAX.to_le_bytes()).err(), Some(VaultError::Format));
    assert_eq!(decode_entries(&1u64.to_le_bytes()).err(), Some(VaultError::Format));
}

#[test]
fn text_that_is_not_utf8_is_a_format_error() {
    let mut bytes = 1u64.to_le_bytes().to_vec();
    bytes.extend(framed(&[0xFF, 0xFE]));
    bytes.extend(framed(b"u"));
    bytes.extend(framed(b"p"));
    bytes.extend(framed(b"a"));
    assert_eq!(decode_entries(&bytes).err(), Some(VaultError::Format));
}

#[test]
fn written_file_follows_the_layout() {
    let mut vault = recovery_vault("v");
    vault.add_vault_entry("site.com".to_string(), entry("alice", "pw", "site.com"));
    let bytes = vault.write_with_nonce(&ENTRIES_NONCE).unwrap();

    let mut header = Vec::new();
    vault.header().encode(&mut header);
    assert_eq!(header.len(), 1 + 16 + 12 + 12 + 8 + 48 + 8 + 48);
    assert_eq!(&bytes[..header.len()], &header[..]);
    assert_eq!(&bytes[header.len()..header.len() + 12], &ENTRIES_NONCE);

    let mut plain = 1u64.to_le_bytes().to_vec();
    plain.extend(framed(b"site.com"));
    plain.extend(framed(b"alice"));
    plain.extend(framed(b"pw"));
    plain.extend(framed(b"site.com"));
    let sealed = encrypt_with_nonce(&plain, &INTERNAL_KEY, &ENTRIES_NONCE).unwrap();
    assert_eq!(&bytes[header.len() + 12..], &sealed[..]);
    assert_eq!(
        decrypt_ciphertext(&bytes[header.len() + 12..], &INTERNAL_KEY, &ENTRIES_NONCE).unwrap(),
        plain
    );
}

#[test]
fn written_vault_is_read_back_by_the_recovery_key() {
    let mut vault = recovery_vault("some/path");
    vault.add_vault_entry("b.org".to_string(), entry("bob", "2", "b.org"));
    vault.add_vault_entry("a.org".to_string(), entry("ann", "1", "a.org"));
    let bytes = vault.write().unwrap();
    let read = Vault::read_with_recovery_key("some/path", &bytes, &RECOVERY_KEY).unwrap();
    assert_eq!(read.path(), "some/path");
    assert_eq!(read.internal_key(), &INTERNAL_KEY);
    assert_eq!(read.entry_count(), 2);
    let entries: Vec<_> = read.entries().iter().map(triple).collect();
    assert_eq!(entries, vec![triple(&entry("bob", "2", "b.org")), triple(&entry("ann", "1", "a.org"))]);
    let mut header = Vec::new();
    read.header().encode(&mut header);
    assert_eq!(&bytes[..header.len()], &header[..]);
}

#[test]
fn written_vault_is_read_back_by_the_master_password() {
    let mut vault = vault_for("p", "Alpha123!");
    vault.add_vault_entry("site.com".to_string(), entry("alice", "pw", "site.com"));
    let bytes = vault.write().unwrap();
    let read = Vault::read("p", &bytes, "Alpha123!").unwrap();
    assert_eq!(read.internal_key(), &INTERNAL_KEY);
    assert_eq!(read.entry_count(), 1);
    assert_eq!(triple(read.entry("site.com").unwrap()), triple(&entry("alice", "pw", "site.com")));
}

#[test]
fn wrong_password_is_an_authentication_error() {
    let mut vault = vault_for("p", "Alpha123!");
    vault.add_vault_entry("site.com".to_string(), entry("alice", "pw", "site.com"));
    let bytes = vault.write().unwrap();
    assert_eq!(Vault::read("p", &bytes, "WrongPass").err(), Some(VaultError::Authentication));
}

#[test]
fn wrong_recovery_key_is_an_authentication_error() {
    let bytes = recovery_vault("p").write().unwrap();
    assert_eq!(
        Vault::read_with_recovery_key("p", &bytes, &[0x56; 32]).err(),
        Some(VaultError::Authentication)
    );
}

#[test]
fn both_paths_unwrap_the_same_internal_key() {
    let vault = vault_for("p", "Alpha123!");
    let by_password = vault.header().unwrap_with_password("Alpha123!").unwrap();
    let by_recovery_key = vault.header().unwrap_with_recovery_key(&RECOVERY_KEY).unwrap();
    assert_eq!(by_password, by_recovery_key);
    assert_eq!(by_password, INTERNAL_KEY);

    let bytes = vault.write().unwrap();
    let first = Vault::read("p", &bytes, "Alpha123!").unwrap();
    let second = Vault::read_with_recovery_key("p", &bytes, &RECOVERY_KEY).unwrap();
    assert_eq!(first.internal_key(), second.internal_key());
}

#[test]
fn every_flipped_bit_of_the_ciphertext_fails_authentication() {
    let mut vault = recovery_vault("p");
    vault.add_vault_entry("a".to_string(), entry("u", "p", "a"));
    let bytes = vault.write().unwrap();
    let start = 1 + 16 + 12 + 12 + 8 + 48 + 8 + 48 + 12;
    assert!(start < bytes.len());
    for byte in start..bytes.len() {
        for bit in 0..8 {
            let mut altered = bytes.clone();
            altered[byte] ^= 1 << bit;
            assert_eq!(
                Vault::read_with_recovery_key("p", &altered, &RECOVERY_KEY).err(),
                Some(VaultError::Authentication)
            );
        }
    }
}

#[test]
fn flipped_bit_of_the_ciphertext_fails_authentication_with_the_password() {
    let mut vault = vault_for("p", "Alpha123!");
    vault.add_vault_entry("a".to_string(), entry("u", "p", "a"));
    let bytes = vault.write().unwrap();
    let start = 1 + 16 + 12 + 12 + 8 + 48 + 8 + 48 + 12;
    for byte in [start, bytes.len() - 1] {
        let mut altered = bytes.clone();
        altered[byte] ^= 0x10;
        assert_eq!(
            Vault::read("p", &altered, "Alpha123!").err(),
            Some(VaultError::Authentication)
        );
    }
}

#[test]
fn flipped_bit_of_a_nonce_or_a_wrapped_key_fails_authentication() {
    let mut vault = recovery_vault("p");
    vault.add_vault_entry("a".to_string(), entry("u", "p", "a"));
    let bytes = vault.write().unwrap();
    let rk_nonce = 1 + 16 + 12;
    let wrapped_rk = 1 + 16 + 12 + 12 + 8 + 48 + 8;
    let entries_nonce = wrapped_rk + 48;
    for byte in [rk_nonce, wrapped_rk, wrapped_rk + 47, entries_nonce, entries_nonce + 11] {
        let mut altered = bytes.clone();
        altered[byte] ^= 1;
        assert_eq!(
            Vault::read_with_recovery_key("p", &altered, &RECOVERY_KEY).err(),
            Some(VaultError::Authentication)
        );
    }
}

#[test]
fn file_cut_short_is_a_format_error() {
    let bytes = recovery_vault("p").write().unwrap();
    let header_and_nonce = 1 + 16 + 12 + 12 + 8 + 48 + 8 + 48 + 12;
    for len in 0..header_and_nonce {
        assert_eq!(
            Vault::read_with_recovery_key("p", &bytes[..len], &RECOVERY_KEY).err(),
            Some(VaultError::Format)
        );
    }
    assert_eq!(Vault::read("p", &[], "Alpha123!").err(), Some(VaultError::Format));
    assert_eq!(Vault::read("p", &bytes[..40], "Alpha123!").err(), Some(VaultError::Format));
}

#[test]
fn ciphertext_cut_short_is_an_authentication_error() {
    let bytes = recovery_vault("p").write().unwrap();
    let header_and_nonce = 1 + 16 + 12 + 12 + 8 + 48 + 8 + 48 + 12;
    for len in header_and_nonce..bytes.len() {
        assert_eq!(
            Vault::read_with_recovery_key("p", &bytes[..len], &RECOVERY_KEY).err(),
            Some(VaultError::Authentication)
        );
    }
}

#[test]
fn file_without_the_signature_is_a_format_error() {
    let mut bytes = recovery_vault("p").write().unwrap();
    bytes[0] = 0x00;
    assert_eq!(
        Vault::read_with_recovery_key("p", &bytes, &RECOVERY_KEY).err(),
        Some(VaultError::Format)
    );
}

#[test]
fn wrapped_key_of_another_size_is_a_key_length_error() {
    let wrapped_rk = encrypt_with_nonce(&[0x11; 31], &RECOVERY_KEY, &RK_NONCE).unwrap();
    let vault = Vault::new("p", SALT, MP_NONCE, RK_NONCE, INTERNAL_KEY, vec![0xAB; 48], wrapped_rk);
    let bytes = vault.write().unwrap();
    assert_eq!(
        vault.header().unwrap_with_recovery_key(&RECOVERY_KEY).err(),
        Some(VaultError::KeyLength)
    );
    assert_eq!(
        Vault::read_with_recovery_key("p", &bytes, &RECOVERY_KEY).err(),
        Some(VaultError::KeyLength)
    );
}

#[test]
fn entries_that_do_not_decode_are_a_format_error() {
    let vault = recovery_vault("p");
    let mut bytes = Vec::new();
    vault.header().encode(&mut bytes);
    bytes.extend_from_slice(&ENTRIES_NONCE);
    bytes.extend(encrypt_with_nonce(&[1, 2, 3], &INTERNAL_KEY, &ENTRIES_NONCE).unwrap());
    assert_eq!(
        Vault::read_with_recovery_key("p", &bytes, &RECOVERY_KEY).err(),
        Some(VaultError::Format)
    );
}

#[test]
fn second_entry_of_a_title_replaces_the_first() {
    let mut vault = recovery_vault("p");
    vault.add_vault_entry("other.org".to_string(), entry("o", "o", "other.org"));
    vault.add_vault_entry("site.com".to_string(), entry("a", "first", "site.com"));
    vault.add_vault_entry("site.com".to_string(), entry("b", "second", "site.com"));
    assert_eq!(vault.entry_count(), 2);
    assert_eq!(triple(vault.entry("site.com").unwrap()), triple(&entry("b", "second", "site.com")));
    let titled: Vec<_> = vault.entries().iter().filter(|e| e.url() == "site.com").map(triple).collect();
    assert_eq!(titled, vec![triple(&entry("b", "second", "site.com"))]);
    assert_eq!(triple(vault.entry("other.org").unwrap()), triple(&entry("o", "o", "other.org")));
    assert!(vault.entry("Site.com").is_none());
}

#[test]
fn two_writes_draw_two_nonces() {
    let vault = recovery_vault("p");
    let first = vault.write().unwrap();
    let second = vault.write().unwrap();
    let at = 1 + 16 + 12 + 12 + 8 + 48 + 8 + 48;
    assert_eq!(&first[..at], &second[..at]);
    assert_ne!(&first[at..at + 12], &second[at..at + 12]);
}

#[test]
fn write_with_a_nonce_is_deterministic() {
    let vault = recovery_vault("p");
    assert_eq!(vault.write_with_nonce(&ENTRIES_NONCE), vault.write_with_nonce(&ENTRIES_NONCE));
    assert_ne!(
        vault.write_with_nonce(&ENTRIES_NONCE),
        vault.write_with_nonce(&[0x67; 12])
    );
    assert_ne!(vault.write_with_nonce(&ENTRIES_NONCE), Err(EncryptionError::Aes));
}

#[test]
fn entry_keeps_what_it_was_given() {
    let e = entry("alice", "pw", "site.com");
    assert_eq!(e.username(), "alice");
    assert_eq!(e.password(), "pw");
    assert_eq!(e.url(), "site.com");
    assert_eq!(triple(&e.clone()), triple(&e));
}

#[test]
fn written_file_is_as_long_as_its_four_parts() {
    let mut vault = recovery_vault("p");
    let header = 1 + 16 + 12 + 12 + 8 + 48 + 8 + 48;
    assert_eq!(vault.write().unwrap().len(), header + 12 + 8 + 16);
    vault.add_vault_entry("site.com".to_string(), entry("alice", "pw", "site.com"));
    let plain = encode_entries(&{
        let mut entries = NameMap::new();
        entries.insert("site.com".to_string(), entry("alice", "pw", "site.com"));
        entries
    });
    assert_eq!(plain.len(), 8 + (8 + 8) + (8 + 5) + (8 + 2) + (8 + 8));
    let bytes = vault.write().unwrap();
    assert_eq!(bytes.len(), header + 12 + plain.len() + 16);
    assert_eq!(
        decrypt_ciphertext(&bytes[header + 12..], &INTERNAL_KEY, &bytes[header..header + 12].try_into().unwrap()),
        Ok(plain)
    );
}
