//! The operations that the application offers on vaults.
//!
//! Nothing here touches the disk. An operation that changes what a file
//! should hold hands the new bytes back with the path of the file, and the
//! caller writes them; an operation that needs what a file holds is given
//! the bytes.

use vstd::bytes::lemma_auto_spec_u64_to_from_le_bytes;
use vstd::prelude::*;
use vstd::utf8::encode_utf8;

use crate::crypto::{
    aes256_gcm_seal, derive_encryption_key, derive_key_with_salt, derived_key, encrypt_with_nonce,
    random_nonce, random_salt, KEY_SIZE, MAX_PLAINTEXT,
};
use crate::entries::{entries_bytes, records_bytes, Record, VaultEntry, VaultEntryView};
use crate::error::{EncryptionError, VaultError};
use crate::header::VaultHeader;
use crate::manager::VaultManager;
use crate::name_map::{put_named, Named};
use crate::password::generate_password;
use crate::state::{config_bytes, ConfigState};
use crate::vault::{
    holds_vault, is_written, opened_by_password, sealed_in, written, Vault, VaultView,
};

verus! {

/// Bytes to be written to a file, in place of what the file holds.
pub struct PendingWrite {
    /// The path of the file.
    pub path: String,
    /// What the file is to hold.
    pub bytes: Vec<u8>,
}

/// What creating a vault hands back.
pub struct CreatedVault {
    /// The file of the new vault.
    pub vault_file: PendingWrite,
    /// The file of the record of where each vault is stored.
    pub config_file: PendingWrite,
    /// The recovery key. It unlocks the vault as the master password does,
    /// and is stored nowhere: the caller must hand it to the user. It is the
    /// key itself under which the second copy of the internal key is wrapped,
    /// so no salt has to be kept for it.
    pub recovery_key: [u8; 32],
}

/// Whether a vault is a new one at a path, without entries, that both a
/// master password and a recovery key unlock.
pub open spec fn is_new_vault(
    v: VaultView,
    path: Seq<char>,
    password: Seq<u8>,
    recovery_key: Seq<u8>,
) -> bool {
    &&& v.wf()
    &&& v.path == path
    &&& v.entries == Seq::<Record>::empty()
    &&& v.header.unwrapped_by_password(password) == Ok::<Seq<u8>, EncryptionError>(v.internal_key)
    &&& v.header.unwrapped_by_recovery_key(recovery_key) == Ok::<Seq<u8>, EncryptionError>(
        v.internal_key,
    )
}

/// The random material of a new vault.
pub struct VaultSeed {
    /// The key under which the entries are encrypted.
    pub internal_key: [u8; 32],
    /// The salt under which the master password derives its key.
    pub salt: [u8; 16],
    /// The nonce under which the internal key is wrapped for the master
    /// password.
    pub master_password_nonce: [u8; 12],
    /// The key that unlocks the vault in place of the master password.
    pub recovery_key: [u8; 32],
    /// The nonce under which the internal key is wrapped for the recovery
    /// key.
    pub recovery_key_nonce: [u8; 12],
    /// The nonce under which the entries are first encrypted.
    pub entries_nonce: [u8; 12],
}

/// The new vault of a path, a master password and random material: it has
/// no entries, and its header holds the internal key as encrypted under the
/// key of the master password and as encrypted under the recovery key.
pub open spec fn new_vault(path: Seq<char>, password: Seq<u8>, seed: VaultSeed) -> VaultView {
    VaultView {
        header: VaultHeader::spec_new(
            seed.salt@,
            seed.master_password_nonce@,
            seed.recovery_key_nonce@,
            aes256_gcm_seal(
                derived_key(password, seed.salt@),
                seed.master_password_nonce@,
                seed.internal_key@,
            ),
            aes256_gcm_seal(seed.recovery_key@, seed.recovery_key_nonce@, seed.internal_key@),
        ),
        internal_key: seed.internal_key@,
        path,
        entries: Seq::empty(),
    }
}

/// Creates a vault from given random material: see [`create_new_vault`],
/// which draws the material and is what callers other than tests use.
pub fn create_vault_with(
    vault_name: &str,
    vault_path: &str,
    master_password: &str,
    seed: VaultSeed,
    manager: &mut VaultManager,
    config: &mut ConfigState,
) -> (created: CreatedVault)
    requires
        old(manager).wf(),
        old(config).state.wf(),
    ensures
        final(manager).wf(),
        final(manager)@.active == Some(vault_name@),
        final(manager)@.vaults == old(manager)@.vaults.insert(
            vault_name@,
            new_vault(vault_path@, encode_utf8(master_password@), seed),
        ),
        is_new_vault(
            new_vault(vault_path@, encode_utf8(master_password@), seed),
            vault_path@,
            encode_utf8(master_password@),
            seed.recovery_key@,
        ),
        created.recovery_key == seed.recovery_key,
        created.vault_file.path@ == vault_path@,
        written(new_vault(vault_path@, encode_utf8(master_password@), seed), seed.entries_nonce@)
            == Ok::<Seq<u8>, EncryptionError>(created.vault_file.bytes@),
        sealed_in(
            created.vault_file.bytes@,
            new_vault(vault_path@, encode_utf8(master_password@), seed),
        ),
        holds_vault(
            created.vault_file.bytes@,
            new_vault(vault_path@, encode_utf8(master_password@), seed),
        ),
        final(config).state.wf(),
        final(config).path == old(config).path,
        final(config).state@ == put_named(
            old(config).state@,
            Named { name: vault_name@, value: vault_path@ },
        ),
        final(config).state.knows(vault_name@),
        final(config).state.path_of(vault_name@) == vault_path@,
        created.config_file.path@ == old(config).path@,
        created.config_file.bytes@ == config_bytes(final(config).state@),
{
    let master_password_key = derive_key_with_salt(master_password.as_bytes(), &seed.salt);
    let mp_wrapped = match encrypt_with_nonce(
        seed.internal_key.as_slice(),
        master_password_key.as_slice(),
        &seed.master_password_nonce,
    ) {
        Ok(sealed) => sealed,
        Err(_) => vstd::pervasive::unreached(),
    };
    let rk_wrapped = match encrypt_with_nonce(
        seed.internal_key.as_slice(),
        seed.recovery_key.as_slice(),
        &seed.recovery_key_nonce,
    ) {
        Ok(sealed) => sealed,
        Err(_) => vstd::pervasive::unreached(),
    };
    let vault = Vault::new(
        vault_path,
        seed.salt,
        seed.master_password_nonce,
        seed.recovery_key_nonce,
        seed.internal_key,
        mp_wrapped,
        rk_wrapped,
    );
    proof {
        vault.lemma_wf();
        lemma_auto_spec_u64_to_from_le_bytes();
        assert(records_bytes(Seq::<Record>::empty()) =~= Seq::<u8>::empty());
    }
    let bytes = match vault.write_with_nonce(&seed.entries_nonce) {
        Ok(bytes) => bytes,
        Err(_) => vstd::pervasive::unreached(),
    };
    manager.add_and_activate_vault(vault_name, vault);
    config.add_vault(vault_name, vault_path);
    let config_bytes = config.write();
    CreatedVault {
        vault_file: PendingWrite { path: vault_path.to_string(), bytes },
        config_file: PendingWrite { path: config.path.clone(), bytes: config_bytes },
        recovery_key: seed.recovery_key,
    }
}

/// Creates a vault at a path, protected by a master password, opens it under
/// a name and makes it the active vault. The internal key, the recovery key,
/// the salt and the nonces are drawn at random; the internal key and the
/// recovery key are each derived from a fresh random password under a fresh
/// random salt.
pub fn create_new_vault(
    vault_name: &str,
    vault_path: &str,
    master_password: &str,
    manager: &mut VaultManager,
    config: &mut ConfigState,
) -> (created: CreatedVault)
    requires
        old(manager).wf(),
        old(config).state.wf(),
    ensures
        final(manager).wf(),
        final(manager)@.active == Some(vault_name@),
        final(manager)@.vaults.contains_key(vault_name@),
        final(manager)@.vaults == old(manager)@.vaults.insert(
            vault_name@,
            final(manager)@.vaults[vault_name@],
        ),
        is_new_vault(
            final(manager)@.vaults[vault_name@],
            vault_path@,
            encode_utf8(master_password@),
            created.recovery_key@,
        ),
        created.vault_file.path@ == vault_path@,
        is_written(created.vault_file.bytes@, final(manager)@.vaults[vault_name@]),
        sealed_in(created.vault_file.bytes@, final(manager)@.vaults[vault_name@]),
        holds_vault(created.vault_file.bytes@, final(manager)@.vaults[vault_name@]),
        final(config).state.wf(),
        final(config).path == old(config).path,
        final(config).state@ == put_named(
            old(config).state@,
            Named { name: vault_name@, value: vault_path@ },
        ),
        final(config).state.knows(vault_name@),
        final(config).state.path_of(vault_name@) == vault_path@,
        created.config_file.path@ == old(config).path@,
        created.config_file.bytes@ == config_bytes(final(config).state@),
{
    let seed = VaultSeed {
        internal_key: derive_encryption_key(generate_password(KEY_SIZE).as_str(), None).0,
        salt: random_salt(),
        master_password_nonce: random_nonce(),
        recovery_key: derive_encryption_key(generate_password(KEY_SIZE).as_str(), None).0,
        recovery_key_nonce: random_nonce(),
        entries_nonce: random_nonce(),
    };
    create_vault_with(vault_name, vault_path, master_password, seed, manager, config)
}

/// Puts an entry into the active vault, under its address as title, and
/// hands back the new bytes of the vault's file. Does nothing where no vault
/// is active. Fails, with the entry put, where the entries have become too
/// long to be encrypted.
pub fn add_entry(url: String, username: String, password: String, manager: &mut VaultManager) -> (r:
    Result<Option<PendingWrite>, EncryptionError>)
    requires
        old(manager).wf(),
    ensures
        final(manager).wf(),
        final(manager)@.active == old(manager)@.active,
        old(manager)@.active_vault() is None ==> final(manager)@ == old(manager)@ && r matches Ok(
            None,
        ),
        old(manager)@.active_vault() matches Some(v) ==> final(manager)@.vaults == old(
            manager,
        )@.vaults.insert(
            old(manager)@.active->0,
            v.with_entry(url@, VaultEntryView { username: username@, password: password@, url: url@ }),
        ),
        old(manager)@.active_vault() is Some ==> (r is Ok <==> entries_bytes(
            final(manager)@.active_vault()->0.entries,
        ).len() <= MAX_PLAINTEXT),
        old(manager)@.active_vault() is Some ==> (r matches Ok(written) ==> written matches Some(
            file,
        ) && file.path@ == final(manager)@.active_vault()->0.path && is_written(
            file.bytes@,
            final(manager)@.active_vault()->0,
        ) && sealed_in(file.bytes@, final(manager)@.active_vault()->0) && holds_vault(
            file.bytes@,
            final(manager)@.active_vault()->0,
        )),
        old(manager)@.active_vault() is Some ==> (final(manager)@.active_vault() matches Some(v)
            && v.has_entry(url@) && v.entry(url@) == (VaultEntryView {
            username: username@,
            password: password@,
            url: url@,
        })),
        r matches Err(e) ==> e == EncryptionError::Aes,
{
    match manager.get_active_vault() {
        Some(vault) => {
            vault.add_vault_entry(url.clone(), VaultEntry::new(username, password, url));
            match vault.write() {
                Ok(bytes) => Ok(Some(PendingWrite { path: vault.path().to_string(), bytes })),
                Err(e) => Err(e),
            }
        },
        None => Ok(None),
    }
}

/// The entries of the active vault, in the order in which their titles
/// first came; none where no vault is active.
pub fn get_active_vault_entries(manager: &VaultManager) -> (r: Vec<VaultEntry>)
    requires
        manager.wf(),
    ensures
        manager@.active_vault() is None ==> r@.len() == 0,
        manager@.active_vault() matches Some(v) ==> r@.len() == v.entries.len() && forall|i: int|
            0 <= i < r@.len() ==> (#[trigger] r@[i])@ == v.entries[i].value,
{
    let name = match manager.get_active_vault_name() {
        Some(name) => name,
        None => return Vec::new(),
    };
    match manager.get_vault(name) {
        Some(vault) => vault.entries(),
        None => Vec::new(),
    }
}

/// The names of the known vaults, in the order in which they first came.
pub fn get_vaults(config: &ConfigState) -> (names: Vec<String>)
    requires
        config.state.wf(),
    ensures
        names@.len() == config.state@.len(),
        forall|i: int| 0 <= i < names@.len() ==> (#[trigger] names@[i])@ == config.state@[i].name,
{
    config.state.get_vault_names()
}

/// Opens the known vault of a name from the bytes of its file with the
/// master password, and makes it the active vault. The name must be known.
/// Where the vault does not open, the registry stays as it was.
pub fn open_vault(
    name: &str,
    password: &str,
    bytes: &[u8],
    manager: &mut VaultManager,
    config: &ConfigState,
) -> (r: Result<(), VaultError>)
    requires
        old(manager).wf(),
        config.state.wf(),
        config.state.knows(name@),
    ensures
        final(manager).wf(),
        r matches Ok(_) ==> (opened_by_password(
            bytes@,
            config.state.path_of(name@),
            encode_utf8(password@),
        ) matches Ok(v) && final(manager)@.vaults == old(manager)@.vaults.insert(name@, v)
            && final(manager)@.active == Some(name@)),
        r matches Err(e) ==> opened_by_password(
            bytes@,
            config.state.path_of(name@),
            encode_utf8(password@),
        ) == Err::<VaultView, VaultError>(e) && final(manager)@ == old(manager)@,
{
    let path = match config.state.get_path(name) {
        Some(path) => path,
        None => vstd::pervasive::unreached(),
    };
    let vault = match Vault::read(path.as_str(), bytes, password) {
        Ok(vault) => vault,
        Err(e) => return Err(e),
    };
    manager.add_and_activate_vault(name, vault);
    Ok(())
}

} // verus!
