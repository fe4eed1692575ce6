//! A vault in memory, and the bytes of a vault on disk.
//!
//! On disk a vault is its header, then the nonce of its entries, then the
//! entries as encrypted under the internal key with that nonce. In memory it
//! is the header, the internal key and the entries in the clear.

use vstd::prelude::*;

use crate::crypto::{
    decrypt_ciphertext, decryption_of, encrypt_with_nonce, encryption_of, random_nonce, seals,
    KEY_SIZE, MAX_PLAINTEXT, NONCE_SIZE, TAG_SIZE,
};
use crate::entries::{
    decode_entries, encode_entries, entries_bytes, lemma_parse_entries_written, lemma_records_of,
    parse_entries, records_fit, records_of, Record, VaultEntry, VaultEntryView,
};
use crate::error::{EncryptionError, VaultError};
use crate::header::{
    header_bytes, lemma_parse_header_reads, lemma_parse_header_written, parse_header, HeaderView,
    VaultHeader,
};
use crate::name_map::{
    collected, lemma_collected_distinct, lemma_put_named, lemma_put_named_twice, names_of,
    put_named, NameMap, Named,
};
use crate::wire::{
    copy_range, lemma_parse_fixed_reads, lemma_parse_fixed_written, parse_fixed, put_raw,
    take_array,
};

verus! {

/// An unlocked vault.
pub struct Vault {
    header: VaultHeader,
    internal_key: [u8; 32],
    path: String,
    vault_entries: NameMap<VaultEntry>,
}

/// What an unlocked vault holds.
pub struct VaultView {
    pub header: HeaderView,
    pub internal_key: Seq<u8>,
    pub path: Seq<char>,
    pub entries: Seq<Record>,
}

impl VaultView {
    /// The header is well formed, the internal key has its size, no title
    /// occurs twice among the entries, and the entries can be encoded.
    pub open spec fn wf(self) -> bool {
        &&& self.header.wf()
        &&& self.internal_key.len() == KEY_SIZE
        &&& names_of(self.entries).no_duplicates()
        &&& records_fit(self.entries)
    }

    /// Whether an entry is kept under a title.
    pub open spec fn has_entry(self, title: Seq<char>) -> bool {
        names_of(self.entries).contains(title)
    }

    /// The entry that is kept under a title.
    pub open spec fn entry(self, title: Seq<char>) -> VaultEntryView {
        self.entries[names_of(self.entries).index_of(title)].value
    }

    /// The vault with one more entry put into it.
    pub open spec fn with_entry(self, title: Seq<char>, entry: VaultEntryView) -> VaultView {
        VaultView { entries: put_named(self.entries, Named { name: title, value: entry }), ..self }
    }
}

/// The bytes of a vault on disk.
pub open spec fn vault_file_bytes(header: HeaderView, nonce: Seq<u8>, sealed: Seq<u8>) -> Seq<u8> {
    header_bytes(header) + nonce + sealed
}

/// Splits the bytes of a vault on disk into the header, the nonce of the
/// entries and the encrypted entries.
pub open spec fn parse_vault_file(input: Seq<u8>) -> Option<(HeaderView, Seq<u8>, Seq<u8>)> {
    match parse_header(input) {
        None => None,
        Some((header, after_header)) => match parse_fixed(after_header, NONCE_SIZE as nat) {
            None => None,
            Some((nonce, sealed)) => Some((header, nonce, sealed)),
        },
    }
}

/// What writing a vault with a given nonce for its entries gives.
pub open spec fn written(v: VaultView, nonce: Seq<u8>) -> Result<Seq<u8>, EncryptionError> {
    match encryption_of(entries_bytes(v.entries), v.internal_key, nonce) {
        Ok(sealed) => Ok(vault_file_bytes(v.header, nonce, sealed)),
        Err(e) => Err(e),
    }
}

/// Whether bytes are what writing a vault gives, under some nonce for its
/// entries.
pub open spec fn is_written(bytes: Seq<u8>, v: VaultView) -> bool {
    exists|nonce: Seq<u8>|
        nonce.len() == NONCE_SIZE && #[trigger] written(v, nonce) == Ok::<
            Seq<u8>,
            EncryptionError,
        >(bytes)
}

/// Whether bytes hold the sealed entries of a vault behind its header: they
/// start with the header, the twelve bytes behind it are a nonce, and what
/// follows is the ciphertext of the encoded entries under the internal key
/// and that nonce. The ciphertext decrypts under them to exactly the encoded
/// entries and is 16 bytes longer than they are.
pub open spec fn sealed_in(bytes: Seq<u8>, v: VaultView) -> bool {
    let start = header_bytes(v.header).len() as int;
    &&& bytes.len() >= start + NONCE_SIZE
    &&& bytes.subrange(0, start) == header_bytes(v.header)
    &&& seals(
        bytes.skip(start + NONCE_SIZE),
        entries_bytes(v.entries),
        v.internal_key,
        bytes.subrange(start, start + NONCE_SIZE),
    )
}

/// Bytes that hold the sealed entries of a vault are as long as the header,
/// a nonce, the encoded entries and an authentication tag together: nothing
/// else stands in them.
pub proof fn lemma_sealed_in_length(bytes: Seq<u8>, v: VaultView)
    requires
        sealed_in(bytes, v),
    ensures
        bytes.len() == header_bytes(v.header).len() + NONCE_SIZE + entries_bytes(v.entries).len()
            + TAG_SIZE,
{
}

/// The vault that the internal key unlocks from the parts of a file, or the
/// failure to unlock it.
pub open spec fn unlocked(
    header: HeaderView,
    nonce: Seq<u8>,
    sealed: Seq<u8>,
    path: Seq<char>,
    internal_key: Seq<u8>,
) -> Result<VaultView, VaultError> {
    match decryption_of(sealed, internal_key, nonce) {
        Err(e) => Err(VaultError::of_encryption(e)),
        Ok(plaintext) => match parse_entries(plaintext) {
            None => Err(VaultError::Format),
            Some(rs) => Ok(VaultView { header, internal_key, path, entries: collected(rs) }),
        },
    }
}

/// The vault that a master password opens from the bytes of a file, or the
/// failure to open it.
pub open spec fn opened_by_password(bytes: Seq<u8>, path: Seq<char>, password: Seq<u8>) -> Result<
    VaultView,
    VaultError,
> {
    match parse_vault_file(bytes) {
        None => Err(VaultError::Format),
        Some((header, nonce, sealed)) => match header.unwrapped_by_password(password) {
            Err(e) => Err(VaultError::of_encryption(e)),
            Ok(internal_key) => unlocked(header, nonce, sealed, path, internal_key),
        },
    }
}

/// The vault that a recovery key opens from the bytes of a file, or the
/// failure to open it.
pub open spec fn opened_by_recovery_key(
    bytes: Seq<u8>,
    path: Seq<char>,
    recovery_key: Seq<u8>,
) -> Result<VaultView, VaultError> {
    match parse_vault_file(bytes) {
        None => Err(VaultError::Format),
        Some((header, nonce, sealed)) => match header.unwrapped_by_recovery_key(recovery_key) {
            Err(e) => Err(VaultError::of_encryption(e)),
            Ok(internal_key) => unlocked(header, nonce, sealed, path, internal_key),
        },
    }
}

/// Whether the bytes of a file hold the vault: they split into its header,
/// a nonce and a ciphertext, and its internal key unlocks the vault itself
/// from them.
pub open spec fn holds_vault(bytes: Seq<u8>, v: VaultView) -> bool {
    parse_vault_file(bytes) matches Some((header, nonce, sealed)) && header == v.header
        && unlocked(header, nonce, sealed, v.path, v.internal_key) == Ok::<VaultView, VaultError>(
        v,
    )
}

/// The parts of a file that were written are read back.
pub proof fn lemma_parse_vault_file_written(header: HeaderView, nonce: Seq<u8>, sealed: Seq<u8>)
    requires
        header.wf(),
        nonce.len() == NONCE_SIZE,
    ensures
        parse_vault_file(vault_file_bytes(header, nonce, sealed)) == Some((header, nonce, sealed)),
{
    assert(vault_file_bytes(header, nonce, sealed) =~= header_bytes(header) + (nonce + sealed));
    lemma_parse_header_written(header, nonce + sealed);
    lemma_parse_fixed_written(nonce, sealed);
}

/// What was read as the parts of a file is what stands written in it.
pub proof fn lemma_parse_vault_file_reads(input: Seq<u8>)
    requires
        parse_vault_file(input) is Some,
    ensures
        parse_vault_file(input) matches Some((header, nonce, sealed)) && input == vault_file_bytes(
            header,
            nonce,
            sealed,
        ) && header.wf() && nonce.len() == NONCE_SIZE,
{
    lemma_parse_header_reads(input);
    match parse_header(input) {
        Some((header, after_header)) => {
            lemma_parse_fixed_reads(after_header, NONCE_SIZE as nat);
            match parse_fixed(after_header, NONCE_SIZE as nat) {
                Some((nonce, sealed)) => {
                    assert(input =~= vault_file_bytes(header, nonce, sealed));
                },
                None => {},
            }
        },
        None => {},
    }
}

/// Entries that are encoded and encrypted come back as they were when the
/// ciphertext is decrypted under the same key and nonce and decoded.
pub proof fn lemma_entries_round_trip(
    entries: Seq<Record>,
    key: Seq<u8>,
    nonce: Seq<u8>,
    sealed: Seq<u8>,
)
    requires
        names_of(entries).no_duplicates(),
        records_fit(entries),
        seals(sealed, entries_bytes(entries), key, nonce),
    ensures
        decryption_of(sealed, key, nonce) == Ok::<Seq<u8>, EncryptionError>(
            entries_bytes(entries),
        ),
        parse_entries(entries_bytes(entries)) == Some(entries),
        collected(entries) == entries,
{
    assert(entries_bytes(entries) + Seq::<u8>::empty() =~= entries_bytes(entries));
    lemma_parse_entries_written(entries, Seq::empty());
    lemma_collected_distinct(entries);
}

/// A file that holds the sealed entries of a vault holds the vault: from
/// the file the internal key unlocks the vault as it was.
pub proof fn lemma_written_vault_unlocks(v: VaultView, nonce: Seq<u8>, sealed: Seq<u8>)
    requires
        v.wf(),
        nonce.len() == NONCE_SIZE,
        seals(sealed, entries_bytes(v.entries), v.internal_key, nonce),
    ensures
        written(v, nonce) == Ok::<Seq<u8>, EncryptionError>(
            vault_file_bytes(v.header, nonce, sealed),
        ),
        holds_vault(vault_file_bytes(v.header, nonce, sealed), v),
        sealed_in(vault_file_bytes(v.header, nonce, sealed), v),
{
    let bytes = vault_file_bytes(v.header, nonce, sealed);
    let start = header_bytes(v.header).len() as int;
    assert(bytes.subrange(0, start) =~= header_bytes(v.header));
    assert(bytes.subrange(start, start + NONCE_SIZE) =~= nonce);
    assert(bytes.skip(start + NONCE_SIZE) =~= sealed);
    lemma_parse_vault_file_written(v.header, nonce, sealed);
    lemma_entries_round_trip(v.entries, v.internal_key, nonce, sealed);
}

/// A file that holds a vault is opened by every master password that
/// unwraps the vault's internal key from its header.
pub proof fn lemma_held_vault_opens_by_password(bytes: Seq<u8>, v: VaultView, password: Seq<u8>)
    requires
        holds_vault(bytes, v),
        v.header.unwrapped_by_password(password) == Ok::<Seq<u8>, EncryptionError>(v.internal_key),
    ensures
        opened_by_password(bytes, v.path, password) == Ok::<VaultView, VaultError>(v),
{
}

/// A file that holds a vault is opened by every recovery key that unwraps
/// the vault's internal key from its header.
pub proof fn lemma_held_vault_opens_by_recovery_key(
    bytes: Seq<u8>,
    v: VaultView,
    recovery_key: Seq<u8>,
)
    requires
        holds_vault(bytes, v),
        v.header.unwrapped_by_recovery_key(recovery_key) == Ok::<Seq<u8>, EncryptionError>(
            v.internal_key,
        ),
    ensures
        opened_by_recovery_key(bytes, v.path, recovery_key) == Ok::<VaultView, VaultError>(v),
{
}

/// A file that holds a vault opens to that vault by either path: by every
/// master password and by every recovery key that unwrap the vault's
/// internal key from its header.
pub proof fn lemma_dual_open(
    bytes: Seq<u8>,
    v: VaultView,
    password: Seq<u8>,
    recovery_key: Seq<u8>,
)
    requires
        holds_vault(bytes, v),
        v.header.unwrapped_by_password(password) == Ok::<Seq<u8>, EncryptionError>(v.internal_key),
        v.header.unwrapped_by_recovery_key(recovery_key) == Ok::<Seq<u8>, EncryptionError>(
            v.internal_key,
        ),
    ensures
        opened_by_password(bytes, v.path, password) == Ok::<VaultView, VaultError>(v),
        opened_by_recovery_key(bytes, v.path, recovery_key) == opened_by_password(
            bytes,
            v.path,
            password,
        ),
{
}

/// Putting an entry under a title and then another under the same title
/// leaves what putting the second alone leaves: the title is kept once, with
/// the second entry.
pub proof fn lemma_entry_overwrite(
    v: VaultView,
    title: Seq<char>,
    first: VaultEntryView,
    second: VaultEntryView,
)
    requires
        names_of(v.entries).no_duplicates(),
    ensures
        v.with_entry(title, first).with_entry(title, second) == v.with_entry(title, second),
        names_of(v.with_entry(title, second).entries).no_duplicates(),
        v.with_entry(title, second).has_entry(title),
        v.with_entry(title, second).entry(title) == second,
{
    lemma_put_named_twice(
        v.entries,
        Named { name: title, value: first },
        Named { name: title, value: second },
    );
}

impl View for Vault {
    type V = VaultView;

    closed spec fn view(&self) -> VaultView {
        VaultView {
            header: self.header@,
            internal_key: self.internal_key@,
            path: self.path@,
            entries: records_of(&self.vault_entries),
        }
    }
}

impl Vault {
    /// The invariant of a vault in memory.
    pub closed spec fn wf(&self) -> bool {
        &&& self.vault_entries.wf()
        &&& self@.header.wf()
    }

    /// A vault in memory is well formed as a value: in particular no title
    /// occurs twice among its entries.
    pub proof fn lemma_wf(&self)
        requires
            self.wf(),
        ensures
            self@.header.wf(),
            self@.internal_key.len() == KEY_SIZE,
            names_of(self@.entries).no_duplicates(),
    {
        lemma_records_of(&self.vault_entries);
    }

    /// A vault without entries, of the given salt, nonces, internal key and
    /// wrapped copies of that key.
    pub fn new(
        path: &str,
        salt: [u8; 16],
        master_password_nonce: [u8; 12],
        recovery_key_nonce: [u8; 12],
        internal_key: [u8; 32],
        master_password_key: Vec<u8>,
        recovery_key: Vec<u8>,
    ) -> (v: Vault)
        ensures
            v.wf(),
            v@.header == VaultHeader::spec_new(
                salt@,
                master_password_nonce@,
                recovery_key_nonce@,
                master_password_key@,
                recovery_key@,
            ),
            v@.internal_key == internal_key@,
            v@.path == path@,
            v@.entries == Seq::<Record>::empty(),
    {
        let v = Vault {
            header: VaultHeader::new(
                salt,
                master_password_nonce,
                recovery_key_nonce,
                master_password_key,
                recovery_key,
            ),
            path: path.to_string(),
            internal_key,
            vault_entries: NameMap::new(),
        };
        assert(v@.entries =~= Seq::<Record>::empty());
        v
    }

    /// The header.
    pub fn header(&self) -> (h: &VaultHeader)
        ensures
            h@ == self@.header,
    {
        &self.header
    }

    /// The place of the vault on disk.
    pub fn path(&self) -> (p: &str)
        ensures
            p@ == self@.path,
    {
        self.path.as_str()
    }

    /// The internal key, under which the entries are encrypted.
    pub fn internal_key(&self) -> (k: &[u8; 32])
        ensures
            k@ == self@.internal_key,
    {
        &self.internal_key
    }

    /// The number of entries.
    pub fn entry_count(&self) -> (n: usize)
        requires
            self.wf(),
        ensures
            n == self@.entries.len(),
    {
        self.vault_entries.len()
    }

    /// The entry that is kept under a title, if there is one.
    pub fn entry(&self, title: &str) -> (r: Option<&VaultEntry>)
        requires
            self.wf(),
        ensures
            r is Some <==> self@.has_entry(title@),
            r matches Some(e) ==> e@ == self@.entry(title@),
    {
        proof {
            lemma_records_of(&self.vault_entries);
        }
        self.vault_entries.get(title)
    }

    /// The entries, in the order in which their titles first came.
    pub fn entries(&self) -> (r: Vec<VaultEntry>)
        requires
            self.wf(),
        ensures
            r@.len() == self@.entries.len(),
            forall|i: int| 0 <= i < r@.len() ==> (#[trigger] r@[i])@ == self@.entries[i].value,
    {
        let mut r: Vec<VaultEntry> = Vec::new();
        let n = self.vault_entries.len();
        let mut i: usize = 0;
        while i < n
            invariant
                self.wf(),
                n == self@.entries.len(),
                i <= n,
                r@.len() == i,
                forall|j: int| 0 <= j < i ==> (#[trigger] r@[j])@ == self@.entries[j].value,
            decreases n - i,
        {
            r.push(self.vault_entries.value_at(i).clone());
            i += 1;
        }
        r
    }

    /// Puts an entry under a title. An entry that the title had is replaced;
    /// otherwise the entry comes last.
    pub fn add_vault_entry(&mut self, entry_title: String, vault_entry: VaultEntry)
        requires
            old(self).wf(),
        ensures
            final(self).wf(),
            final(self)@ == old(self)@.with_entry(entry_title@, vault_entry@),
            final(self)@.has_entry(entry_title@),
            final(self)@.entry(entry_title@) == vault_entry@,
            forall|t: Seq<char>|
                t != entry_title@ ==> (#[trigger] final(self)@.has_entry(t) <==> old(
                    self,
                )@.has_entry(t)),
            forall|t: Seq<char>|
                t != entry_title@ && old(self)@.has_entry(t) ==> #[trigger] final(self)@.entry(t)
                    == old(self)@.entry(t),
    {
        proof {
            lemma_records_of(&self.vault_entries);
            lemma_put_named(
                records_of(&self.vault_entries),
                Named { name: entry_title@, value: vault_entry@ },
            );
        }
        let ghost before = records_of(&self.vault_entries);
        self.vault_entries.insert(entry_title, vault_entry);
        assert(records_of(&self.vault_entries) =~= put_named(
            before,
            Named { name: entry_title@, value: vault_entry@ },
        ));
    }

    /// The bytes of the vault for the disk, with the entries encrypted under
    /// a given nonce. A nonce must never serve twice under one key: callers
    /// other than tests use [`Vault::write`], which draws a fresh one.
    pub fn write_with_nonce(&self, nonce: &[u8; 12]) -> (r: Result<Vec<u8>, EncryptionError>)
        requires
            self.wf(),
        ensures
            r matches Ok(bytes) ==> written(self@, nonce@) == Ok::<Seq<u8>, EncryptionError>(bytes@),
            r matches Ok(bytes) ==> sealed_in(bytes@, self@),
            r matches Ok(bytes) ==> holds_vault(bytes@, self@),
            r matches Err(e) ==> written(self@, nonce@) == Err::<Seq<u8>, EncryptionError>(e),
    {
        let mut bytes: Vec<u8> = Vec::new();
        self.header.encode(&mut bytes);
        let entries_bytes = encode_entries(&self.vault_entries);
        let sealed = match encrypt_with_nonce(
            entries_bytes.as_slice(),
            self.internal_key.as_slice(),
            nonce,
        ) {
            Ok(sealed) => sealed,
            Err(e) => return Err(e),
        };
        put_raw(&mut bytes, nonce.as_slice());
        put_raw(&mut bytes, sealed.as_slice());
        proof {
            self.lemma_wf();
            assert(bytes@ =~= vault_file_bytes(self@.header, nonce@, sealed@));
            lemma_written_vault_unlocks(self@, nonce@, sealed@);
        }
        Ok(bytes)
    }

    /// The bytes of the vault for the disk, with the entries encrypted under
    /// a fresh nonce. Fails only where the entries are too long to be
    /// encrypted.
    pub fn write(&self) -> (r: Result<Vec<u8>, EncryptionError>)
        requires
            self.wf(),
        ensures
            r is Ok <==> entries_bytes(self@.entries).len() <= MAX_PLAINTEXT,
            r matches Ok(bytes) ==> is_written(bytes@, self@),
            r matches Ok(bytes) ==> sealed_in(bytes@, self@),
            r matches Ok(bytes) ==> holds_vault(bytes@, self@),
            r matches Err(e) ==> e == EncryptionError::Aes,
    {
        proof {
            self.lemma_wf();
        }
        let nonce = random_nonce();
        let r = self.write_with_nonce(&nonce);
        assert(r is Ok ==> written(self@, nonce@) is Ok);
        r
    }

    /// Unlocks a vault from the parts of its file with its internal key.
    fn unlock(
        header: VaultHeader,
        nonce: &[u8; 12],
        sealed: &[u8],
        path: &str,
        internal_key: [u8; 32],
    ) -> (r: Result<Vault, VaultError>)
        requires
            header@.wf(),
        ensures
            r matches Ok(v) ==> v.wf() && unlocked(
                header@,
                nonce@,
                sealed@,
                path@,
                internal_key@,
            ) == Ok::<VaultView, VaultError>(v@),
            r matches Err(e) ==> unlocked(header@, nonce@, sealed@, path@, internal_key@) == Err::<
                VaultView,
                VaultError,
            >(e),
    {
        let plaintext = match decrypt_ciphertext(sealed, internal_key.as_slice(), nonce) {
            Ok(plaintext) => plaintext,
            Err(e) => return Err(VaultError::from(e)),
        };
        let vault_entries = match decode_entries(plaintext.as_slice()) {
            Ok(entries) => entries,
            Err(e) => return Err(e),
        };
        Ok(Vault { header, internal_key, path: path.to_string(), vault_entries })
    }

    /// Splits the bytes of a file into the header, the nonce of the entries
    /// and the position at which the encrypted entries start.
    fn split(bytes: &[u8]) -> (r: Option<(VaultHeader, [u8; 12], usize)>)
        ensures
            r is Some <==> parse_vault_file(bytes@) is Some,
            r matches Some((header, nonce, start)) ==> start <= bytes@.len() && header@.wf()
                && parse_vault_file(bytes@) == Some(
                (header@, nonce@, bytes@.skip(start as int)),
            ),
    {
        assert(bytes@.skip(0) =~= bytes@);
        let (header, pos) = match VaultHeader::decode(bytes, 0) {
            Some(p) => p,
            None => return None,
        };
        let (nonce, start) = match take_array::<12>(bytes, pos) {
            Some(p) => p,
            None => return None,
        };
        proof {
            lemma_parse_header_reads(bytes@);
        }
        Some((header, nonce, start))
    }

    /// Opens a vault from the bytes of its file with the master password.
    /// Fails with `Format` where the bytes are not laid out as a vault,
    /// before anything is decrypted; with `Authentication` where the
    /// password is wrong or the file was altered.
    pub fn read(path: &str, bytes: &[u8], master_password: &str) -> (r: Result<Vault, VaultError>)
        ensures
            r matches Ok(v) ==> v.wf() && opened_by_password(
                bytes@,
                path@,
                vstd::utf8::encode_utf8(master_password@),
            ) == Ok::<VaultView, VaultError>(v@),
            r matches Err(e) ==> opened_by_password(
                bytes@,
                path@,
                vstd::utf8::encode_utf8(master_password@),
            ) == Err::<VaultView, VaultError>(e),
    {
        let (header, nonce, start) = match Vault::split(bytes) {
            Some(p) => p,
            None => return Err(VaultError::Format),
        };
        let internal_key = match header.unwrap_with_password(master_password) {
            Ok(key) => key,
            Err(e) => return Err(e),
        };
        let sealed = copy_range(bytes, start, bytes.len());
        assert(sealed@ =~= bytes@.skip(start as int));
        Vault::unlock(header, &nonce, sealed.as_slice(), path, internal_key)
    }

    /// Opens a vault from the bytes of its file with the recovery key. Fails
    /// as [`Vault::read`] does.
    pub fn read_with_recovery_key(path: &str, bytes: &[u8], recovery_key: &[u8; 32]) -> (r: Result<
        Vault,
        VaultError,
    >)
        ensures
            r matches Ok(v) ==> v.wf() && opened_by_recovery_key(bytes@, path@, recovery_key@)
                == Ok::<VaultView, VaultError>(v@),
            r matches Err(e) ==> opened_by_recovery_key(bytes@, path@, recovery_key@) == Err::<
                VaultView,
                VaultError,
            >(e),
    {
        let (header, nonce, start) = match Vault::split(bytes) {
            Some(p) => p,
            None => return Err(VaultError::Format),
        };
        let internal_key = match header.unwrap_with_recovery_key(recovery_key) {
            Ok(key) => key,
            Err(e) => return Err(e),
        };
        let sealed = copy_range(bytes, start, bytes.len());
        assert(sealed@ =~= bytes@.skip(start as int));
        Vault::unlock(header, &nonce, sealed.as_slice(), path, internal_key)
    }
}

} // verus!
