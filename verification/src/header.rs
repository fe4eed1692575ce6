//! The header of a vault and its byte encoding.
//!
//! The header holds, in this order: the signature byte, the salt of the
//! master password, the nonce under which the internal key is wrapped for the
//! master password, the nonce under which it is wrapped for the recovery key,
//! and the two wrapped copies of the internal key, each framed.

use vstd::prelude::*;

use crate::crypto::{
    decrypt_ciphertext_of_size, derive_key_with_salt, derived_key, seals, sized_decryption_of,
    KEY_SIZE, NONCE_SIZE, SALT_SIZE,
};
use crate::error::{EncryptionError, VaultError};
use crate::wire::{
    framed, lemma_parse_fixed_reads, lemma_parse_fixed_written, lemma_parse_frame_reads,
    lemma_parse_frame_written, parse_fixed, parse_frame, put_frame, put_raw, take_array,
    take_frame,
};

verus! {

/// The byte that marks a vault.
pub const SIGNATURE: u8 = 0xED;

/// The header of a vault.
#[derive(Debug)]
pub struct VaultHeader {
    signature: [u8; 1],
    salt: [u8; 16],
    master_password_nonce: [u8; 12],
    recovery_key_nonce: [u8; 12],
    master_password_key: Vec<u8>,
    recovery_key: Vec<u8>,
}

/// What a header holds.
pub struct HeaderView {
    pub signature: u8,
    pub salt: Seq<u8>,
    pub master_password_nonce: Seq<u8>,
    pub recovery_key_nonce: Seq<u8>,
    pub master_password_key: Seq<u8>,
    pub recovery_key: Seq<u8>,
}

impl HeaderView {
    /// The header is marked as a vault's, its salt and nonces have their
    /// sizes, and its wrapped keys fit their frames.
    pub open spec fn wf(self) -> bool {
        &&& self.signature == SIGNATURE
        &&& self.salt.len() == SALT_SIZE
        &&& self.master_password_nonce.len() == NONCE_SIZE
        &&& self.recovery_key_nonce.len() == NONCE_SIZE
        &&& self.master_password_key.len() <= u64::MAX
        &&& self.recovery_key.len() <= u64::MAX
    }

    /// The internal key that the master password unwraps, or the failure to
    /// unwrap it.
    pub open spec fn unwrapped_by_password(self, password: Seq<u8>) -> Result<
        Seq<u8>,
        EncryptionError,
    > {
        sized_decryption_of(
            self.master_password_key,
            derived_key(password, self.salt),
            self.master_password_nonce,
            KEY_SIZE as nat,
        )
    }

    /// The internal key that the recovery key unwraps, or the failure to
    /// unwrap it.
    pub open spec fn unwrapped_by_recovery_key(self, recovery_key: Seq<u8>) -> Result<
        Seq<u8>,
        EncryptionError,
    > {
        sized_decryption_of(
            self.recovery_key,
            recovery_key,
            self.recovery_key_nonce,
            KEY_SIZE as nat,
        )
    }
}

/// A header in which one internal key is wrapped both for a master password
/// and for a recovery key gives that same key to either of them.
pub proof fn lemma_dual_unlock(
    h: HeaderView,
    password: Seq<u8>,
    recovery_key: Seq<u8>,
    internal_key: Seq<u8>,
)
    requires
        internal_key.len() == KEY_SIZE,
        seals(
            h.master_password_key,
            internal_key,
            derived_key(password, h.salt),
            h.master_password_nonce,
        ),
        seals(h.recovery_key, internal_key, recovery_key, h.recovery_key_nonce),
    ensures
        h.unwrapped_by_password(password) == Ok::<Seq<u8>, EncryptionError>(internal_key),
        h.unwrapped_by_recovery_key(recovery_key) == Ok::<Seq<u8>, EncryptionError>(internal_key),
        h.unwrapped_by_password(password) == h.unwrapped_by_recovery_key(recovery_key),
{
}

impl View for VaultHeader {
    type V = HeaderView;

    closed spec fn view(&self) -> HeaderView {
        HeaderView {
            signature: self.signature@[0],
            salt: self.salt@,
            master_password_nonce: self.master_password_nonce@,
            recovery_key_nonce: self.recovery_key_nonce@,
            master_password_key: self.master_password_key@,
            recovery_key: self.recovery_key@,
        }
    }
}

/// The encoding of a header.
pub open spec fn header_bytes(h: HeaderView) -> Seq<u8> {
    seq![h.signature] + h.salt + h.master_password_nonce + h.recovery_key_nonce + framed(
        h.master_password_key,
    ) + framed(h.recovery_key)
}

/// Reads a header from the front of the input. A header that does not start
/// with the signature byte is not read.
pub open spec fn parse_header(input: Seq<u8>) -> Option<(HeaderView, Seq<u8>)> {
    match parse_fixed(input, 1) {
        None => None,
        Some((signature, after_signature)) => match parse_fixed(after_signature, SALT_SIZE as nat) {
            None => None,
            Some((salt, after_salt)) => match parse_fixed(after_salt, NONCE_SIZE as nat) {
                None => None,
                Some((master_password_nonce, after_first)) => match parse_fixed(
                    after_first,
                    NONCE_SIZE as nat,
                ) {
                    None => None,
                    Some((recovery_key_nonce, after_second)) => match parse_frame(after_second) {
                        None => None,
                        Some((master_password_key, after_key)) => match parse_frame(after_key) {
                            None => None,
                            Some((recovery_key, rest)) => if signature[0] == SIGNATURE {
                                Some(
                                    (
                                        HeaderView {
                                            signature: signature[0],
                                            salt,
                                            master_password_nonce,
                                            recovery_key_nonce,
                                            master_password_key,
                                            recovery_key,
                                        },
                                        rest,
                                    ),
                                )
                            } else {
                                None
                            },
                        },
                    },
                },
            },
        },
    }
}

/// A header that was written is read back, and what follows it is left.
pub proof fn lemma_parse_header_written(h: HeaderView, rest: Seq<u8>)
    requires
        h.wf(),
    ensures
        parse_header(header_bytes(h) + rest) == Some((h, rest)),
{
    let s = seq![h.signature];
    let f1 = framed(h.master_password_key);
    let f2 = framed(h.recovery_key);
    let t5 = f2 + rest;
    let t4 = f1 + t5;
    let t3 = h.recovery_key_nonce + t4;
    let t2 = h.master_password_nonce + t3;
    let t1 = h.salt + t2;
    assert(header_bytes(h) + rest =~= s + t1);
    lemma_parse_fixed_written(s, t1);
    lemma_parse_fixed_written(h.salt, t2);
    lemma_parse_fixed_written(h.master_password_nonce, t3);
    lemma_parse_fixed_written(h.recovery_key_nonce, t4);
    lemma_parse_frame_written(h.master_password_key, t5);
    lemma_parse_frame_written(h.recovery_key, rest);
}

/// What was read as a header stands written at the front of the input.
pub proof fn lemma_parse_header_reads(input: Seq<u8>)
    requires
        parse_header(input) is Some,
    ensures
        parse_header(input) matches Some((h, rest)) && input == header_bytes(h) + rest && h.wf(),
{
    lemma_parse_fixed_reads(input, 1);
    match parse_fixed(input, 1) {
        Some((s, t1)) => {
            lemma_parse_fixed_reads(t1, SALT_SIZE as nat);
            match parse_fixed(t1, SALT_SIZE as nat) {
                Some((salt, t2)) => {
                    lemma_parse_fixed_reads(t2, NONCE_SIZE as nat);
                    match parse_fixed(t2, NONCE_SIZE as nat) {
                        Some((n1, t3)) => {
                            lemma_parse_fixed_reads(t3, NONCE_SIZE as nat);
                            match parse_fixed(t3, NONCE_SIZE as nat) {
                                Some((n2, t4)) => {
                                    lemma_parse_frame_reads(t4);
                                    match parse_frame(t4) {
                                        Some((k1, t5)) => {
                                            lemma_parse_frame_reads(t5);
                                            match parse_frame(t5) {
                                                Some((k2, rest)) => {
                                                    assert(s =~= seq![s[0]]);
                                                    assert(input =~= seq![s[0]] + salt + n1 + n2
                                                        + framed(k1) + framed(k2) + rest);
                                                },
                                                None => {},
                                            }
                                        },
                                        None => {},
                                    }
                                },
                                None => {},
                            }
                        },
                        None => {},
                    }
                },
                None => {},
            }
        },
        None => {},
    }
}

impl VaultHeader {
    /// What a header of the given salt, nonces and wrapped keys holds.
    pub open spec fn spec_new(
        salt: Seq<u8>,
        master_password_nonce: Seq<u8>,
        recovery_key_nonce: Seq<u8>,
        master_password_key: Seq<u8>,
        recovery_key: Seq<u8>,
    ) -> HeaderView {
        HeaderView {
            signature: SIGNATURE,
            salt,
            master_password_nonce,
            recovery_key_nonce,
            master_password_key,
            recovery_key,
        }
    }

    /// A header of the given salt, nonces and wrapped keys, marked with the
    /// signature byte.
    pub fn new(
        salt: [u8; 16],
        master_password_nonce: [u8; 12],
        recovery_key_nonce: [u8; 12],
        master_password_key: Vec<u8>,
        recovery_key: Vec<u8>,
    ) -> (h: VaultHeader)
        ensures
            h@ == VaultHeader::spec_new(
                salt@,
                master_password_nonce@,
                recovery_key_nonce@,
                master_password_key@,
                recovery_key@,
            ),
            h@.wf(),
    {
        let _ = master_password_key.len();
        let _ = recovery_key.len();
        VaultHeader {
            signature: [SIGNATURE],
            salt,
            master_password_nonce,
            recovery_key_nonce,
            master_password_key,
            recovery_key,
        }
    }

    /// The salt under which the master password derives its key.
    pub fn salt(&self) -> (salt: &[u8; 16])
        ensures
            salt@ == self@.salt,
    {
        &self.salt
    }

    /// The nonce of the copy that is wrapped for the master password.
    pub fn master_password_nonce(&self) -> (nonce: &[u8; 12])
        ensures
            nonce@ == self@.master_password_nonce,
    {
        &self.master_password_nonce
    }

    /// The nonce of the copy that is wrapped for the recovery key.
    pub fn recovery_key_nonce(&self) -> (nonce: &[u8; 12])
        ensures
            nonce@ == self@.recovery_key_nonce,
    {
        &self.recovery_key_nonce
    }

    /// The internal key as wrapped for the master password.
    pub fn master_password_key(&self) -> (wrapped: &Vec<u8>)
        ensures
            wrapped@ == self@.master_password_key,
    {
        &self.master_password_key
    }

    /// The internal key as wrapped for the recovery key.
    pub fn recovery_key(&self) -> (wrapped: &Vec<u8>)
        ensures
            wrapped@ == self@.recovery_key,
    {
        &self.recovery_key
    }

    /// Appends the encoding of the header.
    pub fn encode(&self, out: &mut Vec<u8>)
        ensures
            final(out)@ == old(out)@ + header_bytes(self@),
    {
        let ghost before = out@;
        put_raw(out, self.signature.as_slice());
        put_raw(out, self.salt.as_slice());
        put_raw(out, self.master_password_nonce.as_slice());
        put_raw(out, self.recovery_key_nonce.as_slice());
        put_frame(out, self.master_password_key.as_slice());
        put_frame(out, self.recovery_key.as_slice());
        assert(self.signature@ =~= seq![self@.signature]);
        assert(out@ =~= before + header_bytes(self@));
    }

    /// Reads a header at a position of the input, and gives the position
    /// behind it.
    pub fn decode(bytes: &[u8], pos: usize) -> (r: Option<(VaultHeader, usize)>)
        requires
            pos <= bytes@.len(),
        ensures
            r is Some <==> parse_header(bytes@.skip(pos as int)) is Some,
            r matches Some((h, next)) ==> pos <= next <= bytes@.len() && parse_header(
                bytes@.skip(pos as int),
            ) == Some((h@, bytes@.skip(next as int))),
    {
        let (signature, pos) = match take_array::<1>(bytes, pos) {
            Some(p) => p,
            None => return None,
        };
        let (salt, pos) = match take_array::<16>(bytes, pos) {
            Some(p) => p,
            None => return None,
        };
        let (master_password_nonce, pos) = match take_array::<12>(bytes, pos) {
            Some(p) => p,
            None => return None,
        };
        let (recovery_key_nonce, pos) = match take_array::<12>(bytes, pos) {
            Some(p) => p,
            None => return None,
        };
        let (master_password_key, pos) = match take_frame(bytes, pos) {
            Some(p) => p,
            None => return None,
        };
        let (recovery_key, pos) = match take_frame(bytes, pos) {
            Some(p) => p,
            None => return None,
        };
        if signature[0] != SIGNATURE {
            return None;
        }
        Some(
            (
                VaultHeader {
                    signature,
                    salt,
                    master_password_nonce,
                    recovery_key_nonce,
                    master_password_key,
                    recovery_key,
                },
                pos,
            ),
        )
    }

    /// Unwraps the internal key with the master password. Fails with
    /// `Authentication` where the password is wrong or the wrapped key was
    /// altered, and with `KeyLength` where what is unwrapped is no key.
    pub fn unwrap_with_password(&self, master_password: &str) -> (r: Result<[u8; 32], VaultError>)
        ensures
            r matches Ok(key) ==> self@.unwrapped_by_password(
                vstd::utf8::encode_utf8(master_password@),
            ) == Ok::<Seq<u8>, EncryptionError>(key@),
            r matches Err(e) ==> (self@.unwrapped_by_password(
                vstd::utf8::encode_utf8(master_password@),
            ) matches Err(inner) && e == VaultError::of_encryption(inner)),
    {
        let key = derive_key_with_salt(master_password.as_bytes(), &self.salt);
        match decrypt_ciphertext_of_size::<32>(
            self.master_password_key.as_slice(),
            key.as_slice(),
            &self.master_password_nonce,
        ) {
            Ok(internal) => Ok(internal),
            Err(e) => Err(VaultError::from(e)),
        }
    }

    /// Unwraps the internal key with the recovery key. Fails with
    /// `Authentication` where the key is wrong or the wrapped key was
    /// altered, and with `KeyLength` where what is unwrapped is no key.
    pub fn unwrap_with_recovery_key(&self, recovery_key: &[u8; 32]) -> (r: Result<
        [u8; 32],
        VaultError,
    >)
        ensures
            r matches Ok(key) ==> self@.unwrapped_by_recovery_key(recovery_key@) == Ok::<
                Seq<u8>,
                EncryptionError,
            >(key@),
            r matches Err(e) ==> (self@.unwrapped_by_recovery_key(recovery_key@) matches Err(inner)
                && e == VaultError::of_encryption(inner)),
    {
        match decrypt_ciphertext_of_size::<32>(
            self.recovery_key.as_slice(),
            recovery_key.as_slice(),
            &self.recovery_key_nonce,
        ) {
            Ok(internal) => Ok(internal),
            Err(e) => Err(VaultError::from(e)),
        }
    }
}

} // verus!
