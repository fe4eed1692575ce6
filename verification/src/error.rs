//! The failures that the vault engine reports.

use sha2::digest::crypto_common::InvalidLength;
use vstd::prelude::*;

verus! {

/// The error of `aes_gcm`'s encryption and decryption. It carries no data.
#[verifier::external_type_specification]
#[verifier::external_body]
pub struct ExAeadError(aes_gcm::Error);

/// The error of a cipher that is given a key of the wrong length. It carries
/// no data.
#[verifier::external_type_specification]
#[verifier::external_body]
pub struct ExInvalidLength(InvalidLength);

/// A failure of the authenticated encryption codec.
#[derive(Clone, Copy, Debug, PartialEq, Eq, Structural)]
pub enum EncryptionError {
    /// The key does not have exactly 32 bytes.
    InvalidLength,
    /// The authentication tag does not verify: the key or the nonce is wrong,
    /// or the ciphertext was altered. Also reported for a message that is too
    /// long to be encrypted.
    Aes,
}

impl EncryptionError {
    /// The text that describes this failure to a user.
    pub open spec fn message_text(self) -> Seq<char> {
        match self {
            EncryptionError::InvalidLength => "EncryptionError: Invalid Length"@,
            EncryptionError::Aes => "EncryptionError: aead::Error"@,
        }
    }

    /// Describes this failure in words.
    pub fn message(&self) -> (text: String)
        ensures
            text@ == self.message_text(),
    {
        match self {
            EncryptionError::InvalidLength => "EncryptionError: Invalid Length".to_string(),
            EncryptionError::Aes => "EncryptionError: aead::Error".to_string(),
        }
    }
}

impl From<InvalidLength> for EncryptionError {
    fn from(value: InvalidLength) -> (r: EncryptionError) {
        EncryptionError::InvalidLength
    }
}

impl vstd::std_specs::convert::FromSpecImpl<InvalidLength> for EncryptionError {
    open spec fn obeys_from_spec() -> bool {
        true
    }

    open spec fn from_spec(value: InvalidLength) -> EncryptionError {
        EncryptionError::InvalidLength
    }
}

impl From<aes_gcm::Error> for EncryptionError {
    fn from(value: aes_gcm::Error) -> (r: EncryptionError) {
        EncryptionError::Aes
    }
}

impl vstd::std_specs::convert::FromSpecImpl<aes_gcm::Error> for EncryptionError {
    open spec fn obeys_from_spec() -> bool {
        true
    }

    open spec fn from_spec(value: aes_gcm::Error) -> EncryptionError {
        EncryptionError::Aes
    }
}

/// A failure to open or to decode a vault.
#[derive(Clone, Copy, Debug, PartialEq, Eq, Structural)]
pub enum VaultError {
    /// The bytes are not a vault: a field is cut short, a length does not fit
    /// what follows it, or a text is not UTF-8.
    Format,
    /// A key does not have exactly 32 bytes.
    KeyLength,
    /// The vault cannot be unlocked: the password is wrong or the vault was
    /// altered.
    Authentication,
}

impl VaultError {
    /// The vault failure that stands for a failure of the codec.
    pub open spec fn of_encryption(e: EncryptionError) -> VaultError {
        match e {
            EncryptionError::InvalidLength => VaultError::KeyLength,
            EncryptionError::Aes => VaultError::Authentication,
        }
    }
}

impl From<EncryptionError> for VaultError {
    fn from(e: EncryptionError) -> (r: VaultError) {
        match e {
            EncryptionError::InvalidLength => VaultError::KeyLength,
            EncryptionError::Aes => VaultError::Authentication,
        }
    }
}

impl vstd::std_specs::convert::FromSpecImpl<EncryptionError> for VaultError {
    open spec fn obeys_from_spec() -> bool {
        true
    }

    open spec fn from_spec(e: EncryptionError) -> VaultError {
        VaultError::of_encryption(e)
    }
}

} // verus!
