//! Text that is kept obfuscated while it lies in memory.

use vstd::prelude::*;
use vstd::utf8::{
    decode_utf8, encode_utf8, encode_utf8_decode_utf8, encode_utf8_valid_utf8, valid_utf8,
};

use crate::wire::string_from_utf8;

verus! {

/// Bytes kept as their exclusive-or with a random key of the same length.
pub struct SecureString {
    str_bytes: Vec<u8>,
    key: Vec<u8>,
}

/// The exclusive-or of two byte strings, as long as the shorter of them.
pub open spec fn xor_bytes(bytes: Seq<u8>, key: Seq<u8>) -> Seq<u8> {
    Seq::new(
        if bytes.len() <= key.len() {
            bytes.len()
        } else {
            key.len()
        },
        |i: int| bytes[i] ^ key[i],
    )
}

/// Applying a key twice gives the bytes back, where the key is long enough.
pub proof fn lemma_xor_twice(bytes: Seq<u8>, key: Seq<u8>)
    requires
        bytes.len() <= key.len(),
    ensures
        xor_bytes(xor_bytes(bytes, key), key) == bytes,
{
    assert forall|i: int| 0 <= i < bytes.len() implies (bytes[i] ^ key[i]) ^ key[i] == bytes[i] by {
        let b = bytes[i];
        let k = key[i];
        assert((b ^ k) ^ k == b) by (bit_vector);
    }
    assert(xor_bytes(xor_bytes(bytes, key), key) =~= bytes);
}

/// Draws a byte with `rand::random`. Nothing is promised of it.
#[verifier::external_body]
fn random_byte() -> u8 {
    rand::random::<u8>()
}

impl SecureString {
    /// The bytes that are kept.
    pub closed spec fn plain(&self) -> Seq<u8> {
        xor_bytes(self.str_bytes@, self.key@)
    }

    /// The bytes as they lie in memory: obfuscated, and as many as are kept.
    pub closed spec fn spec_obfuscated(&self) -> Seq<u8> {
        self.str_bytes@
    }

    /// The key under which the bytes lie obfuscated.
    pub closed spec fn spec_key(&self) -> Seq<u8> {
        self.key@
    }

    /// The bytes that are kept are the exclusive-or of the bytes in memory
    /// with the key.
    pub proof fn lemma_plain(&self)
        ensures
            self.plain() == xor_bytes(self.spec_obfuscated(), self.spec_key()),
    {
    }

    /// The bytes as they lie in memory.
    pub fn obfuscated(&self) -> (bytes: &[u8])
        ensures
            bytes@ == self.spec_obfuscated(),
    {
        self.str_bytes.as_slice()
    }

    /// The text that is kept. The bytes that are kept must be UTF-8.
    pub fn deobfuscate(&self) -> (text: String)
        requires
            valid_utf8(self.plain()),
        ensures
            text@ == decode_utf8(self.plain()),
    {
        let key = self.key.clone();
        let bytes = SecureString::xor_cihper(self.str_bytes.clone(), key.as_slice());
        match string_from_utf8(bytes) {
            Some(text) => text,
            None => vstd::pervasive::unreached(),
        }
    }

    /// A random key of a given length.
    fn generate_key(length: usize) -> (key: Vec<u8>)
        ensures
            key@.len() == length,
    {
        let mut key: Vec<u8> = Vec::new();
        let mut i: usize = 0;
        while i < length
            invariant
                i <= length,
                key@.len() == i,
            decreases length - i,
        {
            key.push(random_byte());
            i += 1;
        }
        key
    }

    /// The exclusive-or of bytes with a key, as long as the shorter of them.
    pub fn xor_cihper(bytes: Vec<u8>, key: &[u8]) -> (r: Vec<u8>)
        ensures
            r@ == xor_bytes(bytes@, key@),
    {
        let n = if bytes.len() <= key.len() {
            bytes.len()
        } else {
            key.len()
        };
        let mut r: Vec<u8> = Vec::new();
        let mut i: usize = 0;
        while i < n
            invariant
                i <= n,
                n <= bytes@.len(),
                n <= key@.len(),
                r@.len() == i,
                forall|j: int| 0 <= j < i ==> r@[j] == bytes@[j] ^ key@[j],
            decreases n - i,
        {
            r.push(bytes[i] ^ key[i]);
            i += 1;
        }
        assert(r@ =~= xor_bytes(bytes@, key@));
        r
    }

    /// Keeps bytes, obfuscated under a fresh random key.
    pub fn from_bytes(value: Vec<u8>) -> (s: SecureString)
        ensures
            s.plain() == value@,
            s.spec_key().len() == value@.len(),
            s.spec_obfuscated() == xor_bytes(value@, s.spec_key()),
            s.spec_obfuscated().len() == value@.len(),
    {
        let key = SecureString::generate_key(value.len());
        let ghost bytes = value@;
        let str_bytes = SecureString::xor_cihper(value, key.as_slice());
        proof {
            lemma_xor_twice(bytes, key@);
        }
        SecureString { str_bytes, key }
    }

    /// Keeps a text, obfuscated under a fresh random key; `deobfuscate` gives
    /// the text back.
    pub fn from_string(value: String) -> (s: SecureString)
        ensures
            s.plain() == encode_utf8(value@),
            valid_utf8(s.plain()),
            decode_utf8(s.plain()) == value@,
            s.spec_key().len() == encode_utf8(value@).len(),
            s.spec_obfuscated() == xor_bytes(encode_utf8(value@), s.spec_key()),
    {
        proof {
            encode_utf8_valid_utf8(value@);
            encode_utf8_decode_utf8(value@);
        }
        let bytes = vstd::slice::slice_to_vec(value.as_str().as_bytes());
        SecureString::from_bytes(bytes)
    }

    /// What stands for the text wherever it is shown.
    pub fn masked(&self) -> (text: String)
        ensures
            text@ == "**SECURESTRING**"@,
    {
        "**SECURESTRING**".to_string()
    }
}

impl From<Vec<u8>> for SecureString {
    /// Keeps bytes, obfuscated under a fresh random key of their length.
    fn from(value: Vec<u8>) -> (s: SecureString)
        ensures
            s.plain() == value@,
            s.spec_key().len() == value@.len(),
            s.spec_obfuscated() == xor_bytes(value@, s.spec_key()),
    {
        SecureString::from_bytes(value)
    }
}

impl vstd::std_specs::convert::FromSpecImpl<Vec<u8>> for SecureString {
    open spec fn obeys_from_spec() -> bool {
        false
    }

    open spec fn from_spec(value: Vec<u8>) -> SecureString {
        arbitrary()
    }
}

impl<const N: usize> From<&[u8; N]> for SecureString {
    /// Keeps bytes, obfuscated under a fresh random key of their length.
    fn from(value: &[u8; N]) -> (s: SecureString)
        ensures
            s.plain() == value@,
            s.spec_key().len() == N,
            s.spec_obfuscated() == xor_bytes(value@, s.spec_key()),
    {
        SecureString::from_bytes(vstd::slice::slice_to_vec(value.as_slice()))
    }
}

impl<const N: usize> vstd::std_specs::convert::FromSpecImpl<&[u8; N]> for SecureString {
    open spec fn obeys_from_spec() -> bool {
        false
    }

    open spec fn from_spec(value: &[u8; N]) -> SecureString {
        arbitrary()
    }
}

impl From<String> for SecureString {
    /// Keeps a text, obfuscated under a fresh random key as long as its
    /// UTF-8 bytes; `deobfuscate` gives the text back.
    fn from(value: String) -> (s: SecureString)
        ensures
            s.plain() == encode_utf8(value@),
            valid_utf8(s.plain()),
            decode_utf8(s.plain()) == value@,
            s.spec_key().len() == encode_utf8(value@).len(),
            s.spec_obfuscated() == xor_bytes(encode_utf8(value@), s.spec_key()),
    {
        SecureString::from_string(value)
    }
}

impl vstd::std_specs::convert::FromSpecImpl<String> for SecureString {
    open spec fn obeys_from_spec() -> bool {
        false
    }

    open spec fn from_spec(value: String) -> SecureString {
        arbitrary()
    }
}

} // verus!
