//! Random passwords, as they serve for key material.

use vstd::prelude::*;
use vstd::utf8::{
    decode_utf8_encode_utf8, encode_utf8, partial_valid_utf8, partial_valid_utf8_extend_ascii_block,
};

use crate::crypto::{random_in_range, shuffle_bytes};
use crate::wire::string_from_utf8;

verus! {

/// A lowercase letter, `a` to `z`.
pub open spec fn is_lowercase(b: u8) -> bool {
    0x61 <= b <= 0x7a
}

/// An uppercase letter that passwords are made of: `A` to `Z` but for `U`.
pub open spec fn is_uppercase(b: u8) -> bool {
    0x41 <= b <= 0x5a && b != 0x55
}

/// A digit, `0` to `9`.
pub open spec fn is_digit(b: u8) -> bool {
    0x30 <= b <= 0x39
}

/// One of the special characters `!@#$%^&*`.
pub open spec fn is_special(b: u8) -> bool {
    b == 0x21 || b == 0x40 || b == 0x23 || b == 0x24 || b == 0x25 || b == 0x5e || b == 0x26 || b
        == 0x2a
}

/// A character that passwords are made of.
pub open spec fn is_password_byte(b: u8) -> bool {
    is_lowercase(b) || is_uppercase(b) || is_digit(b) || is_special(b)
}

/// Whether bytes are a password of a given size: made of letters, digits
/// and special characters, with at least one lowercase letter, one uppercase
/// letter, one digit and one special character.
pub open spec fn is_password(bytes: Seq<u8>, size: nat) -> bool {
    &&& bytes.len() == size
    &&& forall|i: int| 0 <= i < bytes.len() ==> is_password_byte(#[trigger] bytes[i])
    &&& exists|i: int| 0 <= i < bytes.len() && is_lowercase(#[trigger] bytes[i])
    &&& exists|i: int| 0 <= i < bytes.len() && is_uppercase(#[trigger] bytes[i])
    &&& exists|i: int| 0 <= i < bytes.len() && is_digit(#[trigger] bytes[i])
    &&& exists|i: int| 0 <= i < bytes.len() && is_special(#[trigger] bytes[i])
}

/// Appends a number of bytes, each drawn at random from an alphabet.
fn push_random(out: &mut Vec<u8>, alphabet: &[u8], count: usize)
    requires
        alphabet@.len() > 0,
    ensures
        final(out)@.len() == old(out)@.len() + count,
        forall|i: int| 0 <= i < old(out)@.len() ==> #[trigger] final(out)@[i] == old(out)@[i],
        forall|i: int|
            old(out)@.len() <= i < final(out)@.len() ==> alphabet@.contains(
                #[trigger] final(out)@[i],
            ),
{
    let ghost before = out@;
    let mut k: usize = 0;
    while k < count
        invariant
            k <= count,
            alphabet@.len() > 0,
            out@.len() == before.len() + k,
            forall|i: int| 0 <= i < before.len() ==> #[trigger] out@[i] == before[i],
            forall|i: int| before.len() <= i < out@.len() ==> alphabet@.contains(#[trigger] out@[i]),
        decreases count - k,
    {
        let at = random_in_range(0, alphabet.len());
        out.push(alphabet[at]);
        k += 1;
    }
}

/// Generates a random password of a given size, which must be at least 5.
/// The password has at least one lowercase letter, one uppercase letter, one
/// digit and one special character: how many of each is drawn at random,
/// then the characters, and at last their order.
pub fn generate_password(password_size: usize) -> (password: String)
    requires
        password_size >= 5,
    ensures
        is_password(encode_utf8(password@), password_size as nat),
{
    let lowercase_chars: [u8; 26] = [
        0x61, 0x62, 0x63, 0x64, 0x65, 0x66, 0x67, 0x68, 0x69, 0x6a, 0x6b, 0x6c, 0x6d,
        0x6e, 0x6f, 0x70, 0x71, 0x72, 0x73, 0x74, 0x75, 0x76, 0x77, 0x78, 0x79, 0x7a,
    ];
    let uppercase_chars: [u8; 26] = [
        0x41, 0x42, 0x43, 0x44, 0x45, 0x46, 0x47, 0x48, 0x49, 0x4a, 0x4b, 0x4c, 0x4d,
        0x4e, 0x4f, 0x50, 0x51, 0x52, 0x53, 0x54, 0x59, 0x56, 0x57, 0x58, 0x59, 0x5a,
    ];
    let special_chars: [u8; 8] = [0x21, 0x40, 0x23, 0x24, 0x25, 0x5e, 0x26, 0x2a];
    let digits: [u8; 11] = [0x30, 0x31, 0x32, 0x33, 0x34, 0x35, 0x36, 0x37, 0x38, 0x39, 0x30];
    assert(forall|b: u8| lowercase_chars@.contains(b) ==> is_lowercase(b));
    assert(forall|b: u8| uppercase_chars@.contains(b) ==> is_uppercase(b));
    assert(forall|b: u8| special_chars@.contains(b) ==> is_special(b));
    assert(forall|b: u8| digits@.contains(b) ==> is_digit(b));

    let num_lowercase = random_in_range(1, password_size - 3);
    let num_uppercase = random_in_range(1, password_size - num_lowercase - 2);
    let num_digits = random_in_range(1, password_size - num_lowercase - num_uppercase - 1);
    let num_special = password_size - (num_lowercase + num_uppercase + num_digits);

    let mut bytes: Vec<u8> = Vec::with_capacity(password_size);
    push_random(&mut bytes, lowercase_chars.as_slice(), num_lowercase);
    let ghost first = bytes@;
    push_random(&mut bytes, uppercase_chars.as_slice(), num_uppercase);
    let ghost second = bytes@;
    push_random(&mut bytes, digits.as_slice(), num_digits);
    let ghost third = bytes@;
    push_random(&mut bytes, special_chars.as_slice(), num_special);
    let ghost drawn = bytes@;
    proof {
        assert forall|i: int| 0 <= i < drawn.len() implies is_password_byte(
            #[trigger] drawn[i],
        ) by {
            if i < first.len() {
                assert(drawn[i] == third[i] && third[i] == second[i] && second[i] == first[i]);
                assert(lowercase_chars@.contains(first[i]));
            } else if i < second.len() {
                assert(drawn[i] == third[i] && third[i] == second[i]);
                assert(uppercase_chars@.contains(second[i]));
            } else if i < third.len() {
                assert(drawn[i] == third[i]);
                assert(digits@.contains(third[i]));
            } else {
                assert(special_chars@.contains(drawn[i]));
            }
        }
        let a = 0int;
        let b = num_lowercase as int;
        let c = num_lowercase + num_uppercase;
        let d = num_lowercase + num_uppercase + num_digits;
        assert(drawn[a] == third[a] && third[a] == second[a] && second[a] == first[a]);
        assert(lowercase_chars@.contains(first[a]));
        assert(is_lowercase(drawn[a]));
        assert(drawn[b] == third[b] && third[b] == second[b]);
        assert(uppercase_chars@.contains(second[b]));
        assert(is_uppercase(drawn[b]));
        assert(drawn[c] == third[c]);
        assert(digits@.contains(third[c]));
        assert(is_digit(drawn[c]));
        assert(special_chars@.contains(drawn[d]));
        assert(is_special(drawn[d]));
        assert(is_password(drawn, password_size as nat));
    }
    shuffle_bytes(&mut bytes);
    proof {
        lemma_shuffled_password(drawn, bytes@, password_size as nat);
        assert(forall|i: int|
            0 <= i < bytes@.len() ==> vstd::utf8::is_leading_byte_width_1(#[trigger] bytes@[i]));
        assert(bytes@.subrange(0, 0) =~= Seq::<u8>::empty());
        assert(partial_valid_utf8(bytes@, 0));
        partial_valid_utf8_extend_ascii_block(bytes@, 0, bytes@.len() as int);
        assert(bytes@.subrange(0, bytes@.len() as int) =~= bytes@);
        decode_utf8_encode_utf8(bytes@);
    }
    match string_from_utf8(bytes) {
        Some(password) => password,
        None => vstd::pervasive::unreached(),
    }
}

/// A password whose bytes are put in another order is still a password.
pub proof fn lemma_shuffled_password(drawn: Seq<u8>, shuffled: Seq<u8>, size: nat)
    requires
        is_password(drawn, size),
        shuffled.to_multiset() == drawn.to_multiset(),
    ensures
        is_password(shuffled, size),
{
    assert forall|i: int| 0 <= i < shuffled.len() implies is_password_byte(
        #[trigger] shuffled[i],
    ) by {
        lemma_same_members(shuffled, drawn, i);
    }
    assert(shuffled.len() == drawn.len()) by {
        drawn.to_multiset_ensures();
        shuffled.to_multiset_ensures();
    }
    let a = choose|i: int| 0 <= i < drawn.len() && is_lowercase(#[trigger] drawn[i]);
    let b = choose|i: int| 0 <= i < drawn.len() && is_uppercase(#[trigger] drawn[i]);
    let c = choose|i: int| 0 <= i < drawn.len() && is_digit(#[trigger] drawn[i]);
    let d = choose|i: int| 0 <= i < drawn.len() && is_special(#[trigger] drawn[i]);
    lemma_same_members(drawn, shuffled, a);
    lemma_same_members(drawn, shuffled, b);
    lemma_same_members(drawn, shuffled, c);
    lemma_same_members(drawn, shuffled, d);
    let a2 = shuffled.index_of(drawn[a]);
    let b2 = shuffled.index_of(drawn[b]);
    let c2 = shuffled.index_of(drawn[c]);
    let d2 = shuffled.index_of(drawn[d]);
    assert(is_lowercase(shuffled[a2]));
    assert(is_uppercase(shuffled[b2]));
    assert(is_digit(shuffled[c2]));
    assert(is_special(shuffled[d2]));
}

/// A byte of one sequence occurs in every sequence that holds the same bytes
/// as often.
proof fn lemma_same_members(s: Seq<u8>, t: Seq<u8>, i: int)
    requires
        0 <= i < s.len(),
        s.to_multiset() == t.to_multiset(),
    ensures
        t.contains(s[i]),
{
    s.to_multiset_ensures();
    t.to_multiset_ensures();
    assert(s.contains(s[i]));
    assert(s.to_multiset().count(s[i]) > 0);
    assert(t.to_multiset().count(s[i]) > 0);
}

} // verus!
