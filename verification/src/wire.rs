//! The byte encoding of integers, byte strings and texts.
//!
//! An integer is written as eight bytes, least significant first. A byte
//! string of variable length is framed: its length as such an integer, then
//! its bytes. A text is the frame of its UTF-8 bytes. Every encoding is read
//! back from the front of what is left of the input.

use vstd::bytes::{
    lemma_auto_spec_u64_to_from_le_bytes, spec_u64_from_le_bytes, spec_u64_to_le_bytes,
    u64_from_le_bytes, u64_to_le_bytes,
};
use vstd::prelude::*;
use vstd::slice::slice_subrange;
use vstd::utf8::{
    decode_utf8, decode_utf8_encode_utf8, encode_utf8, encode_utf8_decode_utf8,
    encode_utf8_valid_utf8, valid_utf8,
};

verus! {

/// The frame of a byte string: its length in eight bytes, then the bytes.
pub open spec fn framed(payload: Seq<u8>) -> Seq<u8> {
    spec_u64_to_le_bytes(payload.len() as u64) + payload
}

/// The encoding of a text: the frame of its UTF-8 bytes.
pub open spec fn text_bytes(chars: Seq<char>) -> Seq<u8> {
    framed(encode_utf8(chars))
}

/// Reads a given number of bytes from the front of the input.
pub open spec fn parse_fixed(input: Seq<u8>, n: nat) -> Option<(Seq<u8>, Seq<u8>)> {
    if input.len() >= n {
        Some((input.take(n as int), input.skip(n as int)))
    } else {
        None
    }
}

/// Reads an integer from the front of the input.
pub open spec fn parse_u64(input: Seq<u8>) -> Option<(u64, Seq<u8>)> {
    if input.len() >= 8 {
        Some((spec_u64_from_le_bytes(input.take(8)), input.skip(8)))
    } else {
        None
    }
}

/// Reads a framed byte string from the front of the input.
pub open spec fn parse_frame(input: Seq<u8>) -> Option<(Seq<u8>, Seq<u8>)> {
    match parse_u64(input) {
        Some((n, rest)) => parse_fixed(rest, n as nat),
        None => None,
    }
}

/// Reads a text from the front of the input.
#[verifier::opaque]
pub open spec fn parse_text(input: Seq<u8>) -> Option<(Seq<char>, Seq<u8>)> {
    match parse_frame(input) {
        Some((payload, rest)) => if valid_utf8(payload) {
            Some((decode_utf8(payload), rest))
        } else {
            None
        },
        None => None,
    }
}

/// An integer that was written is read back, and what follows it is left.
pub proof fn lemma_parse_u64_written(n: u64, rest: Seq<u8>)
    ensures
        parse_u64(spec_u64_to_le_bytes(n) + rest) == Some((n, rest)),
{
    lemma_auto_spec_u64_to_from_le_bytes();
    let input = spec_u64_to_le_bytes(n) + rest;
    assert(input.take(8) =~= spec_u64_to_le_bytes(n));
    assert(input.skip(8) =~= rest);
}

/// What was read as an integer stands written at the front of the input.
pub proof fn lemma_parse_u64_reads(input: Seq<u8>)
    requires
        parse_u64(input) is Some,
    ensures
        parse_u64(input) matches Some((n, rest)) && input == spec_u64_to_le_bytes(n) + rest,
{
    lemma_auto_spec_u64_to_from_le_bytes();
    assert(input =~= input.take(8) + input.skip(8));
}

/// A frame that was written is read back, and what follows it is left.
pub proof fn lemma_parse_frame_written(payload: Seq<u8>, rest: Seq<u8>)
    requires
        payload.len() <= u64::MAX,
    ensures
        parse_frame(framed(payload) + rest) == Some((payload, rest)),
{
    let n = payload.len() as u64;
    lemma_parse_u64_written(n, payload + rest);
    assert(framed(payload) + rest =~= spec_u64_to_le_bytes(n) + (payload + rest));
    assert((payload + rest).take(n as int) =~= payload);
    assert((payload + rest).skip(n as int) =~= rest);
}

/// What was read as a frame stands written at the front of the input.
pub proof fn lemma_parse_frame_reads(input: Seq<u8>)
    requires
        parse_frame(input) is Some,
    ensures
        parse_frame(input) matches Some((payload, rest)) && input == framed(payload) + rest
            && payload.len() <= u64::MAX,
{
    lemma_parse_u64_reads(input);
    let (n, after) = parse_u64(input)->0;
    assert(after =~= after.take(n as int) + after.skip(n as int));
    assert(input =~= framed(after.take(n as int)) + after.skip(n as int));
}

/// A text that was written is read back, and what follows it is left.
pub proof fn lemma_parse_text_written(chars: Seq<char>, rest: Seq<u8>)
    requires
        encode_utf8(chars).len() <= u64::MAX,
    ensures
        parse_text(text_bytes(chars) + rest) == Some((chars, rest)),
{
    reveal(parse_text);
    lemma_parse_frame_written(encode_utf8(chars), rest);
    encode_utf8_valid_utf8(chars);
    encode_utf8_decode_utf8(chars);
}

/// What was read as a text stands written at the front of the input.
pub proof fn lemma_parse_text_reads(input: Seq<u8>)
    requires
        parse_text(input) is Some,
    ensures
        parse_text(input) matches Some((chars, rest)) && input == text_bytes(chars) + rest
            && encode_utf8(chars).len() <= u64::MAX,
{
    reveal(parse_text);
    lemma_parse_frame_reads(input);
    match parse_frame(input) {
        Some((payload, _)) => {
            decode_utf8_encode_utf8(payload);
        },
        None => {},
    }
}

/// Calls `String::from_utf8`. It succeeds exactly on valid UTF-8, and the
/// text then holds the characters that the bytes encode.
#[verifier::external_body]
pub(crate) fn string_from_utf8(bytes: Vec<u8>) -> (r: Option<String>)
    ensures
        r is Some <==> valid_utf8(bytes@),
        r matches Some(s) ==> s@ == decode_utf8(bytes@),
{
    String::from_utf8(bytes).ok()
}

/// Appends bytes as they are.
pub fn put_raw(out: &mut Vec<u8>, bytes: &[u8])
    ensures
        final(out)@ == old(out)@ + bytes@,
{
    let ghost before = out@;
    let mut i: usize = 0;
    while i < bytes.len()
        invariant
            i <= bytes@.len(),
            out@ == before + bytes@.take(i as int),
        decreases bytes@.len() - i,
    {
        out.push(bytes[i]);
        assert(bytes@.take(i + 1) =~= bytes@.take(i as int).push(bytes@[i as int]));
        i += 1;
    }
    assert(bytes@.take(i as int) =~= bytes@);
}

/// Appends an integer.
pub fn put_u64(out: &mut Vec<u8>, n: u64)
    ensures
        final(out)@ == old(out)@ + spec_u64_to_le_bytes(n),
{
    let b = u64_to_le_bytes(n);
    put_raw(out, b.as_slice());
}

/// Appends the frame of a byte string.
pub fn put_frame(out: &mut Vec<u8>, payload: &[u8])
    ensures
        final(out)@ == old(out)@ + framed(payload@),
{
    let ghost before = out@;
    put_u64(out, payload.len() as u64);
    put_raw(out, payload);
    assert(out@ =~= before + framed(payload@));
}

/// Appends a text.
pub fn put_text(out: &mut Vec<u8>, text: &str)
    ensures
        final(out)@ == old(out)@ + text_bytes(text@),
        encode_utf8(text@).len() <= usize::MAX,
{
    let bytes = text.as_bytes();
    let _ = bytes.len();
    put_frame(out, bytes);
}

/// Copies a range of the input.
pub fn copy_range(bytes: &[u8], from: usize, to: usize) -> (r: Vec<u8>)
    requires
        from <= to <= bytes@.len(),
    ensures
        r@ == bytes@.subrange(from as int, to as int),
{
    let mut r: Vec<u8> = Vec::new();
    let mut i: usize = from;
    while i < to
        invariant
            from <= i <= to <= bytes@.len(),
            r@ == bytes@.subrange(from as int, i as int),
        decreases to - i,
    {
        r.push(bytes[i]);
        assert(bytes@.subrange(from as int, i + 1) =~= bytes@.subrange(from as int, i as int).push(
            bytes@[i as int],
        ));
        i += 1;
    }
    r
}

/// Reads an integer at a position of the input, and gives the position
/// behind it.
pub fn take_u64(bytes: &[u8], pos: usize) -> (r: Option<(u64, usize)>)
    requires
        pos <= bytes@.len(),
    ensures
        r is Some <==> parse_u64(bytes@.skip(pos as int)) is Some,
        r matches Some((n, next)) ==> pos <= next <= bytes@.len() && parse_u64(
            bytes@.skip(pos as int),
        ) == Some((n, bytes@.skip(next as int))),
{
    if bytes.len() - pos < 8 {
        return None;
    }
    let n = u64_from_le_bytes(slice_subrange(bytes, pos, pos + 8));
    assert(bytes@.skip(pos as int).take(8) =~= bytes@.subrange(pos as int, pos + 8));
    assert(bytes@.skip(pos as int).skip(8) =~= bytes@.skip(pos + 8));
    Some((n, pos + 8))
}

/// Reads a framed byte string at a position of the input, and gives the
/// position behind it.
pub fn take_frame(bytes: &[u8], pos: usize) -> (r: Option<(Vec<u8>, usize)>)
    requires
        pos <= bytes@.len(),
    ensures
        r is Some <==> parse_frame(bytes@.skip(pos as int)) is Some,
        r matches Some((payload, next)) ==> pos <= next <= bytes@.len() && parse_frame(
            bytes@.skip(pos as int),
        ) == Some((payload@, bytes@.skip(next as int))),
{
    match take_u64(bytes, pos) {
        None => None,
        Some((n, start)) => {
            if n > (bytes.len() - start) as u64 {
                return None;
            }
            let end = start + n as usize;
            let payload = copy_range(bytes, start, end);
            assert(bytes@.skip(start as int).take(n as int) =~= bytes@.subrange(
                start as int,
                end as int,
            ));
            assert(bytes@.skip(start as int).skip(n as int) =~= bytes@.skip(end as int));
            Some((payload, end))
        },
    }
}

/// Reads a text at a position of the input, and gives the position behind
/// it.
pub fn take_text(bytes: &[u8], pos: usize) -> (r: Option<(String, usize)>)
    requires
        pos <= bytes@.len(),
    ensures
        r is Some <==> parse_text(bytes@.skip(pos as int)) is Some,
        r matches Some((text, next)) ==> pos <= next <= bytes@.len() && parse_text(
            bytes@.skip(pos as int),
        ) == Some((text@, bytes@.skip(next as int))),
{
    proof {
        reveal(parse_text);
    }
    match take_frame(bytes, pos) {
        None => None,
        Some((payload, next)) => match string_from_utf8(payload) {
            None => None,
            Some(text) => Some((text, next)),
        },
    }
}

/// Reads a fixed number of bytes at a position of the input, and gives the
/// position behind them.
pub fn take_array<const N: usize>(bytes: &[u8], pos: usize) -> (r: Option<([u8; N], usize)>)
    requires
        pos <= bytes@.len(),
    ensures
        r is Some <==> parse_fixed(bytes@.skip(pos as int), N as nat) is Some,
        r matches Some((a, next)) ==> pos <= next <= bytes@.len() && parse_fixed(
            bytes@.skip(pos as int),
            N as nat,
        ) == Some((a@, bytes@.skip(next as int))),
{
    if bytes.len() - pos < N {
        return None;
    }
    let mut a = [0u8; N];
    let mut i: usize = 0;
    while i < N
        invariant
            i <= N,
            pos + N <= bytes@.len() <= usize::MAX,
            forall|j: int| 0 <= j < i ==> a@[j] == bytes@[pos + j],
        decreases N - i,
    {
        a[i] = bytes[pos + i];
        i += 1;
    }
    assert(a@ =~= bytes@.skip(pos as int).take(N as int));
    assert(bytes@.skip(pos as int).skip(N as int) =~= bytes@.skip(pos + N));
    Some((a, pos + N))
}

/// Fixed bytes that were written are read back, and what follows them is
/// left.
pub proof fn lemma_parse_fixed_written(fixed: Seq<u8>, rest: Seq<u8>)
    ensures
        parse_fixed(fixed + rest, fixed.len()) == Some((fixed, rest)),
{
    assert((fixed + rest).take(fixed.len() as int) =~= fixed);
    assert((fixed + rest).skip(fixed.len() as int) =~= rest);
}

/// What was read as fixed bytes stands at the front of the input.
pub proof fn lemma_parse_fixed_reads(input: Seq<u8>, n: nat)
    requires
        parse_fixed(input, n) is Some,
    ensures
        parse_fixed(input, n) matches Some((fixed, rest)) && input == fixed + rest && fixed.len()
            == n,
{
    assert(input =~= input.take(n as int) + input.skip(n as int));
}

} // verus!
