//! The binary form of values at rest.
//!
//! Integers are written big-endian in fixed width; a byte string is written
//! behind its length in eight bytes; a text is written as the byte string of
//! its UTF-8 encoding; a small number is one byte; a truth value is one
//! byte, 0 or 1; an optional value is a byte 0, or a byte 1 and the value; a
//! list is written behind the number of its elements in eight bytes.
//!
//! Every reader takes a position in the bytes and gives the value with the
//! position behind it, or nothing where the bytes do not hold a value there.

use crate::bytes::{
    append_bytes, be32, be64, copy_range, from_be32, from_be64, lemma_be32_round_trip, lemma_be64_round_trip,
    u32_from_be, u32_to_be, u64_from_be, u64_to_be,
};
use vstd::prelude::*;
use vstd::string::StringSliceAdditionalSpecFns;
use vstd::utf8::{decode_utf8, encode_utf8, encode_utf8_decode_utf8, encode_utf8_valid_utf8, valid_utf8};

verus! {

/// `String::from_utf8` of std: the text that the bytes encode, if they are
/// valid UTF-8.
#[verifier::external_body]
pub(crate) fn string_from_utf8(bytes: Vec<u8>) -> (r: Option<String>)
    ensures
        r.is_some() == valid_utf8(bytes@),
        r.is_some() ==> r.unwrap()@ == decode_utf8(bytes@),
{
    String::from_utf8(bytes).ok()
}

/// A byte string behind its length.
pub open spec fn ser_bytes(bytes: Seq<u8>) -> Seq<u8> {
    be64(bytes.len() as u64) + bytes
}

/// A text as the byte string of its UTF-8 encoding.
pub open spec fn ser_text(text: Seq<char>) -> Seq<u8> {
    ser_bytes(encode_utf8(text))
}

/// A small number as one byte.
pub open spec fn ser_u8(x: u8) -> Seq<u8> {
    seq![x]
}

/// A truth value as one byte.
pub open spec fn ser_bool(b: bool) -> Seq<u8> {
    seq![if b { 1u8 } else { 0u8 }]
}

/// The 64-bit integer at `pos`.
#[verifier::opaque]
pub open spec fn parse_u64(b: Seq<u8>, pos: int) -> Option<(u64, int)> {
    if 0 <= pos && pos + 8 <= b.len() {
        Some((from_be64(b.subrange(pos, pos + 8)), pos + 8))
    } else {
        None
    }
}

/// The 32-bit integer at `pos`.
#[verifier::opaque]
pub open spec fn parse_u32(b: Seq<u8>, pos: int) -> Option<(u32, int)> {
    if 0 <= pos && pos + 4 <= b.len() {
        Some((from_be32(b.subrange(pos, pos + 4)), pos + 4))
    } else {
        None
    }
}

/// The byte at `pos`.
#[verifier::opaque]
pub open spec fn parse_u8(b: Seq<u8>, pos: int) -> Option<(u8, int)> {
    if 0 <= pos < b.len() {
        Some((b[pos], pos + 1))
    } else {
        None
    }
}

/// The truth value at `pos`.
#[verifier::opaque]
pub open spec fn parse_bool(b: Seq<u8>, pos: int) -> Option<(bool, int)> {
    if 0 <= pos < b.len() && b[pos] <= 1 {
        Some((b[pos] == 1, pos + 1))
    } else {
        None
    }
}

/// The byte string at `pos`.
#[verifier::opaque]
pub open spec fn parse_bytes(b: Seq<u8>, pos: int) -> Option<(Seq<u8>, int)> {
    match parse_u64(b, pos) {
        Some((len, start)) => if start + len <= b.len() {
            Some((b.subrange(start, start + len), start + len))
        } else {
            None
        },
        None => None,
    }
}

/// The text at `pos`.
#[verifier::opaque]
pub open spec fn parse_text(b: Seq<u8>, pos: int) -> Option<(Seq<char>, int)> {
    match parse_bytes(b, pos) {
        Some((bytes, end)) => if valid_utf8(bytes) {
            Some((decode_utf8(bytes), end))
        } else {
            None
        },
        None => None,
    }
}

/// A 64-bit integer that was written is read back.
pub proof fn lemma_parse_u64(before: Seq<u8>, x: u64, after: Seq<u8>)
    ensures
        parse_u64(before + be64(x) + after, before.len() as int) == Some(
            (x, before.len() as int + 8),
        ),
{
    reveal(parse_u64);
    lemma_be64_round_trip(x);
    let b = before + be64(x) + after;
    let pos = before.len() as int;
    assert(b.subrange(pos, pos + 8) =~= be64(x));
}

/// A 32-bit integer that was written is read back.
pub proof fn lemma_parse_u32(before: Seq<u8>, x: u32, after: Seq<u8>)
    ensures
        parse_u32(before + be32(x) + after, before.len() as int) == Some(
            (x, before.len() as int + 4),
        ),
{
    reveal(parse_u32);
    lemma_be32_round_trip(x);
    let b = before + be32(x) + after;
    let pos = before.len() as int;
    assert(b.subrange(pos, pos + 4) =~= be32(x));
}

/// A byte that was written is read back.
pub proof fn lemma_parse_u8(before: Seq<u8>, x: u8, after: Seq<u8>)
    ensures
        parse_u8(before + ser_u8(x) + after, before.len() as int) == Some(
            (x, before.len() as int + 1),
        ),
{
    reveal(parse_u8);
    let b = before + ser_u8(x) + after;
    assert(b[before.len() as int] == ser_u8(x)[0]);
}

/// A truth value that was written is read back.
pub proof fn lemma_parse_bool(before: Seq<u8>, x: bool, after: Seq<u8>)
    ensures
        parse_bool(before + ser_bool(x) + after, before.len() as int) == Some(
            (x, before.len() as int + 1),
        ),
{
    reveal(parse_bool);
    let b = before + ser_bool(x) + after;
    assert(b[before.len() as int] == ser_bool(x)[0]);
}

/// A byte string that was written is read back.
pub proof fn lemma_parse_bytes(before: Seq<u8>, x: Seq<u8>, after: Seq<u8>)
    requires
        x.len() <= u64::MAX,
    ensures
        parse_bytes(before + ser_bytes(x) + after, before.len() as int) == Some(
            (x, before.len() as int + 8 + x.len()),
        ),
        ser_bytes(x).len() == 8 + x.len(),
{
    reveal(parse_bytes);
    let b = before + ser_bytes(x) + after;
    let pos = before.len() as int;
    lemma_be64_round_trip(x.len() as u64);
    assert(b =~= before + be64(x.len() as u64) + (x + after));
    lemma_parse_u64(before, x.len() as u64, x + after);
    assert(b.subrange(pos + 8, pos + 8 + x.len()) =~= x);
}

/// A text that was written is read back.
pub proof fn lemma_parse_text(before: Seq<u8>, x: Seq<char>, after: Seq<u8>)
    requires
        encode_utf8(x).len() <= u64::MAX,
    ensures
        parse_text(before + ser_text(x) + after, before.len() as int) == Some(
            (x, before.len() as int + 8 + encode_utf8(x).len()),
        ),
        ser_text(x).len() == 8 + encode_utf8(x).len(),
{
    reveal(parse_text);
    lemma_parse_bytes(before, encode_utf8(x), after);
    encode_utf8_valid_utf8(x);
    encode_utf8_decode_utf8(x);
}

/// Write a 64-bit integer.
pub fn put_u64(out: &mut Vec<u8>, x: u64)
    ensures
        final(out)@ == old(out)@ + be64(x),
{
    append_bytes(out, u64_to_be(x).as_slice());
}

/// Write a 32-bit integer.
pub fn put_u32(out: &mut Vec<u8>, x: u32)
    ensures
        final(out)@ == old(out)@ + be32(x),
{
    append_bytes(out, u32_to_be(x).as_slice());
}

/// Write a byte.
pub fn put_u8(out: &mut Vec<u8>, x: u8)
    ensures
        final(out)@ == old(out)@ + ser_u8(x),
{
    out.push(x);
    assert(out@ =~= old(out)@ + ser_u8(x));
}

/// Write a truth value.
pub fn put_bool(out: &mut Vec<u8>, x: bool)
    ensures
        final(out)@ == old(out)@ + ser_bool(x),
{
    out.push(if x { 1 } else { 0 });
    assert(out@ =~= old(out)@ + ser_bool(x));
}

/// Write a byte string.
pub fn put_bytes(out: &mut Vec<u8>, bytes: &[u8])
    ensures
        final(out)@ == old(out)@ + ser_bytes(bytes@),
{
    put_u64(out, bytes.len() as u64);
    append_bytes(out, bytes);
    assert(out@ =~= old(out)@ + ser_bytes(bytes@));
}

/// Write a text.
pub fn put_text(out: &mut Vec<u8>, text: &str)
    ensures
        final(out)@ == old(out)@ + ser_text(text@),
        encode_utf8(text@).len() <= u64::MAX,
{
    let bytes = text.as_bytes();
    let len = bytes.len();
    put_bytes(out, bytes);
}

/// Read a 64-bit integer.
pub fn get_u64(b: &[u8], pos: usize) -> (r: Option<(u64, usize)>)
    ensures
        match r {
            Some((x, end)) => parse_u64(b@, pos as int) == Some((x, end as int)),
            None => parse_u64(b@, pos as int).is_none(),
        },
{
    reveal(parse_u64);
    if pos > b.len() || b.len() - pos < 8 {
        return None;
    }
    let field = vstd::slice::slice_subrange(b, pos, pos + 8);
    Some((u64_from_be(field), pos + 8))
}

/// Read a 32-bit integer.
pub fn get_u32(b: &[u8], pos: usize) -> (r: Option<(u32, usize)>)
    ensures
        match r {
            Some((x, end)) => parse_u32(b@, pos as int) == Some((x, end as int)),
            None => parse_u32(b@, pos as int).is_none(),
        },
{
    reveal(parse_u32);
    if pos > b.len() || b.len() - pos < 4 {
        return None;
    }
    let field = vstd::slice::slice_subrange(b, pos, pos + 4);
    Some((u32_from_be(field), pos + 4))
}

/// Read a byte.
pub fn get_u8(b: &[u8], pos: usize) -> (r: Option<(u8, usize)>)
    ensures
        match r {
            Some((x, end)) => parse_u8(b@, pos as int) == Some((x, end as int)),
            None => parse_u8(b@, pos as int).is_none(),
        },
{
    reveal(parse_u8);
    if pos >= b.len() {
        return None;
    }
    Some((b[pos], pos + 1))
}

/// Read a truth value.
pub fn get_bool(b: &[u8], pos: usize) -> (r: Option<(bool, usize)>)
    ensures
        match r {
            Some((x, end)) => parse_bool(b@, pos as int) == Some((x, end as int)),
            None => parse_bool(b@, pos as int).is_none(),
        },
{
    reveal(parse_bool);
    if pos >= b.len() || b[pos] > 1 {
        return None;
    }
    Some((b[pos] == 1, pos + 1))
}

/// Read a byte string.
pub fn get_bytes(b: &[u8], pos: usize) -> (r: Option<(Vec<u8>, usize)>)
    ensures
        match r {
            Some((x, end)) => parse_bytes(b@, pos as int) == Some((x@, end as int)),
            None => parse_bytes(b@, pos as int).is_none(),
        },
{
    reveal(parse_bytes);
    reveal(parse_u64);
    match get_u64(b, pos) {
        Some((len, start)) => {
            if len > (b.len() - start) as u64 {
                return None;
            }
            let end = start + len as usize;
            Some((copy_range(b, start, end), end))
        },
        None => None,
    }
}

/// Read a text.
pub fn get_text(b: &[u8], pos: usize) -> (r: Option<(String, usize)>)
    ensures
        match r {
            Some((x, end)) => parse_text(b@, pos as int) == Some((x@, end as int)),
            None => parse_text(b@, pos as int).is_none(),
        },
{
    reveal(parse_text);
    match get_bytes(b, pos) {
        Some((bytes, end)) => {
            match string_from_utf8(bytes) {
                Some(text) => Some((text, end)),
                None => None,
            }
        },
        None => None,
    }
}

} // verus!
