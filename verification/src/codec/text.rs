//! Strings: a 64-bit byte count followed by the text in UTF-8.

use crate::codec::integers::{
    holds_at, lemma_holds_at_split, lemma_u64_roundtrip, parse_u64, read_u64, u64_bytes, write_u64,
};
use vstd::prelude::*;
use vstd::slice::slice_subrange;
use vstd::utf8::{decode_utf8, encode_utf8, valid_utf8};

verus! {

/// Whether a text is short enough for its length to be written down.
pub open spec fn text_fits(text: Seq<char>) -> bool {
    encode_utf8(text).len() <= u64::MAX
}

/// The bytes that stand for a text.
pub open spec fn string_bytes(text: Seq<char>) -> Seq<u8> {
    u64_bytes(encode_utf8(text).len() as u64) + encode_utf8(text)
}

/// Reads a text at `at`: the value and the position behind it, or
/// `None` where the bytes there do not spell one.
pub open spec fn parse_string(bytes: Seq<u8>, at: int) -> Option<(Seq<char>, int)> {
    match parse_u64(bytes, at) {
        Some((length, body)) => {
            if body + length <= bytes.len() && valid_utf8(bytes.subrange(body, body + length)) {
                Some((decode_utf8(bytes.subrange(body, body + length)), body + length))
            } else {
                None
            }
        },
        None => None,
    }
}

/// Reading a text from where its encoding stands gives it back, and
/// ends right behind the encoding.
pub proof fn lemma_string_roundtrip(bytes: Seq<u8>, at: int, text: Seq<char>)
    requires
        text_fits(text),
        holds_at(bytes, at, string_bytes(text)),
    ensures
        parse_string(bytes, at) == Some((text, at + string_bytes(text).len())),
{
    let body = encode_utf8(text);
    lemma_holds_at_split(bytes, at, u64_bytes(body.len() as u64), body);
    lemma_u64_roundtrip(bytes, at, body.len() as u64);
    vstd::utf8::encode_utf8_valid_utf8(text);
    vstd::utf8::encode_utf8_decode_utf8(text);
}

/// `String::from_utf8` of the standard library, with its error dropped: the
/// bytes become a string exactly when they are valid UTF-8, and the string
/// then holds the characters that the bytes spell.
#[verifier::external_body]
fn string_from_utf8(bytes: Vec<u8>) -> (text: Option<String>)
    ensures
        text is Some <==> valid_utf8(bytes@),
        text matches Some(t) ==> t@ == decode_utf8(bytes@),
{
    String::from_utf8(bytes).ok()
}

/// Appends a run of bytes as it is.
pub fn append_bytes(out: &mut Vec<u8>, bytes: &[u8])
    ensures
        final(out)@ == old(out)@ + bytes@,
{
    let mut i: usize = 0;
    while i < bytes.len()
        invariant
            i <= bytes@.len(),
            out@ == old(out)@ + bytes@.subrange(0, i as int),
        decreases bytes@.len() - i,
    {
        out.push(bytes[i]);
        i = i + 1;
        assert(out@ =~= old(out)@ + bytes@.subrange(0, i as int));
    }
    assert(bytes@.subrange(0, i as int) =~= bytes@);
}

/// A copy of the bytes from `from` up to `to`.
pub fn copy_range(bytes: &[u8], from: usize, to: usize) -> (copy: Vec<u8>)
    requires
        from <= to <= bytes@.len(),
    ensures
        copy@ == bytes@.subrange(from as int, to as int),
{
    let mut copy: Vec<u8> = Vec::new();
    append_bytes(&mut copy, slice_subrange(bytes, from, to));
    assert(copy@ =~= bytes@.subrange(from as int, to as int));
    copy
}

/// Appends the encoding of a text.
pub fn write_string(out: &mut Vec<u8>, text: &str)
    ensures
        final(out)@ == old(out)@ + string_bytes(text@),
        text_fits(text@),
{
    let body = text.as_bytes();
    write_u64(out, body.len() as u64);
    append_bytes(out, body);
    assert(out@ =~= old(out)@ + string_bytes(text@));
}

/// Reads a text at `at`, and says where the next value starts.
pub fn read_string(bytes: &[u8], at: usize) -> (read: Option<(String, usize)>)
    ensures
        match read {
            Some((text, next)) => parse_string(bytes@, at as int) == Some((text@, next as int)),
            None => parse_string(bytes@, at as int) is None,
        },
{
    match read_u64(bytes, at) {
        Some((length, body)) => {
            if body > bytes.len() || length > (bytes.len() - body) as u64 {
                return None;
            }
            let end: usize = body + length as usize;
            match string_from_utf8(copy_range(bytes, body, end)) {
                Some(text) => Some((text, end)),
                None => None,
            }
        },
        None => None,
    }
}

} // verus!
