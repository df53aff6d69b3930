//! Fixed-width little-endian integers.

use vstd::prelude::*;

verus! {

/// The four bytes of a 32-bit unsigned integer, least significant first.
pub open spec fn u32_bytes(value: u32) -> Seq<u8> {
    seq![
        (value % 256) as u8,
        ((value / 256) % 256) as u8,
        ((value / 65536) % 256) as u8,
        ((value / 16777216) % 256) as u8,
    ]
}

/// The number that four little-endian bytes stand for.
pub open spec fn u32_value(b0: u8, b1: u8, b2: u8, b3: u8) -> u32 {
    (b0 + 256 * b1 + 65536 * b2 + 16777216 * b3) as u32
}

/// Reads a 32-bit unsigned integer at `at`; `None` when fewer than four
/// bytes are left.
pub open spec fn parse_u32(bytes: Seq<u8>, at: int) -> Option<(u32, int)> {
    if 0 <= at && at + 4 <= bytes.len() {
        Some((u32_value(bytes[at], bytes[at + 1], bytes[at + 2], bytes[at + 3]), at + 4))
    } else {
        None
    }
}

/// The unsigned 32-bit pattern of a signed integer (two's complement).
pub open spec fn i32_pattern(value: i32) -> u32 {
    if value < 0 {
        (value + 0x1_0000_0000) as u32
    } else {
        value as u32
    }
}

/// The signed integer behind an unsigned 32-bit pattern.
pub open spec fn i32_from_pattern(pattern: u32) -> i32 {
    if pattern >= 0x8000_0000 {
        (pattern - 0x1_0000_0000) as i32
    } else {
        pattern as i32
    }
}

/// The four bytes of a 32-bit signed integer.
pub open spec fn i32_bytes(value: i32) -> Seq<u8> {
    u32_bytes(i32_pattern(value))
}

/// Reads a 32-bit signed integer at `at`.
pub open spec fn parse_i32(bytes: Seq<u8>, at: int) -> Option<(i32, int)> {
    match parse_u32(bytes, at) {
        Some((pattern, next)) => Some((i32_from_pattern(pattern), next)),
        None => None,
    }
}

/// The eight bytes of a 64-bit unsigned integer, least significant first.
pub open spec fn u64_bytes(value: u64) -> Seq<u8> {
    u32_bytes((value % 0x1_0000_0000) as u32) + u32_bytes((value / 0x1_0000_0000) as u32)
}

/// Reads a 64-bit unsigned integer at `at`.
pub open spec fn parse_u64(bytes: Seq<u8>, at: int) -> Option<(u64, int)> {
    match parse_u32(bytes, at) {
        Some((low, middle)) => match parse_u32(bytes, middle) {
            Some((high, next)) => Some(((low + 0x1_0000_0000 * high) as u64, next)),
            None => None,
        },
        None => None,
    }
}

/// Whether what executable code read, a value and the position behind it, is
/// what the format prescribes.
pub open spec fn agrees<T>(read: Option<(T, usize)>, parsed: Option<(T, int)>) -> bool {
    match read {
        Some((value, next)) => parsed == Some((value, next as int)),
        None => parsed is None,
    }
}

/// Whether `encoding` stands in `bytes` from position `at` on.
pub open spec fn holds_at(bytes: Seq<u8>, at: int, encoding: Seq<u8>) -> bool {
    &&& 0 <= at
    &&& at + encoding.len() <= bytes.len()
    &&& bytes.subrange(at, at + encoding.len()) == encoding
}

/// Splitting an encoding that stands at `at` into its two halves.
pub proof fn lemma_holds_at_split(bytes: Seq<u8>, at: int, first: Seq<u8>, second: Seq<u8>)
    requires
        holds_at(bytes, at, first + second),
    ensures
        holds_at(bytes, at, first),
        holds_at(bytes, at + first.len(), second),
{
    let whole = first + second;
    assert(bytes.subrange(at, at + first.len()) =~= whole.subrange(0, first.len() as int));
    assert(whole.subrange(0, first.len() as int) =~= first);
    assert(bytes.subrange(at + first.len(), at + first.len() + second.len()) =~= whole.subrange(
        first.len() as int,
        whole.len() as int,
    ));
    assert(whole.subrange(first.len() as int, whole.len() as int) =~= second);
}

/// Reading back a written 32-bit unsigned integer gives the same number.
pub proof fn lemma_u32_roundtrip(bytes: Seq<u8>, at: int, value: u32)
    requires
        holds_at(bytes, at, u32_bytes(value)),
    ensures
        parse_u32(bytes, at) == Some((value, at + 4)),
{
    let encoding = u32_bytes(value);
    assert(encoding.len() == 4);
    let window = bytes.subrange(at, at + 4);
    assert(bytes[at] == window[0]);
    assert(bytes[at + 1] == window[1]);
    assert(bytes[at + 2] == window[2]);
    assert(bytes[at + 3] == window[3]);
}

/// Reading back a written 32-bit signed integer gives the same number.
pub proof fn lemma_i32_roundtrip(bytes: Seq<u8>, at: int, value: i32)
    requires
        holds_at(bytes, at, i32_bytes(value)),
    ensures
        parse_i32(bytes, at) == Some((value, at + 4)),
{
    lemma_u32_roundtrip(bytes, at, i32_pattern(value));
}

/// Reading back a written 64-bit unsigned integer gives the same number.
pub proof fn lemma_u64_roundtrip(bytes: Seq<u8>, at: int, value: u64)
    requires
        holds_at(bytes, at, u64_bytes(value)),
    ensures
        parse_u64(bytes, at) == Some((value, at + 8)),
{
    let low = (value % 0x1_0000_0000) as u32;
    let high = (value / 0x1_0000_0000) as u32;
    lemma_holds_at_split(bytes, at, u32_bytes(low), u32_bytes(high));
    lemma_u32_roundtrip(bytes, at, low);
    lemma_u32_roundtrip(bytes, at + 4, high);
}

/// Appends the encoding of a 32-bit unsigned integer.
pub fn write_u32(out: &mut Vec<u8>, value: u32)
    ensures
        final(out)@ == old(out)@ + u32_bytes(value),
{
    out.push((value % 256) as u8);
    out.push(((value / 256) % 256) as u8);
    out.push(((value / 65536) % 256) as u8);
    out.push(((value / 16777216) % 256) as u8);
    assert(out@ =~= old(out)@ + u32_bytes(value));
}

/// Reads a 32-bit unsigned integer at `at`, and says where the next value
/// starts.
pub fn read_u32(bytes: &[u8], at: usize) -> (read: Option<(u32, usize)>)
    ensures
        agrees(read, parse_u32(bytes@, at as int)),
{
    if bytes.len() < 4 || at > bytes.len() - 4 {
        return None;
    }
    let b0: u32 = bytes[at] as u32;
    let b1: u32 = bytes[at + 1] as u32;
    let b2: u32 = bytes[at + 2] as u32;
    let b3: u32 = bytes[at + 3] as u32;
    Some((b0 + 256 * b1 + 65536 * b2 + 16777216 * b3, at + 4))
}

/// Appends the encoding of a 32-bit signed integer.
pub fn write_i32(out: &mut Vec<u8>, value: i32)
    ensures
        final(out)@ == old(out)@ + i32_bytes(value),
{
    let pattern: u32 = if value < 0 {
        (value as i64 + 0x1_0000_0000) as u32
    } else {
        value as u32
    };
    write_u32(out, pattern);
}

/// Reads a 32-bit signed integer at `at`.
pub fn read_i32(bytes: &[u8], at: usize) -> (read: Option<(i32, usize)>)
    ensures
        agrees(read, parse_i32(bytes@, at as int)),
{
    match read_u32(bytes, at) {
        Some((pattern, next)) => {
            let value: i32 = if pattern >= 0x8000_0000 {
                (pattern as i64 - 0x1_0000_0000) as i32
            } else {
                pattern as i32
            };
            Some((value, next))
        },
        None => None,
    }
}

/// Appends the encoding of a 64-bit unsigned integer.
pub fn write_u64(out: &mut Vec<u8>, value: u64)
    ensures
        final(out)@ == old(out)@ + u64_bytes(value),
{
    write_u32(out, (value % 0x1_0000_0000) as u32);
    write_u32(out, (value / 0x1_0000_0000) as u32);
    assert(out@ =~= old(out)@ + u64_bytes(value));
}

/// Reads a 64-bit unsigned integer at `at`.
pub fn read_u64(bytes: &[u8], at: usize) -> (read: Option<(u64, usize)>)
    ensures
        agrees(read, parse_u64(bytes@, at as int)),
{
    match read_u32(bytes, at) {
        Some((low, middle)) => match read_u32(bytes, middle) {
            Some((high, next)) => Some((low as u64 + 0x1_0000_0000 * (high as u64), next)),
            None => None,
        },
        None => None,
    }
}

} // verus!
