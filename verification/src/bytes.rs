//! Fixed-width little-endian integers.

use vstd::prelude::*;

verus! {

/// The four bytes of `x`, least significant first.
pub open spec fn le4(x: u32) -> Seq<u8> {
    seq![
        (x % 256) as u8,
        (x / 256 % 256) as u8,
        (x / 65536 % 256) as u8,
        (x / 16777216 % 256) as u8,
    ]
}

/// The number whose four bytes, least significant first, start at `at`.
pub open spec fn le4_value(bytes: Seq<u8>, at: int) -> u32 {
    (bytes[at] + bytes[at + 1] * 256 + bytes[at + 2] * 65536 + bytes[at + 3] * 16777216) as u32
}

/// The eight bytes of `x`, least significant first.
pub open spec fn le8(x: u64) -> Seq<u8> {
    le4((x % 4294967296) as u32) + le4((x / 4294967296) as u32)
}

/// The number whose eight bytes, least significant first, start at `at`.
pub open spec fn le8_value(bytes: Seq<u8>, at: int) -> u64 {
    (le4_value(bytes, at) + le4_value(bytes, at + 4) * 4294967296) as u64
}

/// Reading back four bytes gives the number they were made from, wherever
/// they stand.
pub proof fn lemma_le4_round_trip(x: u32, bytes: Seq<u8>, at: int)
    requires
        0 <= at,
        at + 4 <= bytes.len(),
        bytes.subrange(at, at + 4) == le4(x),
    ensures
        le4_value(bytes, at) == x,
{
    let part = bytes.subrange(at, at + 4);
    assert(part[0] == bytes[at] && part[1] == bytes[at + 1] && part[2] == bytes[at + 2] && part[3]
        == bytes[at + 3]);
}

/// Reading back eight bytes gives the number they were made from, wherever
/// they stand.
pub proof fn lemma_le8_round_trip(x: u64, bytes: Seq<u8>, at: int)
    requires
        0 <= at,
        at + 8 <= bytes.len(),
        bytes.subrange(at, at + 8) == le8(x),
    ensures
        le8_value(bytes, at) == x,
{
    let part = bytes.subrange(at, at + 8);
    let low = (x % 4294967296) as u32;
    let high = (x / 4294967296) as u32;
    assert(bytes.subrange(at, at + 4) =~= part.subrange(0, 4));
    assert(bytes.subrange(at + 4, at + 8) =~= part.subrange(4, 8));
    assert(part.subrange(0, 4) =~= le4(low));
    assert(part.subrange(4, 8) =~= le4(high));
    lemma_le4_round_trip(low, bytes, at);
    lemma_le4_round_trip(high, bytes, at + 4);
}

/// Appends the four bytes of `x`, least significant first.
pub fn push_le4(out: &mut Vec<u8>, x: u32)
    ensures
        final(out)@ == old(out)@ + le4(x),
{
    out.push((x % 256) as u8);
    out.push((x / 256 % 256) as u8);
    out.push((x / 65536 % 256) as u8);
    out.push((x / 16777216 % 256) as u8);
    assert(out@ =~= old(out)@ + le4(x));
}

/// Appends the eight bytes of `x`, least significant first.
pub fn push_le8(out: &mut Vec<u8>, x: u64)
    ensures
        final(out)@ == old(out)@ + le8(x),
{
    push_le4(out, (x % 4294967296) as u32);
    push_le4(out, (x / 4294967296) as u32);
    assert(out@ =~= old(out)@ + le8(x));
}

/// The number whose four bytes, least significant first, start at `at`.
pub fn read_le4(bytes: &[u8], at: usize) -> (x: u32)
    requires
        at + 4 <= bytes@.len(),
    ensures
        x == le4_value(bytes@, at as int),
{
    let _ = bytes.len();
    let b0 = bytes[at] as u32;
    let b1 = bytes[at + 1] as u32;
    let b2 = bytes[at + 2] as u32;
    let b3 = bytes[at + 3] as u32;
    b0 + b1 * 256 + b2 * 65536 + b3 * 16777216
}

/// The number whose eight bytes, least significant first, start at `at`.
pub fn read_le8(bytes: &[u8], at: usize) -> (x: u64)
    requires
        at + 8 <= bytes@.len(),
    ensures
        x == le8_value(bytes@, at as int),
{
    let _ = bytes.len();
    let low = read_le4(bytes, at) as u64;
    let high = read_le4(bytes, at + 4) as u64;
    low + high * 4294967296
}

} // verus!
