//! Conversions between 64-bit words and their eight bytes, in both byte
//! orders.

use vstd::prelude::*;

verus! {

/// The word whose big-endian bytes are `b[0]`, .., `b[7]`: `b[0]` is the
/// most significant byte.
pub open spec fn be_word(b: Seq<u8>) -> u64 {
    (b[0] as u64) << 56 | (b[1] as u64) << 48 | (b[2] as u64) << 40 | (b[3] as u64) << 32 | (
    b[4] as u64) << 24 | (b[5] as u64) << 16 | (b[6] as u64) << 8 | (b[7] as u64)
}

/// The word whose little-endian bytes are `b[0]`, .., `b[7]`: `b[0]` is the
/// least significant byte.
pub open spec fn le_word(b: Seq<u8>) -> u64 {
    (b[7] as u64) << 56 | (b[6] as u64) << 48 | (b[5] as u64) << 40 | (b[4] as u64) << 32 | (
    b[3] as u64) << 24 | (b[2] as u64) << 16 | (b[1] as u64) << 8 | (b[0] as u64)
}

/// Byte `k` of `w`, counted from the least significant one.
pub open spec fn byte_of(w: u64, k: nat) -> u8 {
    ((w >> (8 * k) as u64) & 0xff) as u8
}

/// The eight bytes of `w`, most significant first.
pub open spec fn be_bytes(w: u64) -> Seq<u8> {
    seq![
        byte_of(w, 7),
        byte_of(w, 6),
        byte_of(w, 5),
        byte_of(w, 4),
        byte_of(w, 3),
        byte_of(w, 2),
        byte_of(w, 1),
        byte_of(w, 0),
    ]
}

/// The eight bytes of `w`, least significant first.
pub open spec fn le_bytes(w: u64) -> Seq<u8> {
    seq![
        byte_of(w, 0),
        byte_of(w, 1),
        byte_of(w, 2),
        byte_of(w, 3),
        byte_of(w, 4),
        byte_of(w, 5),
        byte_of(w, 6),
        byte_of(w, 7),
    ]
}

/// Reads the eight bytes of `b` from index `at` on as a big-endian word.
pub fn load_be(b: &[u8], at: usize) -> (w: u64)
    requires
        at + 8 <= b.len(),
    ensures
        w == be_word(b@.subrange(at as int, at + 8)),
{
    (b[at] as u64) << 56 | (b[at + 1] as u64) << 48 | (b[at + 2] as u64) << 40 | (b[at
        + 3] as u64) << 32 | (b[at + 4] as u64) << 24 | (b[at + 5] as u64) << 16 | (b[at
        + 6] as u64) << 8 | (b[at + 7] as u64)
}

/// Reads the eight bytes of `b` from index `at` on as a little-endian word.
pub fn load_le(b: &[u8], at: usize) -> (w: u64)
    requires
        at + 8 <= b.len(),
    ensures
        w == le_word(b@.subrange(at as int, at + 8)),
{
    (b[at + 7] as u64) << 56 | (b[at + 6] as u64) << 48 | (b[at + 5] as u64) << 40 | (b[at
        + 4] as u64) << 32 | (b[at + 3] as u64) << 24 | (b[at + 2] as u64) << 16 | (b[at
        + 1] as u64) << 8 | (b[at] as u64)
}

/// Byte `k` of `w`, counted from the least significant one.
fn nth_byte(w: u64, k: u64) -> (b: u8)
    requires
        k < 8,
    ensures
        b == byte_of(w, k as nat),
{
    let masked: u64 = (w >> (8 * k)) & 0xff;
    assert(masked < 0x100) by (bit_vector)
        requires
            masked == (w >> (8 * k) as u64) & 0xff,
    ;
    masked as u8
}

/// Writes `w` out as eight bytes, most significant first.
pub fn store_be(w: u64) -> (b: [u8; 8])
    ensures
        b@ == be_bytes(w),
{
    let b = [
        nth_byte(w, 7),
        nth_byte(w, 6),
        nth_byte(w, 5),
        nth_byte(w, 4),
        nth_byte(w, 3),
        nth_byte(w, 2),
        nth_byte(w, 1),
        nth_byte(w, 0),
    ];
    assert(b@ =~= be_bytes(w));
    b
}

/// The word with the bytes of `w` in reverse order: its little-endian
/// bytes are the big-endian bytes of `w`.
pub open spec fn reversed(w: u64) -> u64 {
    le_word(be_bytes(w))
}

/// Reverses the order of the bytes of a word.
pub fn reverse_bytes(w: u64) -> (r: u64)
    ensures
        r == reversed(w),
{
    let bytes = store_be(w);
    assert(bytes@.subrange(0, 8) =~= bytes@);
    load_le(&bytes, 0)
}

/// Written out least significant byte first, a reversed word gives the
/// bytes of the word itself, most significant first.
pub proof fn lemma_reversed_bytes(w: u64)
    ensures
        le_bytes(reversed(w)) == be_bytes(w),
{
    lemma_bytes_of_word(be_bytes(w));
}

/// Reading eight bytes as a word and writing the word out gives the bytes
/// back, in either byte order.
pub proof fn lemma_bytes_of_word(b: Seq<u8>)
    requires
        b.len() == 8,
    ensures
        be_bytes(be_word(b)) == b,
        le_bytes(le_word(b)) == b,
{
    let (b0, b1, b2, b3, b4, b5, b6, b7) = (b[0], b[1], b[2], b[3], b[4], b[5], b[6], b[7]);
    let w = be_word(b);
    assert(byte_of(w, 7) == b0 && byte_of(w, 6) == b1 && byte_of(w, 5) == b2 && byte_of(w, 4)
        == b3 && byte_of(w, 3) == b4 && byte_of(w, 2) == b5 && byte_of(w, 1) == b6 && byte_of(w, 0)
        == b7) by (bit_vector)
        requires
            w == (b0 as u64) << 56 | (b1 as u64) << 48 | (b2 as u64) << 40 | (b3 as u64) << 32 | (
            b4 as u64) << 24 | (b5 as u64) << 16 | (b6 as u64) << 8 | (b7 as u64),
    ;
    assert(be_bytes(w) =~= b);
    let v = le_word(b);
    assert(byte_of(v, 0) == b0 && byte_of(v, 1) == b1 && byte_of(v, 2) == b2 && byte_of(v, 3)
        == b3 && byte_of(v, 4) == b4 && byte_of(v, 5) == b5 && byte_of(v, 6) == b6 && byte_of(v, 7)
        == b7) by (bit_vector)
        requires
            v == (b7 as u64) << 56 | (b6 as u64) << 48 | (b5 as u64) << 40 | (b4 as u64) << 32 | (
            b3 as u64) << 24 | (b2 as u64) << 16 | (b1 as u64) << 8 | (b0 as u64),
    ;
    assert(le_bytes(v) =~= b);
}

} // verus!
