//! The journal wire format for numeric scalars: fixed-width, big-endian.
//!
//! A 32-bit word occupies four bytes and a 64-bit word eight, most
//! significant byte first. The encodings are total and injective, and each
//! decoder is the inverse of its encoder.

use vstd::prelude::*;

verus! {

/// The four bytes of a 32-bit word, most significant first.
pub open spec fn be_bytes_u32(x: u32) -> Seq<u8> {
    seq![
        ((x as int / 0x100_0000) % 0x100) as u8,
        ((x as int / 0x1_0000) % 0x100) as u8,
        ((x as int / 0x100) % 0x100) as u8,
        (x as int % 0x100) as u8,
    ]
}

/// The eight bytes of a 64-bit word, most significant first.
pub open spec fn be_bytes_u64(x: u64) -> Seq<u8> {
    seq![
        ((x as int / 0x100_0000_0000_0000) % 0x100) as u8,
        ((x as int / 0x1_0000_0000_0000) % 0x100) as u8,
        ((x as int / 0x100_0000_0000) % 0x100) as u8,
        ((x as int / 0x1_0000_0000) % 0x100) as u8,
        ((x as int / 0x100_0000) % 0x100) as u8,
        ((x as int / 0x1_0000) % 0x100) as u8,
        ((x as int / 0x100) % 0x100) as u8,
        (x as int % 0x100) as u8,
    ]
}

/// The number that a run of bytes denotes when read most significant byte
/// first: the empty run denotes zero, and each further byte multiplies what
/// came before by 256.
pub open spec fn be_value(bytes: Seq<u8>) -> nat
    decreases bytes.len(),
{
    if bytes.len() == 0 {
        0
    } else {
        be_value(bytes.drop_last()) * 0x100 + bytes.last() as nat
    }
}

/// The 32-bit word that four bytes denote, most significant first.
pub open spec fn be_word_u32(bytes: Seq<u8>) -> u32
    recommends
        bytes.len() == 4,
{
    (bytes[0] as int * 0x100_0000 + bytes[1] as int * 0x1_0000 + bytes[2] as int * 0x100
        + bytes[3] as int) as u32
}

/// The 64-bit word that eight bytes denote, most significant first.
pub open spec fn be_word_u64(bytes: Seq<u8>) -> u64
    recommends
        bytes.len() == 8,
{
    (bytes[0] as int * 0x100_0000_0000_0000 + bytes[1] as int * 0x1_0000_0000_0000
        + bytes[2] as int * 0x100_0000_0000 + bytes[3] as int * 0x1_0000_0000
        + bytes[4] as int * 0x100_0000 + bytes[5] as int * 0x1_0000 + bytes[6] as int * 0x100
        + bytes[7] as int) as u64
}

/// Writes a 32-bit word as four bytes, most significant first.
pub fn u32_to_be_bytes(x: u32) -> (bytes: [u8; 4])
    ensures
        bytes@ == be_bytes_u32(x),
{
    let b0: u8 = (x >> 24) as u8;
    let b1: u8 = ((x >> 16) & 0xff) as u8;
    let b2: u8 = ((x >> 8) & 0xff) as u8;
    let b3: u8 = (x & 0xff) as u8;
    assert(x >> 24 == (x / 0x100_0000) % 0x100) by (bit_vector);
    assert((x >> 16) & 0xff == (x / 0x1_0000) % 0x100) by (bit_vector);
    assert((x >> 8) & 0xff == (x / 0x100) % 0x100) by (bit_vector);
    assert(x & 0xff == x % 0x100) by (bit_vector);
    let bytes = [b0, b1, b2, b3];
    assert(bytes@ =~= be_bytes_u32(x));
    bytes
}

/// Writes a 64-bit word as eight bytes, most significant first.
pub fn u64_to_be_bytes(x: u64) -> (bytes: [u8; 8])
    ensures
        bytes@ == be_bytes_u64(x),
{
    let b0: u8 = (x >> 56) as u8;
    let b1: u8 = ((x >> 48) & 0xff) as u8;
    let b2: u8 = ((x >> 40) & 0xff) as u8;
    let b3: u8 = ((x >> 32) & 0xff) as u8;
    let b4: u8 = ((x >> 24) & 0xff) as u8;
    let b5: u8 = ((x >> 16) & 0xff) as u8;
    let b6: u8 = ((x >> 8) & 0xff) as u8;
    let b7: u8 = (x & 0xff) as u8;
    assert(x >> 56 == (x / 0x100_0000_0000_0000) % 0x100) by (bit_vector);
    assert((x >> 48) & 0xff == (x / 0x1_0000_0000_0000) % 0x100) by (bit_vector);
    assert((x >> 40) & 0xff == (x / 0x100_0000_0000) % 0x100) by (bit_vector);
    assert((x >> 32) & 0xff == (x / 0x1_0000_0000) % 0x100) by (bit_vector);
    assert((x >> 24) & 0xff == (x / 0x100_0000) % 0x100) by (bit_vector);
    assert((x >> 16) & 0xff == (x / 0x1_0000) % 0x100) by (bit_vector);
    assert((x >> 8) & 0xff == (x / 0x100) % 0x100) by (bit_vector);
    assert(x & 0xff == x % 0x100) by (bit_vector);
    let bytes = [b0, b1, b2, b3, b4, b5, b6, b7];
    assert(bytes@ =~= be_bytes_u64(x));
    bytes
}

/// Reads four bytes, most significant first, as a 32-bit word.
pub fn u32_from_be_bytes(bytes: [u8; 4]) -> (x: u32)
    ensures
        x == be_word_u32(bytes@),
        x == be_value(bytes@),
{
    proof {
        lemma_be_word_u32_is_value(bytes@);
    }
    let b0: u32 = bytes[0] as u32;
    let b1: u32 = bytes[1] as u32;
    let b2: u32 = bytes[2] as u32;
    let b3: u32 = bytes[3] as u32;
    b0 * 0x100_0000 + b1 * 0x1_0000 + b2 * 0x100 + b3
}

/// Reads eight bytes, most significant first, as a 64-bit word.
pub fn u64_from_be_bytes(bytes: [u8; 8]) -> (x: u64)
    ensures
        x == be_word_u64(bytes@),
        x == be_value(bytes@),
{
    proof {
        lemma_be_word_u64_is_value(bytes@);
    }
    let b0: u64 = bytes[0] as u64;
    let b1: u64 = bytes[1] as u64;
    let b2: u64 = bytes[2] as u64;
    let b3: u64 = bytes[3] as u64;
    let b4: u64 = bytes[4] as u64;
    let b5: u64 = bytes[5] as u64;
    let b6: u64 = bytes[6] as u64;
    let b7: u64 = bytes[7] as u64;
    b0 * 0x100_0000_0000_0000 + b1 * 0x1_0000_0000_0000 + b2 * 0x100_0000_0000 + b3
        * 0x1_0000_0000 + b4 * 0x100_0000 + b5 * 0x1_0000 + b6 * 0x100 + b7
}

/// Four bytes read as a word denote the number that the general big-endian
/// reading gives them, and that number fits in 32 bits.
pub proof fn lemma_be_word_u32_is_value(bytes: Seq<u8>)
    requires
        bytes.len() == 4,
    ensures
        be_word_u32(bytes) == be_value(bytes),
        be_value(bytes) == bytes[0] as int * 0x100_0000 + bytes[1] as int * 0x1_0000 + bytes[2] as int
            * 0x100 + bytes[3] as int,
{
    let s3 = bytes.drop_last();
    let s2 = s3.drop_last();
    let s1 = s2.drop_last();
    let s0 = s1.drop_last();
    assert(s0.len() == 0);
    assert(be_value(s0) == 0);
    assert(be_value(s1) == bytes[0] as nat);
    assert(be_value(s2) == be_value(s1) * 0x100 + bytes[1] as nat);
    assert(be_value(s3) == be_value(s2) * 0x100 + bytes[2] as nat);
    assert(be_value(bytes) == be_value(s3) * 0x100 + bytes[3] as nat);
}

/// Eight bytes read as a word denote the number that the general big-endian
/// reading gives them, and that number fits in 64 bits.
pub proof fn lemma_be_word_u64_is_value(bytes: Seq<u8>)
    requires
        bytes.len() == 8,
    ensures
        be_word_u64(bytes) == be_value(bytes),
        be_value(bytes) == bytes[0] as int * 0x100_0000_0000_0000 + bytes[1] as int
            * 0x1_0000_0000_0000 + bytes[2] as int * 0x100_0000_0000 + bytes[3] as int
            * 0x1_0000_0000 + bytes[4] as int * 0x100_0000 + bytes[5] as int * 0x1_0000
            + bytes[6] as int * 0x100 + bytes[7] as int,
{
    let s7 = bytes.drop_last();
    let s6 = s7.drop_last();
    let s5 = s6.drop_last();
    let s4 = s5.drop_last();
    let s3 = s4.drop_last();
    let s2 = s3.drop_last();
    let s1 = s2.drop_last();
    let s0 = s1.drop_last();
    assert(s0.len() == 0);
    assert(be_value(s0) == 0);
    assert(be_value(s1) == bytes[0] as nat);
    assert(be_value(s2) == be_value(s1) * 0x100 + bytes[1] as nat);
    assert(be_value(s3) == be_value(s2) * 0x100 + bytes[2] as nat);
    assert(be_value(s4) == be_value(s3) * 0x100 + bytes[3] as nat);
    assert(be_value(s5) == be_value(s4) * 0x100 + bytes[4] as nat);
    assert(be_value(s6) == be_value(s5) * 0x100 + bytes[5] as nat);
    assert(be_value(s7) == be_value(s6) * 0x100 + bytes[6] as nat);
    assert(be_value(bytes) == be_value(s7) * 0x100 + bytes[7] as nat);
}

/// Decoding the encoding of a 32-bit word gives the word back, and the
/// encoding is exactly four bytes long.
pub proof fn lemma_u32_round_trip(x: u32)
    ensures
        be_bytes_u32(x).len() == 4,
        be_word_u32(be_bytes_u32(x)) == x,
        be_value(be_bytes_u32(x)) == x,
{
    lemma_be_word_u32_is_value(be_bytes_u32(x));
    assert(((x / 0x100_0000) % 0x100) * 0x100_0000 + ((x / 0x1_0000) % 0x100) * 0x1_0000 + ((x
        / 0x100) % 0x100) * 0x100 + x % 0x100 == x) by (bit_vector);
}

/// Decoding the encoding of a 64-bit word gives the word back, and the
/// encoding is exactly eight bytes long.
pub proof fn lemma_u64_round_trip(x: u64)
    ensures
        be_bytes_u64(x).len() == 8,
        be_word_u64(be_bytes_u64(x)) == x,
        be_value(be_bytes_u64(x)) == x,
{
    lemma_be_word_u64_is_value(be_bytes_u64(x));
    assert(((x / 0x100_0000_0000_0000) % 0x100) * 0x100_0000_0000_0000 + ((x
        / 0x1_0000_0000_0000) % 0x100) * 0x1_0000_0000_0000 + ((x / 0x100_0000_0000) % 0x100)
        * 0x100_0000_0000 + ((x / 0x1_0000_0000) % 0x100) * 0x1_0000_0000 + ((x / 0x100_0000)
        % 0x100) * 0x100_0000 + ((x / 0x1_0000) % 0x100) * 0x1_0000 + ((x / 0x100) % 0x100)
        * 0x100 + x % 0x100 == x) by (bit_vector);
}

/// Encoding the word that four bytes denote gives the four bytes back.
pub proof fn lemma_u32_bytes_round_trip(bytes: Seq<u8>)
    requires
        bytes.len() == 4,
    ensures
        be_bytes_u32(be_word_u32(bytes)) == bytes,
{
    let b0 = bytes[0];
    let b1 = bytes[1];
    let b2 = bytes[2];
    let b3 = bytes[3];
    let v: u32 = be_word_u32(bytes);
    assert(v == b0 * 0x100_0000 + b1 * 0x1_0000 + b2 * 0x100 + b3);
    assert((v / 0x100_0000) % 0x100 == b0 && (v / 0x1_0000) % 0x100 == b1 && (v / 0x100) % 0x100
        == b2 && v % 0x100 == b3) by (bit_vector)
        requires
            v == b0 * 0x100_0000 + b1 * 0x1_0000 + b2 * 0x100 + b3,
    ;
    assert(be_bytes_u32(v) =~= bytes);
}

/// Encoding the word that eight bytes denote gives the eight bytes back.
pub proof fn lemma_u64_bytes_round_trip(bytes: Seq<u8>)
    requires
        bytes.len() == 8,
    ensures
        be_bytes_u64(be_word_u64(bytes)) == bytes,
{
    let b0 = bytes[0];
    let b1 = bytes[1];
    let b2 = bytes[2];
    let b3 = bytes[3];
    let b4 = bytes[4];
    let b5 = bytes[5];
    let b6 = bytes[6];
    let b7 = bytes[7];
    let v: u64 = be_word_u64(bytes);
    assert(v == b0 * 0x100_0000_0000_0000 + b1 * 0x1_0000_0000_0000 + b2 * 0x100_0000_0000 + b3
        * 0x1_0000_0000 + b4 * 0x100_0000 + b5 * 0x1_0000 + b6 * 0x100 + b7);
    assert((v / 0x100_0000_0000_0000) % 0x100 == b0 && (v / 0x1_0000_0000_0000) % 0x100 == b1 && (v
        / 0x100_0000_0000) % 0x100 == b2 && (v / 0x1_0000_0000) % 0x100 == b3 && (v / 0x100_0000)
        % 0x100 == b4 && (v / 0x1_0000) % 0x100 == b5 && (v / 0x100) % 0x100 == b6 && v % 0x100
        == b7) by (bit_vector)
        requires
            v == b0 * 0x100_0000_0000_0000 + b1 * 0x1_0000_0000_0000 + b2 * 0x100_0000_0000 + b3
                * 0x1_0000_0000 + b4 * 0x100_0000 + b5 * 0x1_0000 + b6 * 0x100 + b7,
    ;
    assert(be_bytes_u64(v) =~= bytes);
}

/// No two distinct 32-bit words have the same encoding.
pub proof fn lemma_u32_encoding_injective(x: u32, y: u32)
    requires
        be_bytes_u32(x) == be_bytes_u32(y),
    ensures
        x == y,
{
    lemma_u32_round_trip(x);
    lemma_u32_round_trip(y);
}

/// No two distinct 64-bit words have the same encoding.
pub proof fn lemma_u64_encoding_injective(x: u64, y: u64)
    requires
        be_bytes_u64(x) == be_bytes_u64(y),
    ensures
        x == y,
{
    lemma_u64_round_trip(x);
    lemma_u64_round_trip(y);
}

} // verus!
