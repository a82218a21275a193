//! The hash functions of the hash-chain family, and what a guest may do to
//! a digest before committing it: truncate it, and read it as words.
//!
//! Both hash functions give 32-byte digests. A truncation masks the first
//! byte of the digest and no other; it is applied to the bytes, before any
//! reading as words. Read as words, a digest is eight 32-bit words, each
//! taken big-endian from four consecutive bytes.

use vstd::prelude::*;
use blake2::Blake2s256;
use sha3::Keccak256;
use crate::journal::encode_values;
use crate::journal::lemma_encoding_step;
use crate::journal::word_values;
use crate::journal::ValueView;
use crate::wire::be_word_u32;
use crate::wire::lemma_u32_bytes_round_trip;
use crate::wire::u32_from_be_bytes;

verus! {

/// The mask that reduces a 32-byte digest to 250 significant bits: it keeps
/// the two low bits of the first byte.
pub const TRUNCATION_MASK: u8 = 0x03;

/// The cryptographic hash functions that a hash chain can apply.
#[derive(Clone, Copy, Debug, PartialEq, Eq)]
pub enum HashFunction {
    Blake2s256,
    Keccak256,
}

/// The BLAKE2s-256 digest of a message, as the `blake2` crate computes it.
pub uninterp spec fn blake2s256(message: Seq<u8>) -> Seq<u8>;

/// The Keccak-256 digest of a message, as the `sha3` crate computes it.
pub uninterp spec fn keccak256(message: Seq<u8>) -> Seq<u8>;

/// Calls `Digest::digest` on `Blake2s256` of the `blake2` crate, which feeds
/// the whole message to a fresh hasher and finalizes it. Trusted: the 32
/// bytes returned are the BLAKE2s-256 digest of the message, a function of
/// the message alone.
#[verifier::external_body]
fn blake2s256_digest(message: &[u8]) -> (digest: [u8; 32])
    ensures
        digest@ == blake2s256(message@),
{
    <Blake2s256 as blake2::Digest>::digest(message).into()
}

/// Calls `Digest::digest` on `Keccak256` of the `sha3` crate, which feeds
/// the whole message to a fresh hasher and finalizes it. Trusted: the 32
/// bytes returned are the Keccak-256 digest of the message, a function of
/// the message alone.
#[verifier::external_body]
fn keccak256_digest(message: &[u8]) -> (digest: [u8; 32])
    ensures
        digest@ == keccak256(message@),
{
    <Keccak256 as sha3::Digest>::digest(message).into()
}

/// The digest of a message under the chosen hash function.
pub open spec fn digest_of(function: HashFunction, message: Seq<u8>) -> Seq<u8> {
    match function {
        HashFunction::Blake2s256 => blake2s256(message),
        HashFunction::Keccak256 => keccak256(message),
    }
}

/// A digest with its first byte masked and every other byte unchanged.
pub open spec fn truncated(digest: Seq<u8>, mask: u8) -> Seq<u8>
    recommends
        digest.len() > 0,
{
    digest.update(0, digest[0] & mask)
}

/// A digest after the optional truncation.
pub open spec fn masked(digest: Seq<u8>, mask: Option<u8>) -> Seq<u8> {
    match mask {
        Some(m) => truncated(digest, m),
        None => digest,
    }
}

/// The 32-bit words that a run of bytes holds: as many as its length
/// divided by four, word `i` read big-endian from bytes `4i` to `4i + 3`.
pub open spec fn words_of(bytes: Seq<u8>) -> Seq<u32> {
    Seq::new(bytes.len() / 4, |i: int| be_word_u32(bytes.subrange(4 * i, 4 * i + 4)))
}

/// Hashes a message with the chosen hash function.
pub fn digest(function: HashFunction, message: &[u8]) -> (out: [u8; 32])
    ensures
        out@ == digest_of(function, message@),
{
    match function {
        HashFunction::Blake2s256 => blake2s256_digest(message),
        HashFunction::Keccak256 => keccak256_digest(message),
    }
}

/// Truncates a digest: masks its first byte and leaves bytes 1 to 31 as
/// they are.
pub fn truncate(digest: [u8; 32], mask: u8) -> (out: [u8; 32])
    ensures
        out@ == truncated(digest@, mask),
        out@[0] == digest@[0] & mask,
        forall|i: int| 1 <= i < 32 ==> out@[i] == digest@[i],
{
    let mut out = digest;
    out[0] = digest[0] & mask;
    assert(out@ =~= truncated(digest@, mask));
    out
}

/// Applies the optional truncation to a digest.
pub fn apply_mask(digest: [u8; 32], mask: Option<u8>) -> (out: [u8; 32])
    ensures
        out@ == masked(digest@, mask),
{
    match mask {
        Some(m) => truncate(digest, m),
        None => digest,
    }
}

/// Reads a digest as eight 32-bit words: word `i` is bytes `4i` to `4i + 3`,
/// big-endian.
pub fn digest_words(digest: &[u8; 32]) -> (words: [u32; 8])
    ensures
        words@ == words_of(digest@),
        forall|i: int|
            0 <= i < 8 ==> words@[i] == be_word_u32(#[trigger] digest@.subrange(4 * i, 4 * i + 4)),
{
    let mut words: [u32; 8] = [0u32; 8];
    let mut i: usize = 0;
    while i < 8
        invariant
            i <= 8,
            forall|j: int|
                0 <= j < i ==> words@[j] == be_word_u32(
                    #[trigger] digest@.subrange(4 * j, 4 * j + 4),
                ),
        decreases 8 - i,
    {
        let group: [u8; 4] = [digest[4 * i], digest[4 * i + 1], digest[4 * i + 2], digest[4 * i + 3]];
        assert(group@ =~= digest@.subrange(4 * i, 4 * i + 4));
        words[i] = u32_from_be_bytes(group);
        i = i + 1;
    }
    assert(words@ =~= words_of(digest@));
    words
}

/// Truncates a digest and then reads it as words: the mask is applied to
/// byte 0 of the digest, and only then are the bytes grouped four by four
/// and each group read big-endian.
pub fn truncated_words(digest: &[u8; 32], mask: u8) -> (words: [u32; 8])
    ensures
        words@ == words_of(truncated(digest@, mask)),
        forall|i: int|
            0 <= i < 8 ==> words@[i] == be_word_u32(
                #[trigger] truncated(digest@, mask).subrange(4 * i, 4 * i + 4),
            ),
{
    let cut = truncate(*digest, mask);
    digest_words(&cut)
}

/// Committing the words of a run of bytes commits the bytes themselves:
/// where the length is a multiple of four, the big-endian encodings of the
/// words, one after another, are the bytes the words were read from.
pub proof fn lemma_words_encoding(bytes: Seq<u8>)
    requires
        bytes.len() % 4 == 0,
    ensures
        encode_values(word_values(words_of(bytes))) == bytes,
{
    let values = word_values(words_of(bytes));
    assert(values.take(0) =~= Seq::<ValueView>::empty());
    lemma_words_encoding_up_to(bytes, values.len() as int);
    assert(values.take(values.len() as int) =~= values);
    assert(bytes.take(bytes.len() as int) =~= bytes);
}

proof fn lemma_words_encoding_up_to(bytes: Seq<u8>, count: int)
    requires
        bytes.len() % 4 == 0,
        0 <= count <= bytes.len() / 4,
    ensures
        encode_values(word_values(words_of(bytes)).take(count)) == bytes.take(4 * count),
    decreases count,
{
    let values = word_values(words_of(bytes));
    if count == 0 {
        assert(values.take(0) =~= Seq::<ValueView>::empty());
        assert(bytes.take(0) =~= Seq::<u8>::empty());
    } else {
        lemma_words_encoding_up_to(bytes, count - 1);
        lemma_encoding_step(values, count - 1);
        let group = bytes.subrange(4 * (count - 1), 4 * count);
        lemma_u32_bytes_round_trip(group);
        assert(values[count - 1] == ValueView::Word32(be_word_u32(group)));
        assert(values[count - 1].encoding() == group);
        assert(bytes.take(4 * (count - 1)) + group =~= bytes.take(4 * count));
    }
}

/// A truncation reaches the first word only: every later word of the
/// truncated digest is the word of the digest itself.
pub proof fn lemma_truncation_keeps_later_words(digest: Seq<u8>, mask: u8, i: int)
    requires
        digest.len() % 4 == 0,
        1 <= i < digest.len() / 4,
    ensures
        words_of(truncated(digest, mask))[i] == words_of(digest)[i],
{
    assert(truncated(digest, mask).subrange(4 * i, 4 * i + 4) =~= digest.subrange(4 * i, 4 * i + 4));
}

} // verus!
