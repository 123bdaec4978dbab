//! The hash that binds bytes: documents, transcripts and the nodes of trees.

use crate::shared_math::b_field_element::BFieldElement;
use crate::shared_math::b_field_element::P;
use crate::shared_math::x_field_element::XFieldElement;
use crate::shared_math::x_field_element::XValue;
use vstd::bytes::*;
use vstd::prelude::*;
use vstd::slice::*;

verus! {

/// The BLAKE3 hash of a sequence of bytes: 32 bytes.
pub uninterp spec fn blake3_hash(input: Seq<u8>) -> Seq<u8>;

/// Calls `blake3::hash` on the bytes and takes the bytes of the hash: the
/// result is the BLAKE3 hash of the input, a function of the input alone.
#[verifier::external_body]
fn hash_with_blake3(input: &[u8]) -> (r: [u8; 32])
    ensures
        r@ == blake3_hash(input@),
{
    *blake3::hash(input).as_bytes()
}

/// The BLAKE3 hash of a sequence of bytes.
pub fn blake3_digest(input: &[u8]) -> (r: [u8; 32])
    ensures
        r@ == blake3_hash(input@),
{
    hash_with_blake3(input)
}

/// The hash of a seed followed by the eight bytes of a counter: one seed
/// gives as many unrelated values as there are counters.
pub open spec fn seeded(seed: Seq<u8>, counter: u64) -> Seq<u8> {
    blake3_hash(seed + spec_u64_to_le_bytes(counter))
}

/// The word of eight bytes that stands at byte `at` of `bytes`.
pub open spec fn word_of(bytes: Seq<u8>, at: int) -> u64 {
    spec_u64_from_le_bytes(bytes.subrange(at, at + 8))
}

/// The hash of a seed followed by the eight bytes of a counter.
pub fn sample_bytes(seed: &[u8; 32], counter: u64) -> (r: [u8; 32])
    ensures
        r@ == seeded(seed@, counter),
{
    let mut input: Vec<u8> = Vec::new();
    let mut i: usize = 0;
    while i < 32
        invariant
            i <= 32,
            input@ == seed@.subrange(0, i as int),
        decreases 32 - i,
    {
        input.push(seed[i]);
        assert(input@ =~= seed@.subrange(0, i + 1));
        i = i + 1;
    }
    let bytes = u64_to_le_bytes(counter);
    let mut j: usize = 0;
    while j < 8
        invariant
            j <= 8,
            bytes@ == spec_u64_to_le_bytes(counter),
            bytes.len() == 8,
            input@ == seed@.subrange(0, 32) + bytes@.subrange(0, j as int),
        decreases 8 - j,
    {
        input.push(bytes[j]);
        assert(input@ =~= seed@.subrange(0, 32) + bytes@.subrange(0, j + 1));
        j = j + 1;
    }
    assert(input@ =~= seed@ + spec_u64_to_le_bytes(counter));
    blake3_digest(input.as_slice())
}

/// The word of eight bytes that stands at byte `at` of a digest.
pub fn digest_word(digest: &[u8; 32], at: usize) -> (r: u64)
    requires
        at + 8 <= 32,
    ensures
        r == word_of(digest@, at as int),
{
    u64_from_le_bytes(slice_subrange(digest.as_slice(), at, at + 8))
}

/// The index below `bound` that a seed and a counter give: the first word
/// of their hash, reduced.
pub open spec fn sampled_index(seed: Seq<u8>, counter: u64, bound: nat) -> int {
    (word_of(seeded(seed, counter), 0) as int) % (bound as int)
}

/// The element of the extension field that a seed and a counter give: the
/// first three words of their hash, each reduced.
pub open spec fn sampled_x(seed: Seq<u8>, counter: u64) -> XValue {
    XValue {
        c0: (word_of(seeded(seed, counter), 0) as int) % (P as int),
        c1: (word_of(seeded(seed, counter), 8) as int) % (P as int),
        c2: (word_of(seeded(seed, counter), 16) as int) % (P as int),
    }
}

/// An index below `bound`, drawn from a seed and a counter.
pub fn sample_index(seed: &[u8; 32], counter: u64, bound: usize) -> (r: usize)
    requires
        bound > 0,
    ensures
        r == sampled_index(seed@, counter, bound as nat),
        r < bound,
{
    let bytes = sample_bytes(seed, counter);
    (digest_word(&bytes, 0) % (bound as u64)) as usize
}

/// An element of the extension field, drawn from a seed and a counter.
pub fn sample_x(seed: &[u8; 32], counter: u64) -> (r: XFieldElement)
    ensures
        r@ == sampled_x(seed@, counter),
{
    let bytes = sample_bytes(seed, counter);
    XFieldElement::new(
        [
            BFieldElement::new(digest_word(&bytes, 0)),
            BFieldElement::new(digest_word(&bytes, 8)),
            BFieldElement::new(digest_word(&bytes, 16)),
        ],
    )
}

} // verus!
