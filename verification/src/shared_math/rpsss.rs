//! The signature scheme: a signature on a document is a proof that the
//! signer knows the secret key whose image under the permutation is the
//! public key, with the hash of the document leading the transcript, so
//! that every challenge of the proof depends on the document. A signature
//! that was made is accepted for its document under the signer's public
//! key, and for no document with another hash.

use crate::shared_math::b_field_element::BFieldElement;
use crate::shared_math::b_field_element::bytes_value;
use crate::shared_math::b_field_element::P;
use crate::shared_math::other::random_bytes;
use crate::shared_math::other::random_elements;
use crate::shared_math::rescue_prime_stark::air_constants;
use crate::shared_math::rescue_prime_stark::boundary_constraints_of;
use crate::shared_math::rescue_prime_stark::hash_spec;
use crate::shared_math::rescue_prime_stark::RescuePrime;
use crate::shared_math::rescue_prime_stark::trace_of;
use crate::shared_math::rescue_prime_stark::TRACE_WIDTH;
use crate::shared_math::stark::prove_spec;
use crate::shared_math::stark::lemma_shapes_agree;
use crate::shared_math::stark::shaped_values;
use crate::shared_math::stark::Stark;
use crate::shared_math::stark::StarkError;
use crate::shared_math::stark::table::matrix_values;
use crate::shared_math::stark::verify_spec;
use crate::util_types::proof_stream::parse_digest;
use crate::util_types::proof_stream::parse_item;
use crate::util_types::proof_stream::ProofStream;
use crate::util_types::proof_stream::TAG_DIGEST;
use crate::util_types::proof_stream::word_at;
use crate::utils::blake3_digest;
use crate::utils::blake3_hash;
use vstd::arithmetic::div_mod::*;
use vstd::bytes::*;
use vstd::prelude::*;

verus! {

/// The number of bytes of the hash of a document.
pub const DOCUMENT_HASH_LENGTH: usize = 32;

/// The number of random bytes that a secret key is made from.
pub const SECRET_KEY_BYTES: usize = 17;

/// A secret key: an element of the field.
#[derive(Clone, Debug)]
pub struct SecretKey {
    pub value: BFieldElement,
}

/// A public key: the image of the secret key under the permutation.
#[derive(Clone, Debug)]
pub struct PublicKey {
    pub value: BFieldElement,
}

/// A signature: the hash of the document, then the bytes of the proof.
#[derive(Clone, Debug)]
pub struct Signature {
    pub proof: Vec<u8>,
}

/// The signature scheme.
#[derive(Clone, Debug)]
pub struct RPSSS {
    pub rp: RescuePrime,
    pub stark: Stark,
}

/// Whether a signature is bound to a document: it starts with the hash of
/// the document.
pub open spec fn bound_to(signature: Seq<u8>, document: Seq<u8>) -> bool {
    signature.len() >= DOCUMENT_HASH_LENGTH && signature.subrange(
        0,
        DOCUMENT_HASH_LENGTH as int,
    ) == blake3_hash(document)
}

/// Whether a signature is accepted for a document under a public key: it
/// is bound to the document, and what follows the hash is a proof, read
/// with the hash before it, that a trace of the permutation ends in the
/// public key.
pub open spec fn accepts(
    stark: Stark,
    public_key: PublicKey,
    signature: Seq<u8>,
    document: Seq<u8>,
) -> bool {
    bound_to(signature, document) && verify_spec(
        stark,
        signature,
        DOCUMENT_HASH_LENGTH as int,
        air_constants(),
        boundary_constraints_of(public_key.value),
    ) is Ok
}

/// The public key of a secret key: its image under the permutation.
pub open spec fn public_key_of(secret: int) -> PublicKey {
    PublicKey { value: BFieldElement(hash_spec(secret) as u64) }
}

/// What signing makes of a secret key, a document and random values: the
/// hash of the document with a proof at its end that the trace of the
/// permutation on the secret key ends in the image of the secret key; or
/// why there is no signature.
pub open spec fn signature_spec(
    stark: Stark,
    secret: int,
    document: Seq<u8>,
    randomizers: Seq<Seq<int>>,
) -> Result<Seq<u8>, StarkError> {
    prove_spec(
        stark,
        trace_of(secret),
        air_constants(),
        boundary_constraints_of(BFieldElement(hash_spec(secret) as u64)),
        randomizers,
        blake3_hash(document),
    )
}

/// Whether signing did what it makes of its inputs: it gave the signature
/// expected, or failed for the reason expected.
pub open spec fn signed(
    expected: Result<Seq<u8>, StarkError>,
    r: Result<Signature, StarkError>,
) -> bool {
    match expected {
        Ok(bytes) => r is Ok && r->Ok_0.proof@ == bytes,
        Err(e) => r is Err && r->Err_0 == e,
    }
}

/// The bytes `bytes` with bit `bit` of byte `place` flipped.
pub open spec fn flip_bit(bytes: Seq<u8>, place: int, bit: u8) -> Seq<u8> {
    bytes.update(place, bytes[place] ^ (1u8 << bit))
}

/// A flipped byte differs from the byte, and flipping it again gives the
/// byte back.
pub proof fn lemma_flip_byte(byte: u8, bit: u8)
    requires
        bit < 8,
    ensures
        byte ^ (1u8 << bit) != byte,
        (byte ^ (1u8 << bit)) ^ (1u8 << bit) == byte,
{
    assert(byte ^ (1u8 << bit) != byte) by (bit_vector)
        requires
            bit < 8,
    ;
    assert((byte ^ (1u8 << bit)) ^ (1u8 << bit) == byte) by (bit_vector);
}

/// Two different bits of one byte, flipped one after the other, do not give
/// the byte back.
pub proof fn lemma_flip_two_bits(byte: u8, first: u8, second: u8)
    requires
        first < 8,
        second < 8,
        first != second,
    ensures
        (byte ^ (1u8 << first)) ^ (1u8 << second) != byte,
{
    assert((byte ^ (1u8 << first)) ^ (1u8 << second) != byte) by (bit_vector)
        requires
            first < 8,
            second < 8,
            first != second,
    ;
}

/// A signature that is accepted for a document is rejected for it once any
/// single bit of its leading hash is flipped.
pub proof fn lemma_tampered_hash_is_rejected(
    stark: Stark,
    public_key: PublicKey,
    signature: Seq<u8>,
    document: Seq<u8>,
    place: int,
    bit: u8,
)
    requires
        accepts(stark, public_key, signature, document),
        0 <= place < DOCUMENT_HASH_LENGTH,
        bit < 8,
    ensures
        !accepts(stark, public_key, flip_bit(signature, place, bit), document),
{
    lemma_flip_byte(signature[place], bit);
    let tampered = flip_bit(signature, place, bit);
    assert(tampered.subrange(0, DOCUMENT_HASH_LENGTH as int)[place] != signature.subrange(
        0,
        DOCUMENT_HASH_LENGTH as int,
    )[place]);
}

/// The number of bytes that frame the first item of a proof: its tag and
/// the number of its words.
pub const FRAME_LENGTH: usize = 9;

/// A signature that is accepted for a document is rejected for it once any
/// single bit is flipped in the bytes that frame the first item of its
/// proof, the root of the trace.
pub proof fn lemma_tampered_frame_is_rejected(
    stark: Stark,
    public_key: PublicKey,
    signature: Seq<u8>,
    document: Seq<u8>,
    place: int,
    bit: u8,
)
    requires
        accepts(stark, public_key, signature, document),
        DOCUMENT_HASH_LENGTH <= place < DOCUMENT_HASH_LENGTH + FRAME_LENGTH,
        bit < 8,
    ensures
        !accepts(stark, public_key, flip_bit(signature, place, bit), document),
{
    lemma_auto_spec_u64_to_from_le_bytes();
    lemma_flip_byte(signature[place], bit);
    let at = DOCUMENT_HASH_LENGTH as int;
    let tampered = flip_bit(signature, place, bit);
    let read = parse_item(signature, at, TAG_DIGEST);
    assert(parse_digest(signature, at) is Ok);
    assert(read is Ok);
    assert(read->Ok_0.0.len() == 4);
    assert(word_at(signature, at + 1) == 4);
    if place > at {
        let before = signature.subrange(at + 1, at + 9);
        let after = tampered.subrange(at + 1, at + 9);
        assert(before[place - at - 1] != after[place - at - 1]);
        assert(spec_u64_to_le_bytes(spec_u64_from_le_bytes(before)) == before);
        assert(spec_u64_to_le_bytes(spec_u64_from_le_bytes(after)) == after);
        assert(word_at(tampered, at + 1) != 4);
    }
    assert(parse_digest(tampered, at) is Err);
}

/// Flipping the same bit twice restores validity: the signature is the
/// same again, and so is what `verify` says of it.
pub proof fn lemma_same_flip_twice_restores(
    stark: Stark,
    public_key: PublicKey,
    signature: Seq<u8>,
    document: Seq<u8>,
    place: int,
    bit: u8,
)
    requires
        0 <= place < signature.len(),
        bit < 8,
    ensures
        flip_bit(flip_bit(signature, place, bit), place, bit) == signature,
        accepts(stark, public_key, flip_bit(flip_bit(signature, place, bit), place, bit), document)
            == accepts(stark, public_key, signature, document),
{
    lemma_two_flips(signature, place, bit, place, bit);
}

/// Flipping the same bit twice gives the signature back; flipping two
/// different bits does not.
pub proof fn lemma_two_flips(
    signature: Seq<u8>,
    first_place: int,
    first_bit: u8,
    second_place: int,
    second_bit: u8,
)
    requires
        0 <= first_place < signature.len(),
        0 <= second_place < signature.len(),
        first_bit < 8,
        second_bit < 8,
    ensures
        (first_place == second_place && first_bit == second_bit) <==> flip_bit(
            flip_bit(signature, first_place, first_bit),
            second_place,
            second_bit,
        ) == signature,
{
    let once = flip_bit(signature, first_place, first_bit);
    let twice = flip_bit(once, second_place, second_bit);
    lemma_flip_byte(signature[first_place], first_bit);
    lemma_flip_byte(signature[second_place], second_bit);
    if first_place == second_place {
        if first_bit == second_bit {
            assert(twice =~= signature);
        } else {
            lemma_flip_two_bits(signature[first_place], first_bit, second_bit);
            assert(twice[first_place] != signature[first_place]);
        }
    } else {
        assert(twice[first_place] != signature[first_place]);
    }
}

/// Once a bit of the leading hash of an accepted signature is flipped,
/// flipping any other bit does not restore validity, whichever of the two
/// comes first.
pub proof fn lemma_two_flips_do_not_cancel(
    stark: Stark,
    public_key: PublicKey,
    signature: Seq<u8>,
    document: Seq<u8>,
    first_place: int,
    first_bit: u8,
    second_place: int,
    second_bit: u8,
)
    requires
        accepts(stark, public_key, signature, document),
        0 <= first_place < signature.len(),
        0 <= second_place < signature.len(),
        first_bit < 8,
        second_bit < 8,
        first_place != second_place || first_bit != second_bit,
        first_place < DOCUMENT_HASH_LENGTH || second_place < DOCUMENT_HASH_LENGTH,
    ensures
        !accepts(
            stark,
            public_key,
            flip_bit(flip_bit(signature, first_place, first_bit), second_place, second_bit),
            document,
        ),
{
    let once = flip_bit(signature, first_place, first_bit);
    let twice = flip_bit(once, second_place, second_bit);
    let length = DOCUMENT_HASH_LENGTH as int;
    lemma_flip_byte(signature[first_place], first_bit);
    lemma_flip_byte(signature[second_place], second_bit);
    if first_place == second_place {
        lemma_flip_two_bits(signature[first_place], first_bit, second_bit);
        assert(twice.subrange(0, length)[first_place] != signature.subrange(
            0,
            length,
        )[first_place]);
    } else if first_place < DOCUMENT_HASH_LENGTH {
        assert(twice.subrange(0, length)[first_place] != signature.subrange(
            0,
            length,
        )[first_place]);
    } else {
        assert(twice.subrange(0, length)[second_place] != signature.subrange(
            0,
            length,
        )[second_place]);
    }
}

/// A signature that is accepted for a document is rejected for every
/// document with another hash.
pub proof fn lemma_accepted_for_one_hash(
    stark: Stark,
    public_key: PublicKey,
    signature: Seq<u8>,
    document: Seq<u8>,
    other: Seq<u8>,
)
    requires
        accepts(stark, public_key, signature, document),
        blake3_hash(other) != blake3_hash(document),
    ensures
        !accepts(stark, public_key, signature, other),
{
}

impl RPSSS {
    /// A pair of keys from random bytes: the secret key is the element that
    /// the bytes stand for, the public key its image under the permutation.
    pub fn keygen_from_bytes(&self, bytes: &Vec<u8>) -> (r: (SecretKey, PublicKey))
        ensures
            r.0.value@ == bytes_value(bytes@),
            r.1.value@ == hash_spec(r.0.value@),
            r.1 == public_key_of(r.0.value@),
    {
        let sk = SecretKey { value: BFieldElement::from_bytes(bytes) };
        let pk = PublicKey { value: self.rp.hash(&sk.value) };
        proof {
            lemma_small_mod(pk.value.0 as nat, P as nat);
        }
        (sk, pk)
    }

    /// A fresh pair of keys: the public key is the image of the secret key
    /// under the permutation.
    pub fn keygen(&self) -> (r: (SecretKey, PublicKey))
        ensures
            r.1.value@ == hash_spec(r.0.value@),
            r.1 == public_key_of(r.0.value@),
            exists|bytes: Seq<u8>|
                bytes.len() == SECRET_KEY_BYTES && r.0.value@ == #[trigger] bytes_value(bytes),
    {
        let bytes = random_bytes(SECRET_KEY_BYTES);
        let r = self.keygen_from_bytes(&bytes);
        assert(r.0.value@ == bytes_value(bytes@));
        r
    }

    /// Whether `signature` is a signature on `document` under
    /// `public_key`: it has to start with the hash of the document, and
    /// what follows has to be a proof, read with the hash before it, that
    /// the signer knows the secret key. No signature makes this fail in any
    /// other way than by being rejected.
    pub fn verify(&self, public_key: &PublicKey, signature: &Signature, document: &[u8]) -> (r:
        bool)
        ensures
            r == accepts(self.stark, *public_key, signature.proof@, document@),
    {
        if signature.proof.len() < DOCUMENT_HASH_LENGTH {
            return false;
        }
        let document_hash = blake3_digest(document);
        let mut bytes: Vec<u8> = Vec::new();
        let mut i: usize = 0;
        while i < DOCUMENT_HASH_LENGTH
            invariant
                i <= DOCUMENT_HASH_LENGTH <= signature.proof.len(),
                document_hash@ == blake3_hash(document@),
                bytes@ == signature.proof@.subrange(0, i as int),
                forall|j: int| 0 <= j < i ==> signature.proof[j] == document_hash[j],
            decreases DOCUMENT_HASH_LENGTH - i,
        {
            if signature.proof[i] != document_hash[i] {
                assert(signature.proof@.subrange(0, DOCUMENT_HASH_LENGTH as int)[i as int]
                    != document_hash@[i as int]);
                return false;
            }
            bytes.push(signature.proof[i]);
            assert(bytes@ =~= signature.proof@.subrange(0, i + 1));
            i = i + 1;
        }
        assert(signature.proof@.subrange(0, DOCUMENT_HASH_LENGTH as int) =~= document_hash@);
        while i < signature.proof.len()
            invariant
                i <= signature.proof.len(),
                bytes@ == signature.proof@.subrange(0, i as int),
            decreases signature.proof.len() - i,
        {
            bytes.push(signature.proof[i]);
            assert(bytes@ =~= signature.proof@.subrange(0, i + 1));
            i = i + 1;
        }
        assert(bytes@ =~= signature.proof@);
        let mut proof_stream = ProofStream::from_bytes(bytes);
        proof_stream.set_index(DOCUMENT_HASH_LENGTH);

        let boundary_constraints = self.rp.get_boundary_constraints(&public_key.value);
        let transition_constraints = self.rp.get_air_constraints(&self.stark.omicron);
        let res = self.stark.verify(
            &mut proof_stream,
            &transition_constraints,
            &boundary_constraints,
        );

        res.is_ok()
    }

    /// A signature on `document` under the secret key `sk`, with the given
    /// random values mixed into the trace: the hash of the document, then a
    /// proof, made with the hash leading the transcript, that the signer
    /// knows `sk`. A signature that was made is accepted for the document
    /// under the public key of `sk`.
    pub fn sign_with_randomizers(
        &self,
        sk: &SecretKey,
        document: &[u8],
        randomizers: &Vec<Vec<BFieldElement>>,
    ) -> (r: Result<Signature, StarkError>)
        ensures
            signed(
                signature_spec(
                    self.stark,
                    sk.value@,
                    document@,
                    matrix_values(randomizers@),
                ),
                r,
            ),
            r is Ok ==> bound_to(r->Ok_0.proof@, document@),
            r is Ok ==> accepts(self.stark, public_key_of(sk.value@), r->Ok_0.proof@, document@),
    {
        let (output, trace) = self.rp.eval_and_trace(&sk.value);
        proof {
            lemma_small_mod(output.0 as nat, P as nat);
            assert(output == BFieldElement(hash_spec(sk.value@) as u64));
        }
        let document_hash = blake3_digest(document);
        let mut prefix: Vec<u8> = Vec::new();
        let mut i: usize = 0;
        while i < DOCUMENT_HASH_LENGTH
            invariant
                i <= DOCUMENT_HASH_LENGTH,
                prefix@ == document_hash@.subrange(0, i as int),
            decreases DOCUMENT_HASH_LENGTH - i,
        {
            prefix.push(document_hash[i]);
            assert(prefix@ =~= document_hash@.subrange(0, i + 1));
            i = i + 1;
        }
        assert(prefix@ =~= document_hash@);
        let mut proof_stream = ProofStream::new_with_prefix(&prefix);
        let transition_constraints = self.rp.get_air_constraints(&self.stark.omicron);
        let boundary_constraints = self.rp.get_boundary_constraints(&output);
        match self.stark.prove_with_randomizers(
            trace,
            &transition_constraints,
            &boundary_constraints,
            randomizers,
            &mut proof_stream,
        ) {
            Ok(()) => {},
            Err(e) => {
                return Err(e);
            },
        }

        Ok(Signature { proof: proof_stream.serialize() })
    }

    /// A signature on `document` under the secret key `sk`: the hash of the
    /// document, then a proof, made with the hash leading the transcript
    /// and with fresh random values mixed into the trace, as many per column
    /// as the engine takes, that the signer knows `sk`. It fails only where
    /// the proof with those values fails. A signature that was made is
    /// accepted for the document under the public key of `sk`.
    pub fn sign(&self, sk: &SecretKey, document: &[u8]) -> (r: Result<Signature, StarkError>)
        ensures
            exists|randomizers: Seq<Seq<int>>|
                shaped_values(randomizers, TRACE_WIDTH as nat, self.stark.num_randomizers as nat)
                    && #[trigger] signed(
                    signature_spec(self.stark, sk.value@, document@, randomizers),
                    r,
                ),
            r is Ok ==> bound_to(r->Ok_0.proof@, document@),
            r is Ok ==> accepts(self.stark, public_key_of(sk.value@), r->Ok_0.proof@, document@),
    {
        let mut randomizers: Vec<Vec<BFieldElement>> = Vec::new();
        let mut c: usize = 0;
        while c < TRACE_WIDTH
            invariant
                c <= TRACE_WIDTH,
                randomizers.len() == c,
                forall|k: int|
                    0 <= k < c ==> (#[trigger] randomizers[k]).len()
                        == self.stark.num_randomizers,
            decreases TRACE_WIDTH - c,
        {
            randomizers.push(random_elements(self.stark.num_randomizers));
            c = c + 1;
        }
        let r = self.sign_with_randomizers(sk, document, &randomizers);
        proof {
            lemma_shapes_agree(
                randomizers@,
                TRACE_WIDTH as nat,
                self.stark.num_randomizers as nat,
            );
            assert(signed(
                signature_spec(self.stark, sk.value@, document@, matrix_values(randomizers@)),
                r,
            ));
        }
        r
    }
}

} // verus!
