//! The low-degree test: a proof that a codeword over the extension field is
//! close to the values of a polynomial of low degree.
//!
//! The prover commits to the codeword, halves it with a challenge of the
//! verifier, commits to the result, and so on, until the codeword is short
//! enough to be sent whole. The verifier then asks for pairs of values
//! that were folded into one, and checks each fold and each commitment. A
//! single check that fails ends the test. The prover gives up where its
//! last codeword is not of low degree; what it does write, the verifier
//! accepts.

pub mod completeness;

use crate::shared_math::b_field_element::BFieldElement;
use crate::shared_math::b_field_element::has_inverse;
use crate::shared_math::b_field_element::inverse_of;
use crate::shared_math::b_field_element::is_power_of_two;
use crate::shared_math::b_field_element::lemma_inverse_of;
use crate::shared_math::b_field_element::lemma_mul_mod_assoc;
use crate::shared_math::b_field_element::lemma_mul_mod_comm;
use crate::shared_math::b_field_element::lemma_mul_mod_unit;
use crate::shared_math::b_field_element::lemma_pow2_64;
use crate::shared_math::b_field_element::lemma_pow2_step;
use crate::shared_math::b_field_element::mul_mod;
use crate::shared_math::b_field_element::P;
use crate::shared_math::b_field_element::pow2;
use crate::shared_math::b_field_element::pow_mod;
use crate::shared_math::b_field_element::values;
use crate::shared_math::fri_domain::domain_point;
use crate::shared_math::fri_domain::domain_points;
use crate::shared_math::fri_domain::FriDomain;
use crate::shared_math::mpolynomial::x_values;
use crate::shared_math::polynomial::degree_of;
use crate::shared_math::polynomial::interpolable;
use crate::shared_math::polynomial::interpolant;
use crate::shared_math::polynomial::lemma_interpolant_length;
use crate::shared_math::polynomial::Polynomial;
use crate::shared_math::stark::table::copy_x_codeword;
use crate::shared_math::stark::table::x_component;
use crate::shared_math::stark::table::x_components;
use crate::shared_math::stark::table::x_matrix_values;
use crate::shared_math::x_field_element::x_add;
use crate::shared_math::x_field_element::x_mul;
use crate::shared_math::x_field_element::x_scale;
use crate::shared_math::x_field_element::x_sub;
use crate::shared_math::x_field_element::XFieldElement;
use crate::shared_math::x_field_element::XValue;
use crate::shared_math::xfri::completeness::accepted_after;
use crate::shared_math::xfri::completeness::asked;
use crate::shared_math::xfri::completeness::committed_codewords;
use crate::shared_math::xfri::completeness::lemma_proof_is_accepted_after;
use crate::shared_math::xfri::completeness::trees_sized;
use crate::util_types::merkle_tree::Digest;
use crate::util_types::merkle_tree::digest_views;
use crate::util_types::merkle_tree::lemma_tree_is_sized;
use crate::util_types::merkle_tree::levels_of;
use crate::util_types::merkle_tree::levels_sized;
use crate::util_types::merkle_tree::MerkleTree;
use crate::util_types::merkle_tree::path_of;
use crate::util_types::merkle_tree::root_from_path;
use crate::util_types::merkle_tree::root_of;
use crate::util_types::proof_stream::digest_item;
use crate::util_types::proof_stream::extends;
use crate::util_types::proof_stream::lemma_extends_by;
use crate::util_types::proof_stream::lemma_extends_twice;
use crate::util_types::proof_stream::parse_digest;
use crate::util_types::proof_stream::parse_path;
use crate::util_types::proof_stream::parse_x_elements;
use crate::util_types::proof_stream::path_item;
use crate::util_types::proof_stream::ProofStream;
use crate::util_types::proof_stream::x_canonical;
use crate::util_types::proof_stream::x_elements_item;
use crate::utils::blake3_digest;
use crate::utils::blake3_hash;
use crate::utils::sample_index;
use crate::utils::sample_x;
use crate::utils::sampled_index;
use crate::utils::sampled_x;
use vstd::arithmetic::div_mod::*;
use vstd::bytes::*;
use vstd::prelude::*;

verus! {

/// The length at which a codeword is sent whole instead of being folded
/// again.
pub const LAST_CODEWORD_LENGTH: usize = 32;

/// Why a low-degree test failed.
#[derive(Debug, Clone, Copy, PartialEq, Eq, Structural)]
pub enum FriError {
    /// The transcript ended early or held an item of another kind.
    MalformedTranscript,
    /// The codeword does not fit the domain, or the domain cannot be folded.
    BadParameters,
    /// A value is not under the root that commits to its codeword.
    BadCommitment,
    /// The fold of two values is not the value that the next codeword has.
    BadColinearity,
    /// The last codeword is not that of a polynomial of low enough degree.
    BadLastCodeword,
}

/// The values of elements of the extension field are in the canonical
/// range.
pub proof fn lemma_views_are_canonical(elements: Seq<XFieldElement>)
    ensures
        x_canonical(x_values(elements)),
{
    assert forall|i: int| 0 <= i < elements.len() implies {
        &&& 0 <= (#[trigger] x_values(elements)[i]).c0 < P
        &&& 0 <= x_values(elements)[i].c1 < P
        &&& 0 <= x_values(elements)[i].c2 < P
    } by {
        let x = elements[i];
        assert(x_values(elements)[i] == x@);
        lemma_mod_bound(x.coefficients[0].0 as int, P as int);
        lemma_mod_bound(x.coefficients[1].0 as int, P as int);
        lemma_mod_bound(x.coefficients[2].0 as int, P as int);
    }
}

/// The 24 bytes of an element of the extension field: the canonical values
/// of its coefficients, eight bytes each.
pub open spec fn x_bytes(x: XValue) -> Seq<u8> {
    spec_u64_to_le_bytes(x.c0 as u64) + spec_u64_to_le_bytes(x.c1 as u64)
        + spec_u64_to_le_bytes(x.c2 as u64)
}

/// The fold of the values `a` at a point `x` and `b` at `-x` into the value
/// at `x^2`, with the challenge `alpha`:
/// `(a + b) / 2 + alpha * (a - b) / (2 * x)`.
pub open spec fn fold_value(a: XValue, b: XValue, alpha: XValue, half: int, x_inverse: int) -> XValue {
    x_add(
        x_scale(x_add(a, b), half),
        x_mul(alpha, x_scale(x_sub(a, b), mul_mod(half, x_inverse))),
    )
}

/// The number of times that a codeword of the given length is folded: as
/// long as it is longer than the last codeword may be.
pub open spec fn rounds_of(length: nat) -> nat
    decreases length,
{
    if length <= LAST_CODEWORD_LENGTH || length % 2 != 0 {
        0
    } else {
        1 + rounds_of(length / 2)
    }
}

/// The leaf that commits to an element of the extension field: the hash of
/// its bytes.
pub fn x_leaf(x: &XFieldElement) -> (r: Digest)
    ensures
        r@ == blake3_hash(x_bytes(x@)),
{
    let mut bytes: Vec<u8> = Vec::new();
    let mut k: usize = 0;
    while k < 3
        invariant
            k <= 3,
            k == 0 ==> bytes@ == Seq::<u8>::empty(),
            k == 1 ==> bytes@ == spec_u64_to_le_bytes(x@.c0 as u64),
            k == 2 ==> bytes@ == spec_u64_to_le_bytes(x@.c0 as u64) + spec_u64_to_le_bytes(
                x@.c1 as u64,
            ),
            k == 3 ==> bytes@ == x_bytes(x@),
        decreases 3 - k,
    {
        let word = u64_to_le_bytes(x.coefficients[k].value());
        let ghost start = bytes@;
        let mut j: usize = 0;
        while j < 8
            invariant
                j <= 8,
                word.len() == 8,
                bytes@ == start + word@.subrange(0, j as int),
            decreases 8 - j,
        {
            bytes.push(word[j]);
            assert(bytes@ =~= start + word@.subrange(0, j + 1));
            j = j + 1;
        }
        assert(word@.subrange(0, 8) =~= word@);
        assert(bytes@ =~= start + word@);
        k = k + 1;
    }
    blake3_digest(bytes.as_slice())
}

/// The fold of two values into one.
pub fn fold_pair(
    a: XFieldElement,
    b: XFieldElement,
    alpha: XFieldElement,
    half: BFieldElement,
    x_inverse: BFieldElement,
) -> (r: XFieldElement)
    ensures
        r@ == fold_value(a@, b@, alpha@, half@, x_inverse@),
{
    a.add(b).scale(half).add(alpha.mul(a.sub(b).scale(half.mul(x_inverse))))
}

/// The tree that commits to a codeword; `None` unless the number of its
/// elements is a power of two.
pub fn commit_codeword(codeword: &Vec<XFieldElement>) -> (r: Option<MerkleTree>)
    ensures
        r is Some <==> is_power_of_two(codeword.len() as nat),
        r is Some ==> r->Some_0.well_formed() && r->Some_0.leaves() == x_leaves(
            x_values(codeword@),
        ) && r->Some_0.leaves().len() == codeword.len(),
{
    let mut leaves: Vec<Digest> = Vec::new();
    let mut i: usize = 0;
    while i < codeword.len()
        invariant
            i <= codeword.len(),
            leaves.len() == i,
            forall|j: int| 0 <= j < i ==> leaves[j]@ == blake3_hash(x_bytes(codeword[j]@)),
        decreases codeword.len() - i,
    {
        leaves.push(x_leaf(&codeword[i]));
        i = i + 1;
    }
    assert(digest_views(leaves@) =~= x_leaves(x_values(codeword@)));
    MerkleTree::from_digests(leaves)
}

/// A codeword over the points `offset * omega^i` folded into one of half
/// the length over the squares of those points; `None` where the length is
/// odd or a point has no inverse.
pub fn fold_codeword(
    codeword: &Vec<XFieldElement>,
    alpha: XFieldElement,
    offset: BFieldElement,
    omega: BFieldElement,
) -> (r: Option<Vec<XFieldElement>>)
    ensures
        match folded_codeword(x_values(codeword@), alpha@, offset@, omega@) {
            Some(folded) => r is Some && x_values(r->Some_0@) == folded && 2 * r->Some_0.len()
                == codeword.len(),
            None => r is None,
        },
{
    let n = codeword.len();
    if n % 2 != 0 {
        return None;
    }
    let half = BFieldElement(HALF);
    let mut out: Vec<XFieldElement> = Vec::new();
    let mut x = BFieldElement::new(offset.value());
    let mut i: usize = 0;
    proof {
        lemma_half();
        lemma_mul_mod_unit(offset@);
        lemma_mod_twice(offset.0 as int, P as int);
    }
    while i < n / 2
        invariant
            i <= n / 2,
            n == codeword.len(),
            n % 2 == 0,
            half@ == HALF,
            out.len() == i,
            x@ == domain_point(offset@, omega@, i as nat),
            forall|j: int|
                0 <= j < i ==> has_inverse(#[trigger] domain_point(offset@, omega@, j as nat)),
            forall|j: int|
                0 <= j < i ==> out[j]@ == fold_value(
                    codeword[j]@,
                    codeword[j + n / 2]@,
                    alpha@,
                    HALF as int,
                    inverse_of(domain_point(offset@, omega@, j as nat)),
                ),
        decreases n / 2 - i,
    {
        let x_inverse = match x.inverse() {
            Some(v) => v,
            None => {
                proof {
                    let j: int = i as int;
                    assert(0 <= j < (n / 2) as nat);
                    assert(!has_inverse(domain_point(offset@, omega@, j as nat)));
                }
                return None;
            },
        };
        proof {
            lemma_small_mod(x_inverse.0 as nat, P as nat);
            lemma_inverse_of(x@, x_inverse@);
            let pw = pow_mod(omega@, i as nat);
            lemma_mul_mod_assoc(offset@, pw, omega@);
            lemma_mul_mod_comm(pw, omega@);
        }
        out.push(fold_pair(codeword[i], codeword[i + n / 2], alpha, half, x_inverse));
        x = x.mul(omega);
        i = i + 1;
    }
    proof {
        let expected = folded_codeword(x_values(codeword@), alpha@, offset@, omega@)->Some_0;
        assert(x_values(out@) =~= expected);
    }
    Some(out)
}

/// The parameters of a low-degree test.
#[derive(Debug, Clone, Copy)]
pub struct Fri {
    /// The domain of the codeword to be tested.
    pub domain: FriDomain,
    /// How many times longer the domain is than the degree that is claimed.
    pub expansion_factor: usize,
    /// How many pairs of values the verifier asks for.
    pub colinearity_checks_count: usize,
}

impl Fri {
    /// The number of times that the codeword is folded.
    pub fn num_rounds(&self) -> (r: usize)
        ensures
            r == rounds_of(self.domain.length as nat),
            r <= 64,
    {
        let mut n = self.domain.length;
        let mut rounds: usize = 0;
        assert(n * pow2(0) == n) by (nonlinear_arith)
            requires
                pow2(0) == 1,
        ;
        while n > LAST_CODEWORD_LENGTH && n % 2 == 0
            invariant
                rounds + rounds_of(n as nat) == rounds_of(self.domain.length as nat),
                rounds <= 64,
                n * pow2(rounds as nat) <= usize::MAX,
            decreases n,
        {
            proof {
                lemma_pow2_step(rounds as nat);
                assert((n / 2) * pow2((rounds + 1) as nat) <= n * pow2(rounds as nat)) by (nonlinear_arith)
                    requires
                        pow2((rounds + 1) as nat) == 2 * pow2(rounds as nat),
                        n % 2 == 0,
                ;
                if rounds == 64 {
                    lemma_pow2_64();
                }
            }
            n = n / 2;
            rounds = rounds + 1;
        }
        rounds
    }

    /// Commits to the codeword of one round and folds it for the next:
    /// writes the root of the codeword to the transcript, draws the
    /// challenge from the transcript, and folds.
    pub fn commit_once(
        proof_stream: &mut ProofStream,
        state: CommitState,
        trees: &mut Vec<MerkleTree>,
        codewords: &mut Vec<Vec<XFieldElement>>,
    ) -> (r: Result<CommitState, FriError>)
        requires
            old(trees).len() == old(codewords).len(),
            committed(old(trees)@, old(codewords)@),
        ensures
            final(proof_stream).read_index == old(proof_stream).read_index,
            extends(old(proof_stream).transcript@, final(proof_stream).transcript@),
            final(trees).len() == final(codewords).len(),
            committed(final(trees)@, final(codewords)@),
            r is Ok ==> final(codewords)@ == old(codewords)@.push(state.current),
            match commit_step(
                state.view_with(x_matrix_values(old(codewords)@), old(proof_stream).transcript@),
            ) {
                Ok(view) => r is Ok && r->Ok_0.view_with(
                    x_matrix_values(final(codewords)@),
                    final(proof_stream).transcript@,
                ) == view,
                Err(e) => r == Err::<CommitState, FriError>(e),
            },
    {
        proof {
            lemma_extends_by(proof_stream.transcript@, Seq::<u8>::empty());
            assert(proof_stream.transcript@ + Seq::<u8>::empty() =~= proof_stream.transcript@);
        }
        let tree = match commit_codeword(&state.current) {
            Some(tree) => tree,
            None => {
                return Err(FriError::BadParameters);
            },
        };
        let root = tree.get_root();
        proof_stream.push_digest(&root);
        let alpha = sample_x(&proof_stream.prover_fiat_shamir(), 0);
        let folded = match fold_codeword(&state.current, alpha, state.offset, state.omega) {
            Some(folded) => folded,
            None => {
                return Err(FriError::BadParameters);
            },
        };
        if state.current.len() < 2 {
            return Err(FriError::BadParameters);
        }
        let ghost old_trees = trees@;
        let ghost old_codewords = codewords@;
        let ghost before = x_matrix_values(codewords@);
        trees.push(tree);
        codewords.push(state.current);
        proof {
            assert(x_matrix_values(codewords@) =~= before.push(x_values(state.current@)));
            assert forall|k: int| 0 <= k < trees.len() implies holds(
                #[trigger] trees[k],
                codewords[k],
            ) by {
                if k < old_trees.len() {
                    assert(trees[k] == old_trees[k]);
                    assert(codewords[k] == old_codewords[k]);
                    assert(holds(old_trees[k], old_codewords[k]));
                }
            }
        }
        Ok(
            CommitState {
                current: folded,
                offset: state.offset.mul(state.offset),
                omega: state.omega.mul(state.omega),
            },
        )
    }

    /// Answers the question for one place in one round: writes the two
    /// values of the round's codeword that the place belongs to, each with
    /// its path, to the transcript.
    pub fn answer_once(
        &self,
        proof_stream: &mut ProofStream,
        trees: &Vec<MerkleTree>,
        codewords: &Vec<Vec<XFieldElement>>,
        round: usize,
        place: usize,
        top: &mut Vec<usize>,
    ) -> (r: usize)
        requires
            trees.len() == codewords.len(),
            committed(trees@, codewords@),
            round < codewords.len(),
            codewords[0].len() == self.domain.length,
            forall|i: int| 0 <= i < old(top).len() ==> (#[trigger] old(top)[i]) < self.domain.length,
        ensures
            final(proof_stream).read_index == old(proof_stream).read_index,
            extends(old(proof_stream).transcript@, final(proof_stream).transcript@),
            forall|i: int|
                0 <= i < final(top).len() ==> (#[trigger] final(top)[i]) < self.domain.length,
            query_view(r as int, index_views(final(top)@), final(proof_stream).transcript@) == answer_step(
                x_matrix_values(codewords@),
                round as int,
                query_view(place as int, index_views(old(top)@), old(proof_stream).transcript@),
            ),
    {
        let ghost start = proof_stream.transcript@;
        assert(holds(trees[round as int], codewords[round as int]));
        let ghost codeword = x_values(codewords[round as int]@);
        assert(x_matrix_values(codewords@)[round as int] == codeword);
        let half = codewords[round].len() / 2;
        let a = place % half;
        let b = a + half;
        let ghost before = index_views(top@);
        if round == 0 {
            top.push(a);
            top.push(b);
            assert(index_views(top@) =~= before.push(a as int).push(b as int));
        }
        let mut pair: Vec<XFieldElement> = Vec::new();
        pair.push(codewords[round][a]);
        pair.push(codewords[round][b]);
        assert(x_values(pair@) =~= seq![codeword[a as int], codeword[b as int]]);
        proof_stream.push_x_elements(&pair);
        let ghost first = proof_stream.transcript@;
        let path_a = trees[round].get_authentication_path(a);
        proof_stream.push_path(&path_a);
        let ghost second = proof_stream.transcript@;
        let path_b = trees[round].get_authentication_path(b);
        proof_stream.push_path(&path_b);
        proof {
            lemma_extends_twice(start, first, second);
            lemma_extends_twice(start, second, proof_stream.transcript@);
        }
        a
    }

    /// Proves that `codeword` is close to a polynomial of low degree:
    /// writes the commitments, the last codeword and the answers to the
    /// verifier's questions to the transcript, and returns the places of
    /// the values of `codeword` that were asked for. Fails, with the
    /// commitments written, where the last codeword is not of low degree.
    pub fn prove(&self, codeword: &Vec<XFieldElement>, proof_stream: &mut ProofStream) -> (r:
        Result<Vec<usize>, FriError>)
        ensures
            final(proof_stream).read_index == old(proof_stream).read_index,
            extends(old(proof_stream).transcript@, final(proof_stream).transcript@),
            r is Ok ==> forall|i: int|
                0 <= i < r->Ok_0.len() ==> (#[trigger] r->Ok_0[i]) < self.domain.length,
            match prove_spec(*self, x_values(codeword@), old(proof_stream).transcript@) {
                Ok((top, transcript)) => r is Ok && index_views(r->Ok_0@) == top && final(proof_stream).transcript@ == transcript,
                Err(e) => r == Err::<Vec<usize>, FriError>(e),
            },
            r is Ok ==> accepted_after(
                *self,
                old(proof_stream).transcript@.len() as int,
                final(proof_stream).transcript@,
                asked(x_values(codeword@), index_views(r->Ok_0@)),
            ),
    {
        let n0 = self.domain.length;
        let ghost start = proof_stream.transcript@;
        proof {
            lemma_extends_by(start, Seq::<u8>::empty());
            assert(start + Seq::<u8>::empty() =~= start);
        }
        if codeword.len() != n0 || n0 == 0 {
            return Err(FriError::BadParameters);
        }
        let rounds = self.num_rounds();
        let mut state = CommitState {
            current: copy_x_codeword(codeword),
            offset: self.domain.offset,
            omega: self.domain.omega,
        };
        let mut trees: Vec<MerkleTree> = Vec::new();
        let mut codewords: Vec<Vec<XFieldElement>> = Vec::new();
        let ghost commits = commits_spec(
            rounds as nat,
            state.view_with(x_matrix_values(codewords@), start),
        );
        assert(state.view_with(x_matrix_values(codewords@), start) =~= first_commit(
            *self,
            x_values(codeword@),
            start,
        ));
        let mut round: usize = 0;
        while round < rounds
            invariant
                round <= rounds,
                rounds == rounds_of(self.domain.length as nat),
                n0 == self.domain.length,
                n0 > 0,
                codeword.len() == n0,
                proof_stream.read_index == old(proof_stream).read_index,
                start == old(proof_stream).transcript@,
                extends(start, proof_stream.transcript@),
                trees.len() == round,
                codewords.len() == round,
                committed(trees@, codewords@),
                round == 0 ==> state.current.len() == n0,
                round > 0 ==> codewords[0].len() == n0,
                commits == commits_spec(
                    rounds_of(self.domain.length as nat),
                    first_commit(*self, x_values(codeword@), old(proof_stream).transcript@),
                ),
                commits == commits_spec(
                    (rounds - round) as nat,
                    state.view_with(x_matrix_values(codewords@), proof_stream.transcript@),
                ),
            decreases rounds - round,
        {
            let ghost grown = proof_stream.transcript@;
            state = match Self::commit_once(proof_stream, state, &mut trees, &mut codewords) {
                Ok(state) => state,
                Err(e) => {
                    proof {
                        lemma_extends_twice(start, grown, proof_stream.transcript@);
                    }
                    return Err(e);
                },
            };
            proof {
                lemma_extends_twice(start, grown, proof_stream.transcript@);
            }
            round = round + 1;
        }
        if !self.last_codeword_is_low_degree(&state.current, state.offset, state.omega) {
            return Err(FriError::BadLastCodeword);
        }
        let ghost grown = proof_stream.transcript@;
        proof_stream.push_x_elements(&state.current);
        proof {
            lemma_extends_twice(start, grown, proof_stream.transcript@);
        }
        let seed = proof_stream.prover_fiat_shamir();
        let mut top: Vec<usize> = Vec::new();
        let ghost values = x_matrix_values(codewords@);
        let ghost goal = queries_spec(
            values,
            n0 as int,
            seed@,
            0,
            self.colinearity_checks_count as nat,
            Seq::<int>::empty(),
            proof_stream.transcript@,
        );
        assert(index_views(top@) =~= Seq::<int>::empty());
        assert(prove_spec(*self, x_values(codeword@), start) == Ok::<(Seq<int>, Seq<u8>), FriError>(
            goal,
        ));
        let mut check: usize = 0;
        while check < self.colinearity_checks_count
            invariant
                check <= self.colinearity_checks_count,
                n0 == self.domain.length,
                n0 > 0,
                proof_stream.read_index == old(proof_stream).read_index,
                start == old(proof_stream).transcript@,
                extends(start, proof_stream.transcript@),
                trees.len() == rounds,
                codewords.len() == rounds,
                committed(trees@, codewords@),
                rounds > 0 ==> codewords[0].len() == n0,
                values == x_matrix_values(codewords@),
                forall|i: int| 0 <= i < top.len() ==> (#[trigger] top[i]) < n0,
                prove_spec(*self, x_values(codeword@), old(proof_stream).transcript@) == Ok::<
                    (Seq<int>, Seq<u8>),
                    FriError,
                >(goal),
                goal == queries_spec(
                    values,
                    n0 as int,
                    seed@,
                    check as nat,
                    self.colinearity_checks_count as nat,
                    index_views(top@),
                    proof_stream.transcript@,
                ),
            decreases self.colinearity_checks_count - check,
        {
            let mut place = sample_index(&seed, check as u64, n0);
            if rounds == 0 {
                let ghost before = index_views(top@);
                top.push(place);
                assert(index_views(top@) =~= before.push(place as int));
            } else {
                let ghost answers = answers_spec(
                    values,
                    0,
                    query_view(place as int, index_views(top@), proof_stream.transcript@),
                );
                let mut round: usize = 0;
                while round < rounds
                    invariant
                        round <= rounds,
                        rounds == codewords.len(),
                        rounds > 0,
                        n0 == self.domain.length,
                        proof_stream.read_index == old(proof_stream).read_index,
                        start == old(proof_stream).transcript@,
                        extends(start, proof_stream.transcript@),
                        trees.len() == rounds,
                        committed(trees@, codewords@),
                        codewords[0].len() == n0,
                        values == x_matrix_values(codewords@),
                        forall|i: int| 0 <= i < top.len() ==> (#[trigger] top[i]) < n0,
                        answers == answers_spec(
                            values,
                            round as nat,
                            query_view(place as int, index_views(top@), proof_stream.transcript@),
                        ),
                    decreases rounds - round,
                {
                    let ghost grown = proof_stream.transcript@;
                    place = self.answer_once(
                        proof_stream,
                        &trees,
                        &codewords,
                        round,
                        place,
                        &mut top,
                    );
                    proof {
                        lemma_extends_twice(start, grown, proof_stream.transcript@);
                    }
                    round = round + 1;
                }
            }
            check = check + 1;
        }
        proof {
            assert(committed_codewords(*self, x_values(codeword@), start) == values);
            assert(trees_sized(values)) by {
                assert forall|k: int| 0 <= k < values.len() implies levels_sized(
                    levels_of(x_leaves(#[trigger] values[k])),
                ) by {
                    assert(holds(trees[k], codewords[k]));
                    lemma_tree_is_sized(trees[k]);
                }
            }
            lemma_views_are_canonical(codeword@);
            lemma_proof_is_accepted_after(*self, x_values(codeword@), start);
        }
        Ok(top)
    }

    /// Reads the commitments of all rounds from the transcript: for each
    /// round the root of its codeword, with the challenge that the
    /// transcript gives after it and the domain of the round.
    pub fn read_commitments(&self, proof_stream: &mut ProofStream) -> (r: Result<
        FriCommitments,
        FriError,
    >)
        ensures
            final(proof_stream).transcript == old(proof_stream).transcript,
            match commitments_spec(
                old(proof_stream).transcript@,
                rounds_of(self.domain.length as nat),
                first_commitments(*self, old(proof_stream).read_index as int),
            ) {
                Ok(view) => r is Ok && r->Ok_0.view_at(final(proof_stream).read_index as int)
                    == view && r->Ok_0.well_formed() && r->Ok_0.roots.len() == rounds_of(
                    self.domain.length as nat,
                ),
                Err(e) => r == Err::<FriCommitments, FriError>(e),
            },
    {
        let rounds = self.num_rounds();
        let ghost bytes = proof_stream.transcript@;
        let ghost goal = commitments_spec(
            bytes,
            rounds as nat,
            first_commitments(*self, proof_stream.read_index as int),
        );
        let mut commitments = FriCommitments {
            roots: Vec::new(),
            alphas: Vec::new(),
            offsets: Vec::new(),
            omegas: Vec::new(),
            offset: self.domain.offset,
            omega: self.domain.omega,
            length: self.domain.length,
        };
        assert(commitments.view_at(proof_stream.read_index as int) =~= first_commitments(
            *self,
            proof_stream.read_index as int,
        ));
        let mut round: usize = 0;
        while round < rounds
            invariant
                round <= rounds,
                bytes == old(proof_stream).transcript@,
                proof_stream.transcript == old(proof_stream).transcript,
                commitments.roots.len() == round,
                commitments.alphas.len() == round,
                commitments.offsets.len() == round,
                commitments.omegas.len() == round,
                rounds == rounds_of(self.domain.length as nat),
                goal == commitments_spec(
                    old(proof_stream).transcript@,
                    rounds_of(self.domain.length as nat),
                    first_commitments(*self, old(proof_stream).read_index as int),
                ),
                goal == commitments_spec(
                    bytes,
                    (rounds - round) as nat,
                    commitments.view_at(proof_stream.read_index as int),
                ),
            decreases rounds - round,
        {
            let ghost before = commitments.view_at(proof_stream.read_index as int);
            let root = match proof_stream.pull_digest() {
                Ok(root) => root,
                Err(_) => {
                    return Err(FriError::MalformedTranscript);
                },
            };
            let alpha = sample_x(&proof_stream.verifier_fiat_shamir(), 0);
            commitments.roots.push(root);
            commitments.alphas.push(alpha);
            commitments.offsets.push(commitments.offset);
            commitments.omegas.push(commitments.omega);
            commitments.offset = commitments.offset.mul(commitments.offset);
            commitments.omega = commitments.omega.mul(commitments.omega);
            commitments.length = commitments.length / 2;
            proof {
                let after = commitments.view_at(proof_stream.read_index as int);
                let next = proof_stream.read_index as int;
                let expected = CommitmentsView {
                    roots: before.roots.push(root@),
                    alphas: before.alphas.push(sampled_x(blake3_hash(bytes.subrange(0, next)), 0)),
                    offsets: before.offsets.push(before.offset),
                    omegas: before.omegas.push(before.omega),
                    offset: mul_mod(before.offset, before.offset),
                    omega: mul_mod(before.omega, before.omega),
                    length: before.length / 2,
                    next,
                };
                assert(after.roots =~= expected.roots);
                assert(after.alphas =~= expected.alphas);
                assert(after.offsets =~= expected.offsets);
                assert(after.omegas =~= expected.omegas);
                assert(after == expected);
            }
            round = round + 1;
        }
        Ok(commitments)
    }

    /// Whether the last codeword is that of a polynomial of low enough
    /// degree over the domain of the given offset and generator: each of
    /// its three coefficients is interpolated, and its degree compared with
    /// the length over the expansion factor.
    pub fn last_codeword_is_low_degree(
        &self,
        last: &Vec<XFieldElement>,
        offset: BFieldElement,
        omega: BFieldElement,
    ) -> (r: bool)
        ensures
            r == last_is_low_degree(*self, x_values(last@), offset@, omega@),
    {
        if self.expansion_factor == 0 || last.len() > LAST_CODEWORD_LENGTH {
            return false;
        }
        let domain = FriDomain { offset, omega, length: last.len() };
        let points = domain.b_domain_values();
        let bound = (last.len() / self.expansion_factor) as i64;
        is_low_degree(last, &points, bound)
    }

    /// Checks one fold: reads a pair of values of the codeword of a round
    /// with their paths, checks that both are under the root of the round,
    /// and folds them with the challenge of the round.
    pub fn check_round(
        proof_stream: &mut ProofStream,
        root: &Digest,
        alpha: XFieldElement,
        offset: BFieldElement,
        omega: BFieldElement,
        place: usize,
        size: usize,
    ) -> (r: Result<RoundOutcome, FriError>)
        ensures
            final(proof_stream).transcript == old(proof_stream).transcript,
            match round_spec(
                old(proof_stream).transcript@,
                old(proof_stream).read_index as int,
                root@,
                alpha@,
                offset@,
                omega@,
                place as int,
                size as int,
            ) {
                Ok(view) => r is Ok && r->Ok_0.view_at(final(proof_stream).read_index as int)
                    == view,
                Err(e) => r == Err::<RoundOutcome, FriError>(e),
            },
    {
        let half_size = size / 2;
        if half_size == 0 {
            return Err(FriError::BadParameters);
        }
        let a = place % half_size;
        let b = a + half_size;
        let pair = match proof_stream.pull_x_elements() {
            Ok(pair) => pair,
            Err(_) => {
                return Err(FriError::MalformedTranscript);
            },
        };
        if pair.len() != 2 {
            return Err(FriError::MalformedTranscript);
        }
        let path_a = match proof_stream.pull_path() {
            Ok(path) => path,
            Err(_) => {
                return Err(FriError::MalformedTranscript);
            },
        };
        let path_b = match proof_stream.pull_path() {
            Ok(path) => path,
            Err(_) => {
                return Err(FriError::MalformedTranscript);
            },
        };
        assert(x_values(pair@)[0] == pair[0]@ && x_values(pair@)[1] == pair[1]@);
        if !MerkleTree::verify_authentication_path(root, a, &x_leaf(&pair[0]), &path_a)
            || !MerkleTree::verify_authentication_path(root, b, &x_leaf(&pair[1]), &path_b) {
            return Err(FriError::BadCommitment);
        }
        let x = offset.mul(omega.mod_pow_u64(a as u64));
        let x_inverse = match x.inverse() {
            Some(v) => v,
            None => {
                return Err(FriError::BadParameters);
            },
        };
        proof {
            lemma_small_mod(x_inverse.0 as nat, P as nat);
            lemma_inverse_of(x@, x_inverse@);
            lemma_half();
        }
        let folded = fold_pair(pair[0], pair[1], alpha, BFieldElement(HALF), x_inverse);
        Ok(RoundOutcome { first: pair[0], second: pair[1], a, b, folded })
    }

    /// Checks the fold of one round for one place, and goes on to the
    /// place and the value that the next round has to hold. The first fold
    /// adds its two values to `top`, the points of the codeword itself.
    pub fn fold_once(
        &self,
        proof_stream: &mut ProofStream,
        commitments: &FriCommitments,
        round: usize,
        state: FoldState,
        top: &mut Vec<(usize, XFieldElement)>,
    ) -> (r: Result<FoldState, FriError>)
        requires
            commitments.well_formed(),
            round < commitments.roots.len(),
            forall|i: int|
                0 <= i < old(top).len() ==> (#[trigger] old(top)[i]).0 < self.domain.length,
        ensures
            final(proof_stream).transcript == old(proof_stream).transcript,
            forall|i: int|
                0 <= i < final(top).len() ==> (#[trigger] final(top)[i]).0 < self.domain.length,
            match fold_step(
                old(proof_stream).transcript@,
                commitments.view_at(0),
                self.domain.length as int,
                round as int,
                state.view_with(point_views(old(top)@), old(proof_stream).read_index as int),
            ) {
                Ok(view) => r is Ok && r->Ok_0.view_with(
                    point_views(final(top)@),
                    final(proof_stream).read_index as int,
                ) == view,
                Err(e) => r == Err::<FoldState, FriError>(e),
            },
    {
        let n0 = self.domain.length;
        let ghost view = commitments.view_at(0);
        assert(view.roots[round as int] == commitments.roots[round as int]@);
        assert(view.alphas[round as int] == commitments.alphas[round as int]@);
        assert(view.offsets[round as int] == commitments.offsets[round as int]@);
        assert(view.omegas[round as int] == commitments.omegas[round as int]@);
        let outcome = match Self::check_round(
            proof_stream,
            &commitments.roots[round],
            commitments.alphas[round],
            commitments.offsets[round],
            commitments.omegas[round],
            state.place,
            state.size,
        ) {
            Ok(outcome) => outcome,
            Err(e) => {
                return Err(e);
            },
        };
        let held = if state.place == outcome.a {
            outcome.first
        } else {
            outcome.second
        };
        let ghost before = point_views(top@);
        match state.expected {
            Some(value) => {
                if !(held == value) {
                    return Err(FriError::BadColinearity);
                }
            },
            None => {
                if outcome.a < n0 {
                    top.push((outcome.a, outcome.first));
                    assert(point_views(top@) =~= before.push((outcome.a as int, outcome.first@)));
                }
                let ghost middle = point_views(top@);
                if outcome.b < n0 {
                    top.push((outcome.b, outcome.second));
                    assert(point_views(top@) =~= middle.push((outcome.b as int, outcome.second@)));
                }
            },
        }
        Ok(FoldState { place: outcome.a, size: state.size / 2, expected: Some(outcome.folded) })
    }

    /// Checks the folds of one place of the codeword through all rounds,
    /// down to the last codeword, and appends to `top` the two values of
    /// the codeword itself that the first fold took.
    pub fn check_rounds(
        &self,
        proof_stream: &mut ProofStream,
        commitments: &FriCommitments,
        last: &Vec<XFieldElement>,
        start: usize,
        top: &mut Vec<(usize, XFieldElement)>,
    ) -> (r: Result<(), FriError>)
        requires
            commitments.well_formed(),
            forall|i: int|
                0 <= i < old(top).len() ==> (#[trigger] old(top)[i]).0 < self.domain.length,
        ensures
            final(proof_stream).transcript == old(proof_stream).transcript,
            forall|i: int|
                0 <= i < final(top).len() ==> (#[trigger] final(top)[i]).0 < self.domain.length,
            match rounds_spec(
                old(proof_stream).transcript@,
                commitments.view_at(0),
                x_values(last@),
                self.domain.length as int,
                0,
                first_fold(
                    start as int,
                    self.domain.length as int,
                    point_views(old(top)@),
                    old(proof_stream).read_index as int,
                ),
            ) {
                Ok((points, next)) => r is Ok && point_views(final(top)@) == points && final(proof_stream).read_index == next,
                Err(e) => r == Err::<(), FriError>(e),
            },
    {
        let rounds = commitments.roots.len();
        let n0 = self.domain.length;
        let ghost bytes = proof_stream.transcript@;
        let ghost view = commitments.view_at(0);
        let ghost goal = rounds_spec(
            bytes,
            view,
            x_values(last@),
            n0 as int,
            0,
            first_fold(
                start as int,
                n0 as int,
                point_views(top@),
                proof_stream.read_index as int,
            ),
        );
        let mut state = FoldState { place: start, size: n0, expected: None };
        let mut round: usize = 0;
        while round < rounds
            invariant
                round <= rounds,
                rounds == commitments.roots.len(),
                commitments.well_formed(),
                n0 == self.domain.length,
                bytes == old(proof_stream).transcript@,
                proof_stream.transcript == old(proof_stream).transcript,
                view == commitments.view_at(0),
                view.roots.len() == rounds,
                forall|i: int| 0 <= i < top.len() ==> (#[trigger] top[i]).0 < n0,
                goal == rounds_spec(
                    old(proof_stream).transcript@,
                    commitments.view_at(0),
                    x_values(last@),
                    self.domain.length as int,
                    0,
                    first_fold(
                        start as int,
                        self.domain.length as int,
                        point_views(old(top)@),
                        old(proof_stream).read_index as int,
                    ),
                ),
                goal == rounds_spec(
                    bytes,
                    view,
                    x_values(last@),
                    n0 as int,
                    round as nat,
                    state.view_with(point_views(top@), proof_stream.read_index as int),
                ),
            decreases rounds - round,
        {
            state = match self.fold_once(proof_stream, commitments, round, state, top) {
                Ok(state) => state,
                Err(e) => {
                    return Err(e);
                },
            };
            round = round + 1;
        }
        match state.expected {
            Some(value) => {
                if state.place >= last.len() {
                    return Err(FriError::BadColinearity);
                }
                assert(x_values(last@)[state.place as int] == last[state.place as int]@);
                if !(last[state.place] == value) {
                    return Err(FriError::BadColinearity);
                }
            },
            None => {},
        }
        Ok(())
    }

    /// Runs one check: draws a place from the seed and checks its folds.
    /// Where nothing is folded, the place is one of the last codeword, which
    /// is the codeword itself.
    pub fn check_once(
        &self,
        proof_stream: &mut ProofStream,
        commitments: &FriCommitments,
        last: &Vec<XFieldElement>,
        seed: &Digest,
        check: usize,
        top: &mut Vec<(usize, XFieldElement)>,
    ) -> (r: Result<(), FriError>)
        requires
            commitments.well_formed(),
            self.domain.length > 0,
            forall|i: int|
                0 <= i < old(top).len() ==> (#[trigger] old(top)[i]).0 < self.domain.length,
        ensures
            final(proof_stream).transcript == old(proof_stream).transcript,
            forall|i: int|
                0 <= i < final(top).len() ==> (#[trigger] final(top)[i]).0 < self.domain.length,
            match check_step(
                old(proof_stream).transcript@,
                old(proof_stream).read_index as int,
                commitments.view_at(0),
                x_values(last@),
                self.domain.length as int,
                seed@,
                check as nat,
                point_views(old(top)@),
            ) {
                Ok((points, next)) => r is Ok && point_views(final(top)@) == points && final(proof_stream).read_index == next,
                Err(e) => r == Err::<(), FriError>(e),
            },
    {
        let n0 = self.domain.length;
        let place = sample_index(seed, check as u64, n0);
        if commitments.roots.len() == 0 {
            if place >= last.len() {
                return Err(FriError::BadLastCodeword);
            }
            let ghost before = point_views(top@);
            assert(x_values(last@)[place as int] == last[place as int]@);
            top.push((place, last[place]));
            assert(point_views(top@) =~= before.push((place as int, last[place as int]@)));
            Ok(())
        } else {
            self.check_rounds(proof_stream, commitments, last, place, top)
        }
    }

    /// Checks a proof that a codeword is close to a polynomial of low
    /// degree: reads the commitments, the last codeword and the answers
    /// from the transcript, and returns the places and values of the
    /// codeword that were asked for, now known to be under its commitment.
    pub fn verify(&self, proof_stream: &mut ProofStream) -> (r: Result<
        Vec<(usize, XFieldElement)>,
        FriError,
    >)
        ensures
            final(proof_stream).transcript == old(proof_stream).transcript,
            r is Ok ==> forall|i: int|
                0 <= i < r->Ok_0.len() ==> (#[trigger] r->Ok_0[i]).0 < self.domain.length,
            match verify_spec(
                *self,
                old(proof_stream).transcript@,
                old(proof_stream).read_index as int,
            ) {
                Ok((points, next)) => r is Ok && point_views(r->Ok_0@) == points && final(proof_stream).read_index == next,
                Err(e) => r == Err::<Vec<(usize, XFieldElement)>, FriError>(e),
            },
    {
        let n0 = self.domain.length;
        if n0 == 0 {
            return Err(FriError::BadParameters);
        }
        let ghost bytes = proof_stream.transcript@;
        let commitments = match self.read_commitments(proof_stream) {
            Ok(commitments) => commitments,
            Err(e) => {
                return Err(e);
            },
        };
        let ghost view = commitments.view_at(0);
        proof {
            let read = commitments.view_at(proof_stream.read_index as int);
            assert(view == CommitmentsView { next: 0, ..read });
        }
        let last = match proof_stream.pull_x_elements() {
            Ok(last) => last,
            Err(_) => {
                return Err(FriError::MalformedTranscript);
            },
        };
        if last.len() != commitments.length || commitments.length == 0 {
            return Err(FriError::BadLastCodeword);
        }
        if !self.last_codeword_is_low_degree(&last, commitments.offset, commitments.omega) {
            return Err(FriError::BadLastCodeword);
        }
        let seed = proof_stream.verifier_fiat_shamir();
        let mut top: Vec<(usize, XFieldElement)> = Vec::new();
        let ghost goal = checks_spec(
            bytes,
            proof_stream.read_index as int,
            view,
            x_values(last@),
            n0 as int,
            seed@,
            0,
            self.colinearity_checks_count as nat,
            Seq::<(int, XValue)>::empty(),
        );
        assert(point_views(top@) =~= Seq::<(int, XValue)>::empty());
        assert(goal == verify_spec(*self, bytes, old(proof_stream).read_index as int));
        let mut check: usize = 0;
        while check < self.colinearity_checks_count
            invariant
                check <= self.colinearity_checks_count,
                n0 == self.domain.length,
                n0 > 0,
                bytes == old(proof_stream).transcript@,
                proof_stream.transcript == old(proof_stream).transcript,
                commitments.well_formed(),
                view == commitments.view_at(0),
                forall|i: int| 0 <= i < top.len() ==> (#[trigger] top[i]).0 < n0,
                goal == verify_spec(
                    *self,
                    old(proof_stream).transcript@,
                    old(proof_stream).read_index as int,
                ),
                goal == checks_spec(
                    bytes,
                    proof_stream.read_index as int,
                    view,
                    x_values(last@),
                    n0 as int,
                    seed@,
                    check as nat,
                    self.colinearity_checks_count as nat,
                    point_views(top@),
                ),
            decreases self.colinearity_checks_count - check,
        {
            match self.check_once(proof_stream, &commitments, &last, &seed, check, &mut top) {
                Ok(()) => {},
                Err(e) => {
                    return Err(e);
                },
            }
            check = check + 1;
        }
        Ok(top)
    }
}

/// Whether a codeword over the given points is that of a polynomial whose
/// degree is below `bound`: each of its three coefficients is
/// interpolated.
pub fn is_low_degree(codeword: &Vec<XFieldElement>, points: &Vec<BFieldElement>, bound: i64) -> (r:
    bool)
    requires
        points.len() == codeword.len(),
        codeword.len() <= 0x4000_0000,
    ensures
        r == low_degree(x_values(codeword@), values(points@), bound as int),
{
    let mut k: usize = 0;
    while k < 3
        invariant
            k <= 3,
            points.len() == codeword.len(),
            codeword.len() <= 0x4000_0000,
            k > 0 ==> interpolable(values(points@), points.len() as nat),
            forall|j: int|
                0 <= j < k ==> degree_of(
                    interpolant(
                        values(points@),
                        #[trigger] x_components(x_values(codeword@), j),
                        points.len() as nat,
                    ),
                ) < bound,
        decreases 3 - k,
    {
        let mut component: Vec<BFieldElement> = Vec::new();
        let mut i: usize = 0;
        while i < codeword.len()
            invariant
                i <= codeword.len(),
                k < 3,
                component.len() == i,
                forall|j: int|
                    0 <= j < i ==> component[j]@ == x_component(codeword[j]@, k as int),
            decreases codeword.len() - i,
        {
            component.push(codeword[i].coefficients[k]);
            i = i + 1;
        }
        assert(values(component@) =~= x_components(x_values(codeword@), k as int));
        match Polynomial::interpolate(points, &component) {
            None => {
                return false;
            },
            Some(polynomial) => {
                proof {
                    lemma_interpolant_length(
                        values(points@),
                        values(component@),
                        points.len() as nat,
                    );
                }
                if polynomial.degree() >= bound {
                    return false;
                }
            },
        }
        k = k + 1;
    }
    true
}

/// The commitments of the rounds of a test, as the verifier reads them.
#[derive(Debug, Clone)]
pub struct FriCommitments {
    /// The root of the codeword of each round.
    pub roots: Vec<Digest>,
    /// The challenge of each round.
    pub alphas: Vec<XFieldElement>,
    /// The offset of the domain of each round.
    pub offsets: Vec<BFieldElement>,
    /// The generator of the domain of each round.
    pub omegas: Vec<BFieldElement>,
    /// The offset of the domain of the last codeword.
    pub offset: BFieldElement,
    /// The generator of the domain of the last codeword.
    pub omega: BFieldElement,
    /// The length of the last codeword.
    pub length: usize,
}

/// The values of the commitments of the rounds, with the place in the
/// transcript after them.
#[verifier::ext_equal]
pub struct CommitmentsView {
    pub roots: Seq<Seq<u8>>,
    pub alphas: Seq<XValue>,
    pub offsets: Seq<int>,
    pub omegas: Seq<int>,
    pub offset: int,
    pub omega: int,
    pub length: int,
    pub next: int,
}

impl FriCommitments {
    /// Whether there is a challenge and a domain for each root.
    pub open spec fn well_formed(&self) -> bool {
        &&& self.alphas.len() == self.roots.len()
        &&& self.offsets.len() == self.roots.len()
        &&& self.omegas.len() == self.roots.len()
    }

    /// The values of the commitments, read up to the place `next`.
    pub open spec fn view_at(&self, next: int) -> CommitmentsView {
        CommitmentsView {
            roots: digest_views(self.roots@),
            alphas: x_values(self.alphas@),
            offsets: values(self.offsets@),
            omegas: values(self.omegas@),
            offset: self.offset@,
            omega: self.omega@,
            length: self.length as int,
            next,
        }
    }
}

/// What one fold gives: the two values that were folded, their places, and
/// the value that they fold into.
#[derive(Debug, Clone, Copy)]
pub struct RoundOutcome {
    pub first: XFieldElement,
    pub second: XFieldElement,
    pub a: usize,
    pub b: usize,
    pub folded: XFieldElement,
}

/// The values of what one fold gives, with the place in the transcript
/// after it.
pub struct RoundView {
    pub first: XValue,
    pub second: XValue,
    pub a: int,
    pub b: int,
    pub folded: XValue,
    pub next: int,
}

impl RoundOutcome {
    pub open spec fn view_at(&self, next: int) -> RoundView {
        RoundView {
            first: self.first@,
            second: self.second@,
            a: self.a as int,
            b: self.b as int,
            folded: self.folded@,
            next,
        }
    }
}

/// The places and values of a list of points.
pub open spec fn point_views(points: Seq<(usize, XFieldElement)>) -> Seq<(int, XValue)> {
    Seq::new(points.len(), |i: int| (points[i].0 as int, points[i].1@))
}

/// The value of an element that there may be.
pub open spec fn option_view(x: Option<XFieldElement>) -> Option<XValue> {
    match x {
        Some(v) => Some(v@),
        None => None,
    }
}

/// The commitments before any is read: none, with the domain of the
/// codeword itself.
pub open spec fn first_commitments(fri: Fri, at: int) -> CommitmentsView {
    CommitmentsView {
        roots: Seq::empty(),
        alphas: Seq::empty(),
        offsets: Seq::empty(),
        omegas: Seq::empty(),
        offset: fri.domain.offset@,
        omega: fri.domain.omega@,
        length: fri.domain.length as int,
        next: at,
    }
}

/// The commitments of `remaining` further rounds, read from the transcript
/// after those read so far. The challenge of a round is drawn from the
/// transcript up to its root; the domain of the next round is the squares
/// of the points of this one.
pub open spec fn commitments_spec(bytes: Seq<u8>, remaining: nat, so_far: CommitmentsView) -> Result<
    CommitmentsView,
    FriError,
>
    decreases remaining,
{
    if remaining == 0 {
        Ok(so_far)
    } else {
        match parse_digest(bytes, so_far.next) {
            Err(_) => Err(FriError::MalformedTranscript),
            Ok((root, next)) => commitments_spec(
                bytes,
                (remaining - 1) as nat,
                CommitmentsView {
                    roots: so_far.roots.push(root),
                    alphas: so_far.alphas.push(sampled_x(blake3_hash(bytes.subrange(0, next)), 0)),
                    offsets: so_far.offsets.push(so_far.offset),
                    omegas: so_far.omegas.push(so_far.omega),
                    offset: mul_mod(so_far.offset, so_far.offset),
                    omega: mul_mod(so_far.omega, so_far.omega),
                    length: so_far.length / 2,
                    next,
                },
            ),
        }
    }
}

/// Whether a codeword over the given points is that of a polynomial whose
/// degree is below `bound`.
pub open spec fn low_degree(codeword: Seq<XValue>, points: Seq<int>, bound: int) -> bool {
    &&& interpolable(points, points.len())
    &&& forall|k: int|
        0 <= k < 3 ==> degree_of(
            interpolant(points, #[trigger] x_components(codeword, k), points.len()),
        ) < bound
}

/// Whether the last codeword passes: the test has an expansion factor, the
/// codeword is short enough to be sent whole, and it is that of a
/// polynomial whose degree is below its length over the expansion factor.
pub open spec fn last_is_low_degree(fri: Fri, last: Seq<XValue>, offset: int, omega: int) -> bool {
    &&& fri.expansion_factor != 0
    &&& last.len() <= LAST_CODEWORD_LENGTH
    &&& low_degree(
        last,
        domain_points(offset, omega, last.len()),
        (last.len() / fri.expansion_factor as nat) as int,
    )
}

/// One fold, as the verifier checks it at the place `at` of the
/// transcript: the pair of values at the places `a` and `b` that `place`
/// belongs to has to be under the root, and folds into one value.
pub open spec fn round_spec(
    bytes: Seq<u8>,
    at: int,
    root: Seq<u8>,
    alpha: XValue,
    offset: int,
    omega: int,
    place: int,
    size: int,
) -> Result<RoundView, FriError> {
    let half_size = size / 2;
    if half_size == 0 {
        Err(FriError::BadParameters)
    } else {
        let a = place % half_size;
        let b = a + half_size;
        match parse_x_elements(bytes, at) {
            Err(_) => Err(FriError::MalformedTranscript),
            Ok((pair, at1)) => if pair.len() != 2 {
                Err(FriError::MalformedTranscript)
            } else {
                match parse_path(bytes, at1) {
                    Err(_) => Err(FriError::MalformedTranscript),
                    Ok((path_a, at2)) => match parse_path(bytes, at2) {
                        Err(_) => Err(FriError::MalformedTranscript),
                        Ok((path_b, at3)) => if root_from_path(
                            blake3_hash(x_bytes(pair[0])),
                            a,
                            path_a,
                        ) != root || root_from_path(blake3_hash(x_bytes(pair[1])), b, path_b)
                            != root {
                            Err(FriError::BadCommitment)
                        } else {
                            let x = mul_mod(offset, pow_mod(omega, a as nat));
                            if !has_inverse(x) {
                                Err(FriError::BadParameters)
                            } else {
                                Ok(
                                    RoundView {
                                        first: pair[0],
                                        second: pair[1],
                                        a,
                                        b,
                                        folded: fold_value(
                                            pair[0],
                                            pair[1],
                                            alpha,
                                            HALF as int,
                                            inverse_of(x),
                                        ),
                                        next: at3,
                                    },
                                )
                            }
                        },
                    },
                }
            },
        }
    }
}

/// How far the verifier has come at one place before a round: the place in the
/// codeword of the round, the length of that codeword, the value that the
/// codeword has to hold there, the points gathered, and the place in the
/// transcript.
pub struct FoldView {
    pub place: int,
    pub size: int,
    pub expected: Option<XValue>,
    pub top: Seq<(int, XValue)>,
    pub next: int,
}

/// How far the verifier has come at one place before a round.
#[derive(Debug, Clone, Copy)]
pub struct FoldState {
    pub place: usize,
    pub size: usize,
    pub expected: Option<XFieldElement>,
}

impl FoldState {
    pub open spec fn view_with(&self, top: Seq<(int, XValue)>, next: int) -> FoldView {
        FoldView {
            place: self.place as int,
            size: self.size as int,
            expected: option_view(self.expected),
            top,
            next,
        }
    }
}

/// How far the verifier has come before the first round: at the place
/// itself, in the codeword itself, with nothing yet to hold.
pub open spec fn first_fold(place: int, n0: int, top: Seq<(int, XValue)>, next: int) -> FoldView {
    FoldView { place, size: n0, expected: None, top, next }
}

/// The fold of one round, as the verifier checks it: the value that the
/// round holds at the place has to be the value expected of it; the fold of
/// the pair is what the next round has to hold. The first fold adds its
/// two values to the points of the codeword itself.
pub open spec fn fold_step(
    bytes: Seq<u8>,
    commitments: CommitmentsView,
    n0: int,
    round: int,
    state: FoldView,
) -> Result<FoldView, FriError> {
    match round_spec(
        bytes,
        state.next,
        commitments.roots[round],
        commitments.alphas[round],
        commitments.offsets[round],
        commitments.omegas[round],
        state.place,
        state.size,
    ) {
        Err(e) => Err(e),
        Ok(outcome) => {
            let held = if state.place == outcome.a {
                outcome.first
            } else {
                outcome.second
            };
            if state.expected is Some && held != state.expected->Some_0 {
                Err(FriError::BadColinearity)
            } else {
                let with_a = if state.expected is None && outcome.a < n0 {
                    state.top.push((outcome.a, outcome.first))
                } else {
                    state.top
                };
                let with_b = if state.expected is None && outcome.b < n0 {
                    with_a.push((outcome.b, outcome.second))
                } else {
                    with_a
                };
                Ok(
                    FoldView {
                        place: outcome.a,
                        size: state.size / 2,
                        expected: Some(outcome.folded),
                        top: with_b,
                        next: outcome.next,
                    },
                )
            }
        },
    }
}

/// The folds of one place from round `round` on, as the verifier checks
/// them, down to the last codeword, which has to hold the value that the
/// last fold gives.
pub open spec fn rounds_spec(
    bytes: Seq<u8>,
    commitments: CommitmentsView,
    last: Seq<XValue>,
    n0: int,
    round: nat,
    state: FoldView,
) -> Result<(Seq<(int, XValue)>, int), FriError>
    decreases commitments.roots.len() - round,
{
    if round >= commitments.roots.len() {
        match state.expected {
            Some(value) => if state.place >= last.len() || last[state.place] != value {
                Err(FriError::BadColinearity)
            } else {
                Ok((state.top, state.next))
            },
            None => Ok((state.top, state.next)),
        }
    } else {
        match fold_step(bytes, commitments, n0, round as int, state) {
            Err(e) => Err(e),
            Ok(after) => rounds_spec(bytes, commitments, last, n0, round + 1, after),
        }
    }
}

/// One check, as the verifier runs it: a place is drawn from the seed and
/// its folds are checked. Where nothing is folded, the place is one of the
/// last codeword, which is the codeword itself.
pub open spec fn check_step(
    bytes: Seq<u8>,
    at: int,
    commitments: CommitmentsView,
    last: Seq<XValue>,
    n0: int,
    seed: Seq<u8>,
    check: nat,
    top: Seq<(int, XValue)>,
) -> Result<(Seq<(int, XValue)>, int), FriError> {
    let place = sampled_index(seed, check as u64, n0 as nat);
    if commitments.roots.len() == 0 {
        if place >= last.len() {
            Err(FriError::BadLastCodeword)
        } else {
            Ok((top.push((place, last[place])), at))
        }
    } else {
        rounds_spec(bytes, commitments, last, n0, 0, first_fold(place, n0, top, at))
    }
}

/// The checks from check `check` on, as the verifier runs them.
pub open spec fn checks_spec(
    bytes: Seq<u8>,
    at: int,
    commitments: CommitmentsView,
    last: Seq<XValue>,
    n0: int,
    seed: Seq<u8>,
    check: nat,
    checks: nat,
    top: Seq<(int, XValue)>,
) -> Result<(Seq<(int, XValue)>, int), FriError>
    decreases checks - check,
{
    if check >= checks {
        Ok((top, at))
    } else {
        match check_step(bytes, at, commitments, last, n0, seed, check, top) {
            Err(e) => Err(e),
            Ok((points, next)) => checks_spec(
                bytes,
                next,
                commitments,
                last,
                n0,
                seed,
                check + 1,
                checks,
                points,
            ),
        }
    }
}

/// What the verifier makes of the transcript from the place `at` on: the
/// points of the codeword that the test vouches for, and the place after
/// the test; or why the test fails.
pub open spec fn verify_spec(fri: Fri, bytes: Seq<u8>, at: int) -> Result<
    (Seq<(int, XValue)>, int),
    FriError,
> {
    if fri.domain.length == 0 {
        Err(FriError::BadParameters)
    } else {
        match commitments_spec(
            bytes,
            rounds_of(fri.domain.length as nat),
            first_commitments(fri, at),
        ) {
            Err(e) => Err(e),
            Ok(read) => match parse_x_elements(bytes, read.next) {
                Err(_) => Err(FriError::MalformedTranscript),
                Ok((last, next)) => if last.len() != read.length || read.length == 0 {
                    Err(FriError::BadLastCodeword)
                } else if !last_is_low_degree(fri, last, read.offset, read.omega) {
                    Err(FriError::BadLastCodeword)
                } else {
                    checks_spec(
                        bytes,
                        next,
                        CommitmentsView { next: 0, ..read },
                        last,
                        fri.domain.length as int,
                        blake3_hash(bytes.subrange(0, next)),
                        0,
                        fri.colinearity_checks_count as nat,
                        Seq::empty(),
                    )
                },
            },
        }
    }
}

/// The leaves that commit to a codeword: the hash of the bytes of each of
/// its values.
pub open spec fn x_leaves(codeword: Seq<XValue>) -> Seq<Seq<u8>> {
    Seq::new(codeword.len(), |i: int| blake3_hash(x_bytes(codeword[i])))
}

/// Whether each of the first `half` points `offset * omega^i` has an
/// inverse.
pub open spec fn fold_points_invertible(offset: int, omega: int, half: nat) -> bool {
    forall|i: int| 0 <= i < half ==> has_inverse(#[trigger] domain_point(offset, omega, i as nat))
}

/// A codeword over the points `offset * omega^i` folded with the challenge
/// `alpha`: value `i` of the result is the fold of the values at the points
/// `i` and `i` plus half the length; `None` where the length is odd or a
/// point has no inverse.
pub open spec fn folded_codeword(codeword: Seq<XValue>, alpha: XValue, offset: int, omega: int) -> Option<
    Seq<XValue>,
> {
    if codeword.len() % 2 != 0 || !fold_points_invertible(offset, omega, codeword.len() / 2) {
        None
    } else {
        Some(
            Seq::new(
                codeword.len() / 2,
                |i: int|
                    fold_value(
                        codeword[i],
                        codeword[i + codeword.len() / 2],
                        alpha,
                        HALF as int,
                        inverse_of(domain_point(offset, omega, i as nat)),
                    ),
            ),
        )
    }
}

/// Whether a tree commits to a codeword.
pub open spec fn holds(tree: MerkleTree, codeword: Vec<XFieldElement>) -> bool {
    &&& tree.well_formed()
    &&& tree.leaves() == x_leaves(x_values(codeword@))
    &&& codeword.len() % 2 == 0
    &&& codeword.len() >= 2
}

/// Whether each tree commits to the codeword of its round.
pub open spec fn committed(trees: Seq<MerkleTree>, codewords: Seq<Vec<XFieldElement>>) -> bool {
    forall|k: int| 0 <= k < trees.len() ==> holds(#[trigger] trees[k], codewords[k])
}

/// The places of a list of places.
pub open spec fn index_views(places: Seq<usize>) -> Seq<int> {
    Seq::new(places.len(), |i: int| places[i] as int)
}

/// Where the prover stands before the commitment of a round: the codeword
/// of the round with its domain.
#[derive(Debug, Clone)]
pub struct CommitState {
    pub current: Vec<XFieldElement>,
    pub offset: BFieldElement,
    pub omega: BFieldElement,
}

/// Where the prover stands before the commitment of a round: the codeword
/// of the round with its domain, the codewords of the rounds before, and
/// the transcript.
#[verifier::ext_equal]
pub struct CommitView {
    pub current: Seq<XValue>,
    pub offset: int,
    pub omega: int,
    pub codewords: Seq<Seq<XValue>>,
    pub transcript: Seq<u8>,
}

impl CommitState {
    pub open spec fn view_with(&self, codewords: Seq<Seq<XValue>>, transcript: Seq<u8>) -> CommitView {
        CommitView {
            current: x_values(self.current@),
            offset: self.offset@,
            omega: self.omega@,
            codewords,
            transcript,
        }
    }
}

/// Where the prover stands before the first round.
pub open spec fn first_commit(fri: Fri, codeword: Seq<XValue>, transcript: Seq<u8>) -> CommitView {
    CommitView {
        current: codeword,
        offset: fri.domain.offset@,
        omega: fri.domain.omega@,
        codewords: Seq::empty(),
        transcript,
    }
}

/// The commitment of one round: the root of the tree over the codeword
/// goes to the transcript, the challenge is drawn from the transcript up to
/// there, and the codeword is folded for the next round.
pub open spec fn commit_step(state: CommitView) -> Result<CommitView, FriError> {
    if !is_power_of_two(state.current.len()) {
        Err(FriError::BadParameters)
    } else {
        let transcript = state.transcript + digest_item(root_of(x_leaves(state.current)));
        let alpha = sampled_x(blake3_hash(transcript), 0);
        match folded_codeword(state.current, alpha, state.offset, state.omega) {
            None => Err(FriError::BadParameters),
            Some(folded) => if state.current.len() < 2 {
                Err(FriError::BadParameters)
            } else {
                Ok(
                    CommitView {
                        current: folded,
                        offset: mul_mod(state.offset, state.offset),
                        omega: mul_mod(state.omega, state.omega),
                        codewords: state.codewords.push(state.current),
                        transcript,
                    },
                )
            },
        }
    }
}

/// The commitments of `remaining` further rounds.
pub open spec fn commits_spec(remaining: nat, state: CommitView) -> Result<CommitView, FriError>
    decreases remaining,
{
    if remaining == 0 {
        Ok(state)
    } else {
        match commit_step(state) {
            Err(e) => Err(e),
            Ok(after) => commits_spec((remaining - 1) as nat, after),
        }
    }
}

/// Where the prover stands in answering for one place: the place in the
/// codeword of the round, the places of the codeword itself that were
/// asked for, and the transcript.
#[verifier::ext_equal]
pub struct QueryView {
    pub place: int,
    pub top: Seq<int>,
    pub transcript: Seq<u8>,
}

/// Where the prover stands in answering for one place.
pub open spec fn query_view(place: int, top: Seq<int>, transcript: Seq<u8>) -> QueryView {
    QueryView { place, top, transcript }
}

/// The answer for one place in one round: the two values of the round's
/// codeword that the place belongs to go to the transcript, each followed
/// by its path. The first round adds their places to those asked for.
pub open spec fn answer_step(codewords: Seq<Seq<XValue>>, round: int, state: QueryView) -> QueryView {
    let codeword = codewords[round];
    let half = codeword.len() / 2;
    let a = state.place % (half as int);
    let b = a + half;
    let leaves = x_leaves(codeword);
    QueryView {
        place: a,
        top: if round == 0 {
            state.top.push(a).push(b)
        } else {
            state.top
        },
        transcript: state.transcript + x_elements_item(seq![codeword[a], codeword[b]])
            + path_item(path_of(leaves, a)) + path_item(path_of(leaves, b)),
    }
}

/// The answers for one place from round `round` on.
pub open spec fn answers_spec(codewords: Seq<Seq<XValue>>, round: nat, state: QueryView) -> QueryView
    decreases codewords.len() - round,
{
    if round >= codewords.len() {
        state
    } else {
        answers_spec(codewords, round + 1, answer_step(codewords, round as int, state))
    }
}

/// The answers to the checks from check `check` on: each check draws a
/// place from the seed.
pub open spec fn queries_spec(
    codewords: Seq<Seq<XValue>>,
    n0: int,
    seed: Seq<u8>,
    check: nat,
    checks: nat,
    top: Seq<int>,
    transcript: Seq<u8>,
) -> (Seq<int>, Seq<u8>)
    decreases checks - check,
{
    if check >= checks {
        (top, transcript)
    } else {
        let place = sampled_index(seed, check as u64, n0 as nat);
        if codewords.len() == 0 {
            queries_spec(codewords, n0, seed, check + 1, checks, top.push(place), transcript)
        } else {
            let done = answers_spec(codewords, 0, QueryView { place, top, transcript });
            queries_spec(codewords, n0, seed, check + 1, checks, done.top, done.transcript)
        }
    }
}

/// What the prover makes of a codeword and a transcript: the places of the
/// codeword that are asked for and the transcript with the proof at its
/// end; or why there is no proof. There is none where the last codeword,
/// which the prover folds the codeword into, is not of low degree.
pub open spec fn prove_spec(fri: Fri, codeword: Seq<XValue>, transcript: Seq<u8>) -> Result<
    (Seq<int>, Seq<u8>),
    FriError,
> {
    if codeword.len() != fri.domain.length || fri.domain.length == 0 {
        Err(FriError::BadParameters)
    } else {
        match commits_spec(
            rounds_of(fri.domain.length as nat),
            first_commit(fri, codeword, transcript),
        ) {
            Err(e) => Err(e),
            Ok(done) => if !last_is_low_degree(fri, done.current, done.offset, done.omega) {
                Err(FriError::BadLastCodeword)
            } else {
                let with_last = done.transcript + x_elements_item(done.current);
                Ok(
                    queries_spec(
                        done.codewords,
                        fri.domain.length as int,
                        blake3_hash(with_last),
                        0,
                        fri.colinearity_checks_count as nat,
                        Seq::empty(),
                        with_last,
                    ),
                )
            },
        }
    }
}

/// Half of one: the inverse of two.
pub const HALF: u64 = 9223372034707292161;

/// Two times a half is one.
pub proof fn lemma_half()
    ensures
        mul_mod(2, HALF as int) == 1,
        BFieldElement(HALF)@ == HALF,
{
    assert(2 * (HALF as int) == (P as int) + 1);
    lemma_small_mod(HALF as nat, P as nat);
    lemma_mod_multiples_vanish(1, 1, P as int);
    lemma_small_mod(1, P as nat);
}

} // verus!
