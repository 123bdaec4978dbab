//! Arithmetizations: execution traces as tables of constrained polynomials,
//! and the engine that proves, and checks, that a trace meets its
//! constraints.
//!
//! The engine commits to the codewords of the trace, draws weights from the
//! transcript, divides each constraint by the polynomial that vanishes
//! where it has to hold, and shows the weighted sum of the quotients to be
//! of low degree. The verifier never trusts a value that is not under a
//! commitment: it recomputes the sum at the places that the low-degree
//! test asked for from the rows of the trace that the prover opens there.
//! A proof that the prover wrote is one that the verifier accepts.

pub mod brainfuck;
pub mod completeness;
pub mod quotient;
pub mod table;
pub mod triton;

use crate::shared_math::b_field_element::BFieldElement;
use crate::shared_math::b_field_element::has_inverse;
use crate::shared_math::b_field_element::inverse_of;
use crate::shared_math::b_field_element::is_power_of_two;
use crate::shared_math::b_field_element::lemma_inverse_of;
use crate::shared_math::b_field_element::mul_mod;
use crate::shared_math::b_field_element::P;
use crate::shared_math::b_field_element::pow_mod;
use crate::shared_math::b_field_element::sub_mod;
use crate::shared_math::b_field_element::TWO_ADIC_GENERATOR;
use crate::shared_math::b_field_element::TWO_ADIC_ORDER;
use crate::shared_math::b_field_element::values;
use crate::shared_math::fri_domain::FriDomain;
use crate::shared_math::mpolynomial::x_values;
use crate::shared_math::other::random_elements;
use crate::shared_math::polynomial::interpolable;
use crate::shared_math::rescue_prime_stark::AirConstraints;
use crate::shared_math::rescue_prime_stark::BoundaryConstraint;
use crate::shared_math::rescue_prime_stark::CONSTANTS_WIDTH;
use crate::shared_math::rescue_prime_stark::RescuePrime;
use crate::shared_math::rescue_prime_stark::TRACE_HEIGHT;
use crate::shared_math::rescue_prime_stark::TRACE_WIDTH;
use crate::shared_math::rescue_prime_stark::transition_spec;
use crate::shared_math::stark::completeness::codewords_fit;
use crate::shared_math::stark::completeness::lemma_proof_is_accepted;
use crate::shared_math::stark::quotient::transition_zerofier_inverse;
use crate::shared_math::stark::table::column;
use crate::shared_math::stark::table::derive_omicron;
use crate::shared_math::stark::table::extended_column;
use crate::shared_math::stark::table::interpolation_points;
use crate::shared_math::stark::table::matrix_values;
use crate::shared_math::stark::table::omicron_of;
use crate::shared_math::stark::table::Table;
use crate::shared_math::x_field_element::x_add;
use crate::shared_math::x_field_element::x_scale;
use crate::shared_math::x_field_element::x_zero;
use crate::shared_math::x_field_element::XFieldElement;
use crate::shared_math::x_field_element::XValue;
use crate::shared_math::xfri::completeness::places_within;
use crate::shared_math::xfri::Fri;
use crate::shared_math::xfri::FriError;
use crate::shared_math::xfri::index_views;
use crate::shared_math::xfri::is_low_degree;
use crate::shared_math::xfri::low_degree;
use crate::shared_math::xfri::point_views;
use crate::shared_math::xfri::prove_spec as fri_prove_spec;
use crate::shared_math::xfri::verify_spec as fri_verify_spec;
use crate::util_types::merkle_tree::Digest;
use crate::util_types::merkle_tree::digest_views;
use crate::util_types::merkle_tree::lemma_tree_is_sized;
use crate::util_types::merkle_tree::MerkleTree;
use crate::util_types::merkle_tree::path_of;
use crate::util_types::merkle_tree::root_from_path;
use crate::util_types::merkle_tree::root_of;
use crate::util_types::proof_stream::canonical;
use crate::util_types::proof_stream::digest_item;
use crate::util_types::proof_stream::element_words;
use crate::util_types::proof_stream::elements_item;
use crate::util_types::proof_stream::extends;
use crate::util_types::proof_stream::lemma_extends_by;
use crate::util_types::proof_stream::lemma_extends_twice;
use crate::util_types::proof_stream::parse_digest;
use crate::util_types::proof_stream::parse_elements;
use crate::util_types::proof_stream::parse_path;
use crate::util_types::proof_stream::path_item;
use crate::util_types::proof_stream::ProofStream;
use crate::util_types::proof_stream::value_words;
use crate::util_types::proof_stream::words_bytes;
use crate::utils::blake3_digest;
use crate::utils::blake3_hash;
use crate::utils::sample_x;
use crate::utils::sampled_x;
use vstd::arithmetic::div_mod::*;
use vstd::bytes::*;
use vstd::prelude::*;

verus! {

/// The order of the generator that the engine derives its domains from.
pub const ENGINE_ORDER: usize = 0x4000_0000;

/// The values of field elements are in the canonical range.
pub proof fn lemma_values_are_canonical(elements: Seq<BFieldElement>)
    ensures
        canonical(values(elements)),
{
    assert forall|i: int| 0 <= i < elements.len() implies 0 <= #[trigger] values(elements)[i]
        < P by {
        lemma_mod_bound(elements[i].0 as int, P as int);
    }
}

/// Why a proof could not be made, or was rejected.
#[derive(Debug, Clone, Copy, PartialEq, Eq, Structural)]
pub enum StarkError {
    /// The trace or the constraints do not have the shape that the engine
    /// works on.
    ShapeMismatch,
    /// The trace could not be extended over the evaluation domain.
    ExtensionFailed,
    /// A point of the evaluation domain is a point of the trace.
    ZerofierVanishes,
    /// The trace does not meet a constraint.
    ConstraintViolated,
    /// The low-degree test failed.
    LowDegreeTestFailed,
    /// The transcript ended early, held an item of another kind, or went
    /// on after the proof.
    MalformedTranscript,
    /// A row is not under the root that commits to the trace.
    BadCommitment,
}

/// The term of a boundary constraint at the point `z`: how far the element
/// is from its value, over the polynomial that vanishes at the constraint's
/// row.
pub open spec fn boundary_term(
    row: Seq<int>,
    constraint: BoundaryConstraint,
    z: int,
    omicron: int,
) -> int {
    mul_mod(
        sub_mod(row[constraint.register as int], constraint.value@),
        inverse_of(sub_mod(z, pow_mod(omicron, constraint.cycle as nat))),
    )
}

/// The terms of all constraints at the point `z`: the quotients of the
/// sixteen transition constraints, then those of the boundary constraints.
pub open spec fn constraint_terms(
    current: Seq<int>,
    next: Seq<int>,
    constants: Seq<int>,
    boundary: Seq<BoundaryConstraint>,
    z: int,
    omicron: int,
) -> Seq<int> {
    Seq::new(
        TRACE_WIDTH as nat + boundary.len(),
        |k: int|
            if k < TRACE_WIDTH {
                mul_mod(
                    transition_spec(current, next, constants)[k],
                    transition_zerofier_inverse(z, omicron, TRACE_HEIGHT as nat),
                )
            } else {
                boundary_term(current, boundary[k - TRACE_WIDTH], z, omicron)
            },
    )
}

/// The sum of the first `n` terms, each times its weight.
pub open spec fn weighted_sum(weights: Seq<XValue>, terms: Seq<int>, n: nat) -> XValue
    decreases n,
{
    if n == 0 {
        x_zero()
    } else {
        x_add(weighted_sum(weights, terms, (n - 1) as nat), x_scale(weights[n - 1], terms[n - 1]))
    }
}

/// Whether every constraint has a quotient at the point `z`: the point is
/// no point of the trace.
pub open spec fn quotients_exist(boundary: Seq<BoundaryConstraint>, z: int, omicron: int) -> bool {
    &&& has_inverse(omicron)
    &&& has_inverse(sub_mod(pow_mod(z, TRACE_HEIGHT as nat), 1))
    &&& forall|b: int|
        0 <= b < boundary.len() ==> has_inverse(
            sub_mod(z, pow_mod(omicron, (#[trigger] boundary[b]).cycle as nat)),
        )
}

/// Whether the boundary constraints speak of elements that a trace has.
pub open spec fn boundary_fits(boundary: Seq<BoundaryConstraint>) -> bool {
    forall|b: int|
        0 <= b < boundary.len() ==> (#[trigger] boundary[b]).register < TRACE_WIDTH
            && boundary[b].cycle < TRACE_HEIGHT
}

/// Whether a matrix has the given number of rows, each with the given
/// number of elements.
pub open spec fn shaped(matrix: Seq<Vec<BFieldElement>>, rows: nat, width: nat) -> bool {
    &&& matrix.len() == rows
    &&& forall|i: int| 0 <= i < matrix.len() ==> (#[trigger] matrix[i]).len() == width
}

/// Whether a matrix of values has the given number of rows, each with the
/// given number of values.
pub open spec fn shaped_values(matrix: Seq<Seq<int>>, rows: nat, width: nat) -> bool {
    &&& matrix.len() == rows
    &&& forall|i: int| 0 <= i < matrix.len() ==> (#[trigger] matrix[i]).len() == width
}

/// The bytes of a row: the canonical values of its elements, eight bytes
/// each.
pub open spec fn row_bytes(row: Seq<BFieldElement>) -> Seq<u8> {
    words_bytes(element_words(row))
}

/// A matrix has a shape where its values have it.
pub proof fn lemma_shapes_agree(matrix: Seq<Vec<BFieldElement>>, rows: nat, width: nat)
    ensures
        shaped(matrix, rows, width) == shaped_values(matrix_values(matrix), rows, width),
{
    if shaped(matrix, rows, width) {
        assert forall|i: int| 0 <= i < matrix.len() implies (#[trigger] matrix_values(
            matrix,
        )[i]).len() == width by {
            assert(matrix[i].len() == width);
        }
    }
    if shaped_values(matrix_values(matrix), rows, width) {
        assert forall|i: int| 0 <= i < matrix.len() implies (#[trigger] matrix[i]).len()
            == width by {
            assert(matrix_values(matrix)[i].len() == width);
        }
    }
}

/// Whether a matrix has the given number of rows, each with the given
/// number of elements.
pub fn check_shape(matrix: &Vec<Vec<BFieldElement>>, rows: usize, width: usize) -> (r: bool)
    ensures
        r == shaped(matrix@, rows as nat, width as nat),
        r == shaped_values(matrix_values(matrix@), rows as nat, width as nat),
{
    proof {
        lemma_shapes_agree(matrix@, rows as nat, width as nat);
    }
    if matrix.len() != rows {
        return false;
    }
    let mut i: usize = 0;
    while i < matrix.len()
        invariant
            i <= matrix.len(),
            matrix.len() == rows,
            shaped(matrix@, rows as nat, width as nat) == shaped_values(
                matrix_values(matrix@),
                rows as nat,
                width as nat,
            ),
            forall|j: int| 0 <= j < i ==> (#[trigger] matrix[j]).len() == width,
        decreases matrix.len() - i,
    {
        if matrix[i].len() != width {
            return false;
        }
        i = i + 1;
    }
    true
}

/// Whether the boundary constraints speak of elements that a trace has.
pub fn check_boundary(boundary: &Vec<BoundaryConstraint>) -> (r: bool)
    ensures
        r == boundary_fits(boundary@),
{
    let mut b: usize = 0;
    while b < boundary.len()
        invariant
            b <= boundary.len(),
            forall|k: int|
                0 <= k < b ==> (#[trigger] boundary[k]).register < TRACE_WIDTH
                    && boundary[k].cycle < TRACE_HEIGHT,
        decreases boundary.len() - b,
    {
        if boundary[b].register >= TRACE_WIDTH || boundary[b].cycle >= TRACE_HEIGHT {
            return false;
        }
        b = b + 1;
    }
    true
}

/// A copy of a matrix.
pub fn copy_matrix(matrix: &Vec<Vec<BFieldElement>>) -> (r: Vec<Vec<BFieldElement>>)
    ensures
        r.len() == matrix.len(),
        forall|i: int| 0 <= i < r.len() ==> (#[trigger] r[i])@ == matrix[i]@,
{
    crate::shared_math::stark::table::copy_codewords(matrix)
}

/// The leaf that commits to a row: the hash of its bytes.
pub fn row_leaf(row: &Vec<BFieldElement>) -> (r: Digest)
    ensures
        r@ == blake3_hash(row_bytes(row@)),
        r@ == blake3_hash(value_bytes(values(row@))),
{
    assert(element_words(row@) =~= value_words(values(row@)));
    let mut bytes: Vec<u8> = Vec::new();
    let mut k: usize = 0;
    proof {
        assert(words_bytes(element_words(row@.subrange(0, 0))) =~= Seq::<u8>::empty());
    }
    while k < row.len()
        invariant
            k <= row.len(),
            bytes@ == words_bytes(element_words(row@.subrange(0, k as int))),
        decreases row.len() - k,
    {
        let word = u64_to_le_bytes(row[k].value());
        let ghost start = bytes@;
        let mut j: usize = 0;
        while j < 8
            invariant
                j <= 8,
                word.len() == 8,
                bytes@ == start + word@.subrange(0, j as int),
            decreases 8 - j,
        {
            bytes.push(word[j]);
            assert(bytes@ =~= start + word@.subrange(0, j + 1));
            j = j + 1;
        }
        proof {
            assert(word@.subrange(0, 8) =~= word@);
            let shorter = element_words(row@.subrange(0, k as int));
            let longer = element_words(row@.subrange(0, k + 1));
            assert forall|i: int| 0 <= i < 8 * (k + 1) implies words_bytes(longer)[i] == (start
                + word@)[i] by {
                if i < 8 * k {
                    assert(i / 8 < k);
                    assert(longer[i / 8] == shorter[i / 8]);
                } else {
                    assert(i / 8 == k && i % 8 == i - 8 * k);
                    assert(longer[k as int] == row[k as int]@ as u64);
                }
            }
            assert(bytes@ =~= words_bytes(longer));
        }
        k = k + 1;
    }
    assert(row@.subrange(0, row.len() as int) =~= row@);
    blake3_digest(bytes.as_slice())
}

/// Row `i` of a list of codewords: the `i`-th element of each.
pub fn row_at(codewords: &Vec<Vec<BFieldElement>>, i: usize) -> (r: Vec<BFieldElement>)
    requires
        forall|c: int| 0 <= c < codewords.len() ==> i < (#[trigger] codewords[c]).len(),
    ensures
        r.len() == codewords.len(),
        forall|c: int| 0 <= c < r.len() ==> r[c] == codewords[c][i as int],
        values(r@) == row_of(matrix_values(codewords@), i as int),
{
    let mut row: Vec<BFieldElement> = Vec::new();
    let mut c: usize = 0;
    while c < codewords.len()
        invariant
            c <= codewords.len(),
            forall|k: int| 0 <= k < codewords.len() ==> i < (#[trigger] codewords[k]).len(),
            row.len() == c,
            forall|k: int| 0 <= k < c ==> row[k] == codewords[k][i as int],
        decreases codewords.len() - c,
    {
        assert(i < codewords[c as int].len());
        row.push(codewords[c][i]);
        c = c + 1;
    }
    assert(values(row@) =~= row_of(matrix_values(codewords@), i as int));
    row
}

/// The weights of the constraints that a seed gives.
pub open spec fn sampled_weights(seed: Seq<u8>, count: nat) -> Seq<XValue> {
    Seq::new(count, |k: int| sampled_x(seed, k as u64))
}

/// The weights of the constraints, drawn from a seed: weight `k` is the
/// element drawn with counter `k`.
pub fn sample_weights(seed: &Digest, count: usize) -> (r: Vec<XFieldElement>)
    ensures
        x_values(r@) == sampled_weights(seed@, count as nat),
        r.len() == count,
{
    let mut weights: Vec<XFieldElement> = Vec::new();
    let mut k: usize = 0;
    while k < count
        invariant
            k <= count,
            weights.len() == k,
            forall|j: int| 0 <= j < k ==> weights[j]@ == sampled_x(seed@, j as u64),
        decreases count - k,
    {
        weights.push(sample_x(seed, k as u64));
        k = k + 1;
    }
    assert(x_values(weights@) =~= sampled_weights(seed@, count as nat));
    weights
}

/// The weighted sum of the quotients of all constraints at the point `z`,
/// from the row of the trace at that point, the row after it, and the
/// constants of the round; `None` where a constraint has no quotient there.
pub fn combination_at(
    current: &Vec<BFieldElement>,
    next: &Vec<BFieldElement>,
    constants: &Vec<BFieldElement>,
    boundary: &Vec<BoundaryConstraint>,
    weights: &Vec<XFieldElement>,
    z: BFieldElement,
    omicron: BFieldElement,
) -> (r: Option<XFieldElement>)
    requires
        current.len() == TRACE_WIDTH,
        next.len() == TRACE_WIDTH,
        constants.len() == CONSTANTS_WIDTH,
        boundary_fits(boundary@),
        weights.len() == TRACE_WIDTH + boundary.len(),
    ensures
        r is Some <==> quotients_exist(boundary@, z@, omicron@),
        r is Some ==> r->Some_0@ == weighted_sum(
            x_values(weights@),
            constraint_terms(
                values(current@),
                values(next@),
                values(constants@),
                boundary@,
                z@,
                omicron@,
            ),
            (TRACE_WIDTH + boundary.len()) as nat,
        ),
{
    let one = BFieldElement::ring_one();
    let omicron_inverse = match omicron.inverse() {
        Some(v) => v,
        None => {
            return None;
        },
    };
    let subgroup = match z.mod_pow_u64(TRACE_HEIGHT as u64).sub(one).inverse() {
        Some(v) => v,
        None => {
            return None;
        },
    };
    proof {
        lemma_small_mod(omicron_inverse.0 as nat, P as nat);
        lemma_inverse_of(omicron@, omicron_inverse@);
        lemma_small_mod(subgroup.0 as nat, P as nat);
        lemma_inverse_of(sub_mod(pow_mod(z@, TRACE_HEIGHT as nat), 1), subgroup@);
    }
    let zerofier_inverse = subgroup.mul(z.sub(omicron_inverse));
    let transitions = RescuePrime::transition_values(current, next, constants);
    let ghost expected = constraint_terms(
        values(current@),
        values(next@),
        values(constants@),
        boundary@,
        z@,
        omicron@,
    );
    let mut terms: Vec<BFieldElement> = Vec::new();
    let mut k: usize = 0;
    while k < TRACE_WIDTH
        invariant
            k <= TRACE_WIDTH,
            transitions.len() == TRACE_WIDTH,
            values(transitions@) == transition_spec(
                values(current@),
                values(next@),
                values(constants@),
            ),
            zerofier_inverse@ == transition_zerofier_inverse(z@, omicron@, TRACE_HEIGHT as nat),
            expected == constraint_terms(
                values(current@),
                values(next@),
                values(constants@),
                boundary@,
                z@,
                omicron@,
            ),
            terms.len() == k,
            forall|j: int| 0 <= j < k ==> terms[j]@ == expected[j],
        decreases TRACE_WIDTH - k,
    {
        assert(values(transitions@)[k as int] == transitions[k as int]@);
        terms.push(transitions[k].mul(zerofier_inverse));
        k = k + 1;
    }
    let mut b: usize = 0;
    while b < boundary.len()
        invariant
            b <= boundary.len(),
            current.len() == TRACE_WIDTH,
            boundary_fits(boundary@),
            has_inverse(omicron@),
            has_inverse(sub_mod(pow_mod(z@, TRACE_HEIGHT as nat), 1)),
            expected == constraint_terms(
                values(current@),
                values(next@),
                values(constants@),
                boundary@,
                z@,
                omicron@,
            ),
            terms.len() == TRACE_WIDTH + b,
            forall|j: int| 0 <= j < TRACE_WIDTH + b ==> terms[j]@ == expected[j],
            forall|j: int|
                0 <= j < b ==> has_inverse(
                    sub_mod(z@, pow_mod(omicron@, (#[trigger] boundary[j]).cycle as nat)),
                ),
        decreases boundary.len() - b,
    {
        let constraint = boundary[b];
        let point = omicron.mod_pow_u64(constraint.cycle as u64);
        let inverse = match z.sub(point).inverse() {
            Some(v) => v,
            None => {
                return None;
            },
        };
        proof {
            lemma_small_mod(inverse.0 as nat, P as nat);
            lemma_inverse_of(sub_mod(z@, pow_mod(omicron@, constraint.cycle as nat)), inverse@);
            assert(values(current@)[constraint.register as int]
                == current[constraint.register as int]@);
        }
        terms.push(current[constraint.register].sub(constraint.value).mul(inverse));
        b = b + 1;
    }
    let count = TRACE_WIDTH + boundary.len();
    let mut sum = XFieldElement::ring_zero();
    let mut k: usize = 0;
    while k < count
        invariant
            k <= count,
            count == TRACE_WIDTH + boundary.len(),
            weights.len() == count,
            terms.len() == count,
            expected.len() == count,
            forall|j: int| 0 <= j < count ==> terms[j]@ == expected[j],
            sum@ == weighted_sum(x_values(weights@), expected, k as nat),
        decreases count - k,
    {
        sum = sum.add(weights[k].scale(terms[k]));
        k = k + 1;
    }
    Some(sum)
}

/// The engine that proves, and checks, that a trace meets its constraints.
#[derive(Debug, Clone, Copy)]
pub struct Stark {
    /// The low-degree test, with the domain over which codewords are
    /// evaluated.
    pub fri: Fri,
    /// A generator of a subgroup whose order is a power of two.
    pub generator: BFieldElement,
    /// The order of `generator`.
    pub order: usize,
    /// The generator of the subgroup whose order is the height of a trace.
    pub omicron: BFieldElement,
    /// The number of random values mixed into each column of a trace.
    pub num_randomizers: usize,
}

impl Stark {
    /// An engine over a domain of `domain_length` points, which has to be a
    /// power of two between the height of a trace and the order of the
    /// engine's generator; `None` otherwise. The domain is the coset by 7 of
    /// the subgroup of that many points.
    pub fn new(
        domain_length: usize,
        expansion_factor: usize,
        colinearity_checks_count: usize,
        num_randomizers: usize,
    ) -> (r: Option<Self>)
        ensures
            r is Some <==> is_power_of_two(domain_length as nat) && TRACE_HEIGHT <= domain_length
                <= ENGINE_ORDER,
            r is Some ==> {
                let stark = r->Some_0;
                &&& stark.fri.domain.length == domain_length
                &&& stark.fri.domain.offset@ == 7
                &&& stark.fri.domain.omega@ == pow_mod(
                    TWO_ADIC_GENERATOR as int,
                    (TWO_ADIC_ORDER / domain_length as u64) as nat,
                )
                &&& stark.fri.expansion_factor == expansion_factor
                &&& stark.fri.colinearity_checks_count == colinearity_checks_count
                &&& stark.num_randomizers == num_randomizers
                &&& stark.order == ENGINE_ORDER
                &&& stark.generator@ == pow_mod(TWO_ADIC_GENERATOR as int, 4)
                &&& stark.omicron@ == omicron_of(
                    stark.generator@,
                    stark.order as nat,
                    TRACE_HEIGHT as nat,
                )
            },
    {
        if domain_length < TRACE_HEIGHT || domain_length > ENGINE_ORDER {
            return None;
        }
        let zero = BFieldElement::ring_zero();
        let order: usize = ENGINE_ORDER;
        proof {
            reveal_with_fuel(is_power_of_two, 32);
            assert(is_power_of_two(ENGINE_ORDER as nat));
            lemma_small_mod(7, P as nat);
        }
        let generator = match zero.get_primitive_root_of_unity(order as u64) {
            Some(g) => g,
            None => {
                return None;
            },
        };
        let omega = match zero.get_primitive_root_of_unity(domain_length as u64) {
            Some(g) => g,
            None => {
                return None;
            },
        };
        let omicron = derive_omicron(generator, order, TRACE_HEIGHT);
        let domain = FriDomain { offset: BFieldElement::new(7), omega, length: domain_length };
        Some(
            Stark {
                fri: Fri { domain, expansion_factor, colinearity_checks_count },
                generator,
                order,
                omicron,
                num_randomizers,
            },
        )
    }

    /// The place on the domain of the row after the row at place `i`.
    pub fn next_place(&self, i: usize) -> (r: usize)
        requires
            i < self.fri.domain.length,
        ensures
            r < self.fri.domain.length,
            r == next_place_spec(self.fri.domain.length as int, i as int),
    {
        let n = self.fri.domain.length;
        let distance = n / TRACE_HEIGHT;
        if i >= n - distance {
            i - (n - distance)
        } else {
            i + distance
        }
    }

    /// The codewords of the constants of the rounds over the domain, which
    /// prover and verifier compute alike: each column of constants is
    /// interpolated over the points of the trace and evaluated over the
    /// domain.
    pub fn constant_codewords(&self, transition_constraints: &AirConstraints) -> (r: Result<
        Vec<Vec<BFieldElement>>,
        StarkError,
    >)
        requires
            shaped(
                transition_constraints.round_constants@,
                TRACE_HEIGHT as nat,
                CONSTANTS_WIDTH as nat,
            ),
            self.fri.domain.length >= TRACE_HEIGHT,
        ensures
            match constant_codewords_spec(
                *self,
                matrix_values(transition_constraints.round_constants@),
            ) {
                Some(codewords) => r is Ok && matrix_values(r->Ok_0@) == codewords
                    && r->Ok_0.len() == CONSTANTS_WIDTH && forall|c: int|
                    0 <= c < r->Ok_0.len() ==> (#[trigger] r->Ok_0[c]).len()
                        == self.fri.domain.length,
                None => r == Err::<Vec<Vec<BFieldElement>>, StarkError>(
                    StarkError::ExtensionFailed,
                ),
            },
    {
        let mut table: Table<()> = Table::new(
            CONSTANTS_WIDTH,
            CONSTANTS_WIDTH,
            TRACE_HEIGHT,
            0,
            self.generator,
            self.order,
            (),
        );
        proof {
            lemma_trace_height_is_power_of_two();
        }
        table.matrix = copy_matrix(&transition_constraints.round_constants);
        assert(matrix_values(table.matrix@) =~= matrix_values(
            transition_constraints.round_constants@,
        ));
        let randomizers = no_randomizers(CONSTANTS_WIDTH);
        match table.base_codewords_with_randomizers(&self.fri.domain, &randomizers) {
            Ok(codewords) => {
                proof {
                    let expected = constant_codewords_spec(
                        *self,
                        matrix_values(transition_constraints.round_constants@),
                    )->Some_0;
                    assert forall|c: int| 0 <= c < CONSTANTS_WIDTH implies values(codewords[c]@)
                        == expected[c] by {
                        assert(codewords[c].len() == self.fri.domain.length);
                        assert(values(randomizers[c]@) =~= Seq::<int>::empty());
                    }
                    assert(matrix_values(codewords@) =~= expected);
                }
                Ok(codewords)
            },
            Err(_) => Err(StarkError::ExtensionFailed),
        }
    }

    /// The codewords of the columns of a trace over the domain, with the
    /// given random values mixed in.
    pub fn trace_codewords(
        &self,
        trace: Vec<Vec<BFieldElement>>,
        randomizers: &Vec<Vec<BFieldElement>>,
    ) -> (r: Result<Vec<Vec<BFieldElement>>, StarkError>)
        requires
            shaped(trace@, TRACE_HEIGHT as nat, TRACE_WIDTH as nat),
            shaped(randomizers@, TRACE_WIDTH as nat, self.num_randomizers as nat),
            self.num_randomizers <= 0x4000_0000,
            self.fri.domain.length >= TRACE_HEIGHT,
        ensures
            match trace_codewords_spec(
                *self,
                matrix_values(trace@),
                matrix_values(randomizers@),
            ) {
                Some(codewords) => r is Ok && matrix_values(r->Ok_0@) == codewords
                    && r->Ok_0.len() == TRACE_WIDTH && forall|c: int|
                    0 <= c < r->Ok_0.len() ==> (#[trigger] r->Ok_0[c]).len()
                        == self.fri.domain.length,
                None => r == Err::<Vec<Vec<BFieldElement>>, StarkError>(
                    StarkError::ExtensionFailed,
                ),
            },
    {
        let ghost rows = matrix_values(trace@);
        let mut table: Table<()> = Table::new(
            TRACE_WIDTH,
            TRACE_WIDTH,
            TRACE_HEIGHT,
            self.num_randomizers,
            self.generator,
            self.order,
            (),
        );
        proof {
            lemma_trace_height_is_power_of_two();
        }
        table.matrix = trace;
        match table.base_codewords_with_randomizers(&self.fri.domain, randomizers) {
            Ok(codewords) => {
                proof {
                    let expected = trace_codewords_spec(
                        *self,
                        rows,
                        matrix_values(randomizers@),
                    )->Some_0;
                    assert forall|c: int| 0 <= c < TRACE_WIDTH implies values(codewords[c]@)
                        == expected[c] by {
                        assert(codewords[c].len() == self.fri.domain.length);
                    }
                    assert(matrix_values(codewords@) =~= expected);
                }
                Ok(codewords)
            },
            Err(_) => Err(StarkError::ExtensionFailed),
        }
    }

    /// The tree that commits to the rows of the codewords of a trace.
    pub fn commit_rows(&self, codewords: &Vec<Vec<BFieldElement>>) -> (r: Option<MerkleTree>)
        requires
            forall|c: int|
                0 <= c < codewords.len() ==> (#[trigger] codewords[c]).len()
                    == self.fri.domain.length,
        ensures
            r is Some <==> is_power_of_two(self.fri.domain.length as nat),
            r is Some ==> r->Some_0.well_formed() && r->Some_0.leaves() == row_leaves(
                matrix_values(codewords@),
                self.fri.domain.length as nat,
            ),
    {
        let n = self.fri.domain.length;
        let mut leaves: Vec<Digest> = Vec::new();
        let mut i: usize = 0;
        while i < n
            invariant
                i <= n,
                n == self.fri.domain.length,
                forall|c: int| 0 <= c < codewords.len() ==> (#[trigger] codewords[c]).len() == n,
                leaves.len() == i,
                forall|j: int|
                    0 <= j < i ==> leaves[j]@ == blake3_hash(
                        value_bytes(row_of(matrix_values(codewords@), j)),
                    ),
            decreases n - i,
        {
            leaves.push(row_leaf(&row_at(codewords, i)));
            i = i + 1;
        }
        assert(digest_views(leaves@) =~= row_leaves(matrix_values(codewords@), n as nat));
        MerkleTree::from_digests(leaves)
    }

    /// The weighted sum of the quotients of all constraints over the whole
    /// domain; `None` where a point of the domain is a point of the trace.
    pub fn combination_codeword(
        &self,
        codewords: &Vec<Vec<BFieldElement>>,
        constants: &Vec<Vec<BFieldElement>>,
        boundary_constraints: &Vec<BoundaryConstraint>,
        weights: &Vec<XFieldElement>,
        omicron: BFieldElement,
    ) -> (r: Option<Vec<XFieldElement>>)
        requires
            self.fri.domain.length >= TRACE_HEIGHT,
            codewords.len() == TRACE_WIDTH,
            forall|c: int|
                0 <= c < codewords.len() ==> (#[trigger] codewords[c]).len()
                    == self.fri.domain.length,
            constants.len() == CONSTANTS_WIDTH,
            forall|c: int|
                0 <= c < constants.len() ==> (#[trigger] constants[c]).len()
                    == self.fri.domain.length,
            boundary_fits(boundary_constraints@),
            weights.len() == TRACE_WIDTH + boundary_constraints.len(),
        ensures
            match combination_spec(
                *self,
                matrix_values(codewords@),
                matrix_values(constants@),
                boundary_constraints@,
                x_values(weights@),
                omicron@,
            ) {
                Some(combination) => r is Some && x_values(r->Some_0@) == combination
                    && r->Some_0.len() == self.fri.domain.length,
                None => r is None,
            },
    {
        let n = self.fri.domain.length;
        let points = self.fri.domain.b_domain_values();
        let mut combination: Vec<XFieldElement> = Vec::new();
        let mut i: usize = 0;
        while i < n
            invariant
                i <= n,
                n == self.fri.domain.length,
                n >= TRACE_HEIGHT,
                points.len() == n,
                values(points@) == self.fri.domain.points(),
                codewords.len() == TRACE_WIDTH,
                forall|c: int| 0 <= c < codewords.len() ==> (#[trigger] codewords[c]).len() == n,
                constants.len() == CONSTANTS_WIDTH,
                forall|c: int| 0 <= c < constants.len() ==> (#[trigger] constants[c]).len() == n,
                boundary_fits(boundary_constraints@),
                weights.len() == TRACE_WIDTH + boundary_constraints.len(),
                combination.len() == i,
                forall|j: int|
                    0 <= j < i ==> #[trigger] has_quotients_at(
                        *self,
                        boundary_constraints@,
                        omicron@,
                        j,
                    ),
                forall|j: int|
                    0 <= j < i ==> combination[j]@ == combination_value(
                        *self,
                        matrix_values(codewords@),
                        matrix_values(constants@),
                        boundary_constraints@,
                        x_values(weights@),
                        omicron@,
                        j,
                    ),
            decreases n - i,
        {
            let current = row_at(codewords, i);
            let next = row_at(codewords, self.next_place(i));
            let round = row_at(constants, i);
            assert(points[i as int]@ == self.fri.domain.points()[i as int]) by {
                assert(values(points@)[i as int] == points[i as int]@);
            }
            match combination_at(
                &current,
                &next,
                &round,
                boundary_constraints,
                weights,
                points[i],
                omicron,
            ) {
                Some(value) => combination.push(value),
                None => {
                    assert(!has_quotients_at(*self, boundary_constraints@, omicron@, i as int));
                    return None;
                },
            }
            assert(has_quotients_at(*self, boundary_constraints@, omicron@, i as int));
            i = i + 1;
        }
        proof {
            let expected = combination_spec(
                *self,
                matrix_values(codewords@),
                matrix_values(constants@),
                boundary_constraints@,
                x_values(weights@),
                omicron@,
            )->Some_0;
            assert(x_values(combination@) =~= expected);
        }
        Some(combination)
    }

    /// Writes to the transcript, for each of the given places, the row of
    /// the trace's codewords at the place and the row after it, each with
    /// its path.
    pub fn open_rows(
        &self,
        codewords: &Vec<Vec<BFieldElement>>,
        tree: &MerkleTree,
        top: &Vec<usize>,
        proof_stream: &mut ProofStream,
    )
        requires
            self.fri.domain.length >= TRACE_HEIGHT,
            forall|c: int|
                0 <= c < codewords.len() ==> (#[trigger] codewords[c]).len()
                    == self.fri.domain.length,
            tree.well_formed(),
            tree.leaves().len() == self.fri.domain.length,
            forall|j: int| 0 <= j < top.len() ==> (#[trigger] top[j]) < self.fri.domain.length,
        ensures
            final(proof_stream).read_index == old(proof_stream).read_index,
            extends(old(proof_stream).transcript@, final(proof_stream).transcript@),
            final(proof_stream).transcript@ == openings_spec(
                *self,
                matrix_values(codewords@),
                tree.leaves(),
                index_views(top@),
                0,
                old(proof_stream).transcript@,
            ),
    {
        let n = self.fri.domain.length;
        let ghost start = proof_stream.transcript@;
        let ghost goal = openings_spec(
            *self,
            matrix_values(codewords@),
            tree.leaves(),
            index_views(top@),
            0,
            start,
        );
        proof {
            lemma_extends_by(start, Seq::<u8>::empty());
            assert(start + Seq::<u8>::empty() =~= start);
        }
        let mut k: usize = 0;
        while k < top.len()
            invariant
                k <= top.len(),
                n == self.fri.domain.length,
                n >= TRACE_HEIGHT,
                tree.well_formed(),
                tree.leaves().len() == n,
                forall|c: int| 0 <= c < codewords.len() ==> (#[trigger] codewords[c]).len() == n,
                forall|j: int| 0 <= j < top.len() ==> (#[trigger] top[j]) < n,
                proof_stream.read_index == old(proof_stream).read_index,
                start == old(proof_stream).transcript@,
                extends(start, proof_stream.transcript@),
                goal == openings_spec(
                    *self,
                    matrix_values(codewords@),
                    tree.leaves(),
                    index_views(top@),
                    0,
                    old(proof_stream).transcript@,
                ),
                goal == openings_spec(
                    *self,
                    matrix_values(codewords@),
                    tree.leaves(),
                    index_views(top@),
                    k as nat,
                    proof_stream.transcript@,
                ),
            decreases top.len() - k,
        {
            let place = top[k];
            assert(index_views(top@)[k as int] == place);
            let after = self.next_place(place);
            let ghost grown = proof_stream.transcript@;
            proof_stream.push_elements(&row_at(codewords, place));
            let ghost one = proof_stream.transcript@;
            proof_stream.push_path(&tree.get_authentication_path(place));
            let ghost two = proof_stream.transcript@;
            proof_stream.push_elements(&row_at(codewords, after));
            let ghost three = proof_stream.transcript@;
            proof_stream.push_path(&tree.get_authentication_path(after));
            proof {
                lemma_extends_twice(grown, one, two);
                lemma_extends_twice(grown, two, three);
                lemma_extends_twice(grown, three, proof_stream.transcript@);
                lemma_extends_twice(start, grown, proof_stream.transcript@);
            }
            k = k + 1;
        }
    }

    /// Proves that the trace meets the constraints, with the given random
    /// values mixed into the columns of the trace, and writes the proof to
    /// the transcript. Fails where the trace does not meet the constraints.
    /// A proof that was written is one that the verifier accepts, read from
    /// where the transcript stood before.
    pub fn prove_with_randomizers(
        &self,
        trace: Vec<Vec<BFieldElement>>,
        transition_constraints: &AirConstraints,
        boundary_constraints: &Vec<BoundaryConstraint>,
        randomizers: &Vec<Vec<BFieldElement>>,
        proof_stream: &mut ProofStream,
    ) -> (r: Result<(), StarkError>)
        ensures
            final(proof_stream).read_index == old(proof_stream).read_index,
            extends(old(proof_stream).transcript@, final(proof_stream).transcript@),
            match prove_spec(
                *self,
                matrix_values(trace@),
                matrix_values(transition_constraints.round_constants@),
                boundary_constraints@,
                matrix_values(randomizers@),
                old(proof_stream).transcript@,
            ) {
                Ok(transcript) => r is Ok && final(proof_stream).transcript@ == transcript,
                Err(e) => r == Err::<(), StarkError>(e),
            },
            r is Ok ==> verify_spec(
                *self,
                final(proof_stream).transcript@,
                old(proof_stream).transcript@.len() as int,
                matrix_values(transition_constraints.round_constants@),
                boundary_constraints@,
            ) == Ok::<(), StarkError>(()),
    {
        let ghost start = proof_stream.transcript@;
        proof {
            lemma_extends_by(start, Seq::<u8>::empty());
            assert(start + Seq::<u8>::empty() =~= start);
        }
        let n = self.fri.domain.length;
        if !check_shape(&trace, TRACE_HEIGHT, TRACE_WIDTH) || !check_shape(
            &transition_constraints.round_constants,
            TRACE_HEIGHT,
            CONSTANTS_WIDTH,
        ) || !check_boundary(boundary_constraints) || self.num_randomizers > 0x4000_0000
            || !check_shape(randomizers, TRACE_WIDTH, self.num_randomizers) || n < TRACE_HEIGHT
            || n > 0x4000_0000 || self.fri.expansion_factor == 0
            || boundary_constraints.len() > 0x4000_0000 {
            return Err(StarkError::ShapeMismatch);
        }
        let omicron = derive_omicron(self.generator, self.order, TRACE_HEIGHT);
        let codewords = match self.trace_codewords(trace, randomizers) {
            Ok(codewords) => codewords,
            Err(e) => {
                return Err(e);
            },
        };
        let constants = match self.constant_codewords(transition_constraints) {
            Ok(constants) => constants,
            Err(e) => {
                return Err(e);
            },
        };
        let tree = match self.commit_rows(&codewords) {
            Some(tree) => tree,
            None => {
                return Err(StarkError::ShapeMismatch);
            },
        };
        let root = tree.get_root();
        proof_stream.push_digest(&root);
        let ghost committed = proof_stream.transcript@;
        let seed = proof_stream.prover_fiat_shamir();
        let weights = sample_weights(&seed, TRACE_WIDTH + boundary_constraints.len());
        let combination = match self.combination_codeword(
            &codewords,
            &constants,
            boundary_constraints,
            &weights,
            omicron,
        ) {
            Some(combination) => combination,
            None => {
                return Err(StarkError::ZerofierVanishes);
            },
        };
        let points = self.fri.domain.b_domain_values();
        if !is_low_degree(&combination, &points, (n / self.fri.expansion_factor) as i64) {
            return Err(StarkError::ConstraintViolated);
        }
        let top = match self.fri.prove(&combination, proof_stream) {
            Ok(top) => top,
            Err(_) => {
                proof {
                    lemma_extends_twice(start, committed, proof_stream.transcript@);
                }
                return Err(StarkError::LowDegreeTestFailed);
            },
        };
        let ghost tested = proof_stream.transcript@;
        self.open_rows(&codewords, &tree, &top, proof_stream);
        proof {
            lemma_extends_twice(start, committed, tested);
            lemma_extends_twice(start, tested, proof_stream.transcript@);
            let rows = matrix_values(codewords@);
            lemma_tree_is_sized(tree);
            assert(codewords_fit(rows, n as nat)) by {
                assert forall|c: int| 0 <= c < rows.len() implies (#[trigger] rows[c]).len() == n
                    && canonical(rows[c]) by {
                    assert(rows[c] == values(codewords[c]@));
                    lemma_values_are_canonical(codewords[c]@);
                }
            }
            assert(places_within(index_views(top@), n as int)) by {
                assert forall|i: int| 0 <= i < top.len() implies 0 <= #[trigger] index_views(
                    top@,
                )[i] < n by {
                    assert(top[i] < n);
                }
            }
            lemma_shapes_agree(
                transition_constraints.round_constants@,
                TRACE_HEIGHT as nat,
                CONSTANTS_WIDTH as nat,
            );
            lemma_proof_is_accepted(
                *self,
                start,
                matrix_values(transition_constraints.round_constants@),
                boundary_constraints@,
                rows,
                matrix_values(constants@),
                index_views(top@),
                tested,
            );
        }
        Ok(())
    }

    /// Proves that the trace meets the constraints, with fresh random values
    /// mixed into the columns of the trace, as many per column as the engine
    /// takes, and writes the proof to the transcript. Succeeds or fails as
    /// the proof with those values does: it fails where the trace does not
    /// meet the constraints. A
    /// proof that was written is one that the verifier accepts, read from
    /// where the transcript stood before.
    pub fn prove(
        &self,
        trace: Vec<Vec<BFieldElement>>,
        transition_constraints: &AirConstraints,
        boundary_constraints: &Vec<BoundaryConstraint>,
        proof_stream: &mut ProofStream,
    ) -> (r: Result<(), StarkError>)
        ensures
            final(proof_stream).read_index == old(proof_stream).read_index,
            extends(old(proof_stream).transcript@, final(proof_stream).transcript@),
            exists|randomizers: Seq<Seq<int>>|
                shaped_values(randomizers, TRACE_WIDTH as nat, self.num_randomizers as nat)
                    && #[trigger] proved(
                    prove_spec(
                        *self,
                        matrix_values(trace@),
                        matrix_values(transition_constraints.round_constants@),
                        boundary_constraints@,
                        randomizers,
                        old(proof_stream).transcript@,
                    ),
                    r,
                    final(proof_stream).transcript@,
                ),
            r is Ok ==> verify_spec(
                *self,
                final(proof_stream).transcript@,
                old(proof_stream).transcript@.len() as int,
                matrix_values(transition_constraints.round_constants@),
                boundary_constraints@,
            ) == Ok::<(), StarkError>(()),
    {
        let mut randomizers: Vec<Vec<BFieldElement>> = Vec::new();
        let mut c: usize = 0;
        while c < TRACE_WIDTH
            invariant
                c <= TRACE_WIDTH,
                randomizers.len() == c,
                forall|k: int|
                    0 <= k < c ==> (#[trigger] randomizers[k]).len() == self.num_randomizers,
            decreases TRACE_WIDTH - c,
        {
            randomizers.push(random_elements(self.num_randomizers));
            c = c + 1;
        }
        let ghost rows = matrix_values(trace@);
        let r = self.prove_with_randomizers(
            trace,
            transition_constraints,
            boundary_constraints,
            &randomizers,
            proof_stream,
        );
        proof {
            lemma_shapes_agree(
                randomizers@,
                TRACE_WIDTH as nat,
                self.num_randomizers as nat,
            );
            assert(proved(
                prove_spec(
                    *self,
                    rows,
                    matrix_values(transition_constraints.round_constants@),
                    boundary_constraints@,
                    matrix_values(randomizers@),
                    old(proof_stream).transcript@,
                ),
                r,
                proof_stream.transcript@,
            ));
        }
        r
    }

    /// Checks one point of the weighted sum that the low-degree test vouches
    /// for: reads the row of the trace at the place of the point and the row
    /// after it, checks that both are under the root, and recomputes the
    /// weighted sum from them.
    pub fn check_point(
        &self,
        proof_stream: &mut ProofStream,
        root: &Digest,
        weights: &Vec<XFieldElement>,
        constants: &Vec<Vec<BFieldElement>>,
        boundary_constraints: &Vec<BoundaryConstraint>,
        omicron: BFieldElement,
        place: usize,
        claimed: XFieldElement,
    ) -> (r: Result<(), StarkError>)
        requires
            place < self.fri.domain.length,
            self.fri.domain.length >= TRACE_HEIGHT,
            constants.len() == CONSTANTS_WIDTH,
            forall|c: int|
                0 <= c < constants.len() ==> (#[trigger] constants[c]).len()
                    == self.fri.domain.length,
            boundary_fits(boundary_constraints@),
            weights.len() == TRACE_WIDTH + boundary_constraints.len(),
        ensures
            final(proof_stream).transcript == old(proof_stream).transcript,
            match point_step(
                *self,
                old(proof_stream).transcript@,
                old(proof_stream).read_index as int,
                root@,
                x_values(weights@),
                matrix_values(constants@),
                boundary_constraints@,
                omicron@,
                (place as int, claimed@),
            ) {
                Ok(next) => r is Ok && final(proof_stream).read_index == next,
                Err(e) => r == Err::<(), StarkError>(e),
            },
    {
        let after = self.next_place(place);
        let current = match proof_stream.pull_elements() {
            Ok(row) => row,
            Err(_) => {
                return Err(StarkError::MalformedTranscript);
            },
        };
        let current_path = match proof_stream.pull_path() {
            Ok(path) => path,
            Err(_) => {
                return Err(StarkError::MalformedTranscript);
            },
        };
        let next = match proof_stream.pull_elements() {
            Ok(row) => row,
            Err(_) => {
                return Err(StarkError::MalformedTranscript);
            },
        };
        let next_path = match proof_stream.pull_path() {
            Ok(path) => path,
            Err(_) => {
                return Err(StarkError::MalformedTranscript);
            },
        };
        if current.len() != TRACE_WIDTH || next.len() != TRACE_WIDTH {
            return Err(StarkError::MalformedTranscript);
        }
        if !MerkleTree::verify_authentication_path(root, place, &row_leaf(&current), &current_path)
            || !MerkleTree::verify_authentication_path(
            root,
            after,
            &row_leaf(&next),
            &next_path,
        ) {
            return Err(StarkError::BadCommitment);
        }
        let z = self.fri.domain.offset.mul(self.fri.domain.omega.mod_pow_u64(place as u64));
        let round = row_at(constants, place);
        match combination_at(&current, &next, &round, boundary_constraints, weights, z, omicron) {
            Some(value) => {
                if !(value == claimed) {
                    return Err(StarkError::ConstraintViolated);
                }
            },
            None => {
                return Err(StarkError::ZerofierVanishes);
            },
        }
        Ok(())
    }

    /// Checks a proof that a trace meets the constraints, from the
    /// transcript alone. The proof has to end where the transcript ends.
    pub fn verify(
        &self,
        proof_stream: &mut ProofStream,
        transition_constraints: &AirConstraints,
        boundary_constraints: &Vec<BoundaryConstraint>,
    ) -> (r: Result<(), StarkError>)
        ensures
            final(proof_stream).transcript == old(proof_stream).transcript,
            r == verify_spec(
                *self,
                old(proof_stream).transcript@,
                old(proof_stream).read_index as int,
                matrix_values(transition_constraints.round_constants@),
                boundary_constraints@,
            ),
    {
        let n = self.fri.domain.length;
        if !check_shape(&transition_constraints.round_constants, TRACE_HEIGHT, CONSTANTS_WIDTH)
            || !check_boundary(boundary_constraints) || n < TRACE_HEIGHT
            || boundary_constraints.len() > 0x4000_0000 {
            return Err(StarkError::ShapeMismatch);
        }
        let ghost bytes = proof_stream.transcript@;
        let omicron = derive_omicron(self.generator, self.order, TRACE_HEIGHT);
        let root = match proof_stream.pull_digest() {
            Ok(root) => root,
            Err(_) => {
                return Err(StarkError::MalformedTranscript);
            },
        };
        let seed = proof_stream.verifier_fiat_shamir();
        let weights = sample_weights(&seed, TRACE_WIDTH + boundary_constraints.len());
        let constants = match self.constant_codewords(transition_constraints) {
            Ok(constants) => constants,
            Err(e) => {
                return Err(e);
            },
        };
        let top = match self.fri.verify(proof_stream) {
            Ok(top) => top,
            Err(FriError::MalformedTranscript) => {
                return Err(StarkError::MalformedTranscript);
            },
            Err(_) => {
                return Err(StarkError::LowDegreeTestFailed);
            },
        };
        let ghost goal = points_spec(
            *self,
            bytes,
            root@,
            x_values(weights@),
            matrix_values(constants@),
            boundary_constraints@,
            omicron@,
            point_views(top@),
            0,
            proof_stream.read_index as int,
        );
        let mut k: usize = 0;
        while k < top.len()
            invariant
                k <= top.len(),
                n == self.fri.domain.length,
                n >= TRACE_HEIGHT,
                bytes == old(proof_stream).transcript@,
                proof_stream.transcript == old(proof_stream).transcript,
                constants.len() == CONSTANTS_WIDTH,
                forall|c: int| 0 <= c < constants.len() ==> (#[trigger] constants[c]).len() == n,
                forall|j: int| 0 <= j < top.len() ==> (#[trigger] top[j]).0 < n,
                boundary_fits(boundary_constraints@),
                weights.len() == TRACE_WIDTH + boundary_constraints.len(),
                goal == points_spec(
                    *self,
                    bytes,
                    root@,
                    x_values(weights@),
                    matrix_values(constants@),
                    boundary_constraints@,
                    omicron@,
                    point_views(top@),
                    k as nat,
                    proof_stream.read_index as int,
                ),
                match goal {
                    Ok(end) => verify_spec(
                        *self,
                        bytes,
                        old(proof_stream).read_index as int,
                        matrix_values(transition_constraints.round_constants@),
                        boundary_constraints@,
                    ) == (if end != bytes.len() {
                        Err::<(), StarkError>(StarkError::MalformedTranscript)
                    } else {
                        Ok::<(), StarkError>(())
                    }),
                    Err(e) => verify_spec(
                        *self,
                        bytes,
                        old(proof_stream).read_index as int,
                        matrix_values(transition_constraints.round_constants@),
                        boundary_constraints@,
                    ) == Err::<(), StarkError>(e),
                },
            decreases top.len() - k,
        {
            assert(top[k as int].0 < n);
            assert(point_views(top@)[k as int] == (top[k as int].0 as int, top[k as int].1@));
            match self.check_point(
                proof_stream,
                &root,
                &weights,
                &constants,
                boundary_constraints,
                omicron,
                top[k].0,
                top[k].1,
            ) {
                Ok(()) => {},
                Err(e) => {
                    return Err(e);
                },
            }
            k = k + 1;
        }
        if proof_stream.read_index != proof_stream.len() {
            return Err(StarkError::MalformedTranscript);
        }
        Ok(())
    }
}

/// The bytes of a row of field values, eight bytes each.
pub open spec fn value_bytes(row: Seq<int>) -> Seq<u8> {
    words_bytes(value_words(row))
}

/// Row `i` of a list of codewords: the `i`-th value of each.
pub open spec fn row_of(codewords: Seq<Seq<int>>, i: int) -> Seq<int> {
    Seq::new(codewords.len(), |c: int| codewords[c][i])
}

/// The place on a domain of `n` points of the row after the row at place
/// `i`: a sixteenth of the domain further, around the domain.
pub open spec fn next_place_spec(n: int, i: int) -> int {
    let distance = n / (TRACE_HEIGHT as int);
    if i >= n - distance {
        i - (n - distance)
    } else {
        i + distance
    }
}

/// The codewords of the constants of the rounds over the domain of an
/// engine; `None` where the points of a trace cannot be interpolated.
pub open spec fn constant_codewords_spec(stark: Stark, constants: Seq<Seq<int>>) -> Option<
    Seq<Seq<int>>,
> {
    let points = interpolation_points(
        omicron_of(stark.generator@, stark.order as nat, TRACE_HEIGHT as nat),
        stark.fri.domain.omega@,
        TRACE_HEIGHT as nat,
        0,
    );
    if !interpolable(points, TRACE_HEIGHT as nat) {
        None
    } else {
        Some(
            Seq::new(
                CONSTANTS_WIDTH as nat,
                |c: int|
                    extended_column(
                        column(constants, c),
                        Seq::<int>::empty(),
                        points,
                        stark.fri.domain.points(),
                    ),
            ),
        )
    }
}

/// The codewords of the columns of a trace over the domain of an engine,
/// with the given random values mixed in; `None` where the points of the
/// trace and of the random values cannot be interpolated.
pub open spec fn trace_codewords_spec(
    stark: Stark,
    trace: Seq<Seq<int>>,
    randomizers: Seq<Seq<int>>,
) -> Option<Seq<Seq<int>>> {
    let points = interpolation_points(
        omicron_of(stark.generator@, stark.order as nat, TRACE_HEIGHT as nat),
        stark.fri.domain.omega@,
        TRACE_HEIGHT as nat,
        stark.num_randomizers as nat,
    );
    if !interpolable(points, (TRACE_HEIGHT + stark.num_randomizers) as nat) {
        None
    } else {
        Some(
            Seq::new(
                TRACE_WIDTH as nat,
                |c: int|
                    extended_column(
                        column(trace, c),
                        randomizers[c],
                        points,
                        stark.fri.domain.points(),
                    ),
            ),
        )
    }
}

/// The leaves that commit to the rows of a list of codewords.
pub open spec fn row_leaves(codewords: Seq<Seq<int>>, n: nat) -> Seq<Seq<u8>> {
    Seq::new(n, |i: int| blake3_hash(value_bytes(row_of(codewords, i))))
}

/// Whether every constraint has a quotient at point `i` of the domain.
pub open spec fn has_quotients_at(
    stark: Stark,
    boundary: Seq<BoundaryConstraint>,
    omicron: int,
    i: int,
) -> bool {
    quotients_exist(boundary, stark.fri.domain.points()[i], omicron)
}

/// The weighted sum of the quotients of all constraints at point `i` of
/// the domain.
pub open spec fn combination_value(
    stark: Stark,
    codewords: Seq<Seq<int>>,
    constants: Seq<Seq<int>>,
    boundary: Seq<BoundaryConstraint>,
    weights: Seq<XValue>,
    omicron: int,
    i: int,
) -> XValue {
    weighted_sum(
        weights,
        constraint_terms(
            row_of(codewords, i),
            row_of(codewords, next_place_spec(stark.fri.domain.length as int, i)),
            row_of(constants, i),
            boundary,
            stark.fri.domain.points()[i],
            omicron,
        ),
        TRACE_WIDTH as nat + boundary.len(),
    )
}

/// The weighted sum of the quotients of all constraints over the whole
/// domain; `None` where a point of the domain is a point of the trace.
pub open spec fn combination_spec(
    stark: Stark,
    codewords: Seq<Seq<int>>,
    constants: Seq<Seq<int>>,
    boundary: Seq<BoundaryConstraint>,
    weights: Seq<XValue>,
    omicron: int,
) -> Option<Seq<XValue>> {
    if !(forall|i: int|
        0 <= i < stark.fri.domain.length ==> #[trigger] has_quotients_at(
            stark,
            boundary,
            omicron,
            i,
        )) {
        None
    } else {
        Some(
            Seq::new(
                stark.fri.domain.length as nat,
                |i: int|
                    combination_value(stark, codewords, constants, boundary, weights, omicron, i),
            ),
        )
    }
}

/// The transcript with the openings of the places from place `k` on at its
/// end: for each place the row of the codewords at the place and the row
/// after it, each followed by its path.
pub open spec fn openings_spec(
    stark: Stark,
    codewords: Seq<Seq<int>>,
    leaves: Seq<Seq<u8>>,
    top: Seq<int>,
    k: nat,
    transcript: Seq<u8>,
) -> Seq<u8>
    decreases top.len() - k,
{
    if k >= top.len() {
        transcript
    } else {
        let place = top[k as int];
        let after = next_place_spec(stark.fri.domain.length as int, place);
        openings_spec(
            stark,
            codewords,
            leaves,
            top,
            k + 1,
            transcript + elements_item(row_of(codewords, place)) + path_item(
                path_of(leaves, place),
            ) + elements_item(row_of(codewords, after)) + path_item(path_of(leaves, after)),
        )
    }
}

/// What the prover makes of a trace, its constraints, random values and a
/// transcript: the transcript with the proof at its end, or why there is
/// no proof. The root of the trace's codewords goes to the transcript; the
/// weights of the constraints are drawn from the transcript up to there;
/// the weighted sum of the quotients has to be of low degree, which it is
/// not where the trace breaks a constraint; the low-degree test follows,
/// and the rows of the trace at the places that the test asked for.
pub open spec fn prove_spec(
    stark: Stark,
    trace: Seq<Seq<int>>,
    round_constants: Seq<Seq<int>>,
    boundary: Seq<BoundaryConstraint>,
    randomizers: Seq<Seq<int>>,
    transcript: Seq<u8>,
) -> Result<Seq<u8>, StarkError> {
    let n = stark.fri.domain.length;
    if !shaped_values(trace, TRACE_HEIGHT as nat, TRACE_WIDTH as nat) || !shaped_values(
        round_constants,
        TRACE_HEIGHT as nat,
        CONSTANTS_WIDTH as nat,
    ) || !boundary_fits(boundary) || stark.num_randomizers > 0x4000_0000 || !shaped_values(
        randomizers,
        TRACE_WIDTH as nat,
        stark.num_randomizers as nat,
    ) || n < TRACE_HEIGHT || n > 0x4000_0000 || stark.fri.expansion_factor == 0 || boundary.len()
        > 0x4000_0000 {
        Err(StarkError::ShapeMismatch)
    } else {
        match trace_codewords_spec(stark, trace, randomizers) {
            None => Err(StarkError::ExtensionFailed),
            Some(codewords) => match constant_codewords_spec(stark, round_constants) {
                None => Err(StarkError::ExtensionFailed),
                Some(constants) => if !is_power_of_two(n as nat) {
                    Err(StarkError::ShapeMismatch)
                } else {
                    let leaves = row_leaves(codewords, n as nat);
                    let committed = transcript + digest_item(root_of(leaves));
                    let weights = sampled_weights(
                        blake3_hash(committed),
                        TRACE_WIDTH as nat + boundary.len(),
                    );
                    let omicron = omicron_of(
                        stark.generator@,
                        stark.order as nat,
                        TRACE_HEIGHT as nat,
                    );
                    match combination_spec(
                        stark,
                        codewords,
                        constants,
                        boundary,
                        weights,
                        omicron,
                    ) {
                        None => Err(StarkError::ZerofierVanishes),
                        Some(combination) => if !low_degree(
                            combination,
                            stark.fri.domain.points(),
                            (n / stark.fri.expansion_factor) as int,
                        ) {
                            Err(StarkError::ConstraintViolated)
                        } else {
                            match fri_prove_spec(stark.fri, combination, committed) {
                                Err(_) => Err(StarkError::LowDegreeTestFailed),
                                Ok((top, tested)) => Ok(
                                    openings_spec(stark, codewords, leaves, top, 0, tested),
                                ),
                            }
                        },
                    }
                },
            },
        }
    }
}

/// Whether the prover did what it makes of its inputs: it succeeded with
/// the transcript expected, or failed for the reason expected.
pub open spec fn proved(
    expected: Result<Seq<u8>, StarkError>,
    r: Result<(), StarkError>,
    transcript: Seq<u8>,
) -> bool {
    match expected {
        Ok(bytes) => r is Ok && transcript == bytes,
        Err(e) => r == Err::<(), StarkError>(e),
    }
}

/// One point of the weighted sum, as the verifier checks it at the place
/// `at` of the transcript: the place after the rows that it read, or why
/// the point fails.
pub open spec fn point_step(
    stark: Stark,
    bytes: Seq<u8>,
    at: int,
    root: Seq<u8>,
    weights: Seq<XValue>,
    constants: Seq<Seq<int>>,
    boundary: Seq<BoundaryConstraint>,
    omicron: int,
    point: (int, XValue),
) -> Result<int, StarkError> {
    let place = point.0;
    let after = next_place_spec(stark.fri.domain.length as int, place);
    match parse_elements(bytes, at) {
        Err(_) => Err(StarkError::MalformedTranscript),
        Ok((current, at1)) => match parse_path(bytes, at1) {
            Err(_) => Err(StarkError::MalformedTranscript),
            Ok((current_path, at2)) => match parse_elements(bytes, at2) {
                Err(_) => Err(StarkError::MalformedTranscript),
                Ok((next, at3)) => match parse_path(bytes, at3) {
                    Err(_) => Err(StarkError::MalformedTranscript),
                    Ok((next_path, at4)) => if current.len() != TRACE_WIDTH || next.len()
                        != TRACE_WIDTH {
                        Err(StarkError::MalformedTranscript)
                    } else if root_from_path(
                        blake3_hash(value_bytes(current)),
                        place,
                        current_path,
                    ) != root || root_from_path(blake3_hash(value_bytes(next)), after, next_path)
                        != root {
                        Err(StarkError::BadCommitment)
                    } else {
                        let z = mul_mod(
                            stark.fri.domain.offset@,
                            pow_mod(stark.fri.domain.omega@, place as nat),
                        );
                        if !quotients_exist(boundary, z, omicron) {
                            Err(StarkError::ZerofierVanishes)
                        } else if weighted_sum(
                            weights,
                            constraint_terms(
                                current,
                                next,
                                row_of(constants, place),
                                boundary,
                                z,
                                omicron,
                            ),
                            TRACE_WIDTH as nat + boundary.len(),
                        ) != point.1 {
                            Err(StarkError::ConstraintViolated)
                        } else {
                            Ok(at4)
                        }
                    },
                },
            },
        },
    }
}

/// The points from point `k` on, as the verifier checks them: the place
/// after the last, or why the first that fails does.
pub open spec fn points_spec(
    stark: Stark,
    bytes: Seq<u8>,
    root: Seq<u8>,
    weights: Seq<XValue>,
    constants: Seq<Seq<int>>,
    boundary: Seq<BoundaryConstraint>,
    omicron: int,
    points: Seq<(int, XValue)>,
    k: nat,
    at: int,
) -> Result<int, StarkError>
    decreases points.len() - k,
{
    if k >= points.len() {
        Ok(at)
    } else {
        match point_step(
            stark,
            bytes,
            at,
            root,
            weights,
            constants,
            boundary,
            omicron,
            points[k as int],
        ) {
            Err(e) => Err(e),
            Ok(next) => points_spec(
                stark,
                bytes,
                root,
                weights,
                constants,
                boundary,
                omicron,
                points,
                k + 1,
                next,
            ),
        }
    }
}

/// What the verifier makes of the transcript from the place `at` on: it
/// reads the root of the trace, draws the weights of the constraints from
/// the transcript up to there, has the low-degree test vouch for points of
/// the weighted sum, and checks each point against the rows of the trace
/// that the transcript opens; the proof has to end where the transcript
/// ends.
pub open spec fn verify_spec(
    stark: Stark,
    bytes: Seq<u8>,
    at: int,
    round_constants: Seq<Seq<int>>,
    boundary: Seq<BoundaryConstraint>,
) -> Result<(), StarkError> {
    if !shaped_values(round_constants, TRACE_HEIGHT as nat, CONSTANTS_WIDTH as nat)
        || !boundary_fits(boundary) || stark.fri.domain.length < TRACE_HEIGHT || boundary.len()
        > 0x4000_0000 {
        Err(StarkError::ShapeMismatch)
    } else {
        match parse_digest(bytes, at) {
            Err(_) => Err(StarkError::MalformedTranscript),
            Ok((root, at1)) => {
                let seed = blake3_hash(bytes.subrange(0, at1));
                let weights = sampled_weights(seed, TRACE_WIDTH as nat + boundary.len());
                match constant_codewords_spec(stark, round_constants) {
                    None => Err(StarkError::ExtensionFailed),
                    Some(constants) => match fri_verify_spec(stark.fri, bytes, at1) {
                        Err(FriError::MalformedTranscript) => Err(
                            StarkError::MalformedTranscript,
                        ),
                        Err(_) => Err(StarkError::LowDegreeTestFailed),
                        Ok((points, at2)) => match points_spec(
                            stark,
                            bytes,
                            root,
                            weights,
                            constants,
                            boundary,
                            omicron_of(stark.generator@, stark.order as nat, TRACE_HEIGHT as nat),
                            points,
                            0,
                            at2,
                        ) {
                            Err(e) => Err(e),
                            Ok(end) => if end != bytes.len() {
                                Err(StarkError::MalformedTranscript)
                            } else {
                                Ok(())
                            },
                        },
                    },
                }
            },
        }
    }
}

/// The height of a trace is a power of two.
pub proof fn lemma_trace_height_is_power_of_two()
    ensures
        is_power_of_two(TRACE_HEIGHT as nat),
{
    reveal_with_fuel(is_power_of_two, 6);
}

/// Lists of no random values, one per column.
fn no_randomizers(width: usize) -> (r: Vec<Vec<BFieldElement>>)
    ensures
        r.len() == width,
        forall|c: int| 0 <= c < r.len() ==> (#[trigger] r[c]).len() == 0,
{
    let mut out: Vec<Vec<BFieldElement>> = Vec::new();
    let mut c: usize = 0;
    while c < width
        invariant
            c <= width,
            out.len() == c,
            forall|k: int| 0 <= k < c ==> (#[trigger] out[k]).len() == 0,
        decreases width - c,
    {
        out.push(Vec::new());
        c = c + 1;
    }
    out
}

} // verus!
