//! The permutation of the sponge as a computation to be proved: its trace,
//! one row per round, and the constraints that hold of a trace.
//!
//! A trace has sixteen rows. The first is the input followed by zeros, the
//! next eight are the states after the rounds of the permutation, and the
//! rest go on with rounds whose constants are zero, so that one constraint
//! holds between any two consecutive rows.

use crate::shared_math::b_field_element::add_mod;
use crate::shared_math::b_field_element::BFieldElement;
use crate::shared_math::b_field_element::elements;
use crate::shared_math::b_field_element::mul_mod;
use crate::shared_math::b_field_element::P;
use crate::shared_math::b_field_element::pow_mod;
use crate::shared_math::b_field_element::sub_mod;
use crate::shared_math::b_field_element::values;
use crate::shared_math::rescue_prime_regular::ALPHA;
use crate::shared_math::rescue_prime_regular::ALPHA_INV;
use crate::shared_math::rescue_prime_regular::constants_layer;
use crate::shared_math::rescue_prime_regular::initial_state;
use crate::shared_math::rescue_prime_regular::MDS;
use crate::shared_math::rescue_prime_regular::mds_dot;
use crate::shared_math::rescue_prime_regular::MDS_INV;
use crate::shared_math::rescue_prime_regular::mds_layer;
use crate::shared_math::rescue_prime_regular::NUM_ROUNDS;
use crate::shared_math::rescue_prime_regular::RescuePrimeRegular;
use crate::shared_math::rescue_prime_regular::round_constant;
use crate::shared_math::rescue_prime_regular::ROUND_CONSTANTS;
use crate::shared_math::rescue_prime_regular::sbox_layer;
use crate::shared_math::rescue_prime_regular::STATE_SIZE;
use crate::shared_math::rescue_prime_regular::xlix_rounds;
use crate::shared_math::rescue_prime_regular::xlix_spec;
use crate::shared_math::stark::table::matrix_values;
use vstd::arithmetic::div_mod::*;
use vstd::prelude::*;

verus! {

/// The number of rows of a trace.
pub const TRACE_HEIGHT: usize = 16;

/// The number of columns of a trace.
pub const TRACE_WIDTH: usize = 16;

/// The number of constants that a round adds: sixteen after each of its two
/// halves.
pub const CONSTANTS_WIDTH: usize = 32;

/// A constraint that pins one element of a trace: in row `cycle`, column
/// `register` holds `value`.
#[derive(Debug, Clone, Copy)]
pub struct BoundaryConstraint {
    pub cycle: usize,
    pub register: usize,
    pub value: BFieldElement,
}

/// The constraints between consecutive rows of a trace: row `i + 1` is row
/// `i` after a round with the constants `round_constants[i]`.
#[derive(Debug, Clone)]
pub struct AirConstraints {
    pub round_constants: Vec<Vec<BFieldElement>>,
}

/// The state that the permutation starts from: the input, then zeros.
pub open spec fn initial_with(input: int) -> Seq<int> {
    Seq::new(
        STATE_SIZE as nat,
        |i: int|
            if i == 0 {
                input
            } else {
                0
            },
    )
}

/// The state with the first or the second sixteen of 32 constants added.
pub open spec fn add_layer(s: Seq<int>, constants: Seq<int>, second: bool) -> Seq<int> {
    Seq::new(
        STATE_SIZE as nat,
        |i: int|
            add_mod(
                s[i],
                constants[if second {
                    i + STATE_SIZE
                } else {
                    i
                }],
            ),
    )
}

/// One round with the given 32 constants: forward S-box, mixing, the first
/// sixteen constants, backward S-box, mixing, the other sixteen.
pub open spec fn round_with(s: Seq<int>, constants: Seq<int>) -> Seq<int> {
    add_layer(
        mds_layer(
            sbox_layer(
                add_layer(mds_layer(sbox_layer(s, ALPHA as nat)), constants, false),
                ALPHA_INV as nat,
            ),
        ),
        constants,
        true,
    )
}

/// The constants of the round that leads from row `i` of a trace to the
/// next: those of round `i` of the permutation for the first eight rows,
/// zeros after them.
pub open spec fn constants_of_row(i: int) -> Seq<int> {
    Seq::new(
        CONSTANTS_WIDTH as nat,
        |k: int|
            if i < NUM_ROUNDS {
                round_constant(i * CONSTANTS_WIDTH + k)
            } else {
                0
            },
    )
}

/// Row `i` of the trace of the permutation on the given input.
pub open spec fn trace_row(input: int, i: nat) -> Seq<int>
    decreases i,
{
    if i == 0 {
        initial_with(input)
    } else {
        round_with(trace_row(input, (i - 1) as nat), constants_of_row(i - 1))
    }
}

/// The trace of the permutation on the given input.
pub open spec fn trace_of(input: int) -> Seq<Seq<int>> {
    Seq::new(TRACE_HEIGHT as nat, |i: int| trace_row(input, i as nat))
}

/// The image of an element under the permutation: the first element of the
/// state that the permutation turns the element followed by zeros into.
pub open spec fn hash_spec(input: int) -> int {
    xlix_spec(initial_with(input))[0]
}

/// The entry of the inverse of the mixing matrix at the flat index `k`.
pub open spec fn mds_inv_entry(k: int) -> int {
    (MDS_INV[k] as int) % (P as int)
}

/// The inner product of row `row` of the inverse of the mixing matrix with
/// the first `n` elements of `s`.
pub open spec fn mds_inv_dot(s: Seq<int>, row: int, n: nat) -> int
    decreases n,
{
    if n == 0 {
        0
    } else {
        add_mod(
            mds_inv_dot(s, row, (n - 1) as nat),
            mul_mod(mds_inv_entry(row * STATE_SIZE + n - 1), s[n - 1]),
        )
    }
}

/// What the transition constraints evaluate to on two rows and the
/// constants of a round. The round is split in its middle: the first half
/// applied to `current` has to meet the second half undone from `next`. Per
/// element `j` that is
/// `(inverse mixing of (next - second constants))_j ^ 7
///  - (mixing of current^7 + first constants)_j`,
/// which is zero where `next` is `current` after the round.
pub open spec fn transition_spec(current: Seq<int>, next: Seq<int>, constants: Seq<int>) -> Seq<int> {
    let forward = sbox_layer(current, ALPHA as nat);
    let backward = Seq::new(
        STATE_SIZE as nat,
        |k: int| sub_mod(next[k], constants[k + STATE_SIZE]),
    );
    Seq::new(
        STATE_SIZE as nat,
        |j: int|
            sub_mod(
                pow_mod(mds_inv_dot(backward, j, STATE_SIZE as nat), ALPHA as nat),
                add_mod(mds_dot(forward, j, STATE_SIZE as nat), constants[j]),
            ),
    )
}

/// The first eight rows after the first are the states after the rounds of
/// the permutation.
pub proof fn lemma_trace_follows_permutation(input: int, n: nat)
    requires
        n <= NUM_ROUNDS,
    ensures
        trace_row(input, n) == xlix_rounds(initial_with(input), n),
    decreases n,
{
    if n > 0 {
        lemma_trace_follows_permutation(input, (n - 1) as nat);
        let before = trace_row(input, (n - 1) as nat);
        let constants = constants_of_row(n - 1);
        let middle = mds_layer(sbox_layer(before, ALPHA as nat));
        assert(add_layer(middle, constants, false) =~= constants_layer(
            middle,
            (n - 1) * 2 * STATE_SIZE,
        ));
        let first = add_layer(middle, constants, false);
        let late = mds_layer(sbox_layer(first, ALPHA_INV as nat));
        assert(add_layer(late, constants, true) =~= constants_layer(
            late,
            (n - 1) * 2 * STATE_SIZE + STATE_SIZE,
        ));
    }
}

/// The constants of the rounds of all rows of a trace.
pub open spec fn air_constants() -> Seq<Seq<int>> {
    Seq::new(TRACE_HEIGHT as nat, |i: int| constants_of_row(i))
}

/// The constraints on single elements of a trace that ends in `output`:
/// the first row holds zeros after its first element, and the row after
/// the last round of the permutation starts with `output`.
pub open spec fn boundary_constraints_of(output: BFieldElement) -> Seq<BoundaryConstraint> {
    Seq::new(
        STATE_SIZE as nat,
        |k: int|
            if k < STATE_SIZE - 1 {
                BoundaryConstraint { cycle: 0, register: (k + 1) as usize, value: BFieldElement(0) }
            } else {
                BoundaryConstraint { cycle: NUM_ROUNDS, register: 0, value: output }
            },
    )
}

/// The permutation as a computation to be proved.
#[derive(Debug, Clone, Copy)]
pub struct RescuePrime {}

impl RescuePrime {
    /// The permutation, which has no parameters of its own.
    pub fn new() -> (r: Self)
        ensures
            r == (RescuePrime {  }),
    {
        RescuePrime {  }
    }

    /// The constants of the round that leads from row `i` of a trace to the
    /// next.
    pub fn round_constants_of_row(i: usize) -> (r: Vec<BFieldElement>)
        ensures
            r.len() == CONSTANTS_WIDTH,
            values(r@) == constants_of_row(i as int),
    {
        let mut out: Vec<BFieldElement> = Vec::new();
        let mut k: usize = 0;
        while k < CONSTANTS_WIDTH
            invariant
                k <= CONSTANTS_WIDTH,
                out.len() == k,
                forall|j: int| 0 <= j < k ==> out[j]@ == constants_of_row(i as int)[j],
            decreases CONSTANTS_WIDTH - k,
        {
            if i < NUM_ROUNDS {
                out.push(BFieldElement::new(ROUND_CONSTANTS[i * CONSTANTS_WIDTH + k]));
            } else {
                out.push(BFieldElement::ring_zero());
            }
            k = k + 1;
        }
        assert(values(out@) =~= constants_of_row(i as int));
        out
    }

    /// Applies to the state one round with the given constants.
    pub fn apply_round(state: &mut RescuePrimeRegular, constants: &Vec<BFieldElement>)
        requires
            constants.len() == CONSTANTS_WIDTH,
        ensures
            final(state).state_view() == round_with(old(state).state_view(), values(constants@)),
    {
        state.apply_sbox(ALPHA);
        state.apply_mds();
        Self::add_half(state, constants, false);
        state.apply_sbox(ALPHA_INV);
        state.apply_mds();
        Self::add_half(state, constants, true);
    }

    /// Adds to the state the first or the second sixteen of 32 constants.
    fn add_half(state: &mut RescuePrimeRegular, constants: &Vec<BFieldElement>, second: bool)
        requires
            constants.len() == CONSTANTS_WIDTH,
        ensures
            final(state).state_view() == add_layer(
                old(state).state_view(),
                values(constants@),
                second,
            ),
    {
        let ghost before = state.state_view();
        let shift: usize = if second {
            STATE_SIZE
        } else {
            0
        };
        for i in 0..STATE_SIZE
            invariant
                constants.len() == CONSTANTS_WIDTH,
                shift == (if second {
                    STATE_SIZE
                } else {
                    0
                }),
                forall|j: int|
                    0 <= j < i ==> state.state[j]@ == add_mod(before[j], constants[j + shift]@),
                forall|j: int| i <= j < STATE_SIZE ==> state.state[j]@ == before[j],
        {
            state.state[i] = state.state[i].add(constants[i + shift]);
        }
        assert(state.state_view() =~= add_layer(before, values(constants@), second));
    }

    /// The sponge whose state is the input followed by zeros.
    fn initial_sponge(input: &BFieldElement) -> (r: RescuePrimeRegular)
        ensures
            r.state_view() == initial_with(input@),
    {
        let mut sponge = RescuePrimeRegular::new();
        let ghost start = sponge.state_view();
        assert forall|j: int| 0 <= j < STATE_SIZE implies sponge.state[j]@ == 0 by {
            assert(start[j] == initial_state()[j]);
        }
        sponge.state[0] = *input;
        assert(sponge.state_view() =~= initial_with(input@));
        sponge
    }

    /// The image of an element under the permutation.
    pub fn hash(&self, input: &BFieldElement) -> (r: BFieldElement)
        ensures
            r@ == hash_spec(input@),
            r.is_canonical(),
    {
        let mut sponge = Self::initial_sponge(input);
        sponge.xlix();
        BFieldElement::new(sponge.state[0].value())
    }

    /// The image of an element under the permutation, together with the
    /// trace of the computation.
    pub fn eval_and_trace(&self, input: &BFieldElement) -> (r: (
        BFieldElement,
        Vec<Vec<BFieldElement>>,
    ))
        ensures
            r.0@ == hash_spec(input@),
            r.0.is_canonical(),
            matrix_values(r.1@) == trace_of(input@),
            r.1.len() == TRACE_HEIGHT,
            forall|i: int|
                0 <= i < TRACE_HEIGHT ==> (#[trigger] r.1[i]).len() == TRACE_WIDTH && values(
                    r.1[i]@,
                ) == trace_row(input@, i as nat),
    {
        let mut sponge = Self::initial_sponge(input);
        let mut rows: Vec<Vec<BFieldElement>> = Vec::new();
        rows.push(Self::state_as_row(&sponge));
        let mut output = BFieldElement::ring_zero();
        let mut i: usize = 0;
        while i < TRACE_HEIGHT - 1
            invariant
                i <= TRACE_HEIGHT - 1,
                rows.len() == i + 1,
                sponge.state_view() == trace_row(input@, i as nat),
                i >= NUM_ROUNDS ==> output@ == trace_row(input@, NUM_ROUNDS as nat)[0],
                output.is_canonical(),
                forall|j: int|
                    0 <= j <= i ==> (#[trigger] rows[j]).len() == TRACE_WIDTH && values(rows[j]@)
                        == trace_row(input@, j as nat),
            decreases TRACE_HEIGHT - 1 - i,
        {
            let constants = Self::round_constants_of_row(i);
            Self::apply_round(&mut sponge, &constants);
            rows.push(Self::state_as_row(&sponge));
            i = i + 1;
            if i == NUM_ROUNDS {
                output = BFieldElement::new(sponge.state[0].value());
            }
        }
        proof {
            lemma_trace_follows_permutation(input@, NUM_ROUNDS as nat);
            assert(matrix_values(rows@) =~= trace_of(input@));
        }
        (output, rows)
    }

    /// The state as a row of a trace.
    fn state_as_row(sponge: &RescuePrimeRegular) -> (r: Vec<BFieldElement>)
        ensures
            r.len() == TRACE_WIDTH,
            values(r@) == sponge.state_view(),
    {
        let mut row: Vec<BFieldElement> = Vec::new();
        let mut k: usize = 0;
        while k < STATE_SIZE
            invariant
                k <= STATE_SIZE,
                row.len() == k,
                forall|j: int| 0 <= j < k ==> row[j] == sponge.state[j],
            decreases STATE_SIZE - k,
        {
            row.push(sponge.state[k]);
            k = k + 1;
        }
        assert(values(row@) =~= sponge.state_view());
        row
    }

    /// The constraints on single elements of a trace: the first row holds
    /// zeros after its first element, which stays hidden, and the row after
    /// the last round of the permutation starts with `output`.
    pub fn get_boundary_constraints(&self, output: &BFieldElement) -> (r: Vec<BoundaryConstraint>)
        ensures
            r@ == boundary_constraints_of(*output),
            r.len() == STATE_SIZE,
            forall|k: int|
                0 <= k < STATE_SIZE - 1 ==> (#[trigger] r[k]).cycle == 0 && r[k].register == k + 1
                    && r[k].value@ == 0,
            r[STATE_SIZE - 1].cycle == NUM_ROUNDS,
            r[STATE_SIZE - 1].register == 0,
            r[STATE_SIZE - 1].value == *output,
    {
        let mut out: Vec<BoundaryConstraint> = Vec::new();
        let mut k: usize = 1;
        while k < STATE_SIZE
            invariant
                1 <= k <= STATE_SIZE,
                out.len() == k - 1,
                forall|j: int|
                    0 <= j < k - 1 ==> (#[trigger] out[j]).cycle == 0 && out[j].register == j + 1
                        && out[j].value.0 == 0,
            decreases STATE_SIZE - k,
        {
            out.push(BoundaryConstraint { cycle: 0, register: k, value: BFieldElement(0) });
            k = k + 1;
        }
        out.push(BoundaryConstraint { cycle: NUM_ROUNDS, register: 0, value: *output });
        proof {
            assert forall|j: int| 0 <= j < STATE_SIZE - 1 implies out[j]
                == boundary_constraints_of(*output)[j] by {
                assert(out[j].value.0 == 0) by {
                    assert(out[j].value@ == 0);
                }
            }
            assert(out@ =~= boundary_constraints_of(*output));
        }
        out
    }

    /// The constraints between consecutive rows of a trace: the constants
    /// of the round of each row.
    pub fn get_air_constraints(&self, omicron: &BFieldElement) -> (r: AirConstraints)
        ensures
            matrix_values(r.round_constants@) == air_constants(),
            r.round_constants.len() == TRACE_HEIGHT,
            forall|i: int|
                0 <= i < TRACE_HEIGHT ==> (#[trigger] r.round_constants[i]).len()
                    == CONSTANTS_WIDTH && values(r.round_constants[i]@) == constants_of_row(i),
    {
        let mut rows: Vec<Vec<BFieldElement>> = Vec::new();
        let mut i: usize = 0;
        while i < TRACE_HEIGHT
            invariant
                i <= TRACE_HEIGHT,
                rows.len() == i,
                forall|j: int|
                    0 <= j < i ==> (#[trigger] rows[j]).len() == CONSTANTS_WIDTH && values(
                        rows[j]@,
                    ) == constants_of_row(j),
            decreases TRACE_HEIGHT - i,
        {
            rows.push(Self::round_constants_of_row(i));
            i = i + 1;
        }
        assert(matrix_values(rows@) =~= air_constants());
        AirConstraints { round_constants: rows }
    }

    /// The inner product of a row of the inverse of the mixing matrix with
    /// sixteen elements.
    fn mds_inv_row(row: usize, s: &Vec<BFieldElement>) -> (r: BFieldElement)
        requires
            row < STATE_SIZE,
            s.len() == STATE_SIZE,
        ensures
            r@ == mds_inv_dot(values(s@), row as int, STATE_SIZE as nat),
    {
        let mut sum = BFieldElement::ring_zero();
        for j in 0..STATE_SIZE
            invariant
                row < STATE_SIZE,
                s.len() == STATE_SIZE,
                sum@ == mds_inv_dot(values(s@), row as int, j as nat),
        {
            let entry = BFieldElement::new(MDS_INV[row * STATE_SIZE + j]);
            sum = sum.add(entry.mul(s[j]));
        }
        sum
    }

    /// The inner product of a row of the mixing matrix with sixteen
    /// elements.
    fn mds_row(row: usize, s: &Vec<BFieldElement>) -> (r: BFieldElement)
        requires
            row < STATE_SIZE,
            s.len() == STATE_SIZE,
        ensures
            r@ == mds_dot(values(s@), row as int, STATE_SIZE as nat),
    {
        let mut sum = BFieldElement::ring_zero();
        for j in 0..STATE_SIZE
            invariant
                row < STATE_SIZE,
                s.len() == STATE_SIZE,
                sum@ == mds_dot(values(s@), row as int, j as nat),
        {
            let entry = BFieldElement::new(MDS[row * STATE_SIZE + j]);
            sum = sum.add(entry.mul(s[j]));
        }
        sum
    }

    /// What the transition constraints evaluate to on two rows and the
    /// constants of a round.
    pub fn transition_values(
        current: &Vec<BFieldElement>,
        next: &Vec<BFieldElement>,
        constants: &Vec<BFieldElement>,
    ) -> (r: Vec<BFieldElement>)
        requires
            current.len() == TRACE_WIDTH,
            next.len() == TRACE_WIDTH,
            constants.len() == CONSTANTS_WIDTH,
        ensures
            r.len() == TRACE_WIDTH,
            values(r@) == transition_spec(values(current@), values(next@), values(constants@)),
    {
        let mut forward: Vec<BFieldElement> = Vec::new();
        let mut backward: Vec<BFieldElement> = Vec::new();
        let mut k: usize = 0;
        while k < STATE_SIZE
            invariant
                k <= STATE_SIZE,
                current.len() == TRACE_WIDTH,
                next.len() == TRACE_WIDTH,
                constants.len() == CONSTANTS_WIDTH,
                forward.len() == k,
                backward.len() == k,
                forall|j: int| 0 <= j < k ==> forward[j]@ == pow_mod(current[j]@, ALPHA as nat),
                forall|j: int|
                    0 <= j < k ==> backward[j]@ == sub_mod(next[j]@, constants[j + STATE_SIZE]@),
            decreases STATE_SIZE - k,
        {
            forward.push(current[k].mod_pow_u64(ALPHA));
            backward.push(next[k].sub(constants[k + STATE_SIZE]));
            k = k + 1;
        }
        let ghost forward_spec = sbox_layer(values(current@), ALPHA as nat);
        let ghost backward_spec = Seq::new(
            STATE_SIZE as nat,
            |k: int| sub_mod(values(next@)[k], values(constants@)[k + STATE_SIZE]),
        );
        assert(values(forward@) =~= forward_spec);
        assert(values(backward@) =~= backward_spec);
        let mut out: Vec<BFieldElement> = Vec::new();
        let mut j: usize = 0;
        while j < STATE_SIZE
            invariant
                j <= STATE_SIZE,
                constants.len() == CONSTANTS_WIDTH,
                forward.len() == STATE_SIZE,
                backward.len() == STATE_SIZE,
                values(forward@) == forward_spec,
                values(backward@) == backward_spec,
                out.len() == j,
                forall|i: int|
                    0 <= i < j ==> out[i]@ == sub_mod(
                        pow_mod(mds_inv_dot(backward_spec, i, STATE_SIZE as nat), ALPHA as nat),
                        add_mod(mds_dot(forward_spec, i, STATE_SIZE as nat), constants[i]@),
                    ),
            decreases STATE_SIZE - j,
        {
            let late = Self::mds_inv_row(j, &backward).mod_pow_u64(ALPHA);
            let early = Self::mds_row(j, &forward).add(constants[j]);
            out.push(late.sub(early));
            j = j + 1;
        }
        assert(values(out@) =~= transition_spec(
            values(current@),
            values(next@),
            values(constants@),
        ));
        out
    }
}

} // verus!
