//! What the tables of one proof share: the number of challenges and
//! terminals, and where each stands among the parameters of a constraint.

use crate::shared_math::b_field_element::BFieldElement;
use crate::shared_math::mpolynomial::MPolynomial;
use crate::shared_math::mpolynomial::offset;
use crate::shared_math::mpolynomial::variable;
use crate::shared_math::mpolynomial::x_values;
use crate::shared_math::x_field_element::x_lift;
use crate::shared_math::x_field_element::x_mul;
use crate::shared_math::x_field_element::x_sub;
use crate::shared_math::x_field_element::XFieldElement;
use crate::shared_math::x_field_element::XValue;
use vstd::prelude::*;

verus! {

/// The number of challenges that the extension of the tables draws on.
pub const EXTENSION_CHALLENGE_COUNT: usize = 11;

/// The number of permutation arguments, each with an initial value.
pub const PERMUTATION_ARGUMENTS_COUNT: usize = 2;

/// The number of terminals: one per argument between two tables.
pub const TERMINAL_COUNT: usize = 5;

/// The number of parameters that follow the elements of the rows among the
/// variables of a constraint: the challenges, the terminals, and the factor
/// that accounts for the padding of a table.
pub const PARAMETER_COUNT: usize = 17;

/// The challenges that weigh the three columns of an instruction.
pub const CHALLENGE_A: usize = 0;

pub const CHALLENGE_B: usize = 1;

pub const CHALLENGE_C: usize = 2;

/// The challenges that weigh the three columns of a memory access.
pub const CHALLENGE_D: usize = 3;

pub const CHALLENGE_E: usize = 4;

pub const CHALLENGE_F: usize = 5;

/// The challenge of the instruction permutation.
pub const CHALLENGE_ALPHA: usize = 6;

/// The challenge of the memory permutation.
pub const CHALLENGE_BETA: usize = 7;

/// The challenge of the input evaluation.
pub const CHALLENGE_GAMMA: usize = 8;

/// The challenge of the output evaluation.
pub const CHALLENGE_DELTA: usize = 9;

/// The challenge of the program evaluation.
pub const CHALLENGE_ETA: usize = 10;

/// The terminal of the instruction permutation.
pub const TERMINAL_INSTRUCTION_PERMUTATION: usize = 0;

/// The terminal of the memory permutation.
pub const TERMINAL_MEMORY_PERMUTATION: usize = 1;

/// The terminal of the input evaluation.
pub const TERMINAL_INPUT_EVALUATION: usize = 2;

/// The terminal of the output evaluation.
pub const TERMINAL_OUTPUT_EVALUATION: usize = 3;

/// The terminal of the program evaluation.
pub const TERMINAL_PROGRAM_EVALUATION: usize = 4;

/// The values of an array of extension-field elements.
pub open spec fn x_array_values<const N: usize>(a: [XFieldElement; N]) -> Seq<XValue> {
    Seq::new(N as nat, |i: int| a[i]@)
}

/// The parameters of a constraint: the challenges, then the terminals, then
/// the padding factor.
pub open spec fn parameters_spec(
    challenges: Seq<XValue>,
    terminals: Seq<XValue>,
    factor: XValue,
) -> Seq<XValue> {
    challenges + terminals + seq![factor]
}

/// The parameters of a constraint: the challenges, then the terminals, then
/// the padding factor.
pub fn parameters_of(
    challenges: &[XFieldElement; 11],
    terminals: &[XFieldElement; 5],
    factor: XFieldElement,
) -> (r: Vec<XFieldElement>)
    ensures
        r.len() == PARAMETER_COUNT,
        x_values(r@) == parameters_spec(
            x_array_values(*challenges),
            x_array_values(*terminals),
            factor@,
        ),
{
    let mut out: Vec<XFieldElement> = Vec::new();
    let mut i: usize = 0;
    while i < 11
        invariant
            i <= 11,
            out.len() == i,
            forall|j: int| 0 <= j < i ==> out[j] == challenges[j],
        decreases 11 - i,
    {
        out.push(challenges[i]);
        i = i + 1;
    }
    let mut k: usize = 0;
    while k < 5
        invariant
            k <= 5,
            out.len() == 11 + k,
            forall|j: int| 0 <= j < 11 ==> out[j] == challenges[j],
            forall|j: int| 0 <= j < k ==> out[11 + j] == terminals[j],
        decreases 5 - k,
    {
        out.push(terminals[k]);
        k = k + 1;
    }
    out.push(factor);
    assert(x_values(out@) =~= parameters_spec(
        x_array_values(*challenges),
        x_array_values(*terminals),
        factor@,
    ));
    out
}

/// Three elements of a row as one element of the extension field:
/// `base - k0 * v0 - k1 * v1 - k2 * v2`.
pub open spec fn compress(
    base: XValue,
    k0: XValue,
    k1: XValue,
    k2: XValue,
    v0: int,
    v1: int,
    v2: int,
) -> XValue {
    x_sub(
        x_sub(x_sub(base, x_mul(k0, x_lift(v0))), x_mul(k1, x_lift(v1))),
        x_mul(k2, x_lift(v2)),
    )
}

/// Three elements of a row as one element of the extension field.
pub fn compress_row(
    base: XFieldElement,
    k0: XFieldElement,
    k1: XFieldElement,
    k2: XFieldElement,
    v0: BFieldElement,
    v1: BFieldElement,
    v2: BFieldElement,
) -> (r: XFieldElement)
    ensures
        r@ == compress(base@, k0@, k1@, k2@, v0@, v1@, v2@),
{
    base.sub(k0.mul(v0.lift())).sub(k1.mul(v1.lift())).sub(k2.mul(v2.lift()))
}

/// Challenge `j`, where the parameters start at variable `base`.
pub open spec fn spec_challenge(base: usize, j: usize) -> MPolynomial {
    variable(offset(base, j))
}

/// Challenge `j`, where the parameters start at variable `base`.
#[verifier::when_used_as_spec(spec_challenge)]
pub fn challenge(base: usize, j: usize) -> (r: MPolynomial)
    requires
        base <= 64,
        j < EXTENSION_CHALLENGE_COUNT,
    ensures
        r == spec_challenge(base, j),
        r.variable_count() <= base + PARAMETER_COUNT,
        r.total_degree() == 1,
{
    variable(offset(base, j))
}

/// Terminal `t`, where the parameters start at variable `base`.
pub open spec fn spec_terminal(base: usize, t: usize) -> MPolynomial {
    variable(offset(base, offset(EXTENSION_CHALLENGE_COUNT, t)))
}

/// Terminal `t`, where the parameters start at variable `base`.
#[verifier::when_used_as_spec(spec_terminal)]
pub fn terminal(base: usize, t: usize) -> (r: MPolynomial)
    requires
        base <= 64,
        t < TERMINAL_COUNT,
    ensures
        r == spec_terminal(base, t),
        r.variable_count() <= base + PARAMETER_COUNT,
        r.total_degree() == 1,
{
    variable(offset(base, offset(EXTENSION_CHALLENGE_COUNT, t)))
}

/// The padding factor, where the parameters start at variable `base`.
pub open spec fn spec_padding_factor(base: usize) -> MPolynomial {
    variable(offset(base, 16))
}

/// The padding factor, where the parameters start at variable `base`.
#[verifier::when_used_as_spec(spec_padding_factor)]
pub fn padding_factor(base: usize) -> (r: MPolynomial)
    requires
        base <= 64,
    ensures
        r == spec_padding_factor(base),
        r.variable_count() <= base + PARAMETER_COUNT,
        r.total_degree() == 1,
{
    variable(offset(base, 16))
}

} // verus!
