//! The table of the processor: one row per cycle, with the registers of the
//! machine, extended by the running products and sums that tie it to the
//! other tables.

use crate::shared_math::b_field_element::BFieldElement;
use crate::shared_math::b_field_element::values;
use crate::shared_math::fri_domain::FriDomain;
use crate::shared_math::mpolynomial::constant;
use crate::shared_math::mpolynomial::Degree;
use crate::shared_math::mpolynomial::degree_values;
use crate::shared_math::mpolynomial::difference;
use crate::shared_math::mpolynomial::MPolynomial;
use crate::shared_math::mpolynomial::offset;
use crate::shared_math::mpolynomial::product;
use crate::shared_math::mpolynomial::sum;
use crate::shared_math::mpolynomial::variable;
use crate::shared_math::mpolynomial::x_values;
use crate::shared_math::stark::brainfuck::stark::challenge;
use crate::shared_math::stark::brainfuck::stark::CHALLENGE_A;
use crate::shared_math::stark::brainfuck::stark::CHALLENGE_ALPHA;
use crate::shared_math::stark::brainfuck::stark::CHALLENGE_B;
use crate::shared_math::stark::brainfuck::stark::CHALLENGE_BETA;
use crate::shared_math::stark::brainfuck::stark::CHALLENGE_C;
use crate::shared_math::stark::brainfuck::stark::CHALLENGE_D;
use crate::shared_math::stark::brainfuck::stark::CHALLENGE_DELTA;
use crate::shared_math::stark::brainfuck::stark::CHALLENGE_E;
use crate::shared_math::stark::brainfuck::stark::CHALLENGE_F;
use crate::shared_math::stark::brainfuck::stark::CHALLENGE_GAMMA;
use crate::shared_math::stark::brainfuck::stark::compress;
use crate::shared_math::stark::brainfuck::stark::compress_row;
use crate::shared_math::stark::brainfuck::stark::PARAMETER_COUNT;
use crate::shared_math::stark::brainfuck::stark::parameters_of;
use crate::shared_math::stark::brainfuck::stark::parameters_spec;
use crate::shared_math::stark::brainfuck::stark::terminal;
use crate::shared_math::stark::brainfuck::stark::TERMINAL_INPUT_EVALUATION;
use crate::shared_math::stark::brainfuck::stark::TERMINAL_INSTRUCTION_PERMUTATION;
use crate::shared_math::stark::brainfuck::stark::TERMINAL_MEMORY_PERMUTATION;
use crate::shared_math::stark::brainfuck::stark::TERMINAL_OUTPUT_EVALUATION;
use crate::shared_math::stark::brainfuck::stark::x_array_values;
use crate::shared_math::stark::quotient::codewords_shaped;
use crate::shared_math::stark::quotient::constraints_fit;
use crate::shared_math::stark::quotient::lemma_max_of_at_least;
use crate::shared_math::stark::quotient::max_degree_for;
use crate::shared_math::stark::quotient::max_of;
use crate::shared_math::stark::quotient::quotient_bounds_spec;
use crate::shared_math::stark::quotient::quotient_degree_bounds_for;
use crate::shared_math::stark::quotient::quotients_of;
use crate::shared_math::stark::quotient::quotients_spec;
use crate::shared_math::stark::quotient::rows_meet_constraints;
use crate::shared_math::stark::quotient::trace_meets;
use crate::shared_math::stark::quotient::transition_bounds;
use crate::shared_math::stark::quotient::variable_degrees;
use crate::shared_math::stark::quotient::zerofiers_invertible;
use crate::shared_math::stark::table::lift_codeword;
use crate::shared_math::stark::table::lifted;
use crate::shared_math::stark::table::matrix_values;
use crate::shared_math::stark::table::MAX_HEIGHT;
use crate::shared_math::stark::table::PaddingRule;
use crate::shared_math::stark::table::Table;
use crate::shared_math::stark::table::TableError;
use crate::shared_math::stark::table::x_matrix_values;
use crate::shared_math::x_field_element::x_add;
use crate::shared_math::x_field_element::x_lift;
use crate::shared_math::x_field_element::x_mul;
use crate::shared_math::x_field_element::x_one;
use crate::shared_math::x_field_element::x_zero;
use crate::shared_math::x_field_element::XFieldElement;
use crate::shared_math::x_field_element::XValue;
use vstd::prelude::*;

verus! {

/// The number of registers.
pub const BASE_WIDTH: usize = 7;

/// The number of columns after extension.
pub const FULL_WIDTH: usize = 11;

/// The column of the cycle count.
pub const CYCLE: usize = 0;

/// The column of the instruction pointer.
pub const INSTRUCTION_POINTER: usize = 1;

/// The column of the instruction at the instruction pointer.
pub const CURRENT_INSTRUCTION: usize = 2;

/// The column of the word after it: the next instruction, or the target of
/// a jump.
pub const NEXT_INSTRUCTION: usize = 3;

/// The column of the memory pointer.
pub const MEMORY_POINTER: usize = 4;

/// The column of the value that the memory pointer points at.
pub const MEMORY_VALUE: usize = 5;

/// The column of the inverse of that value, or zero.
pub const MEMORY_VALUE_INVERSE: usize = 6;

/// The column of the running product over the instructions executed.
pub const INSTRUCTION_PERMUTATION: usize = 7;

/// The column of the running product over the memory accesses.
pub const MEMORY_PERMUTATION: usize = 8;

/// The column of the running sum over the symbols read.
pub const INPUT_EVALUATION: usize = 9;

/// The column of the running sum over the symbols written.
pub const OUTPUT_EVALUATION: usize = 10;

/// The instruction that jumps forward where the memory value is zero.
pub const LOOP_BEGIN: u64 = 91;

/// The instruction that jumps back where the memory value is not zero.
pub const LOOP_END: u64 = 93;

/// The instruction that moves the memory pointer down.
pub const POINTER_LEFT: u64 = 60;

/// The instruction that moves the memory pointer up.
pub const POINTER_RIGHT: u64 = 62;

/// The instruction that adds one to the memory value.
pub const INCREMENT: u64 = 43;

/// The instruction that takes one from the memory value.
pub const DECREMENT: u64 = 45;

/// The instruction that reads a symbol into the memory value.
pub const READ: u64 = 44;

/// The instruction that writes the memory value.
pub const WRITE: u64 = 46;

/// One where the memory value is zero, and zero elsewhere: `1 - mv * inv`.
pub open spec fn spec_is_zero() -> MPolynomial {
    difference(constant(1), product(variable(MEMORY_VALUE), variable(MEMORY_VALUE_INVERSE)))
}

/// One where the memory value is zero, and zero elsewhere: `1 - mv * inv`.
#[verifier::when_used_as_spec(spec_is_zero)]
pub fn is_zero() -> (r: MPolynomial)
    ensures
        r == spec_is_zero(),
        r.variable_count() <= 7,
        r.total_degree() <= 2,
{
    difference(constant(1), product(variable(MEMORY_VALUE), variable(MEMORY_VALUE_INVERSE)))
}

/// `acc` times `ci - other`, unless `other` is the instruction `c` itself.
pub open spec fn spec_factor_unless(acc: MPolynomial, c: u64, other: u64) -> MPolynomial {
    if c == other {
        acc
    } else {
        product(acc, difference(variable(CURRENT_INSTRUCTION), constant(other)))
    }
}

/// `acc` times `ci - other`, unless `other` is the instruction `c` itself.
#[verifier::when_used_as_spec(spec_factor_unless)]
pub fn factor_unless(acc: MPolynomial, c: u64, other: u64) -> (r: MPolynomial)
    ensures
        r == spec_factor_unless(acc, c, other),
        acc.variable_count() <= 3 ==> r.variable_count() <= 3,
        r.total_degree() <= acc.total_degree() + 1,
{
    if c == other {
        acc
    } else {
        product(acc, difference(variable(CURRENT_INSTRUCTION), constant(other)))
    }
}

/// The polynomial in the current instruction that vanishes unless the
/// current instruction is `c`: `ci` times `ci - i` for each instruction `i`
/// other than `c`.
pub open spec fn spec_deselector(c: u64) -> MPolynomial {
    factor_unless(factor_unless(factor_unless(factor_unless(factor_unless(factor_unless(factor_unless(factor_unless(variable(CURRENT_INSTRUCTION), c, LOOP_BEGIN), c, LOOP_END), c, POINTER_LEFT), c, POINTER_RIGHT), c, INCREMENT), c, DECREMENT), c, READ), c, WRITE)
}

/// The polynomial in the current instruction that vanishes unless the
/// current instruction is `c`: `ci` times `ci - i` for each instruction `i`
/// other than `c`.
#[verifier::when_used_as_spec(spec_deselector)]
pub fn deselector(c: u64) -> (r: MPolynomial)
    ensures
        r == spec_deselector(c),
        r.variable_count() <= 3,
        r.total_degree() <= 9,
{
    factor_unless(factor_unless(factor_unless(factor_unless(factor_unless(factor_unless(factor_unless(factor_unless(variable(CURRENT_INSTRUCTION), c, LOOP_BEGIN), c, LOOP_END), c, POINTER_LEFT), c, POINTER_RIGHT), c, INCREMENT), c, DECREMENT), c, READ), c, WRITE)
}

/// The instruction pointer advances by `distance`: `ip' - ip - distance`.
pub open spec fn spec_step(next: usize, distance: u64) -> MPolynomial {
    difference(difference(variable(offset(next, INSTRUCTION_POINTER)), variable(INSTRUCTION_POINTER)), constant(distance))
}

/// The instruction pointer advances by `distance`: `ip' - ip - distance`.
#[verifier::when_used_as_spec(spec_step)]
pub fn step(next: usize, distance: u64) -> (r: MPolynomial)
    requires
        next <= 16,
    ensures
        r == spec_step(next, distance),
        r.variable_count() <= next + 7,
        r.total_degree() <= 1,
{
    difference(difference(variable(offset(next, INSTRUCTION_POINTER)), variable(INSTRUCTION_POINTER)), constant(distance))
}

/// The instruction pointer goes to the target of the jump: `ip' - ni`.
pub open spec fn spec_jump(next: usize) -> MPolynomial {
    difference(variable(offset(next, INSTRUCTION_POINTER)), variable(NEXT_INSTRUCTION))
}

/// The instruction pointer goes to the target of the jump: `ip' - ni`.
#[verifier::when_used_as_spec(spec_jump)]
pub fn jump(next: usize) -> (r: MPolynomial)
    requires
        next <= 16,
    ensures
        r == spec_jump(next),
        r.variable_count() <= next + 7,
        r.total_degree() <= 1,
{
    difference(variable(offset(next, INSTRUCTION_POINTER)), variable(NEXT_INSTRUCTION))
}

/// The change of the memory pointer: `mp' - mp`.
pub open spec fn spec_pointer_change(next: usize) -> MPolynomial {
    difference(variable(offset(next, MEMORY_POINTER)), variable(MEMORY_POINTER))
}

/// The change of the memory pointer: `mp' - mp`.
#[verifier::when_used_as_spec(spec_pointer_change)]
pub fn pointer_change(next: usize) -> (r: MPolynomial)
    requires
        next <= 16,
    ensures
        r == spec_pointer_change(next),
        r.variable_count() <= next + 7,
        r.total_degree() <= 1,
{
    difference(variable(offset(next, MEMORY_POINTER)), variable(MEMORY_POINTER))
}

/// The change of the memory value: `mv' - mv`.
pub open spec fn spec_value_change(next: usize) -> MPolynomial {
    difference(variable(offset(next, MEMORY_VALUE)), variable(MEMORY_VALUE))
}

/// The change of the memory value: `mv' - mv`.
#[verifier::when_used_as_spec(spec_value_change)]
pub fn value_change(next: usize) -> (r: MPolynomial)
    requires
        next <= 16,
    ensures
        r == spec_value_change(next),
        r.variable_count() <= next + 7,
        r.total_degree() <= 1,
{
    difference(variable(offset(next, MEMORY_VALUE)), variable(MEMORY_VALUE))
}

/// What instruction `c` asks of the instruction pointer. A loop instruction
/// is followed by the target of its jump: it either jumps there or skips
/// it, by the memory value. Every other instruction goes on to the word
/// after it.
pub open spec fn spec_pointer_rule(c: u64, next: usize) -> MPolynomial {
    if c == LOOP_BEGIN {
        sum(product(variable(MEMORY_VALUE), step(next, 2)), product(is_zero(), jump(next)))
    } else if c == LOOP_END {
        sum(product(is_zero(), step(next, 2)), product(variable(MEMORY_VALUE), jump(next)))
    } else {
        step(next, 1)
    }
}

/// What instruction `c` asks of the instruction pointer. A loop instruction
/// is followed by the target of its jump: it either jumps there or skips
/// it, by the memory value. Every other instruction goes on to the word
/// after it.
#[verifier::when_used_as_spec(spec_pointer_rule)]
pub fn pointer_rule(c: u64, next: usize) -> (r: MPolynomial)
    requires
        next <= 16,
    ensures
        r == spec_pointer_rule(c, next),
        r.variable_count() <= next + 7,
        r.total_degree() <= 3,
{
    if c == LOOP_BEGIN {
        sum(product(variable(MEMORY_VALUE), step(next, 2)), product(is_zero(), jump(next)))
    } else if c == LOOP_END {
        sum(product(is_zero(), step(next, 2)), product(variable(MEMORY_VALUE), jump(next)))
    } else {
        step(next, 1)
    }
}

/// What instruction `c` asks of the memory pointer: it moves by one for the
/// two pointer instructions and stays for all others.
pub open spec fn spec_memory_pointer_rule(c: u64, next: usize) -> MPolynomial {
    if c == POINTER_LEFT {
        sum(pointer_change(next), constant(1))
    } else if c == POINTER_RIGHT {
        difference(pointer_change(next), constant(1))
    } else {
        pointer_change(next)
    }
}

/// What instruction `c` asks of the memory pointer: it moves by one for the
/// two pointer instructions and stays for all others.
#[verifier::when_used_as_spec(spec_memory_pointer_rule)]
pub fn memory_pointer_rule(c: u64, next: usize) -> (r: MPolynomial)
    requires
        next <= 16,
    ensures
        r == spec_memory_pointer_rule(c, next),
        r.variable_count() <= next + 7,
        r.total_degree() <= 1,
{
    if c == POINTER_LEFT {
        sum(pointer_change(next), constant(1))
    } else if c == POINTER_RIGHT {
        difference(pointer_change(next), constant(1))
    } else {
        pointer_change(next)
    }
}

/// What instruction `c` asks of the memory value: it changes by one for the
/// two arithmetic instructions and stays for the loop instructions and for
/// writing. Moving the pointer and reading leave it to the memory table
/// and to the input.
pub open spec fn spec_memory_value_rule(c: u64, next: usize) -> MPolynomial {
    if c == INCREMENT {
        difference(value_change(next), constant(1))
    } else if c == DECREMENT {
        sum(value_change(next), constant(1))
    } else if c == LOOP_BEGIN || c == LOOP_END || c == WRITE {
        value_change(next)
    } else {
        constant(0)
    }
}

/// What instruction `c` asks of the memory value: it changes by one for the
/// two arithmetic instructions and stays for the loop instructions and for
/// writing. Moving the pointer and reading leave it to the memory table
/// and to the input.
#[verifier::when_used_as_spec(spec_memory_value_rule)]
pub fn memory_value_rule(c: u64, next: usize) -> (r: MPolynomial)
    requires
        next <= 16,
    ensures
        r == spec_memory_value_rule(c, next),
        r.variable_count() <= next + 7,
        r.total_degree() <= 1,
{
    if c == INCREMENT {
        difference(value_change(next), constant(1))
    } else if c == DECREMENT {
        sum(value_change(next), constant(1))
    } else if c == LOOP_BEGIN || c == LOOP_END || c == WRITE {
        value_change(next)
    } else {
        constant(0)
    }
}

/// Rule `k` of instruction `c`: on the instruction pointer for 0, on the
/// memory pointer for 1, on the memory value otherwise.
pub open spec fn spec_rule_of(c: u64, k: usize, next: usize) -> MPolynomial {
    if k == 0 {
        pointer_rule(c, next)
    } else if k == 1 {
        memory_pointer_rule(c, next)
    } else {
        memory_value_rule(c, next)
    }
}

/// Rule `k` of instruction `c`: on the instruction pointer for 0, on the
/// memory pointer for 1, on the memory value otherwise.
#[verifier::when_used_as_spec(spec_rule_of)]
pub fn rule_of(c: u64, k: usize, next: usize) -> (r: MPolynomial)
    requires
        next <= 16,
    ensures
        r == spec_rule_of(c, k, next),
        r.variable_count() <= next + 7,
        r.total_degree() <= 3,
{
    if k == 0 {
        pointer_rule(c, next)
    } else if k == 1 {
        memory_pointer_rule(c, next)
    } else {
        memory_value_rule(c, next)
    }
}

/// Rule `k` of instruction `c`, which holds only in rows where `c` is the
/// current instruction.
pub open spec fn spec_instruction_rule(c: u64, k: usize, next: usize) -> MPolynomial {
    product(deselector(c), rule_of(c, k, next))
}

/// Rule `k` of instruction `c`, which holds only in rows where `c` is the
/// current instruction.
#[verifier::when_used_as_spec(spec_instruction_rule)]
pub fn instruction_rule(c: u64, k: usize, next: usize) -> (r: MPolynomial)
    requires
        next <= 16,
    ensures
        r == spec_instruction_rule(c, k, next),
        r.variable_count() <= next + 7,
        r.total_degree() <= 12,
{
    product(deselector(c), rule_of(c, k, next))
}

/// Rule `k` of whatever instruction is the current one: the sum of the
/// rules of all instructions, each behind its deselector.
pub open spec fn spec_instruction_constraint(k: usize, next: usize) -> MPolynomial {
    sum(sum(sum(sum(sum(sum(sum(instruction_rule(LOOP_BEGIN, k, next), instruction_rule(LOOP_END, k, next)), instruction_rule(POINTER_LEFT, k, next)), instruction_rule(POINTER_RIGHT, k, next)), instruction_rule(INCREMENT, k, next)), instruction_rule(DECREMENT, k, next)), instruction_rule(READ, k, next)), instruction_rule(WRITE, k, next))
}

/// Rule `k` of whatever instruction is the current one: the sum of the
/// rules of all instructions, each behind its deselector.
#[verifier::when_used_as_spec(spec_instruction_constraint)]
pub fn instruction_constraint(k: usize, next: usize) -> (r: MPolynomial)
    requires
        next <= 16,
    ensures
        r == spec_instruction_constraint(k, next),
        r.variable_count() <= next + 7,
        r.total_degree() <= 12,
{
    sum(sum(sum(sum(sum(sum(sum(instruction_rule(LOOP_BEGIN, k, next), instruction_rule(LOOP_END, k, next)), instruction_rule(POINTER_LEFT, k, next)), instruction_rule(POINTER_RIGHT, k, next)), instruction_rule(INCREMENT, k, next)), instruction_rule(DECREMENT, k, next)), instruction_rule(READ, k, next)), instruction_rule(WRITE, k, next))
}

/// The cycle count grows by one: `cycle' - cycle - 1`.
pub open spec fn spec_cycle_constraint(next: usize) -> MPolynomial {
    difference(difference(variable(offset(next, CYCLE)), variable(CYCLE)), constant(1))
}

/// The cycle count grows by one: `cycle' - cycle - 1`.
#[verifier::when_used_as_spec(spec_cycle_constraint)]
pub fn cycle_constraint(next: usize) -> (r: MPolynomial)
    requires
        next <= 16,
    ensures
        r == spec_cycle_constraint(next),
        r.variable_count() <= next + 7,
        r.total_degree() <= 1,
{
    difference(difference(variable(offset(next, CYCLE)), variable(CYCLE)), constant(1))
}

/// The memory value is zero or the inverse column holds its inverse:
/// `mv * (mv * inv - 1)`.
pub open spec fn spec_inverse_of_value_constraint() -> MPolynomial {
    product(variable(MEMORY_VALUE), difference(product(variable(MEMORY_VALUE), variable(MEMORY_VALUE_INVERSE)), constant(1)))
}

/// The memory value is zero or the inverse column holds its inverse:
/// `mv * (mv * inv - 1)`.
#[verifier::when_used_as_spec(spec_inverse_of_value_constraint)]
pub fn inverse_of_value_constraint() -> (r: MPolynomial)
    ensures
        r == spec_inverse_of_value_constraint(),
        r.variable_count() <= 7,
        r.total_degree() <= 3,
{
    product(variable(MEMORY_VALUE), difference(product(variable(MEMORY_VALUE), variable(MEMORY_VALUE_INVERSE)), constant(1)))
}

/// The inverse column is zero or the memory value is its inverse:
/// `inv * (mv * inv - 1)`.
pub open spec fn spec_value_of_inverse_constraint() -> MPolynomial {
    product(variable(MEMORY_VALUE_INVERSE), difference(product(variable(MEMORY_VALUE), variable(MEMORY_VALUE_INVERSE)), constant(1)))
}

/// The inverse column is zero or the memory value is its inverse:
/// `inv * (mv * inv - 1)`.
#[verifier::when_used_as_spec(spec_value_of_inverse_constraint)]
pub fn value_of_inverse_constraint() -> (r: MPolynomial)
    ensures
        r == spec_value_of_inverse_constraint(),
        r.variable_count() <= 7,
        r.total_degree() <= 3,
{
    product(variable(MEMORY_VALUE_INVERSE), difference(product(variable(MEMORY_VALUE), variable(MEMORY_VALUE_INVERSE)), constant(1)))
}

/// The instruction of a row as one element:
/// `alpha - a * ip - b * ci - c * ni`.
pub open spec fn spec_compressed_instruction(base: usize) -> MPolynomial {
    difference(difference(difference(challenge(base, CHALLENGE_ALPHA), product(challenge(base, CHALLENGE_A), variable(INSTRUCTION_POINTER))), product(challenge(base, CHALLENGE_B), variable(CURRENT_INSTRUCTION))), product(challenge(base, CHALLENGE_C), variable(NEXT_INSTRUCTION)))
}

/// The instruction of a row as one element:
/// `alpha - a * ip - b * ci - c * ni`.
#[verifier::when_used_as_spec(spec_compressed_instruction)]
pub fn compressed_instruction(base: usize) -> (r: MPolynomial)
    requires
        base <= 64,
        base >= 11,
    ensures
        r == spec_compressed_instruction(base),
        r.variable_count() <= base + PARAMETER_COUNT,
        r.total_degree() <= 2,
{
    difference(difference(difference(challenge(base, CHALLENGE_ALPHA), product(challenge(base, CHALLENGE_A), variable(INSTRUCTION_POINTER))), product(challenge(base, CHALLENGE_B), variable(CURRENT_INSTRUCTION))), product(challenge(base, CHALLENGE_C), variable(NEXT_INSTRUCTION)))
}

/// The memory access of a row as one element:
/// `beta - d * cycle - e * mp - f * mv`.
pub open spec fn spec_compressed_memory_access(base: usize) -> MPolynomial {
    difference(difference(difference(challenge(base, CHALLENGE_BETA), product(challenge(base, CHALLENGE_D), variable(CYCLE))), product(challenge(base, CHALLENGE_E), variable(MEMORY_POINTER))), product(challenge(base, CHALLENGE_F), variable(MEMORY_VALUE)))
}

/// The memory access of a row as one element:
/// `beta - d * cycle - e * mp - f * mv`.
#[verifier::when_used_as_spec(spec_compressed_memory_access)]
pub fn compressed_memory_access(base: usize) -> (r: MPolynomial)
    requires
        base <= 64,
        base >= 11,
    ensures
        r == spec_compressed_memory_access(base),
        r.variable_count() <= base + PARAMETER_COUNT,
        r.total_degree() <= 2,
{
    difference(difference(difference(challenge(base, CHALLENGE_BETA), product(challenge(base, CHALLENGE_D), variable(CYCLE))), product(challenge(base, CHALLENGE_E), variable(MEMORY_POINTER))), product(challenge(base, CHALLENGE_F), variable(MEMORY_VALUE)))
}

/// In a row with an instruction the running product takes up the
/// instruction of the row: `ci * (ipm * (alpha - a*ip - b*ci - c*ni) - ipm')`.
pub open spec fn spec_instruction_permutation_constraint(next: usize, base: usize) -> MPolynomial {
    product(variable(CURRENT_INSTRUCTION), difference(product(variable(INSTRUCTION_PERMUTATION), compressed_instruction(base)), variable(offset(next, INSTRUCTION_PERMUTATION))))
}

/// In a row with an instruction the running product takes up the
/// instruction of the row: `ci * (ipm * (alpha - a*ip - b*ci - c*ni) - ipm')`.
#[verifier::when_used_as_spec(spec_instruction_permutation_constraint)]
pub fn instruction_permutation_constraint(next: usize, base: usize) -> (r: MPolynomial)
    requires
        next == 11,
        base == 22,
    ensures
        r == spec_instruction_permutation_constraint(next, base),
        r.variable_count() <= base + PARAMETER_COUNT,
        r.total_degree() <= 4,
{
    product(variable(CURRENT_INSTRUCTION), difference(product(variable(INSTRUCTION_PERMUTATION), compressed_instruction(base)), variable(offset(next, INSTRUCTION_PERMUTATION))))
}

/// The running product takes up the memory access of the row:
/// `mpm * (beta - d*cycle - e*mp - f*mv) - mpm'`.
pub open spec fn spec_memory_permutation_constraint(next: usize, base: usize) -> MPolynomial {
    difference(product(variable(MEMORY_PERMUTATION), compressed_memory_access(base)), variable(offset(next, MEMORY_PERMUTATION)))
}

/// The running product takes up the memory access of the row:
/// `mpm * (beta - d*cycle - e*mp - f*mv) - mpm'`.
#[verifier::when_used_as_spec(spec_memory_permutation_constraint)]
pub fn memory_permutation_constraint(next: usize, base: usize) -> (r: MPolynomial)
    requires
        next == 11,
        base == 22,
    ensures
        r == spec_memory_permutation_constraint(next, base),
        r.variable_count() <= base + PARAMETER_COUNT,
        r.total_degree() <= 3,
{
    difference(product(variable(MEMORY_PERMUTATION), compressed_memory_access(base)), variable(offset(next, MEMORY_PERMUTATION)))
}

/// After reading, the running sum takes up the symbol read, which is the
/// next memory value; after any other instruction it stays.
pub open spec fn spec_input_evaluation_constraint(next: usize, base: usize) -> MPolynomial {
    sum(product(deselector(READ), difference(difference(variable(offset(next, INPUT_EVALUATION)), product(challenge(base, CHALLENGE_GAMMA), variable(INPUT_EVALUATION))), variable(offset(next, MEMORY_VALUE)))), product(difference(variable(offset(next, INPUT_EVALUATION)), variable(INPUT_EVALUATION)), difference(variable(CURRENT_INSTRUCTION), constant(READ))))
}

/// After reading, the running sum takes up the symbol read, which is the
/// next memory value; after any other instruction it stays.
#[verifier::when_used_as_spec(spec_input_evaluation_constraint)]
pub fn input_evaluation_constraint(next: usize, base: usize) -> (r: MPolynomial)
    requires
        next == 11,
        base == 22,
    ensures
        r == spec_input_evaluation_constraint(next, base),
        r.variable_count() <= base + PARAMETER_COUNT,
        r.total_degree() <= 11,
{
    sum(product(deselector(READ), difference(difference(variable(offset(next, INPUT_EVALUATION)), product(challenge(base, CHALLENGE_GAMMA), variable(INPUT_EVALUATION))), variable(offset(next, MEMORY_VALUE)))), product(difference(variable(offset(next, INPUT_EVALUATION)), variable(INPUT_EVALUATION)), difference(variable(CURRENT_INSTRUCTION), constant(READ))))
}

/// After writing, the running sum takes up the symbol written, which is
/// the memory value; after any other instruction it stays.
pub open spec fn spec_output_evaluation_constraint(next: usize, base: usize) -> MPolynomial {
    sum(product(deselector(WRITE), difference(difference(variable(offset(next, OUTPUT_EVALUATION)), product(challenge(base, CHALLENGE_DELTA), variable(OUTPUT_EVALUATION))), variable(MEMORY_VALUE))), product(difference(variable(offset(next, OUTPUT_EVALUATION)), variable(OUTPUT_EVALUATION)), difference(variable(CURRENT_INSTRUCTION), constant(WRITE))))
}

/// After writing, the running sum takes up the symbol written, which is
/// the memory value; after any other instruction it stays.
#[verifier::when_used_as_spec(spec_output_evaluation_constraint)]
pub fn output_evaluation_constraint(next: usize, base: usize) -> (r: MPolynomial)
    requires
        next == 11,
        base == 22,
    ensures
        r == spec_output_evaluation_constraint(next, base),
        r.variable_count() <= base + PARAMETER_COUNT,
        r.total_degree() <= 11,
{
    sum(product(deselector(WRITE), difference(difference(variable(offset(next, OUTPUT_EVALUATION)), product(challenge(base, CHALLENGE_DELTA), variable(OUTPUT_EVALUATION))), variable(MEMORY_VALUE))), product(difference(variable(offset(next, OUTPUT_EVALUATION)), variable(OUTPUT_EVALUATION)), difference(variable(CURRENT_INSTRUCTION), constant(WRITE))))
}

/// The constraints between two consecutive rows of registers, the second
/// row starting at variable `next`.
pub open spec fn spec_base_transition_constraints(next: usize) -> Seq<MPolynomial> {
    seq![
        instruction_constraint(0, next),
        instruction_constraint(1, next),
        instruction_constraint(2, next),
        cycle_constraint(next),
        inverse_of_value_constraint(),
        value_of_inverse_constraint(),
    ]
}

/// The constraints between two consecutive rows of registers, the second
/// row starting at variable `next`.
pub fn base_transition_constraints(next: usize) -> (r: Vec<MPolynomial>)
    requires
        next <= 16,
    ensures
        r@ == spec_base_transition_constraints(next),
        constraints_fit(r@, (next + 7) as nat),
{
    let mut out: Vec<MPolynomial> = Vec::new();
    out.push(instruction_constraint(0, next));
    out.push(instruction_constraint(1, next));
    out.push(instruction_constraint(2, next));
    out.push(cycle_constraint(next));
    out.push(inverse_of_value_constraint());
    out.push(value_of_inverse_constraint());
    assert(out@ =~= spec_base_transition_constraints(next));
    out
}

/// The constraints between two consecutive rows of the extended table.
pub open spec fn spec_transition_constraints_ext() -> Seq<MPolynomial> {
    seq![
        instruction_constraint(0, 11),
        instruction_constraint(1, 11),
        instruction_constraint(2, 11),
        cycle_constraint(11),
        inverse_of_value_constraint(),
        value_of_inverse_constraint(),
        instruction_permutation_constraint(11, 22),
        memory_permutation_constraint(11, 22),
        input_evaluation_constraint(11, 22),
        output_evaluation_constraint(11, 22),
    ]
}

/// The constraints between two consecutive rows of the extended table.
pub fn transition_constraints_ext() -> (r: Vec<MPolynomial>)
    ensures
        r@ == spec_transition_constraints_ext(),
        constraints_fit(r@, 39),
{
    let mut out: Vec<MPolynomial> = Vec::new();
    out.push(instruction_constraint(0, 11));
    out.push(instruction_constraint(1, 11));
    out.push(instruction_constraint(2, 11));
    out.push(cycle_constraint(11));
    out.push(inverse_of_value_constraint());
    out.push(value_of_inverse_constraint());
    out.push(instruction_permutation_constraint(11, 22));
    out.push(memory_permutation_constraint(11, 22));
    out.push(input_evaluation_constraint(11, 22));
    out.push(output_evaluation_constraint(11, 22));
    assert(out@ =~= spec_transition_constraints_ext());
    out
}

/// The column starts at zero.
pub open spec fn spec_starts_at_zero(column: usize) -> MPolynomial {
    variable(column)
}

/// The column starts at zero.
#[verifier::when_used_as_spec(spec_starts_at_zero)]
pub fn starts_at_zero(column: usize) -> (r: MPolynomial)
    requires
        column < 11,
    ensures
        r == spec_starts_at_zero(column),
        r.variable_count() <= 11,
        r.total_degree() <= 1,
{
    variable(column)
}

/// The constraints on the first row: the machine starts at cycle zero, at
/// the first instruction, with the memory pointer at zero and the memory
/// empty, and nothing read or written.
pub open spec fn spec_boundary_constraints_ext() -> Seq<MPolynomial> {
    seq![
        starts_at_zero(CYCLE),
        starts_at_zero(INSTRUCTION_POINTER),
        starts_at_zero(MEMORY_POINTER),
        starts_at_zero(MEMORY_VALUE),
        starts_at_zero(MEMORY_VALUE_INVERSE),
        starts_at_zero(INPUT_EVALUATION),
        starts_at_zero(OUTPUT_EVALUATION),
    ]
}

/// The constraints on the first row: the machine starts at cycle zero, at
/// the first instruction, with the memory pointer at zero and the memory
/// empty, and nothing read or written.
pub fn boundary_constraints_ext() -> (r: Vec<MPolynomial>)
    ensures
        r@ == spec_boundary_constraints_ext(),
        constraints_fit(r@, 28),
{
    let mut out: Vec<MPolynomial> = Vec::new();
    out.push(starts_at_zero(CYCLE));
    out.push(starts_at_zero(INSTRUCTION_POINTER));
    out.push(starts_at_zero(MEMORY_POINTER));
    out.push(starts_at_zero(MEMORY_VALUE));
    out.push(starts_at_zero(MEMORY_VALUE_INVERSE));
    out.push(starts_at_zero(INPUT_EVALUATION));
    out.push(starts_at_zero(OUTPUT_EVALUATION));
    assert(out@ =~= spec_boundary_constraints_ext());
    out
}

/// The column ends at terminal `t`.
pub open spec fn spec_ends_at_terminal(column: usize, t: usize) -> MPolynomial {
    difference(variable(column), terminal(11, t))
}

/// The column ends at terminal `t`.
#[verifier::when_used_as_spec(spec_ends_at_terminal)]
pub fn ends_at_terminal(column: usize, t: usize) -> (r: MPolynomial)
    requires
        column < 11,
        t < 5,
    ensures
        r == spec_ends_at_terminal(column, t),
        r.variable_count() <= 28,
        r.total_degree() <= 1,
{
    difference(variable(column), terminal(11, t))
}

/// The running product of the memory accesses, with the access of the last
/// row taken up, is the terminal.
pub open spec fn spec_memory_permutation_terminal_constraint() -> MPolynomial {
    difference(product(variable(MEMORY_PERMUTATION), compressed_memory_access(11)), terminal(11, TERMINAL_MEMORY_PERMUTATION))
}

/// The running product of the memory accesses, with the access of the last
/// row taken up, is the terminal.
#[verifier::when_used_as_spec(spec_memory_permutation_terminal_constraint)]
pub fn memory_permutation_terminal_constraint() -> (r: MPolynomial)
    ensures
        r == spec_memory_permutation_terminal_constraint(),
        r.variable_count() <= 28,
        r.total_degree() <= 3,
{
    difference(product(variable(MEMORY_PERMUTATION), compressed_memory_access(11)), terminal(11, TERMINAL_MEMORY_PERMUTATION))
}

/// The constraints on the last row: each running product or sum ends at
/// its terminal. The last row holds no instruction, so only the memory
/// permutation still takes it up.
pub open spec fn spec_terminal_constraints_ext() -> Seq<MPolynomial> {
    seq![
        ends_at_terminal(INSTRUCTION_PERMUTATION, TERMINAL_INSTRUCTION_PERMUTATION),
        memory_permutation_terminal_constraint(),
        ends_at_terminal(INPUT_EVALUATION, TERMINAL_INPUT_EVALUATION),
        ends_at_terminal(OUTPUT_EVALUATION, TERMINAL_OUTPUT_EVALUATION),
    ]
}

/// The constraints on the last row: each running product or sum ends at
/// its terminal. The last row holds no instruction, so only the memory
/// permutation still takes it up.
pub fn terminal_constraints_ext() -> (r: Vec<MPolynomial>)
    ensures
        r@ == spec_terminal_constraints_ext(),
        constraints_fit(r@, 28),
{
    let mut out: Vec<MPolynomial> = Vec::new();
    out.push(ends_at_terminal(INSTRUCTION_PERMUTATION, TERMINAL_INSTRUCTION_PERMUTATION));
    out.push(memory_permutation_terminal_constraint());
    out.push(ends_at_terminal(INPUT_EVALUATION, TERMINAL_INPUT_EVALUATION));
    out.push(ends_at_terminal(OUTPUT_EVALUATION, TERMINAL_OUTPUT_EVALUATION));
    assert(out@ =~= spec_terminal_constraints_ext());
    out
}

/// The largest degree of a processor table is not negative: the quotient of
/// the constraint on the cycle count alone has the degree that the random
/// values add.
pub proof fn lemma_max_degree_not_negative(d: int, height: int)
    requires
        d >= height - 1,
    ensures
        max_of(transition_bounds(spec_base_transition_constraints(7), 7, d, 0, height)) >= 0,
{
    let bounds = transition_bounds(spec_base_transition_constraints(7), 7, d, 0, height);
    let degrees = variable_degrees(14, d, 0);
    assert(degrees[0] == d);
    assert(spec_base_transition_constraints(7)[3] == spec_cycle_constraint(7));
    assert(spec_cycle_constraint(7).degree_bound(degrees) >= d) by {
        reveal_with_fuel(MPolynomial::degree_bound, 4);
    }
    lemma_max_of_at_least(bounds, 3);
}

/// The running products and sums of the processor table before a row.
pub struct ProcessorRunning {
    pub instruction_permutation: XValue,
    pub memory_permutation: XValue,
    pub input_evaluation: XValue,
    pub output_evaluation: XValue,
}

/// The running products and sums before row `i`. The products start at the
/// initials and the sums at zero. A row with an instruction is taken up by
/// the instruction permutation, every row by the memory permutation; the
/// input evaluation takes up the memory value after a read, the output
/// evaluation the memory value at a write.
pub open spec fn running(
    matrix: Seq<Seq<int>>,
    challenges: Seq<XValue>,
    initials: Seq<XValue>,
    i: nat,
) -> ProcessorRunning
    decreases i,
{
    if i == 0 {
        ProcessorRunning {
            instruction_permutation: initials[0],
            memory_permutation: initials[1],
            input_evaluation: x_zero(),
            output_evaluation: x_zero(),
        }
    } else {
        let before = running(matrix, challenges, initials, (i - 1) as nat);
        let row = matrix[i - 1];
        ProcessorRunning {
            instruction_permutation: if row[CURRENT_INSTRUCTION as int] != 0 {
                x_mul(
                    before.instruction_permutation,
                    compress(
                        challenges[CHALLENGE_ALPHA as int],
                        challenges[CHALLENGE_A as int],
                        challenges[CHALLENGE_B as int],
                        challenges[CHALLENGE_C as int],
                        row[INSTRUCTION_POINTER as int],
                        row[CURRENT_INSTRUCTION as int],
                        row[NEXT_INSTRUCTION as int],
                    ),
                )
            } else {
                before.instruction_permutation
            },
            memory_permutation: x_mul(
                before.memory_permutation,
                compress(
                    challenges[CHALLENGE_BETA as int],
                    challenges[CHALLENGE_D as int],
                    challenges[CHALLENGE_E as int],
                    challenges[CHALLENGE_F as int],
                    row[CYCLE as int],
                    row[MEMORY_POINTER as int],
                    row[MEMORY_VALUE as int],
                ),
            ),
            input_evaluation: if row[CURRENT_INSTRUCTION as int] == READ && i < matrix.len() {
                x_add(
                    x_mul(before.input_evaluation, challenges[CHALLENGE_GAMMA as int]),
                    x_lift(matrix[i as int][MEMORY_VALUE as int]),
                )
            } else {
                before.input_evaluation
            },
            output_evaluation: if row[CURRENT_INSTRUCTION as int] == WRITE {
                x_add(
                    x_mul(before.output_evaluation, challenges[CHALLENGE_DELTA as int]),
                    x_lift(row[MEMORY_VALUE as int]),
                )
            } else {
                before.output_evaluation
            },
        }
    }
}

/// Row `i` of the extended table: the registers, then the running products
/// and sums before the row.
pub open spec fn extended_row(
    matrix: Seq<Seq<int>>,
    challenges: Seq<XValue>,
    initials: Seq<XValue>,
    i: int,
) -> Seq<XValue> {
    let state = running(matrix, challenges, initials, i as nat);
    lifted(matrix[i]) + seq![
        state.instruction_permutation,
        state.memory_permutation,
        state.input_evaluation,
        state.output_evaluation,
    ]
}

/// What only the processor table has: the terminals of its four arguments.
#[derive(Debug, Clone, Copy)]
pub struct ProcessorTableMore {
    pub instruction_permutation_terminal: XFieldElement,
    pub memory_permutation_terminal: XFieldElement,
    pub input_evaluation_terminal: XFieldElement,
    pub output_evaluation_terminal: XFieldElement,
}

/// The table of the processor.
#[derive(Debug, Clone)]
pub struct ProcessorTable(pub Table<ProcessorTableMore>);

impl ProcessorTable {
    /// The invariant of the table, with the widths of a processor table.
    pub open spec fn well_formed(&self) -> bool {
        &&& self.0.well_formed()
        &&& self.0.base_width == BASE_WIDTH
        &&& self.0.full_width == FULL_WIDTH
    }

    /// The degree of the interpolants of the columns.
    pub open spec fn degree(&self) -> int {
        self.0.height + self.0.num_randomizers - 1
    }

    /// An empty processor table for a trace of `length` rows.
    pub fn new(
        length: usize,
        num_randomizers: usize,
        generator: BFieldElement,
        order: usize,
    ) -> (r: Self)
        requires
            length <= MAX_HEIGHT,
            num_randomizers <= MAX_HEIGHT,
        ensures
            r.well_formed(),
            r.0.length == length,
            r.0.num_randomizers == num_randomizers,
            length == 0 ==> r.0.height == 0,
            length > 0 ==> length <= r.0.height < 2 * length,
            r.0.matrix.len() == 0,
    {
        let zero = XFieldElement::ring_zero();
        let more = ProcessorTableMore {
            instruction_permutation_terminal: zero,
            memory_permutation_terminal: zero,
            input_evaluation_terminal: zero,
            output_evaluation_terminal: zero,
        };
        ProcessorTable(
            Table::new(BASE_WIDTH, FULL_WIDTH, length, num_randomizers, generator, order, more),
        )
    }

    pub fn base_width(&self) -> (r: usize)
        ensures
            r == self.0.base_width,
    {
        self.0.base_width
    }

    pub fn full_width(&self) -> (r: usize)
        ensures
            r == self.0.full_width,
    {
        self.0.full_width
    }

    pub fn height(&self) -> (r: usize)
        ensures
            r == self.0.height,
    {
        self.0.height
    }

    pub fn omicron(&self) -> (r: BFieldElement)
        ensures
            r == self.0.omicron,
    {
        self.0.omicron
    }

    /// The degree of the interpolants of the columns.
    pub fn interpolant_degree(&self) -> (r: Degree)
        requires
            self.well_formed(),
        ensures
            r == self.degree(),
    {
        self.0.interpolant_degree()
    }

    /// The largest degree that the quotient of a constraint on the registers
    /// can have.
    pub fn max_degree(&self) -> (r: Degree)
        requires
            self.well_formed(),
        ensures
            r == max_of(
                transition_bounds(
                    spec_base_transition_constraints(7),
                    7,
                    self.degree(),
                    0,
                    self.0.height as int,
                ),
            ),
    {
        let constraints = base_transition_constraints(7);
        max_degree_for(&self.0, &constraints)
    }

    /// The bounds on the degrees of all quotients of the table. They depend
    /// on the dimensions of the table alone, not on the challenges, the
    /// terminals or the rows.
    pub fn all_quotient_degree_bounds(
        &self,
        challenges: [XFieldElement; 11],
        terminals: [XFieldElement; 5],
    ) -> (r: Vec<Degree>)
        requires
            self.well_formed(),
        ensures
            degree_values(r@) == quotient_bounds_spec(
                spec_boundary_constraints_ext(),
                spec_transition_constraints_ext(),
                spec_terminal_constraints_ext(),
                11,
                self.degree(),
                17,
                self.0.height as int,
            ),
    {
        let boundary = boundary_constraints_ext();
        let transition = transition_constraints_ext();
        let terminal = terminal_constraints_ext();
        quotient_degree_bounds_for(&self.0, &boundary, &transition, &terminal, PARAMETER_COUNT)
    }

    /// Whether the rows of the extended table meet the constraints of its
    /// kind, with the given challenges and terminals.
    pub open spec fn meets_constraints(
        &self,
        challenges: [XFieldElement; 11],
        terminals: [XFieldElement; 5],
    ) -> bool {
        trace_meets(
            spec_boundary_constraints_ext(),
            spec_transition_constraints_ext(),
            spec_terminal_constraints_ext(),
            x_matrix_values(self.0.extended_matrix@),
            parameters_spec(x_array_values(challenges), x_array_values(terminals), x_one()),
        )
    }

    /// Whether the rows of the extended table meet the constraints of its
    /// kind.
    pub fn check_constraints(
        &self,
        challenges: [XFieldElement; 11],
        terminals: [XFieldElement; 5],
    ) -> (r: bool)
        requires
            self.well_formed(),
            self.0.is_extended(),
        ensures
            r == self.meets_constraints(challenges, terminals),
    {
        let boundary = boundary_constraints_ext();
        let transition = transition_constraints_ext();
        let terminal = terminal_constraints_ext();
        let parameters = parameters_of(&challenges, &terminals, XFieldElement::ring_one());
        rows_meet_constraints(
            &self.0.extended_matrix,
            &parameters,
            &boundary,
            &transition,
            &terminal,
            FULL_WIDTH,
        )
    }

    /// All quotients of the table over `fri_domain`, from the codewords of
    /// all its columns.
    pub fn all_quotients(
        &self,
        fri_domain: &FriDomain,
        codewords: &Vec<Vec<XFieldElement>>,
        challenges: [XFieldElement; 11],
        terminals: [XFieldElement; 5],
    ) -> (r: Result<Vec<Vec<XFieldElement>>, TableError>)
        requires
            self.well_formed(),
        ensures
            r == Err::<Vec<Vec<XFieldElement>>, TableError>(TableError::ShapeMismatch)
                <==> !codewords_shaped(codewords@, 11, fri_domain.length as nat),
            r == Err::<Vec<Vec<XFieldElement>>, TableError>(TableError::ZerofierVanishes) <==> (
            codewords_shaped(codewords@, 11, fri_domain.length as nat) && !zerofiers_invertible(
                fri_domain.points(),
                self.0.omicron@,
                self.0.height as nat,
            )),
            r is Err ==> (r->Err_0 == TableError::ShapeMismatch || r->Err_0
                == TableError::ZerofierVanishes),
            r is Ok ==> {
                &&& r->Ok_0.len() == 21
                &&& forall|k: int|
                    0 <= k < r->Ok_0.len() ==> (#[trigger] r->Ok_0[k]).len() == fri_domain.length
                &&& x_matrix_values(r->Ok_0@) == quotients_spec(
                    spec_boundary_constraints_ext(),
                    spec_transition_constraints_ext(),
                    spec_terminal_constraints_ext(),
                    x_matrix_values(codewords@),
                    parameters_spec(
                        x_array_values(challenges),
                        x_array_values(terminals),
                        x_one(),
                    ),
                    fri_domain.points(),
                    self.0.omicron@,
                    self.0.height as nat,
                )
            },
    {
        let boundary = boundary_constraints_ext();
        let transition = transition_constraints_ext();
        let terminal = terminal_constraints_ext();
        let parameters = parameters_of(&challenges, &terminals, XFieldElement::ring_one());
        let r = quotients_of(
            fri_domain,
            codewords,
            &parameters,
            &boundary,
            &transition,
            &terminal,
            FULL_WIDTH,
            self.0.omicron,
            self.0.height,
        );
        proof {
            if r is Ok {
                assert(x_matrix_values(r->Ok_0@).len() == 21);
            }
        }
        r
    }

    /// Fills the matrix up to the height of the table: each new row is the
    /// last row one cycle later.
    pub fn pad(&mut self)
        requires
            old(self).well_formed(),
        ensures
            final(self).0.padded_from(&old(self).0, PaddingRule::AdvanceCycle),
            final(self).well_formed(),
    {
        self.0.pad_matrix(PaddingRule::AdvanceCycle);
    }

    /// Whether this table is `before` after its extension with the given
    /// challenges and initials.
    pub open spec fn extended_from(
        &self,
        before: &Self,
        all_challenges: [XFieldElement; 11],
        all_initials: [XFieldElement; 2],
    ) -> bool {
        &&& self.well_formed()
        &&& before.0.same_but_extension(&self.0)
        &&& self.0.extended_matrix.len() == before.0.matrix.len()
        &&& forall|i: int|
            0 <= i < before.0.matrix.len() ==> {
                &&& (#[trigger] self.0.extended_matrix[i]).len() == FULL_WIDTH
                &&& x_values(self.0.extended_matrix[i]@) == extended_row(
                    matrix_values(before.0.matrix@),
                    x_array_values(all_challenges),
                    x_array_values(all_initials),
                    i,
                )
            }
        &&& ({
            let last = running(
                matrix_values(before.0.matrix@),
                x_array_values(all_challenges),
                x_array_values(all_initials),
                before.0.matrix.len() as nat,
            );
            &&& self.0.more.instruction_permutation_terminal@
                == last.instruction_permutation
            &&& self.0.more.memory_permutation_terminal@ == last.memory_permutation
            &&& self.0.more.input_evaluation_terminal@ == last.input_evaluation
            &&& self.0.more.output_evaluation_terminal@ == last.output_evaluation
        })
        &&& before.0.is_padded() ==> self.0.is_extended()
    }

    /// Extends the table: each row gets the running products and sums
    /// before it, and the table their values after the last row as its
    /// terminals.
    #[verifier::rlimit(40)]
    pub fn extend(
        &mut self,
        all_challenges: [XFieldElement; 11],
        all_initials: [XFieldElement; 2],
    )
        requires
            old(self).well_formed(),
        ensures
            final(self).extended_from(old(self), all_challenges, all_initials),
    {
        let ghost m = matrix_values(self.0.matrix@);
        let ghost ch = x_array_values(all_challenges);
        let ghost init = x_array_values(all_initials);
        let n = self.0.matrix.len();
        let mut extended: Vec<Vec<XFieldElement>> = Vec::new();
        let mut ipm = all_initials[0];
        let mut mpm = all_initials[1];
        let mut ie = XFieldElement::ring_zero();
        let mut oe = XFieldElement::ring_zero();
        let mut i: usize = 0;
        while i < n
            invariant
                i <= n,
                n == self.0.matrix.len(),
                *self == *old(self),
                self.well_formed(),
                m == matrix_values(self.0.matrix@),
                ch == x_array_values(all_challenges),
                init == x_array_values(all_initials),
                extended.len() == i,
                ipm@ == running(m, ch, init, i as nat).instruction_permutation,
                mpm@ == running(m, ch, init, i as nat).memory_permutation,
                ie@ == running(m, ch, init, i as nat).input_evaluation,
                oe@ == running(m, ch, init, i as nat).output_evaluation,
                forall|j: int|
                    0 <= j < i ==> {
                        &&& (#[trigger] extended[j]).len() == FULL_WIDTH
                        &&& x_values(extended[j]@) == extended_row(m, ch, init, j)
                    },
            decreases n - i,
        {
            let row = &self.0.matrix[i];
            assert(row.len() == BASE_WIDTH);
            assert(m[i as int] == values(row@));
            let mut new_row = lift_codeword(row);
            let ghost base_part = x_values(new_row@);
            new_row.push(ipm);
            new_row.push(mpm);
            new_row.push(ie);
            new_row.push(oe);
            assert(x_values(new_row@) =~= extended_row(m, ch, init, i as int));
            let ci = row[CURRENT_INSTRUCTION];
            assert(ci@ == m[i as int][CURRENT_INSTRUCTION as int]);
            let ghost after = running(m, ch, init, (i + 1) as nat);
            assert(row[INSTRUCTION_POINTER as int]@ == m[i as int][INSTRUCTION_POINTER as int]);
            assert(row[NEXT_INSTRUCTION as int]@ == m[i as int][NEXT_INSTRUCTION as int]);
            assert(row[CYCLE as int]@ == m[i as int][CYCLE as int]);
            assert(row[MEMORY_POINTER as int]@ == m[i as int][MEMORY_POINTER as int]);
            assert(row[MEMORY_VALUE as int]@ == m[i as int][MEMORY_VALUE as int]);
            if !ci.is_zero() {
                ipm = ipm.mul(
                    compress_row(
                        all_challenges[CHALLENGE_ALPHA],
                        all_challenges[CHALLENGE_A],
                        all_challenges[CHALLENGE_B],
                        all_challenges[CHALLENGE_C],
                        row[INSTRUCTION_POINTER],
                        ci,
                        row[NEXT_INSTRUCTION],
                    ),
                );
            }
            mpm = mpm.mul(
                compress_row(
                    all_challenges[CHALLENGE_BETA],
                    all_challenges[CHALLENGE_D],
                    all_challenges[CHALLENGE_E],
                    all_challenges[CHALLENGE_F],
                    row[CYCLE],
                    row[MEMORY_POINTER],
                    row[MEMORY_VALUE],
                ),
            );
            if ci.value() == READ && i + 1 < n {
                let after = &self.0.matrix[i + 1];
                assert(after.len() == BASE_WIDTH);
                assert(m[i + 1] == values(after@));
                ie = ie.mul(all_challenges[CHALLENGE_GAMMA]).add(after[MEMORY_VALUE].lift());
            }
            if ci.value() == WRITE {
                oe = oe.mul(all_challenges[CHALLENGE_DELTA]).add(row[MEMORY_VALUE].lift());
            }
            assert(ipm@ == after.instruction_permutation);
            assert(mpm@ == after.memory_permutation);
            assert(ie@ == after.input_evaluation);
            assert(oe@ == after.output_evaluation);
            extended.push(new_row);
            i = i + 1;
        }
        self.0.extended_matrix = extended;
        self.0.more = ProcessorTableMore {
            instruction_permutation_terminal: ipm,
            memory_permutation_terminal: mpm,
            input_evaluation_terminal: ie,
            output_evaluation_terminal: oe,
        };
    }
}

} // verus!
