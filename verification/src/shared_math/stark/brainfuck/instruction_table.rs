//! The table of instructions: the program, one row per word, together with
//! one row per instruction executed, ordered by address. It ties the
//! instructions that the processor executed to the program.

use crate::shared_math::b_field_element::BFieldElement;
use crate::shared_math::b_field_element::values;
use crate::shared_math::fri_domain::FriDomain;
use crate::shared_math::mpolynomial::constant;
use crate::shared_math::mpolynomial::Degree;
use crate::shared_math::mpolynomial::degree_values;
use crate::shared_math::mpolynomial::difference;
use crate::shared_math::mpolynomial::MPolynomial;
use crate::shared_math::mpolynomial::offset;
use crate::shared_math::mpolynomial::product;
use crate::shared_math::mpolynomial::sum;
use crate::shared_math::mpolynomial::variable;
use crate::shared_math::mpolynomial::x_values;
use crate::shared_math::stark::brainfuck::stark::challenge;
use crate::shared_math::stark::brainfuck::stark::CHALLENGE_A;
use crate::shared_math::stark::brainfuck::stark::CHALLENGE_ALPHA;
use crate::shared_math::stark::brainfuck::stark::CHALLENGE_B;
use crate::shared_math::stark::brainfuck::stark::CHALLENGE_C;
use crate::shared_math::stark::brainfuck::stark::CHALLENGE_ETA;
use crate::shared_math::stark::brainfuck::stark::PARAMETER_COUNT;
use crate::shared_math::stark::brainfuck::stark::parameters_of;
use crate::shared_math::stark::brainfuck::stark::parameters_spec;
use crate::shared_math::stark::brainfuck::stark::terminal;
use crate::shared_math::stark::brainfuck::stark::TERMINAL_INSTRUCTION_PERMUTATION;
use crate::shared_math::stark::brainfuck::stark::TERMINAL_PROGRAM_EVALUATION;
use crate::shared_math::stark::brainfuck::stark::x_array_values;
use crate::shared_math::stark::quotient::codewords_shaped;
use crate::shared_math::stark::quotient::constraints_fit;
use crate::shared_math::stark::quotient::max_degree_for;
use crate::shared_math::stark::quotient::max_of;
use crate::shared_math::stark::quotient::quotient_bounds_spec;
use crate::shared_math::stark::quotient::quotient_degree_bounds_for;
use crate::shared_math::stark::quotient::quotients_of;
use crate::shared_math::stark::quotient::quotients_spec;
use crate::shared_math::stark::quotient::rows_meet_constraints;
use crate::shared_math::stark::quotient::trace_meets;
use crate::shared_math::stark::quotient::transition_bounds;
use crate::shared_math::stark::quotient::zerofiers_invertible;
use crate::shared_math::stark::table::lift_codeword;
use crate::shared_math::stark::table::lifted;
use crate::shared_math::stark::table::matrix_values;
use crate::shared_math::stark::table::MAX_HEIGHT;
use crate::shared_math::stark::table::PaddingRule;
use crate::shared_math::stark::table::Table;
use crate::shared_math::stark::table::TableError;
use crate::shared_math::stark::table::x_matrix_values;
use crate::shared_math::x_field_element::x_add;
use crate::shared_math::x_field_element::x_lift;
use crate::shared_math::x_field_element::x_mul;
use crate::shared_math::x_field_element::x_one;
use crate::shared_math::x_field_element::x_sub;
use crate::shared_math::x_field_element::x_zero;
use crate::shared_math::x_field_element::XFieldElement;
use crate::shared_math::x_field_element::XValue;
use vstd::prelude::*;

verus! {

/// The number of columns that the trace fills.
pub const BASE_WIDTH: usize = 3;

/// The number of columns after extension.
pub const FULL_WIDTH: usize = 5;

/// The column of the address of a word of the program.
pub const ADDRESS: usize = 0;

/// The column of the word at that address.
pub const CURRENT_INSTRUCTION: usize = 1;

/// The column of the word after it.
pub const NEXT_INSTRUCTION: usize = 2;

/// The column of the running product over the instructions executed.
pub const PERMUTATION: usize = 3;

/// The column of the running sum over the program.
pub const EVALUATION: usize = 4;

/// The change of the address: `address' - address`.
pub open spec fn spec_address_change(next: usize) -> MPolynomial {
    difference(variable(offset(next, ADDRESS)), variable(ADDRESS))
}

/// The change of the address: `address' - address`.
#[verifier::when_used_as_spec(spec_address_change)]
pub fn address_change(next: usize) -> (r: MPolynomial)
    requires
        next <= 16,
    ensures
        r == spec_address_change(next),
        r.variable_count() <= next + 3,
        r.total_degree() <= 1,
{
    difference(variable(offset(next, ADDRESS)), variable(ADDRESS))
}

/// Zero where the address grows by one: `address' - address - 1`.
pub open spec fn spec_same_address(next: usize) -> MPolynomial {
    difference(address_change(next), constant(1))
}

/// Zero where the address grows by one: `address' - address - 1`.
#[verifier::when_used_as_spec(spec_same_address)]
pub fn same_address(next: usize) -> (r: MPolynomial)
    requires
        next <= 16,
    ensures
        r == spec_same_address(next),
        r.variable_count() <= next + 3,
        r.total_degree() <= 1,
{
    difference(address_change(next), constant(1))
}

/// The address stays or grows by one.
pub open spec fn spec_address_constraint(next: usize) -> MPolynomial {
    product(same_address(next), address_change(next))
}

/// The address stays or grows by one.
#[verifier::when_used_as_spec(spec_address_constraint)]
pub fn address_constraint(next: usize) -> (r: MPolynomial)
    requires
        next <= 16,
    ensures
        r == spec_address_constraint(next),
        r.variable_count() <= next + 3,
        r.total_degree() <= 2,
{
    product(same_address(next), address_change(next))
}

/// Where the address stays, the word at it stays.
pub open spec fn spec_current_instruction_constraint(next: usize) -> MPolynomial {
    product(same_address(next), difference(variable(offset(next, CURRENT_INSTRUCTION)), variable(CURRENT_INSTRUCTION)))
}

/// Where the address stays, the word at it stays.
#[verifier::when_used_as_spec(spec_current_instruction_constraint)]
pub fn current_instruction_constraint(next: usize) -> (r: MPolynomial)
    requires
        next <= 16,
    ensures
        r == spec_current_instruction_constraint(next),
        r.variable_count() <= next + 3,
        r.total_degree() <= 2,
{
    product(same_address(next), difference(variable(offset(next, CURRENT_INSTRUCTION)), variable(CURRENT_INSTRUCTION)))
}

/// Where the address stays, the word after it stays.
pub open spec fn spec_next_instruction_constraint(next: usize) -> MPolynomial {
    product(same_address(next), difference(variable(offset(next, NEXT_INSTRUCTION)), variable(NEXT_INSTRUCTION)))
}

/// Where the address stays, the word after it stays.
#[verifier::when_used_as_spec(spec_next_instruction_constraint)]
pub fn next_instruction_constraint(next: usize) -> (r: MPolynomial)
    requires
        next <= 16,
    ensures
        r == spec_next_instruction_constraint(next),
        r.variable_count() <= next + 3,
        r.total_degree() <= 2,
{
    product(same_address(next), difference(variable(offset(next, NEXT_INSTRUCTION)), variable(NEXT_INSTRUCTION)))
}

/// The row as one element: `a * address + b * ci + c * ni`.
pub open spec fn spec_weighted_row(base: usize) -> MPolynomial {
    sum(sum(product(challenge(base, CHALLENGE_A), variable(ADDRESS)), product(challenge(base, CHALLENGE_B), variable(CURRENT_INSTRUCTION))), product(challenge(base, CHALLENGE_C), variable(NEXT_INSTRUCTION)))
}

/// The row as one element: `a * address + b * ci + c * ni`.
#[verifier::when_used_as_spec(spec_weighted_row)]
pub fn weighted_row(base: usize) -> (r: MPolynomial)
    requires
        5 <= base <= 64,
    ensures
        r == spec_weighted_row(base),
        r.variable_count() <= base + PARAMETER_COUNT,
        r.total_degree() <= 2,
{
    sum(sum(product(challenge(base, CHALLENGE_A), variable(ADDRESS)), product(challenge(base, CHALLENGE_B), variable(CURRENT_INSTRUCTION))), product(challenge(base, CHALLENGE_C), variable(NEXT_INSTRUCTION)))
}

/// The next row as one element.
pub open spec fn spec_weighted_next_row(next: usize, base: usize) -> MPolynomial {
    sum(sum(product(challenge(base, CHALLENGE_A), variable(offset(next, ADDRESS))), product(challenge(base, CHALLENGE_B), variable(offset(next, CURRENT_INSTRUCTION)))), product(challenge(base, CHALLENGE_C), variable(offset(next, NEXT_INSTRUCTION))))
}

/// The next row as one element.
#[verifier::when_used_as_spec(spec_weighted_next_row)]
pub fn weighted_next_row(next: usize, base: usize) -> (r: MPolynomial)
    requires
        next == 5,
        base == 10,
    ensures
        r == spec_weighted_next_row(next, base),
        r.variable_count() <= base + PARAMETER_COUNT,
        r.total_degree() <= 2,
{
    sum(sum(product(challenge(base, CHALLENGE_A), variable(offset(next, ADDRESS))), product(challenge(base, CHALLENGE_B), variable(offset(next, CURRENT_INSTRUCTION)))), product(challenge(base, CHALLENGE_C), variable(offset(next, NEXT_INSTRUCTION))))
}

/// The row as the factor of a running product: `alpha - a * address - b * ci - c * ni`.
pub open spec fn spec_compressed_row(base: usize) -> MPolynomial {
    difference(challenge(base, CHALLENGE_ALPHA), weighted_row(base))
}

/// The row as the factor of a running product: `alpha - a * address - b * ci - c * ni`.
#[verifier::when_used_as_spec(spec_compressed_row)]
pub fn compressed_row(base: usize) -> (r: MPolynomial)
    requires
        5 <= base <= 64,
    ensures
        r == spec_compressed_row(base),
        r.variable_count() <= base + PARAMETER_COUNT,
        r.total_degree() <= 2,
{
    difference(challenge(base, CHALLENGE_ALPHA), weighted_row(base))
}

/// The next row as the factor of a running product.
pub open spec fn spec_compressed_next_row(next: usize, base: usize) -> MPolynomial {
    difference(challenge(base, CHALLENGE_ALPHA), weighted_next_row(next, base))
}

/// The next row as the factor of a running product.
#[verifier::when_used_as_spec(spec_compressed_next_row)]
pub fn compressed_next_row(next: usize, base: usize) -> (r: MPolynomial)
    requires
        next == 5,
        base == 10,
    ensures
        r == spec_compressed_next_row(next, base),
        r.variable_count() <= base + PARAMETER_COUNT,
        r.total_degree() <= 2,
{
    difference(challenge(base, CHALLENGE_ALPHA), weighted_next_row(next, base))
}

/// Where the address stays, the next row is an instruction executed and
/// the running product takes it up; where the address grows, the next row
/// is a word of the program and the running product stays.
pub open spec fn spec_permutation_constraint(next: usize, base: usize) -> MPolynomial {
    sum(product(same_address(next), difference(variable(offset(next, PERMUTATION)), product(variable(PERMUTATION), compressed_next_row(next, base)))), product(address_change(next), difference(variable(offset(next, PERMUTATION)), variable(PERMUTATION))))
}

/// Where the address stays, the next row is an instruction executed and
/// the running product takes it up; where the address grows, the next row
/// is a word of the program and the running product stays.
#[verifier::when_used_as_spec(spec_permutation_constraint)]
pub fn permutation_constraint(next: usize, base: usize) -> (r: MPolynomial)
    requires
        next == 5,
        base == 10,
    ensures
        r == spec_permutation_constraint(next, base),
        r.variable_count() <= base + PARAMETER_COUNT,
        r.total_degree() <= 4,
{
    sum(product(same_address(next), difference(variable(offset(next, PERMUTATION)), product(variable(PERMUTATION), compressed_next_row(next, base)))), product(address_change(next), difference(variable(offset(next, PERMUTATION)), variable(PERMUTATION))))
}

/// Where the address grows, the next row is a word of the program and the
/// running sum takes it up; where the address stays, the running sum
/// stays.
pub open spec fn spec_evaluation_constraint(next: usize, base: usize) -> MPolynomial {
    sum(product(same_address(next), difference(variable(offset(next, EVALUATION)), variable(EVALUATION))), product(address_change(next), difference(difference(variable(offset(next, EVALUATION)), product(challenge(base, CHALLENGE_ETA), variable(EVALUATION))), weighted_next_row(next, base))))
}

/// Where the address grows, the next row is a word of the program and the
/// running sum takes it up; where the address stays, the running sum
/// stays.
#[verifier::when_used_as_spec(spec_evaluation_constraint)]
pub fn evaluation_constraint(next: usize, base: usize) -> (r: MPolynomial)
    requires
        next == 5,
        base == 10,
    ensures
        r == spec_evaluation_constraint(next, base),
        r.variable_count() <= base + PARAMETER_COUNT,
        r.total_degree() <= 3,
{
    sum(product(same_address(next), difference(variable(offset(next, EVALUATION)), variable(EVALUATION))), product(address_change(next), difference(difference(variable(offset(next, EVALUATION)), product(challenge(base, CHALLENGE_ETA), variable(EVALUATION))), weighted_next_row(next, base))))
}

/// The constraints between two consecutive rows of the trace, the second
/// row starting at variable `next`.
pub open spec fn spec_base_transition_constraints(next: usize) -> Seq<MPolynomial> {
    seq![
        address_constraint(next),
        current_instruction_constraint(next),
        next_instruction_constraint(next),
    ]
}

/// The constraints between two consecutive rows of the trace, the second
/// row starting at variable `next`.
pub fn base_transition_constraints(next: usize) -> (r: Vec<MPolynomial>)
    requires
        next <= 16,
    ensures
        r@ == spec_base_transition_constraints(next),
        constraints_fit(r@, (next + 3) as nat),
{
    let mut out: Vec<MPolynomial> = Vec::new();
    out.push(address_constraint(next));
    out.push(current_instruction_constraint(next));
    out.push(next_instruction_constraint(next));
    assert(out@ =~= spec_base_transition_constraints(next));
    out
}

/// The constraints between two consecutive rows of the extended table.
pub open spec fn spec_transition_constraints_ext() -> Seq<MPolynomial> {
    seq![
        address_constraint(5),
        current_instruction_constraint(5),
        next_instruction_constraint(5),
        permutation_constraint(5, 10),
        evaluation_constraint(5, 10),
    ]
}

/// The constraints between two consecutive rows of the extended table.
pub fn transition_constraints_ext() -> (r: Vec<MPolynomial>)
    ensures
        r@ == spec_transition_constraints_ext(),
        constraints_fit(r@, 27),
{
    let mut out: Vec<MPolynomial> = Vec::new();
    out.push(address_constraint(5));
    out.push(current_instruction_constraint(5));
    out.push(next_instruction_constraint(5));
    out.push(permutation_constraint(5, 10));
    out.push(evaluation_constraint(5, 10));
    assert(out@ =~= spec_transition_constraints_ext());
    out
}

/// The first address is zero.
pub open spec fn spec_first_address_constraint() -> MPolynomial {
    variable(ADDRESS)
}

/// The first address is zero.
#[verifier::when_used_as_spec(spec_first_address_constraint)]
pub fn first_address_constraint() -> (r: MPolynomial)
    ensures
        r == spec_first_address_constraint(),
        r.variable_count() <= 5,
        r.total_degree() <= 1,
{
    variable(ADDRESS)
}

/// The running sum starts with the first row taken up.
pub open spec fn spec_first_evaluation_constraint() -> MPolynomial {
    difference(variable(EVALUATION), weighted_row(5))
}

/// The running sum starts with the first row taken up.
#[verifier::when_used_as_spec(spec_first_evaluation_constraint)]
pub fn first_evaluation_constraint() -> (r: MPolynomial)
    ensures
        r == spec_first_evaluation_constraint(),
        r.variable_count() <= 22,
        r.total_degree() <= 2,
{
    difference(variable(EVALUATION), weighted_row(5))
}

/// The constraints on the first row.
pub open spec fn spec_boundary_constraints_ext() -> Seq<MPolynomial> {
    seq![
        first_address_constraint(),
        first_evaluation_constraint(),
    ]
}

/// The constraints on the first row.
pub fn boundary_constraints_ext() -> (r: Vec<MPolynomial>)
    ensures
        r@ == spec_boundary_constraints_ext(),
        constraints_fit(r@, 22),
{
    let mut out: Vec<MPolynomial> = Vec::new();
    out.push(first_address_constraint());
    out.push(first_evaluation_constraint());
    assert(out@ =~= spec_boundary_constraints_ext());
    out
}

/// The running product ends at its terminal. The last row holds no
/// instruction, so that with `ci = 0` this reads `permutation = terminal`;
/// a last row with an instruction would still have to be taken up.
pub open spec fn spec_permutation_terminal_constraint() -> MPolynomial {
    sum(difference(variable(PERMUTATION), terminal(5, TERMINAL_INSTRUCTION_PERMUTATION)), product(variable(CURRENT_INSTRUCTION), difference(product(variable(PERMUTATION), compressed_row(5)), terminal(5, TERMINAL_INSTRUCTION_PERMUTATION))))
}

/// The running product ends at its terminal. The last row holds no
/// instruction, so that with `ci = 0` this reads `permutation = terminal`;
/// a last row with an instruction would still have to be taken up.
#[verifier::when_used_as_spec(spec_permutation_terminal_constraint)]
pub fn permutation_terminal_constraint() -> (r: MPolynomial)
    ensures
        r == spec_permutation_terminal_constraint(),
        r.variable_count() <= 22,
        r.total_degree() <= 4,
{
    sum(difference(variable(PERMUTATION), terminal(5, TERMINAL_INSTRUCTION_PERMUTATION)), product(variable(CURRENT_INSTRUCTION), difference(product(variable(PERMUTATION), compressed_row(5)), terminal(5, TERMINAL_INSTRUCTION_PERMUTATION))))
}

/// The running sum ends at its terminal.
pub open spec fn spec_evaluation_terminal_constraint() -> MPolynomial {
    difference(variable(EVALUATION), terminal(5, TERMINAL_PROGRAM_EVALUATION))
}

/// The running sum ends at its terminal.
#[verifier::when_used_as_spec(spec_evaluation_terminal_constraint)]
pub fn evaluation_terminal_constraint() -> (r: MPolynomial)
    ensures
        r == spec_evaluation_terminal_constraint(),
        r.variable_count() <= 22,
        r.total_degree() <= 1,
{
    difference(variable(EVALUATION), terminal(5, TERMINAL_PROGRAM_EVALUATION))
}

/// The constraints on the last row.
pub open spec fn spec_terminal_constraints_ext() -> Seq<MPolynomial> {
    seq![
        permutation_terminal_constraint(),
        evaluation_terminal_constraint(),
    ]
}

/// The constraints on the last row.
pub fn terminal_constraints_ext() -> (r: Vec<MPolynomial>)
    ensures
        r@ == spec_terminal_constraints_ext(),
        constraints_fit(r@, 22),
{
    let mut out: Vec<MPolynomial> = Vec::new();
    out.push(permutation_terminal_constraint());
    out.push(evaluation_terminal_constraint());
    assert(out@ =~= spec_terminal_constraints_ext());
    out
}

/// The running product and sum of the instruction table at a row.
pub struct InstructionRunning {
    pub permutation: XValue,
    pub evaluation: XValue,
}

/// A row as one element: `a * address + b * ci + c * ni`.
pub open spec fn weigh(challenges: Seq<XValue>, row: Seq<int>) -> XValue {
    x_add(
        x_add(
            x_mul(challenges[CHALLENGE_A as int], x_lift(row[ADDRESS as int])),
            x_mul(challenges[CHALLENGE_B as int], x_lift(row[CURRENT_INSTRUCTION as int])),
        ),
        x_mul(challenges[CHALLENGE_C as int], x_lift(row[NEXT_INSTRUCTION as int])),
    )
}

/// The running product and sum at row `i`, that row included. The first
/// row of an address is a word of the program, which the sum takes up;
/// every further row of that address is an instruction executed, which the
/// product takes up. The product starts at its initial.
pub open spec fn state_at(
    matrix: Seq<Seq<int>>,
    challenges: Seq<XValue>,
    initials: Seq<XValue>,
    i: nat,
) -> InstructionRunning
    decreases i,
{
    if i == 0 {
        InstructionRunning { permutation: initials[0], evaluation: weigh(challenges, matrix[0]) }
    } else {
        let before = state_at(matrix, challenges, initials, (i - 1) as nat);
        let row = matrix[i as int];
        if row[ADDRESS as int] == matrix[i - 1][ADDRESS as int] {
            InstructionRunning {
                permutation: x_mul(
                    before.permutation,
                    x_sub(challenges[CHALLENGE_ALPHA as int], weigh(challenges, row)),
                ),
                evaluation: before.evaluation,
            }
        } else {
            InstructionRunning {
                permutation: before.permutation,
                evaluation: x_add(
                    x_mul(before.evaluation, challenges[CHALLENGE_ETA as int]),
                    weigh(challenges, row),
                ),
            }
        }
    }
}

/// Row `i` of the extended table: the row, then the running product and
/// sum at it.
pub open spec fn extended_row(
    matrix: Seq<Seq<int>>,
    challenges: Seq<XValue>,
    initials: Seq<XValue>,
    i: int,
) -> Seq<XValue> {
    let state = state_at(matrix, challenges, initials, i as nat);
    lifted(matrix[i]) + seq![state.permutation, state.evaluation]
}

/// The terminals of the table: the running product and sum at the last
/// row, and the initial and zero for a table without rows.
pub open spec fn terminals_of(
    matrix: Seq<Seq<int>>,
    challenges: Seq<XValue>,
    initials: Seq<XValue>,
) -> InstructionRunning {
    if matrix.len() == 0 {
        InstructionRunning { permutation: initials[0], evaluation: x_zero() }
    } else {
        state_at(matrix, challenges, initials, (matrix.len() - 1) as nat)
    }
}

/// What only the instruction table has: the terminals of its two arguments.
#[derive(Debug, Clone, Copy)]
pub struct InstructionTableMore {
    pub permutation_terminal: XFieldElement,
    pub evaluation_terminal: XFieldElement,
}

/// The table of instructions.
#[derive(Debug, Clone)]
pub struct InstructionTable(pub Table<InstructionTableMore>);

/// A row as one element: `a * address + b * ci + c * ni`.
fn weigh_row(challenges: &[XFieldElement; 11], row: &Vec<BFieldElement>) -> (r: XFieldElement)
    requires
        row.len() == BASE_WIDTH,
    ensures
        r@ == weigh(x_array_values(*challenges), values(row@)),
{
    challenges[CHALLENGE_A].mul(row[ADDRESS].lift()).add(
        challenges[CHALLENGE_B].mul(row[CURRENT_INSTRUCTION].lift()),
    ).add(challenges[CHALLENGE_C].mul(row[NEXT_INSTRUCTION].lift()))
}

impl InstructionTable {
    /// The invariant of the table, with the widths of an instruction table.
    pub open spec fn well_formed(&self) -> bool {
        &&& self.0.well_formed()
        &&& self.0.base_width == BASE_WIDTH
        &&& self.0.full_width == FULL_WIDTH
    }

    /// The degree of the interpolants of the columns.
    pub open spec fn degree(&self) -> int {
        self.0.height + self.0.num_randomizers - 1
    }

    /// An empty instruction table for a trace of `length` rows.
    pub fn new(
        length: usize,
        num_randomizers: usize,
        generator: BFieldElement,
        order: usize,
    ) -> (r: Self)
        requires
            length <= MAX_HEIGHT,
            num_randomizers <= MAX_HEIGHT,
        ensures
            r.well_formed(),
            r.0.length == length,
            r.0.num_randomizers == num_randomizers,
            length == 0 ==> r.0.height == 0,
            length > 0 ==> length <= r.0.height < 2 * length,
            r.0.matrix.len() == 0,
    {
        let zero = XFieldElement::ring_zero();
        let more = InstructionTableMore { permutation_terminal: zero, evaluation_terminal: zero };
        InstructionTable(
            Table::new(BASE_WIDTH, FULL_WIDTH, length, num_randomizers, generator, order, more),
        )
    }

    pub fn base_width(&self) -> (r: usize)
        ensures
            r == self.0.base_width,
    {
        self.0.base_width
    }

    pub fn full_width(&self) -> (r: usize)
        ensures
            r == self.0.full_width,
    {
        self.0.full_width
    }

    pub fn height(&self) -> (r: usize)
        ensures
            r == self.0.height,
    {
        self.0.height
    }

    pub fn omicron(&self) -> (r: BFieldElement)
        ensures
            r == self.0.omicron,
    {
        self.0.omicron
    }

    /// The degree of the interpolants of the columns.
    pub fn interpolant_degree(&self) -> (r: Degree)
        requires
            self.well_formed(),
        ensures
            r == self.degree(),
    {
        self.0.interpolant_degree()
    }

    /// The largest degree that the quotient of a constraint on the trace can
    /// have.
    pub fn max_degree(&self) -> (r: Degree)
        requires
            self.well_formed(),
        ensures
            r == max_of(
                transition_bounds(
                    spec_base_transition_constraints(3),
                    3,
                    self.degree(),
                    0,
                    self.0.height as int,
                ),
            ),
    {
        let constraints = base_transition_constraints(3);
        max_degree_for(&self.0, &constraints)
    }

    /// The bounds on the degrees of all quotients of the table. They depend
    /// on the dimensions of the table alone, not on the challenges, the
    /// terminals or the rows.
    pub fn all_quotient_degree_bounds(
        &self,
        challenges: [XFieldElement; 11],
        terminals: [XFieldElement; 5],
    ) -> (r: Vec<Degree>)
        requires
            self.well_formed(),
        ensures
            degree_values(r@) == quotient_bounds_spec(
                spec_boundary_constraints_ext(),
                spec_transition_constraints_ext(),
                spec_terminal_constraints_ext(),
                5,
                self.degree(),
                17,
                self.0.height as int,
            ),
    {
        let boundary = boundary_constraints_ext();
        let transition = transition_constraints_ext();
        let terminal = terminal_constraints_ext();
        quotient_degree_bounds_for(&self.0, &boundary, &transition, &terminal, PARAMETER_COUNT)
    }

    /// Whether the rows of the extended table meet the constraints of its
    /// kind, with the given challenges and terminals.
    pub open spec fn meets_constraints(
        &self,
        challenges: [XFieldElement; 11],
        terminals: [XFieldElement; 5],
    ) -> bool {
        trace_meets(
            spec_boundary_constraints_ext(),
            spec_transition_constraints_ext(),
            spec_terminal_constraints_ext(),
            x_matrix_values(self.0.extended_matrix@),
            parameters_spec(x_array_values(challenges), x_array_values(terminals), x_one()),
        )
    }

    /// Whether the rows of the extended table meet the constraints of its
    /// kind.
    pub fn check_constraints(
        &self,
        challenges: [XFieldElement; 11],
        terminals: [XFieldElement; 5],
    ) -> (r: bool)
        requires
            self.well_formed(),
            self.0.is_extended(),
        ensures
            r == self.meets_constraints(challenges, terminals),
    {
        let boundary = boundary_constraints_ext();
        let transition = transition_constraints_ext();
        let terminal = terminal_constraints_ext();
        let parameters = parameters_of(&challenges, &terminals, XFieldElement::ring_one());
        rows_meet_constraints(
            &self.0.extended_matrix,
            &parameters,
            &boundary,
            &transition,
            &terminal,
            FULL_WIDTH,
        )
    }

    /// All quotients of the table over `fri_domain`, from the codewords of
    /// all its columns.
    pub fn all_quotients(
        &self,
        fri_domain: &FriDomain,
        codewords: &Vec<Vec<XFieldElement>>,
        challenges: [XFieldElement; 11],
        terminals: [XFieldElement; 5],
    ) -> (r: Result<Vec<Vec<XFieldElement>>, TableError>)
        requires
            self.well_formed(),
        ensures
            r == Err::<Vec<Vec<XFieldElement>>, TableError>(TableError::ShapeMismatch)
                <==> !codewords_shaped(codewords@, 5, fri_domain.length as nat),
            r == Err::<Vec<Vec<XFieldElement>>, TableError>(TableError::ZerofierVanishes) <==> (
            codewords_shaped(codewords@, 5, fri_domain.length as nat) && !zerofiers_invertible(
                fri_domain.points(),
                self.0.omicron@,
                self.0.height as nat,
            )),
            r is Err ==> (r->Err_0 == TableError::ShapeMismatch || r->Err_0
                == TableError::ZerofierVanishes),
            r is Ok ==> {
                &&& r->Ok_0.len() == 9
                &&& forall|k: int|
                    0 <= k < r->Ok_0.len() ==> (#[trigger] r->Ok_0[k]).len() == fri_domain.length
                &&& x_matrix_values(r->Ok_0@) == quotients_spec(
                    spec_boundary_constraints_ext(),
                    spec_transition_constraints_ext(),
                    spec_terminal_constraints_ext(),
                    x_matrix_values(codewords@),
                    parameters_spec(
                        x_array_values(challenges),
                        x_array_values(terminals),
                        x_one(),
                    ),
                    fri_domain.points(),
                    self.0.omicron@,
                    self.0.height as nat,
                )
            },
    {
        let boundary = boundary_constraints_ext();
        let transition = transition_constraints_ext();
        let terminal = terminal_constraints_ext();
        let parameters = parameters_of(&challenges, &terminals, XFieldElement::ring_one());
        let r = quotients_of(
            fri_domain,
            codewords,
            &parameters,
            &boundary,
            &transition,
            &terminal,
            FULL_WIDTH,
            self.0.omicron,
            self.0.height,
        );
        proof {
            if r is Ok {
                assert(x_matrix_values(r->Ok_0@).len() == 9);
            }
        }
        r
    }

    /// Fills the matrix up to the height of the table: each new row holds
    /// the address after the last and no instruction.
    pub fn pad(&mut self)
        requires
            old(self).well_formed(),
        ensures
            final(self).0.padded_from(&old(self).0, PaddingRule::AdvanceAddress),
            final(self).well_formed(),
    {
        self.0.pad_matrix(PaddingRule::AdvanceAddress);
    }

    /// Whether this table is `before` after its extension with the given
    /// challenges and initials.
    pub open spec fn extended_from(
        &self,
        before: &Self,
        all_challenges: [XFieldElement; 11],
        all_initials: [XFieldElement; 2],
    ) -> bool {
        &&& self.well_formed()
        &&& before.0.same_but_extension(&self.0)
        &&& self.0.extended_matrix.len() == before.0.matrix.len()
        &&& forall|i: int|
            0 <= i < before.0.matrix.len() ==> {
                &&& (#[trigger] self.0.extended_matrix[i]).len() == FULL_WIDTH
                &&& x_values(self.0.extended_matrix[i]@) == extended_row(
                    matrix_values(before.0.matrix@),
                    x_array_values(all_challenges),
                    x_array_values(all_initials),
                    i,
                )
            }
        &&& ({
            let last = terminals_of(
                matrix_values(before.0.matrix@),
                x_array_values(all_challenges),
                x_array_values(all_initials),
            );
            &&& self.0.more.permutation_terminal@ == last.permutation
            &&& self.0.more.evaluation_terminal@ == last.evaluation
        })
        &&& before.0.is_padded() ==> self.0.is_extended()
    }

    /// Extends the table: each row gets the running product and sum at it,
    /// and the table their values at the last row as its terminals.
    #[verifier::rlimit(40)]
    pub fn extend(
        &mut self,
        all_challenges: [XFieldElement; 11],
        all_initials: [XFieldElement; 2],
    )
        requires
            old(self).well_formed(),
        ensures
            final(self).extended_from(old(self), all_challenges, all_initials),
    {
        let ghost m = matrix_values(self.0.matrix@);
        let ghost ch = x_array_values(all_challenges);
        let ghost init = x_array_values(all_initials);
        let n = self.0.matrix.len();
        let mut extended: Vec<Vec<XFieldElement>> = Vec::new();
        let mut permutation = all_initials[0];
        let mut evaluation = XFieldElement::ring_zero();
        let mut i: usize = 0;
        while i < n
            invariant
                i <= n,
                n == self.0.matrix.len(),
                *self == *old(self),
                self.well_formed(),
                m == matrix_values(self.0.matrix@),
                ch == x_array_values(all_challenges),
                init == x_array_values(all_initials),
                extended.len() == i,
                i == 0 ==> permutation@ == init[0] && evaluation@ == x_zero(),
                i > 0 ==> permutation@ == state_at(m, ch, init, (i - 1) as nat).permutation,
                i > 0 ==> evaluation@ == state_at(m, ch, init, (i - 1) as nat).evaluation,
                forall|j: int|
                    0 <= j < i ==> {
                        &&& (#[trigger] extended[j]).len() == FULL_WIDTH
                        &&& x_values(extended[j]@) == extended_row(m, ch, init, j)
                    },
            decreases n - i,
        {
            let row = &self.0.matrix[i];
            assert(row.len() == BASE_WIDTH);
            assert(m[i as int] == values(row@));
            let weight = weigh_row(&all_challenges, row);
            if i == 0 {
                evaluation = weight;
            } else {
                let before = &self.0.matrix[i - 1];
                assert(before.len() == BASE_WIDTH);
                assert(m[i - 1] == values(before@));
                if row[ADDRESS] == before[ADDRESS] {
                    permutation = permutation.mul(all_challenges[CHALLENGE_ALPHA].sub(weight));
                } else {
                    evaluation = evaluation.mul(all_challenges[CHALLENGE_ETA]).add(weight);
                }
            }
            assert(permutation@ == state_at(m, ch, init, i as nat).permutation);
            assert(evaluation@ == state_at(m, ch, init, i as nat).evaluation);
            let mut new_row = lift_codeword(row);
            new_row.push(permutation);
            new_row.push(evaluation);
            assert(x_values(new_row@) =~= extended_row(m, ch, init, i as int));
            extended.push(new_row);
            i = i + 1;
        }
        self.0.extended_matrix = extended;
        self.0.more = InstructionTableMore {
            permutation_terminal: permutation,
            evaluation_terminal: evaluation,
        };
    }
}

} // verus!
