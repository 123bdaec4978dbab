//! The table of memory accesses: the cycle, memory pointer and memory
//! value of every row of the processor, ordered by memory pointer and then
//! by cycle. It shows that a memory cell keeps its value between two
//! accesses.

use crate::shared_math::b_field_element::BFieldElement;
use crate::shared_math::b_field_element::values;
use crate::shared_math::fri_domain::FriDomain;
use crate::shared_math::mpolynomial::constant;
use crate::shared_math::mpolynomial::Degree;
use crate::shared_math::mpolynomial::degree_values;
use crate::shared_math::mpolynomial::difference;
use crate::shared_math::mpolynomial::MPolynomial;
use crate::shared_math::mpolynomial::offset;
use crate::shared_math::mpolynomial::product;
use crate::shared_math::mpolynomial::variable;
use crate::shared_math::mpolynomial::x_values;
use crate::shared_math::stark::brainfuck::stark::challenge;
use crate::shared_math::stark::brainfuck::stark::CHALLENGE_BETA;
use crate::shared_math::stark::brainfuck::stark::CHALLENGE_D;
use crate::shared_math::stark::brainfuck::stark::CHALLENGE_E;
use crate::shared_math::stark::brainfuck::stark::CHALLENGE_F;
use crate::shared_math::stark::brainfuck::stark::compress;
use crate::shared_math::stark::brainfuck::stark::compress_row;
use crate::shared_math::stark::brainfuck::stark::PARAMETER_COUNT;
use crate::shared_math::stark::brainfuck::stark::parameters_of;
use crate::shared_math::stark::brainfuck::stark::parameters_spec;
use crate::shared_math::stark::brainfuck::stark::terminal;
use crate::shared_math::stark::brainfuck::stark::TERMINAL_MEMORY_PERMUTATION;
use crate::shared_math::stark::brainfuck::stark::x_array_values;
use crate::shared_math::stark::quotient::codewords_shaped;
use crate::shared_math::stark::quotient::constraints_fit;
use crate::shared_math::stark::quotient::max_degree_for;
use crate::shared_math::stark::quotient::max_of;
use crate::shared_math::stark::quotient::quotient_bounds_spec;
use crate::shared_math::stark::quotient::quotient_degree_bounds_for;
use crate::shared_math::stark::quotient::quotients_of;
use crate::shared_math::stark::quotient::quotients_spec;
use crate::shared_math::stark::quotient::rows_meet_constraints;
use crate::shared_math::stark::quotient::trace_meets;
use crate::shared_math::stark::quotient::transition_bounds;
use crate::shared_math::stark::quotient::zerofiers_invertible;
use crate::shared_math::stark::table::lift_codeword;
use crate::shared_math::stark::table::lifted;
use crate::shared_math::stark::table::matrix_values;
use crate::shared_math::stark::table::MAX_HEIGHT;
use crate::shared_math::stark::table::PaddingRule;
use crate::shared_math::stark::table::Table;
use crate::shared_math::stark::table::TableError;
use crate::shared_math::stark::table::x_matrix_values;
use crate::shared_math::x_field_element::x_mul;
use crate::shared_math::x_field_element::x_one;
use crate::shared_math::x_field_element::XFieldElement;
use crate::shared_math::x_field_element::XValue;
use vstd::prelude::*;
use vstd::seq_lib::*;

verus! {

/// The number of columns that the trace fills.
pub const BASE_WIDTH: usize = 3;

/// The number of columns after extension.
pub const FULL_WIDTH: usize = 4;

/// The column of the cycle count.
pub const CYCLE: usize = 0;

/// The column of the memory pointer.
pub const MEMORY_POINTER: usize = 1;

/// The column of the memory value.
pub const MEMORY_VALUE: usize = 2;

/// The column of the running product over the memory accesses.
pub const PERMUTATION: usize = 3;

/// The change of the memory pointer: `mp' - mp`.
pub open spec fn spec_pointer_change(next: usize) -> MPolynomial {
    difference(variable(offset(next, MEMORY_POINTER)), variable(MEMORY_POINTER))
}

/// The change of the memory pointer: `mp' - mp`.
#[verifier::when_used_as_spec(spec_pointer_change)]
pub fn pointer_change(next: usize) -> (r: MPolynomial)
    requires
        next <= 16,
    ensures
        r == spec_pointer_change(next),
        r.variable_count() <= next + 3,
        r.total_degree() <= 1,
{
    difference(variable(offset(next, MEMORY_POINTER)), variable(MEMORY_POINTER))
}

/// Zero where the memory pointer grows by one: `mp' - mp - 1`.
pub open spec fn spec_same_pointer(next: usize) -> MPolynomial {
    difference(pointer_change(next), constant(1))
}

/// Zero where the memory pointer grows by one: `mp' - mp - 1`.
#[verifier::when_used_as_spec(spec_same_pointer)]
pub fn same_pointer(next: usize) -> (r: MPolynomial)
    requires
        next <= 16,
    ensures
        r == spec_same_pointer(next),
        r.variable_count() <= next + 3,
        r.total_degree() <= 1,
{
    difference(pointer_change(next), constant(1))
}

/// The memory pointer stays or grows by one.
pub open spec fn spec_pointer_constraint(next: usize) -> MPolynomial {
    product(same_pointer(next), pointer_change(next))
}

/// The memory pointer stays or grows by one.
#[verifier::when_used_as_spec(spec_pointer_constraint)]
pub fn pointer_constraint(next: usize) -> (r: MPolynomial)
    requires
        next <= 16,
    ensures
        r == spec_pointer_constraint(next),
        r.variable_count() <= next + 3,
        r.total_degree() <= 2,
{
    product(same_pointer(next), pointer_change(next))
}

/// Where the memory pointer stays and the cycle count does not grow by
/// one, the memory value stays: only the instruction of the cycle before
/// can have changed it.
pub open spec fn spec_value_constraint(next: usize) -> MPolynomial {
    product(product(same_pointer(next), difference(variable(offset(next, MEMORY_VALUE)), variable(MEMORY_VALUE))), difference(difference(variable(offset(next, CYCLE)), variable(CYCLE)), constant(1)))
}

/// Where the memory pointer stays and the cycle count does not grow by
/// one, the memory value stays: only the instruction of the cycle before
/// can have changed it.
#[verifier::when_used_as_spec(spec_value_constraint)]
pub fn value_constraint(next: usize) -> (r: MPolynomial)
    requires
        next <= 16,
    ensures
        r == spec_value_constraint(next),
        r.variable_count() <= next + 3,
        r.total_degree() <= 3,
{
    product(product(same_pointer(next), difference(variable(offset(next, MEMORY_VALUE)), variable(MEMORY_VALUE))), difference(difference(variable(offset(next, CYCLE)), variable(CYCLE)), constant(1)))
}

/// Where the memory pointer grows, the new cell holds zero.
pub open spec fn spec_fresh_cell_constraint(next: usize) -> MPolynomial {
    product(pointer_change(next), variable(offset(next, MEMORY_VALUE)))
}

/// Where the memory pointer grows, the new cell holds zero.
#[verifier::when_used_as_spec(spec_fresh_cell_constraint)]
pub fn fresh_cell_constraint(next: usize) -> (r: MPolynomial)
    requires
        next <= 16,
    ensures
        r == spec_fresh_cell_constraint(next),
        r.variable_count() <= next + 3,
        r.total_degree() <= 2,
{
    product(pointer_change(next), variable(offset(next, MEMORY_VALUE)))
}

/// The access of a row as the factor of a running product:
/// `beta - d * cycle - e * mp - f * mv`.
pub open spec fn spec_compressed_access(base: usize) -> MPolynomial {
    difference(difference(difference(challenge(base, CHALLENGE_BETA), product(challenge(base, CHALLENGE_D), variable(CYCLE))), product(challenge(base, CHALLENGE_E), variable(MEMORY_POINTER))), product(challenge(base, CHALLENGE_F), variable(MEMORY_VALUE)))
}

/// The access of a row as the factor of a running product:
/// `beta - d * cycle - e * mp - f * mv`.
#[verifier::when_used_as_spec(spec_compressed_access)]
pub fn compressed_access(base: usize) -> (r: MPolynomial)
    requires
        4 <= base <= 64,
    ensures
        r == spec_compressed_access(base),
        r.variable_count() <= base + PARAMETER_COUNT,
        r.total_degree() <= 2,
{
    difference(difference(difference(challenge(base, CHALLENGE_BETA), product(challenge(base, CHALLENGE_D), variable(CYCLE))), product(challenge(base, CHALLENGE_E), variable(MEMORY_POINTER))), product(challenge(base, CHALLENGE_F), variable(MEMORY_VALUE)))
}

/// The running product takes up the access of the row.
pub open spec fn spec_permutation_constraint(next: usize, base: usize) -> MPolynomial {
    difference(product(variable(PERMUTATION), compressed_access(base)), variable(offset(next, PERMUTATION)))
}

/// The running product takes up the access of the row.
#[verifier::when_used_as_spec(spec_permutation_constraint)]
pub fn permutation_constraint(next: usize, base: usize) -> (r: MPolynomial)
    requires
        next == 4,
        base == 8,
    ensures
        r == spec_permutation_constraint(next, base),
        r.variable_count() <= base + PARAMETER_COUNT,
        r.total_degree() <= 3,
{
    difference(product(variable(PERMUTATION), compressed_access(base)), variable(offset(next, PERMUTATION)))
}

/// The constraints between two consecutive rows of the trace, the second
/// row starting at variable `next`.
pub open spec fn spec_base_transition_constraints(next: usize) -> Seq<MPolynomial> {
    seq![
        pointer_constraint(next),
        value_constraint(next),
        fresh_cell_constraint(next),
    ]
}

/// The constraints between two consecutive rows of the trace, the second
/// row starting at variable `next`.
pub fn base_transition_constraints(next: usize) -> (r: Vec<MPolynomial>)
    requires
        next <= 16,
    ensures
        r@ == spec_base_transition_constraints(next),
        constraints_fit(r@, (next + 3) as nat),
{
    let mut out: Vec<MPolynomial> = Vec::new();
    out.push(pointer_constraint(next));
    out.push(value_constraint(next));
    out.push(fresh_cell_constraint(next));
    assert(out@ =~= spec_base_transition_constraints(next));
    out
}

/// The constraints between two consecutive rows of the extended table.
pub open spec fn spec_transition_constraints_ext() -> Seq<MPolynomial> {
    seq![
        pointer_constraint(4),
        value_constraint(4),
        fresh_cell_constraint(4),
        permutation_constraint(4, 8),
    ]
}

/// The constraints between two consecutive rows of the extended table.
pub fn transition_constraints_ext() -> (r: Vec<MPolynomial>)
    ensures
        r@ == spec_transition_constraints_ext(),
        constraints_fit(r@, 25),
{
    let mut out: Vec<MPolynomial> = Vec::new();
    out.push(pointer_constraint(4));
    out.push(value_constraint(4));
    out.push(fresh_cell_constraint(4));
    out.push(permutation_constraint(4, 8));
    assert(out@ =~= spec_transition_constraints_ext());
    out
}

/// The column starts at zero.
pub open spec fn spec_starts_at_zero(column: usize) -> MPolynomial {
    variable(column)
}

/// The column starts at zero.
#[verifier::when_used_as_spec(spec_starts_at_zero)]
pub fn starts_at_zero(column: usize) -> (r: MPolynomial)
    requires
        column < 4,
    ensures
        r == spec_starts_at_zero(column),
        r.variable_count() <= 4,
        r.total_degree() <= 1,
{
    variable(column)
}

/// The constraints on the first row: the first access is at cycle zero, to
/// the cell at zero, which holds zero.
pub open spec fn spec_boundary_constraints_ext() -> Seq<MPolynomial> {
    seq![
        starts_at_zero(CYCLE),
        starts_at_zero(MEMORY_POINTER),
        starts_at_zero(MEMORY_VALUE),
    ]
}

/// The constraints on the first row: the first access is at cycle zero, to
/// the cell at zero, which holds zero.
pub fn boundary_constraints_ext() -> (r: Vec<MPolynomial>)
    ensures
        r@ == spec_boundary_constraints_ext(),
        constraints_fit(r@, 21),
{
    let mut out: Vec<MPolynomial> = Vec::new();
    out.push(starts_at_zero(CYCLE));
    out.push(starts_at_zero(MEMORY_POINTER));
    out.push(starts_at_zero(MEMORY_VALUE));
    assert(out@ =~= spec_boundary_constraints_ext());
    out
}

/// The running product, with the access of the last row taken up, is the
/// terminal.
pub open spec fn spec_permutation_terminal_constraint() -> MPolynomial {
    difference(product(variable(PERMUTATION), compressed_access(4)), terminal(4, TERMINAL_MEMORY_PERMUTATION))
}

/// The running product, with the access of the last row taken up, is the
/// terminal.
#[verifier::when_used_as_spec(spec_permutation_terminal_constraint)]
pub fn permutation_terminal_constraint() -> (r: MPolynomial)
    ensures
        r == spec_permutation_terminal_constraint(),
        r.variable_count() <= 21,
        r.total_degree() <= 3,
{
    difference(product(variable(PERMUTATION), compressed_access(4)), terminal(4, TERMINAL_MEMORY_PERMUTATION))
}

/// The constraint on the last row.
pub open spec fn spec_terminal_constraints_ext() -> Seq<MPolynomial> {
    seq![
        permutation_terminal_constraint(),
    ]
}

/// The constraint on the last row.
pub fn terminal_constraints_ext() -> (r: Vec<MPolynomial>)
    ensures
        r@ == spec_terminal_constraints_ext(),
        constraints_fit(r@, 21),
{
    let mut out: Vec<MPolynomial> = Vec::new();
    out.push(permutation_terminal_constraint());
    assert(out@ =~= spec_terminal_constraints_ext());
    out
}

/// One memory access: which cell held what at which cycle.
pub struct MemoryAccess {
    pub cycle: int,
    pub memory_pointer: int,
    pub memory_value: int,
}

/// The memory accesses of the rows of a processor table.
pub open spec fn processor_accesses(m: Seq<Seq<int>>) -> Seq<MemoryAccess> {
    Seq::new(
        m.len(),
        |i: int| MemoryAccess { cycle: m[i][0], memory_pointer: m[i][4], memory_value: m[i][5] },
    )
}

/// The memory accesses of the rows of a memory table.
pub open spec fn memory_accesses(m: Seq<Seq<int>>) -> Seq<MemoryAccess> {
    Seq::new(
        m.len(),
        |i: int| MemoryAccess { cycle: m[i][0], memory_pointer: m[i][1], memory_value: m[i][2] },
    )
}

/// Whether access `a` may stand before access `b`: its cell comes first, or
/// it is to the same cell and not later.
pub open spec fn precedes(a: MemoryAccess, b: MemoryAccess) -> bool {
    a.memory_pointer < b.memory_pointer || (a.memory_pointer == b.memory_pointer && a.cycle
        <= b.cycle)
}

/// Whether the accesses are ordered by memory pointer and then by cycle.
pub open spec fn ordered(s: Seq<MemoryAccess>) -> bool {
    forall|i: int, j: int| 0 <= i < j < s.len() ==> precedes(#[trigger] s[i], #[trigger] s[j])
}

/// The running product before row `i`: it starts at its initial and takes
/// up every row.
pub open spec fn running(
    matrix: Seq<Seq<int>>,
    challenges: Seq<XValue>,
    initials: Seq<XValue>,
    i: nat,
) -> XValue
    decreases i,
{
    if i == 0 {
        initials[1]
    } else {
        let row = matrix[i - 1];
        x_mul(
            running(matrix, challenges, initials, (i - 1) as nat),
            compress(
                challenges[CHALLENGE_BETA as int],
                challenges[CHALLENGE_D as int],
                challenges[CHALLENGE_E as int],
                challenges[CHALLENGE_F as int],
                row[CYCLE as int],
                row[MEMORY_POINTER as int],
                row[MEMORY_VALUE as int],
            ),
        )
    }
}

/// Row `i` of the extended table: the row, then the running product before
/// it.
pub open spec fn extended_row(
    matrix: Seq<Seq<int>>,
    challenges: Seq<XValue>,
    initials: Seq<XValue>,
    i: int,
) -> Seq<XValue> {
    lifted(matrix[i]) + seq![running(matrix, challenges, initials, i as nat)]
}

/// What only the memory table has: the terminal of its argument.
#[derive(Debug, Clone, Copy)]
pub struct MemoryTableMore {
    pub permutation_terminal: XFieldElement,
}

/// The table of memory accesses.
#[derive(Debug, Clone)]
pub struct MemoryTable(pub Table<MemoryTableMore>);

/// Whether the access `(cycle, pointer, ..)` may stand before the access in
/// `row`.
fn row_precedes(row: &Vec<BFieldElement>, cycle: BFieldElement, pointer: BFieldElement) -> (r:
    bool)
    requires
        row.len() == BASE_WIDTH,
    ensures
        r == (row[1]@ < pointer@ || (row[1]@ == pointer@ && row[0]@ <= cycle@)),
{
    let p = row[MEMORY_POINTER].value();
    let q = pointer.value();
    p < q || (p == q && row[CYCLE].value() <= cycle.value())
}

impl MemoryTable {
    /// The invariant of the table, with the widths of a memory table.
    pub open spec fn well_formed(&self) -> bool {
        &&& self.0.well_formed()
        &&& self.0.base_width == BASE_WIDTH
        &&& self.0.full_width == FULL_WIDTH
    }

    /// The degree of the interpolants of the columns.
    pub open spec fn degree(&self) -> int {
        self.0.height + self.0.num_randomizers - 1
    }

    /// An empty memory table for a trace of `length` rows.
    pub fn new(
        length: usize,
        num_randomizers: usize,
        generator: BFieldElement,
        order: usize,
    ) -> (r: Self)
        requires
            length <= MAX_HEIGHT,
            num_randomizers <= MAX_HEIGHT,
        ensures
            r.well_formed(),
            r.0.length == length,
            r.0.num_randomizers == num_randomizers,
            length == 0 ==> r.0.height == 0,
            length > 0 ==> length <= r.0.height < 2 * length,
            r.0.matrix.len() == 0,
    {
        let more = MemoryTableMore { permutation_terminal: XFieldElement::ring_zero() };
        MemoryTable(
            Table::new(BASE_WIDTH, FULL_WIDTH, length, num_randomizers, generator, order, more),
        )
    }

    /// The rows of the memory table that belongs to a processor table: the
    /// cycle, memory pointer and memory value of each row of the processor,
    /// ordered by memory pointer and then by cycle.
    pub fn derive_matrix(processor_matrix: Vec<Vec<BFieldElement>>) -> (r: Vec<
        Vec<BFieldElement>,
    >)
        requires
            forall|i: int|
                0 <= i < processor_matrix.len() ==> (#[trigger] processor_matrix[i]).len() == 7,
        ensures
            r.len() == processor_matrix.len(),
            forall|i: int| 0 <= i < r.len() ==> (#[trigger] r[i]).len() == BASE_WIDTH,
            ordered(memory_accesses(matrix_values(r@))),
            memory_accesses(matrix_values(r@)).to_multiset() == processor_accesses(
                matrix_values(processor_matrix@),
            ).to_multiset(),
    {
        let ghost source = processor_accesses(matrix_values(processor_matrix@));
        let mut out: Vec<Vec<BFieldElement>> = Vec::new();
        let mut k: usize = 0;
        proof {
            assert(source.subrange(0, 0) =~= Seq::<MemoryAccess>::empty());
            assert(memory_accesses(matrix_values(out@)) =~= Seq::<MemoryAccess>::empty());
        }
        while k < processor_matrix.len()
            invariant
                k <= processor_matrix.len(),
                forall|i: int|
                    0 <= i < processor_matrix.len() ==> (#[trigger] processor_matrix[i]).len()
                        == 7,
                source == processor_accesses(matrix_values(processor_matrix@)),
                out.len() == k,
                forall|i: int| 0 <= i < out.len() ==> (#[trigger] out[i]).len() == BASE_WIDTH,
                ordered(memory_accesses(matrix_values(out@))),
                memory_accesses(matrix_values(out@)).to_multiset() == source.subrange(
                    0,
                    k as int,
                ).to_multiset(),
            decreases processor_matrix.len() - k,
        {
            let row = &processor_matrix[k];
            assert(row.len() == 7);
            let cycle = row[0];
            let pointer = row[4];
            let value = row[5];
            let ghost access = MemoryAccess {
                cycle: cycle@,
                memory_pointer: pointer@,
                memory_value: value@,
            };
            assert(source[k as int] == access);
            let ghost before = memory_accesses(matrix_values(out@));
            let mut position: usize = 0;
            let mut searching = true;
            while searching && position < out.len()
                invariant
                    position <= out.len(),
                    before == memory_accesses(matrix_values(out@)),
                    forall|i: int| 0 <= i < out.len() ==> (#[trigger] out[i]).len() == BASE_WIDTH,
                    access.cycle == cycle@,
                    access.memory_pointer == pointer@,
                    forall|i: int| 0 <= i < position ==> precedes(#[trigger] before[i], access),
                    !searching ==> position < out.len() && !precedes(
                        before[position as int],
                        access,
                    ),
                decreases out.len() - position + (if searching { 1int } else { 0int }),
            {
                assert(out[position as int].len() == BASE_WIDTH);
                if row_precedes(&out[position], cycle, pointer) {
                    position = position + 1;
                } else {
                    searching = false;
                }
            }
            let mut new_row: Vec<BFieldElement> = Vec::new();
            new_row.push(cycle);
            new_row.push(pointer);
            new_row.push(value);
            out.insert(position, new_row);
            proof {
                let after = memory_accesses(matrix_values(out@));
                assert(after =~= before.insert(position as int, access));
                to_multiset_insert(before, position as int, access);
                assert(source.subrange(0, k + 1) =~= source.subrange(0, k as int).push(access));
                to_multiset_build(source.subrange(0, k as int), access);
                assert forall|i: int, j: int| 0 <= i < j < after.len() implies precedes(
                    #[trigger] after[i],
                    #[trigger] after[j],
                ) by {
                    if j < position {
                        assert(after[i] == before[i] && after[j] == before[j]);
                    } else if j == position {
                        assert(after[i] == before[i]);
                    } else if i < position {
                        assert(after[i] == before[i] && after[j] == before[j - 1]);
                    } else if i == position {
                        assert(after[j] == before[j - 1]);
                        assert(position < before.len());
                        if j - 1 > position {
                            assert(precedes(before[position as int], before[j - 1]));
                        }
                    } else {
                        assert(after[i] == before[i - 1] && after[j] == before[j - 1]);
                    }
                }
            }
            k = k + 1;
        }
        proof {
            assert(source.subrange(0, k as int) =~= source);
        }
        out
    }

    pub fn base_width(&self) -> (r: usize)
        ensures
            r == self.0.base_width,
    {
        self.0.base_width
    }

    pub fn full_width(&self) -> (r: usize)
        ensures
            r == self.0.full_width,
    {
        self.0.full_width
    }

    pub fn height(&self) -> (r: usize)
        ensures
            r == self.0.height,
    {
        self.0.height
    }

    pub fn omicron(&self) -> (r: BFieldElement)
        ensures
            r == self.0.omicron,
    {
        self.0.omicron
    }

    /// The degree of the interpolants of the columns.
    pub fn interpolant_degree(&self) -> (r: Degree)
        requires
            self.well_formed(),
        ensures
            r == self.degree(),
    {
        self.0.interpolant_degree()
    }

    /// The largest degree that the quotient of a constraint on the trace can
    /// have.
    pub fn max_degree(&self) -> (r: Degree)
        requires
            self.well_formed(),
        ensures
            r == max_of(
                transition_bounds(
                    spec_base_transition_constraints(3),
                    3,
                    self.degree(),
                    0,
                    self.0.height as int,
                ),
            ),
    {
        let constraints = base_transition_constraints(3);
        max_degree_for(&self.0, &constraints)
    }

    /// The bounds on the degrees of all quotients of the table. They depend
    /// on the dimensions of the table alone, not on the challenges, the
    /// terminals or the rows.
    pub fn all_quotient_degree_bounds(
        &self,
        challenges: [XFieldElement; 11],
        terminals: [XFieldElement; 5],
    ) -> (r: Vec<Degree>)
        requires
            self.well_formed(),
        ensures
            degree_values(r@) == quotient_bounds_spec(
                spec_boundary_constraints_ext(),
                spec_transition_constraints_ext(),
                spec_terminal_constraints_ext(),
                4,
                self.degree(),
                17,
                self.0.height as int,
            ),
    {
        let boundary = boundary_constraints_ext();
        let transition = transition_constraints_ext();
        let terminal = terminal_constraints_ext();
        quotient_degree_bounds_for(&self.0, &boundary, &transition, &terminal, PARAMETER_COUNT)
    }

    /// Whether the rows of the extended table meet the constraints of its
    /// kind, with the given challenges and terminals.
    pub open spec fn meets_constraints(
        &self,
        challenges: [XFieldElement; 11],
        terminals: [XFieldElement; 5],
    ) -> bool {
        trace_meets(
            spec_boundary_constraints_ext(),
            spec_transition_constraints_ext(),
            spec_terminal_constraints_ext(),
            x_matrix_values(self.0.extended_matrix@),
            parameters_spec(x_array_values(challenges), x_array_values(terminals), x_one()),
        )
    }

    /// Whether the rows of the extended table meet the constraints of its
    /// kind.
    pub fn check_constraints(
        &self,
        challenges: [XFieldElement; 11],
        terminals: [XFieldElement; 5],
    ) -> (r: bool)
        requires
            self.well_formed(),
            self.0.is_extended(),
        ensures
            r == self.meets_constraints(challenges, terminals),
    {
        let boundary = boundary_constraints_ext();
        let transition = transition_constraints_ext();
        let terminal = terminal_constraints_ext();
        let parameters = parameters_of(&challenges, &terminals, XFieldElement::ring_one());
        rows_meet_constraints(
            &self.0.extended_matrix,
            &parameters,
            &boundary,
            &transition,
            &terminal,
            FULL_WIDTH,
        )
    }

    /// All quotients of the table over `fri_domain`, from the codewords of
    /// all its columns.
    pub fn all_quotients(
        &self,
        fri_domain: &FriDomain,
        codewords: &Vec<Vec<XFieldElement>>,
        challenges: [XFieldElement; 11],
        terminals: [XFieldElement; 5],
    ) -> (r: Result<Vec<Vec<XFieldElement>>, TableError>)
        requires
            self.well_formed(),
        ensures
            r == Err::<Vec<Vec<XFieldElement>>, TableError>(TableError::ShapeMismatch)
                <==> !codewords_shaped(codewords@, 4, fri_domain.length as nat),
            r == Err::<Vec<Vec<XFieldElement>>, TableError>(TableError::ZerofierVanishes) <==> (
            codewords_shaped(codewords@, 4, fri_domain.length as nat) && !zerofiers_invertible(
                fri_domain.points(),
                self.0.omicron@,
                self.0.height as nat,
            )),
            r is Err ==> (r->Err_0 == TableError::ShapeMismatch || r->Err_0
                == TableError::ZerofierVanishes),
            r is Ok ==> {
                &&& r->Ok_0.len() == 8
                &&& forall|k: int|
                    0 <= k < r->Ok_0.len() ==> (#[trigger] r->Ok_0[k]).len() == fri_domain.length
                &&& x_matrix_values(r->Ok_0@) == quotients_spec(
                    spec_boundary_constraints_ext(),
                    spec_transition_constraints_ext(),
                    spec_terminal_constraints_ext(),
                    x_matrix_values(codewords@),
                    parameters_spec(
                        x_array_values(challenges),
                        x_array_values(terminals),
                        x_one(),
                    ),
                    fri_domain.points(),
                    self.0.omicron@,
                    self.0.height as nat,
                )
            },
    {
        let boundary = boundary_constraints_ext();
        let transition = transition_constraints_ext();
        let terminal = terminal_constraints_ext();
        let parameters = parameters_of(&challenges, &terminals, XFieldElement::ring_one());
        let r = quotients_of(
            fri_domain,
            codewords,
            &parameters,
            &boundary,
            &transition,
            &terminal,
            FULL_WIDTH,
            self.0.omicron,
            self.0.height,
        );
        proof {
            if r is Ok {
                assert(x_matrix_values(r->Ok_0@).len() == 8);
            }
        }
        r
    }

    /// Fills the matrix up to the height of the table with copies of the
    /// last row. The rows derived from a padded processor table need none.
    pub fn pad(&mut self)
        requires
            old(self).well_formed(),
        ensures
            final(self).0.padded_from(&old(self).0, PaddingRule::ReplicateLastRow),
            final(self).well_formed(),
    {
        self.0.pad_matrix(PaddingRule::ReplicateLastRow);
    }

    /// Whether this table is `before` after its extension with the given
    /// challenges and initials.
    pub open spec fn extended_from(
        &self,
        before: &Self,
        all_challenges: [XFieldElement; 11],
        all_initials: [XFieldElement; 2],
    ) -> bool {
        &&& self.well_formed()
        &&& before.0.same_but_extension(&self.0)
        &&& self.0.extended_matrix.len() == before.0.matrix.len()
        &&& forall|i: int|
            0 <= i < before.0.matrix.len() ==> {
                &&& (#[trigger] self.0.extended_matrix[i]).len() == FULL_WIDTH
                &&& x_values(self.0.extended_matrix[i]@) == extended_row(
                    matrix_values(before.0.matrix@),
                    x_array_values(all_challenges),
                    x_array_values(all_initials),
                    i,
                )
            }
        &&& self.0.more.permutation_terminal@ == running(
            matrix_values(before.0.matrix@),
            x_array_values(all_challenges),
            x_array_values(all_initials),
            before.0.matrix.len() as nat,
        )
        &&& before.0.is_padded() ==> self.0.is_extended()
    }

    /// Extends the table: each row gets the running product before it, and
    /// the table its value after the last row as its terminal.
    pub fn extend(
        &mut self,
        all_challenges: [XFieldElement; 11],
        all_initials: [XFieldElement; 2],
    )
        requires
            old(self).well_formed(),
        ensures
            final(self).extended_from(old(self), all_challenges, all_initials),
    {
        let ghost m = matrix_values(self.0.matrix@);
        let ghost ch = x_array_values(all_challenges);
        let ghost init = x_array_values(all_initials);
        let n = self.0.matrix.len();
        let mut extended: Vec<Vec<XFieldElement>> = Vec::new();
        let mut permutation = all_initials[1];
        let mut i: usize = 0;
        while i < n
            invariant
                i <= n,
                n == self.0.matrix.len(),
                *self == *old(self),
                self.well_formed(),
                m == matrix_values(self.0.matrix@),
                ch == x_array_values(all_challenges),
                init == x_array_values(all_initials),
                extended.len() == i,
                permutation@ == running(m, ch, init, i as nat),
                forall|j: int|
                    0 <= j < i ==> {
                        &&& (#[trigger] extended[j]).len() == FULL_WIDTH
                        &&& x_values(extended[j]@) == extended_row(m, ch, init, j)
                    },
            decreases n - i,
        {
            let row = &self.0.matrix[i];
            assert(row.len() == BASE_WIDTH);
            assert(m[i as int] == values(row@));
            let mut new_row = lift_codeword(row);
            new_row.push(permutation);
            assert(x_values(new_row@) =~= extended_row(m, ch, init, i as int));
            permutation = permutation.mul(
                compress_row(
                    all_challenges[CHALLENGE_BETA],
                    all_challenges[CHALLENGE_D],
                    all_challenges[CHALLENGE_E],
                    all_challenges[CHALLENGE_F],
                    row[CYCLE],
                    row[MEMORY_POINTER],
                    row[MEMORY_VALUE],
                ),
            );
            extended.push(new_row);
            i = i + 1;
        }
        self.0.extended_matrix = extended;
        self.0.more = MemoryTableMore { permutation_terminal: permutation };
    }
}

} // verus!
