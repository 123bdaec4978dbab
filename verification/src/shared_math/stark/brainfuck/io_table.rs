//! The tables of input and output: one row per symbol read or written.

use crate::shared_math::b_field_element::BFieldElement;
use crate::shared_math::b_field_element::values;
use crate::shared_math::fri_domain::FriDomain;
use crate::shared_math::mpolynomial::Degree;
use crate::shared_math::mpolynomial::degree_values;
use crate::shared_math::mpolynomial::difference;
use crate::shared_math::mpolynomial::MPolynomial;
use crate::shared_math::mpolynomial::product;
use crate::shared_math::mpolynomial::sum;
use crate::shared_math::mpolynomial::variable;
use crate::shared_math::mpolynomial::x_values;
use crate::shared_math::stark::brainfuck::stark::challenge;
use crate::shared_math::stark::brainfuck::stark::CHALLENGE_DELTA;
use crate::shared_math::stark::brainfuck::stark::CHALLENGE_GAMMA;
use crate::shared_math::stark::brainfuck::stark::padding_factor;
use crate::shared_math::stark::brainfuck::stark::PARAMETER_COUNT;
use crate::shared_math::stark::brainfuck::stark::parameters_of;
use crate::shared_math::stark::brainfuck::stark::parameters_spec;
use crate::shared_math::stark::brainfuck::stark::terminal;
use crate::shared_math::stark::brainfuck::stark::TERMINAL_INPUT_EVALUATION;
use crate::shared_math::stark::brainfuck::stark::TERMINAL_OUTPUT_EVALUATION;
use crate::shared_math::stark::brainfuck::stark::x_array_values;
use crate::shared_math::stark::quotient::codewords_shaped;
use crate::shared_math::stark::quotient::constraints_fit;
use crate::shared_math::stark::quotient::quotient_bounds_spec;
use crate::shared_math::stark::quotient::quotient_degree_bounds_for;
use crate::shared_math::stark::quotient::quotients_of;
use crate::shared_math::stark::quotient::quotients_spec;
use crate::shared_math::stark::quotient::rows_meet_constraints;
use crate::shared_math::stark::quotient::trace_meets;
use crate::shared_math::stark::quotient::zerofiers_invertible;
use crate::shared_math::stark::table::lift_codeword;
use crate::shared_math::stark::table::lifted;
use crate::shared_math::stark::table::matrix_values;
use crate::shared_math::stark::table::MAX_HEIGHT;
use crate::shared_math::stark::table::PaddingRule;
use crate::shared_math::stark::table::Table;
use crate::shared_math::stark::table::TableError;
use crate::shared_math::stark::table::x_matrix_values;
use crate::shared_math::x_field_element::x_add;
use crate::shared_math::x_field_element::x_lift;
use crate::shared_math::x_field_element::x_mul;
use crate::shared_math::x_field_element::x_one;
use crate::shared_math::x_field_element::x_zero;
use crate::shared_math::x_field_element::XFieldElement;
use crate::shared_math::x_field_element::XValue;
use vstd::prelude::*;

verus! {

/// The number of columns that the trace fills.
pub const BASE_WIDTH: usize = 1;

/// The number of columns after extension.
pub const FULL_WIDTH: usize = 2;

/// The column of the symbols.
pub const COLUMN: usize = 0;

/// The column of the running sum over the symbols.
pub const EVALUATION: usize = 1;

/// The running sum takes up the symbol of the next row:
/// `evaluation' - iota * evaluation - symbol'`, with the challenge of the
/// table for `iota`.
pub open spec fn spec_evaluation_constraint(challenge_index: usize) -> MPolynomial {
    difference(difference(variable(3), product(challenge(4, challenge_index), variable(EVALUATION))), variable(2))
}

/// The running sum takes up the symbol of the next row:
/// `evaluation' - iota * evaluation - symbol'`, with the challenge of the
/// table for `iota`.
#[verifier::when_used_as_spec(spec_evaluation_constraint)]
pub fn evaluation_constraint(challenge_index: usize) -> (r: MPolynomial)
    requires
        challenge_index < 11,
    ensures
        r == spec_evaluation_constraint(challenge_index),
        r.variable_count() <= 21,
        r.total_degree() <= 2,
{
    difference(difference(variable(3), product(challenge(4, challenge_index), variable(EVALUATION))), variable(2))
}

/// The constraint between two consecutive rows of the extended table.
pub open spec fn spec_transition_constraints_ext(challenge_index: usize) -> Seq<MPolynomial> {
    seq![
        evaluation_constraint(challenge_index),
    ]
}

/// The constraint between two consecutive rows of the extended table.
pub fn transition_constraints_ext(challenge_index: usize) -> (r: Vec<MPolynomial>)
    requires
        challenge_index < 11,
    ensures
        r@ == spec_transition_constraints_ext(challenge_index),
        constraints_fit(r@, 21),
{
    let mut out: Vec<MPolynomial> = Vec::new();
    out.push(evaluation_constraint(challenge_index));
    assert(out@ =~= spec_transition_constraints_ext(challenge_index));
    out
}

/// The running sum starts at the first symbol.
pub open spec fn spec_first_evaluation_constraint() -> MPolynomial {
    difference(variable(EVALUATION), variable(COLUMN))
}

/// The running sum starts at the first symbol.
#[verifier::when_used_as_spec(spec_first_evaluation_constraint)]
pub fn first_evaluation_constraint() -> (r: MPolynomial)
    ensures
        r == spec_first_evaluation_constraint(),
        r.variable_count() <= 2,
        r.total_degree() <= 1,
{
    difference(variable(EVALUATION), variable(COLUMN))
}

/// The constraint on the first row.
pub open spec fn spec_boundary_constraints_ext() -> Seq<MPolynomial> {
    seq![
        first_evaluation_constraint(),
    ]
}

/// The constraint on the first row.
pub fn boundary_constraints_ext() -> (r: Vec<MPolynomial>)
    ensures
        r@ == spec_boundary_constraints_ext(),
        constraints_fit(r@, 19),
{
    let mut out: Vec<MPolynomial> = Vec::new();
    out.push(first_evaluation_constraint());
    assert(out@ =~= spec_boundary_constraints_ext());
    out
}

/// The running sum ends at the terminal of the table times the padding
/// factor: each row that padding added has multiplied the sum by the
/// challenge once more.
pub open spec fn spec_evaluation_terminal_constraint(terminal_index: usize) -> MPolynomial {
    difference(variable(EVALUATION), product(terminal(2, terminal_index), padding_factor(2)))
}

/// The running sum ends at the terminal of the table times the padding
/// factor: each row that padding added has multiplied the sum by the
/// challenge once more.
#[verifier::when_used_as_spec(spec_evaluation_terminal_constraint)]
pub fn evaluation_terminal_constraint(terminal_index: usize) -> (r: MPolynomial)
    requires
        terminal_index < 5,
    ensures
        r == spec_evaluation_terminal_constraint(terminal_index),
        r.variable_count() <= 19,
        r.total_degree() <= 2,
{
    difference(variable(EVALUATION), product(terminal(2, terminal_index), padding_factor(2)))
}

/// The constraint on the last row.
pub open spec fn spec_terminal_constraints_ext(terminal_index: usize) -> Seq<MPolynomial> {
    seq![
        evaluation_terminal_constraint(terminal_index),
    ]
}

/// The constraint on the last row.
pub fn terminal_constraints_ext(terminal_index: usize) -> (r: Vec<MPolynomial>)
    requires
        terminal_index < 5,
    ensures
        r@ == spec_terminal_constraints_ext(terminal_index),
        constraints_fit(r@, 19),
{
    let mut out: Vec<MPolynomial> = Vec::new();
    out.push(evaluation_terminal_constraint(terminal_index));
    assert(out@ =~= spec_terminal_constraints_ext(terminal_index));
    out
}

/// `base` raised to the power `n` in the extension field.
pub open spec fn x_pow(base: XValue, n: nat) -> XValue
    decreases n,
{
    if n == 0 {
        x_one()
    } else {
        x_mul(x_pow(base, (n - 1) as nat), base)
    }
}

/// The running sum at row `i`, that row included: the sum before it times
/// the challenge, plus the symbol of the row.
pub open spec fn state_at(matrix: Seq<Seq<int>>, iota: XValue, i: nat) -> XValue
    decreases i,
{
    if i == 0 {
        x_lift(matrix[0][COLUMN as int])
    } else {
        x_add(
            x_mul(state_at(matrix, iota, (i - 1) as nat), iota),
            x_lift(matrix[i as int][COLUMN as int]),
        )
    }
}

/// Row `i` of the extended table: the symbol, then the running sum at it.
pub open spec fn extended_row(matrix: Seq<Seq<int>>, iota: XValue, i: int) -> Seq<XValue> {
    lifted(matrix[i]) + seq![state_at(matrix, iota, i as nat)]
}

/// The terminal of the table: the running sum at the last row that the
/// trace filled, and zero where it filled none.
pub open spec fn terminal_of(matrix: Seq<Seq<int>>, iota: XValue, length: nat) -> XValue {
    if 0 < length <= matrix.len() {
        state_at(matrix, iota, (length - 1) as nat)
    } else {
        x_zero()
    }
}

/// The number of rows that padding adds to a table.
pub open spec fn padding_rows(length: nat, height: nat) -> nat {
    if height >= length {
        (height - length) as nat
    } else {
        0
    }
}

/// What only a table of input or output has: which challenge and which
/// terminal are its own, and the terminal of its argument.
#[derive(Debug, Clone, Copy)]
pub struct IOTableMore {
    pub challenge_index: usize,
    pub terminal_index: usize,
    pub evaluation_terminal: XFieldElement,
}

/// A table of input or output.
#[derive(Debug, Clone)]
pub struct IOTable(pub Table<IOTableMore>);

impl IOTable {
    /// The invariant of the table, with the widths of a table of input or
    /// output.
    pub open spec fn well_formed(&self) -> bool {
        &&& self.0.well_formed()
        &&& self.0.base_width == BASE_WIDTH
        &&& self.0.full_width == FULL_WIDTH
        &&& self.0.more.challenge_index < 11
        &&& self.0.more.terminal_index < 5
    }

    /// The degree of the interpolants of the columns.
    pub open spec fn degree(&self) -> int {
        self.0.height + self.0.num_randomizers - 1
    }

    /// An empty table for `length` symbols of input. Its columns carry no
    /// random values: input and output are public.
    pub fn new_input_table(length: usize, generator: BFieldElement, order: usize) -> (r: Self)
        requires
            length <= MAX_HEIGHT,
        ensures
            r.well_formed(),
            r.0.length == length,
            r.0.num_randomizers == 0,
            r.0.more.challenge_index == CHALLENGE_GAMMA,
            r.0.more.terminal_index == TERMINAL_INPUT_EVALUATION,
            length == 0 ==> r.0.height == 0,
            length > 0 ==> length <= r.0.height < 2 * length,
            r.0.matrix.len() == 0,
    {
        let more = IOTableMore {
            challenge_index: CHALLENGE_GAMMA,
            terminal_index: TERMINAL_INPUT_EVALUATION,
            evaluation_terminal: XFieldElement::ring_zero(),
        };
        IOTable(Table::new(BASE_WIDTH, FULL_WIDTH, length, 0, generator, order, more))
    }

    /// An empty table for `length` symbols of output.
    pub fn new_output_table(length: usize, generator: BFieldElement, order: usize) -> (r: Self)
        requires
            length <= MAX_HEIGHT,
        ensures
            r.well_formed(),
            r.0.length == length,
            r.0.num_randomizers == 0,
            r.0.more.challenge_index == CHALLENGE_DELTA,
            r.0.more.terminal_index == TERMINAL_OUTPUT_EVALUATION,
            length == 0 ==> r.0.height == 0,
            length > 0 ==> length <= r.0.height < 2 * length,
            r.0.matrix.len() == 0,
    {
        let more = IOTableMore {
            challenge_index: CHALLENGE_DELTA,
            terminal_index: TERMINAL_OUTPUT_EVALUATION,
            evaluation_terminal: XFieldElement::ring_zero(),
        };
        IOTable(Table::new(BASE_WIDTH, FULL_WIDTH, length, 0, generator, order, more))
    }

    pub fn base_width(&self) -> (r: usize)
        ensures
            r == self.0.base_width,
    {
        self.0.base_width
    }

    pub fn full_width(&self) -> (r: usize)
        ensures
            r == self.0.full_width,
    {
        self.0.full_width
    }

    pub fn height(&self) -> (r: usize)
        ensures
            r == self.0.height,
    {
        self.0.height
    }

    pub fn omicron(&self) -> (r: BFieldElement)
        ensures
            r == self.0.omicron,
    {
        self.0.omicron
    }

    /// The degree of the interpolants of the columns.
    pub fn interpolant_degree(&self) -> (r: Degree)
        requires
            self.well_formed(),
        ensures
            r == self.degree(),
    {
        self.0.interpolant_degree()
    }

    /// The largest degree that the quotient of a constraint on the trace can
    /// have: -1, for the symbols themselves are under no constraint.
    pub fn max_degree(&self) -> (r: Degree)
        ensures
            r == -1,
    {
        -1
    }

    /// The challenge of the table raised to the number of rows that padding
    /// adds.
    pub fn padding_factor_of(&self, challenges: &[XFieldElement; 11]) -> (r: XFieldElement)
        requires
            self.well_formed(),
        ensures
            r@ == x_pow(
                challenges[self.0.more.challenge_index as int]@,
                padding_rows(self.0.length as nat, self.0.height as nat),
            ),
    {
        let iota = challenges[self.0.more.challenge_index];
        let mut factor = XFieldElement::ring_one();
        if self.0.height < self.0.length {
            return factor;
        }
        let rows = self.0.height - self.0.length;
        let mut k: usize = 0;
        while k < rows
            invariant
                k <= rows,
                factor@ == x_pow(iota@, k as nat),
            decreases rows - k,
        {
            factor = factor.mul(iota);
            k = k + 1;
        }
        factor
    }

    /// The bounds on the degrees of all quotients of the table. They depend
    /// on the dimensions of the table alone, not on the challenges, the
    /// terminals or the rows.
    pub fn all_quotient_degree_bounds(
        &self,
        challenges: [XFieldElement; 11],
        terminals: [XFieldElement; 5],
    ) -> (r: Vec<Degree>)
        requires
            self.well_formed(),
        ensures
            degree_values(r@) == quotient_bounds_spec(
                spec_boundary_constraints_ext(),
                spec_transition_constraints_ext(self.0.more.challenge_index),
                spec_terminal_constraints_ext(self.0.more.terminal_index),
                2,
                self.degree(),
                17,
                self.0.height as int,
            ),
    {
        let boundary = boundary_constraints_ext();
        let transition = transition_constraints_ext(self.0.more.challenge_index);
        let terminal = terminal_constraints_ext(self.0.more.terminal_index);
        quotient_degree_bounds_for(&self.0, &boundary, &transition, &terminal, PARAMETER_COUNT)
    }

    /// Whether the rows of the extended table meet the constraints of its
    /// kind, with the given challenges and terminals.
    pub open spec fn meets_constraints(
        &self,
        challenges: [XFieldElement; 11],
        terminals: [XFieldElement; 5],
    ) -> bool {
        trace_meets(
            spec_boundary_constraints_ext(),
            spec_transition_constraints_ext(self.0.more.challenge_index),
            spec_terminal_constraints_ext(self.0.more.terminal_index),
            x_matrix_values(self.0.extended_matrix@),
            parameters_spec(x_array_values(challenges), x_array_values(terminals), x_pow(
                challenges[self.0.more.challenge_index as int]@,
                padding_rows(self.0.length as nat, self.0.height as nat),
            )),
        )
    }

    /// Whether the rows of the extended table meet the constraints of its
    /// kind.
    pub fn check_constraints(
        &self,
        challenges: [XFieldElement; 11],
        terminals: [XFieldElement; 5],
    ) -> (r: bool)
        requires
            self.well_formed(),
            self.0.is_extended(),
        ensures
            r == self.meets_constraints(challenges, terminals),
    {
        let boundary = boundary_constraints_ext();
        let transition = transition_constraints_ext(self.0.more.challenge_index);
        let terminal = terminal_constraints_ext(self.0.more.terminal_index);
        let factor = self.padding_factor_of(&challenges);
        let parameters = parameters_of(&challenges, &terminals, factor);
        rows_meet_constraints(
            &self.0.extended_matrix,
            &parameters,
            &boundary,
            &transition,
            &terminal,
            FULL_WIDTH,
        )
    }

    /// All quotients of the table over `fri_domain`, from the codewords of
    /// both its columns.
    pub fn all_quotients(
        &self,
        fri_domain: &FriDomain,
        codewords: &Vec<Vec<XFieldElement>>,
        challenges: [XFieldElement; 11],
        terminals: [XFieldElement; 5],
    ) -> (r: Result<Vec<Vec<XFieldElement>>, TableError>)
        requires
            self.well_formed(),
        ensures
            r == Err::<Vec<Vec<XFieldElement>>, TableError>(TableError::ShapeMismatch)
                <==> !codewords_shaped(codewords@, 2, fri_domain.length as nat),
            r == Err::<Vec<Vec<XFieldElement>>, TableError>(TableError::ZerofierVanishes) <==> (
            codewords_shaped(codewords@, 2, fri_domain.length as nat) && !zerofiers_invertible(
                fri_domain.points(),
                self.0.omicron@,
                self.0.height as nat,
            )),
            r is Err ==> (r->Err_0 == TableError::ShapeMismatch || r->Err_0
                == TableError::ZerofierVanishes),
            r is Ok ==> {
                &&& r->Ok_0.len() == 3
                &&& forall|k: int|
                    0 <= k < r->Ok_0.len() ==> (#[trigger] r->Ok_0[k]).len() == fri_domain.length
                &&& x_matrix_values(r->Ok_0@) == quotients_spec(
                    spec_boundary_constraints_ext(),
                    spec_transition_constraints_ext(self.0.more.challenge_index),
                    spec_terminal_constraints_ext(self.0.more.terminal_index),
                    x_matrix_values(codewords@),
                    parameters_spec(
                        x_array_values(challenges),
                        x_array_values(terminals),
                        x_pow(
                            challenges[self.0.more.challenge_index as int]@,
                            padding_rows(self.0.length as nat, self.0.height as nat),
                        ),
                    ),
                    fri_domain.points(),
                    self.0.omicron@,
                    self.0.height as nat,
                )
            },
    {
        let boundary = boundary_constraints_ext();
        let transition = transition_constraints_ext(self.0.more.challenge_index);
        let terminal = terminal_constraints_ext(self.0.more.terminal_index);
        let factor = self.padding_factor_of(&challenges);
        let parameters = parameters_of(&challenges, &terminals, factor);
        let r = quotients_of(
            fri_domain,
            codewords,
            &parameters,
            &boundary,
            &transition,
            &terminal,
            FULL_WIDTH,
            self.0.omicron,
            self.0.height,
        );
        proof {
            if r is Ok {
                assert(x_matrix_values(r->Ok_0@).len() == 3);
            }
        }
        r
    }

    /// Fills the matrix up to the height of the table with zeros.
    pub fn pad(&mut self)
        requires
            old(self).well_formed(),
        ensures
            final(self).0.padded_from(&old(self).0, PaddingRule::ZeroMarker),
            final(self).well_formed(),
    {
        self.0.pad_matrix(PaddingRule::ZeroMarker);
    }

    /// Whether this table is `before` after its extension with the given
    /// challenges and initials.
    pub open spec fn extended_from(
        &self,
        before: &Self,
        all_challenges: [XFieldElement; 11],
        all_initials: [XFieldElement; 2],
    ) -> bool {
        &&& self.well_formed()
        &&& before.0.same_but_extension(&self.0)
        &&& self.0.more.challenge_index == before.0.more.challenge_index
        &&& self.0.more.terminal_index == before.0.more.terminal_index
        &&& self.0.extended_matrix.len() == before.0.matrix.len()
        &&& forall|i: int|
            0 <= i < before.0.matrix.len() ==> {
                &&& (#[trigger] self.0.extended_matrix[i]).len() == FULL_WIDTH
                &&& x_values(self.0.extended_matrix[i]@) == extended_row(
                    matrix_values(before.0.matrix@),
                    all_challenges[before.0.more.challenge_index as int]@,
                    i,
                )
            }
        &&& self.0.more.evaluation_terminal@ == terminal_of(
            matrix_values(before.0.matrix@),
            all_challenges[before.0.more.challenge_index as int]@,
            before.0.length as nat,
        )
        &&& before.0.is_padded() ==> self.0.is_extended()
    }

    /// Extends the table: each row gets the running sum at it, and the
    /// table the running sum at the last row that the trace filled as its
    /// terminal.
    pub fn extend(
        &mut self,
        all_challenges: [XFieldElement; 11],
        all_initials: [XFieldElement; 2],
    )
        requires
            old(self).well_formed(),
        ensures
            final(self).extended_from(old(self), all_challenges, all_initials),
    {
        let ghost m = matrix_values(self.0.matrix@);
        let iota = all_challenges[self.0.more.challenge_index];
        let n = self.0.matrix.len();
        let length = self.0.length;
        let mut extended: Vec<Vec<XFieldElement>> = Vec::new();
        let mut evaluation = XFieldElement::ring_zero();
        let mut terminal = XFieldElement::ring_zero();
        let mut i: usize = 0;
        while i < n
            invariant
                i <= n,
                n == self.0.matrix.len(),
                length == self.0.length,
                *self == *old(self),
                self.well_formed(),
                m == matrix_values(self.0.matrix@),
                iota == all_challenges[self.0.more.challenge_index as int],
                extended.len() == i,
                i > 0 ==> evaluation@ == state_at(m, iota@, (i - 1) as nat),
                0 < length <= i ==> terminal@ == state_at(m, iota@, (length - 1) as nat),
                !(0 < length <= i) ==> terminal@ == x_zero(),
                forall|j: int|
                    0 <= j < i ==> {
                        &&& (#[trigger] extended[j]).len() == FULL_WIDTH
                        &&& x_values(extended[j]@) == extended_row(m, iota@, j)
                    },
            decreases n - i,
        {
            let row = &self.0.matrix[i];
            assert(row.len() == BASE_WIDTH);
            assert(m[i as int] == values(row@));
            if i == 0 {
                evaluation = row[COLUMN].lift();
            } else {
                evaluation = evaluation.mul(iota).add(row[COLUMN].lift());
            }
            if i + 1 == length {
                terminal = evaluation;
            }
            let mut new_row = lift_codeword(row);
            new_row.push(evaluation);
            assert(x_values(new_row@) =~= extended_row(m, iota@, i as int));
            extended.push(new_row);
            i = i + 1;
        }
        self.0.extended_matrix = extended;
        self.0.more = IOTableMore {
            challenge_index: self.0.more.challenge_index,
            terminal_index: self.0.more.terminal_index,
            evaluation_terminal: terminal,
        };
    }
}

} // verus!
