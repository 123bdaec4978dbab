//! The five tables of one run of the machine, worked on as one
//! arithmetization. Their order is fixed: processor, instruction, memory,
//! input, output. Whatever is gathered from them is gathered in that order,
//! for a column is known by its place alone.

use crate::shared_math::b_field_element::BFieldElement;
use crate::shared_math::b_field_element::values;
use crate::shared_math::fri_domain::FriDomain;
use crate::shared_math::mpolynomial::Degree;
use crate::shared_math::mpolynomial::degree_values;
use crate::shared_math::other::concat_vecs;
use crate::shared_math::other::lemma_joined_five;
use crate::shared_math::stark::brainfuck::instruction_table;
use crate::shared_math::stark::brainfuck::instruction_table::InstructionTable;
use crate::shared_math::stark::brainfuck::io_table;
use crate::shared_math::stark::brainfuck::io_table::IOTable;
use crate::shared_math::stark::brainfuck::io_table::padding_rows;
use crate::shared_math::stark::brainfuck::io_table::x_pow;
use crate::shared_math::stark::brainfuck::memory_table;
use crate::shared_math::stark::brainfuck::memory_table::MemoryTable;
use crate::shared_math::stark::brainfuck::processor_table;
use crate::shared_math::stark::brainfuck::processor_table::lemma_max_degree_not_negative;
use crate::shared_math::stark::brainfuck::processor_table::ProcessorTable;
use crate::shared_math::stark::brainfuck::stark::parameters_spec;
use crate::shared_math::stark::brainfuck::stark::x_array_values;
use crate::shared_math::stark::brainfuck::vm::InstructionMatrixBaseRow;
use crate::shared_math::stark::brainfuck::vm::Register;
use crate::shared_math::stark::quotient::check_codewords;
use crate::shared_math::stark::quotient::max_of;
use crate::shared_math::stark::quotient::quotient_bounds_spec;
use crate::shared_math::stark::quotient::quotient_error;
use crate::shared_math::stark::quotient::quotients_spec;
use crate::shared_math::stark::quotient::transition_bounds;
use crate::shared_math::stark::table::lemma_holds_own_base_codewords;
use crate::shared_math::stark::table::lemma_holds_own_extension_codewords;
use crate::shared_math::stark::table::matrix_values;
use crate::shared_math::stark::table::PaddingRule;
use crate::shared_math::stark::table::Table;
use crate::shared_math::stark::table::TableError;
use crate::shared_math::stark::table::x_matrix_values;
use crate::shared_math::x_field_element::x_one;
use crate::shared_math::x_field_element::XFieldElement;
use crate::shared_math::x_field_element::XValue;
use vstd::prelude::*;

verus! {

/// The degree `d`, `n` times.
pub open spec fn repeated(d: int, n: nat) -> Seq<int> {
    Seq::new(n, |i: int| d)
}

/// The larger of two numbers.
pub open spec fn larger(a: int, b: int) -> int {
    if a >= b {
        a
    } else {
        b
    }
}

/// The first error among those of the five tables, in their order.
pub open spec fn first_error(
    processor: Option<TableError>,
    instruction: Option<TableError>,
    memory: Option<TableError>,
    input: Option<TableError>,
    output: Option<TableError>,
) -> Option<TableError> {
    if processor is Some {
        processor
    } else if instruction is Some {
        instruction
    } else if memory is Some {
        memory
    } else if input is Some {
        input
    } else {
        output
    }
}

/// The rows of a processor table that the given registers fill.
pub open spec fn register_rows(registers: Seq<Register>) -> Seq<Seq<int>> {
    Seq::new(registers.len(), |i: int| registers[i].row())
}

/// The rows of an instruction table that the given rows fill.
pub open spec fn instruction_rows(rows: Seq<InstructionMatrixBaseRow>) -> Seq<Seq<int>> {
    Seq::new(rows.len(), |i: int| rows[i].row())
}

/// The rows of a table of input or output that the given symbols fill.
pub open spec fn symbol_rows(symbols: Seq<BFieldElement>) -> Seq<Seq<int>> {
    Seq::new(symbols.len(), |i: int| seq![symbols[i]@])
}

/// The quotients of a table of input or output.
pub open spec fn io_quotients(
    table: IOTable,
    domain: FriDomain,
    challenges: [XFieldElement; 11],
    terminals: [XFieldElement; 5],
) -> Seq<Seq<XValue>> {
    quotients_spec(
        io_table::spec_boundary_constraints_ext(),
        io_table::spec_transition_constraints_ext(table.0.more.challenge_index),
        io_table::spec_terminal_constraints_ext(table.0.more.terminal_index),
        x_matrix_values(table.0.extended_codewords@),
        parameters_spec(
            x_array_values(challenges),
            x_array_values(terminals),
            x_pow(
                challenges[table.0.more.challenge_index as int]@,
                padding_rows(table.0.length as nat, table.0.height as nat),
            ),
        ),
        domain.points(),
        table.0.omicron@,
        table.0.height as nat,
    )
}

/// The bounds on the degrees of the quotients of a table of input or
/// output.
pub open spec fn io_quotient_bounds(table: IOTable) -> Seq<int> {
    quotient_bounds_spec(
        io_table::spec_boundary_constraints_ext(),
        io_table::spec_transition_constraints_ext(table.0.more.challenge_index),
        io_table::spec_terminal_constraints_ext(table.0.more.terminal_index),
        2,
        table.degree(),
        17,
        table.0.height as int,
    )
}

/// Why the quotients of a table cannot be computed from the codewords that
/// it holds, if they cannot.
pub open spec fn quotient_error_of<T>(table: Table<T>, domain: FriDomain) -> Option<TableError> {
    quotient_error(
        table.extended_codewords@,
        table.full_width as nat,
        domain.points(),
        table.omicron@,
        table.height as nat,
    )
}

/// The degree `d`, `n` times.
pub fn repeat_degree(d: Degree, n: usize) -> (r: Vec<Degree>)
    ensures
        degree_values(r@) == repeated(d as int, n as nat),
{
    let mut out: Vec<Degree> = Vec::new();
    let mut i: usize = 0;
    while i < n
        invariant
            i <= n,
            out.len() == i,
            forall|j: int| 0 <= j < i ==> out[j] == d,
        decreases n - i,
    {
        out.push(d);
        i = i + 1;
    }
    assert(degree_values(out@) =~= repeated(d as int, n as nat));
    out
}

/// The five lists of degrees one after the other.
fn join_degrees(
    a: Vec<Degree>,
    b: Vec<Degree>,
    c: Vec<Degree>,
    d: Vec<Degree>,
    e: Vec<Degree>,
) -> (r: Vec<Degree>)
    ensures
        degree_values(r@) == degree_values(a@) + degree_values(b@) + degree_values(c@)
            + degree_values(d@) + degree_values(e@),
{
    let mut parts: Vec<Vec<Degree>> = Vec::new();
    parts.push(a);
    parts.push(b);
    parts.push(c);
    parts.push(d);
    parts.push(e);
    proof {
        lemma_joined_five(parts@);
    }
    let r = concat_vecs(parts);
    assert(degree_values(r@) =~= degree_values(a@) + degree_values(b@) + degree_values(c@)
        + degree_values(d@) + degree_values(e@));
    r
}

/// One of the five tables, whatever its kind: what can be asked of any
/// table without knowing which it is.
#[derive(Debug, Clone, Copy)]
pub enum AnyTable<'a> {
    Processor(&'a ProcessorTable),
    Instruction(&'a InstructionTable),
    Memory(&'a MemoryTable),
    InputOutput(&'a IOTable),
}

impl<'a> AnyTable<'a> {
    /// Whether the table is well formed.
    pub open spec fn well_formed(&self) -> bool {
        match self {
            AnyTable::Processor(table) => table.well_formed(),
            AnyTable::Instruction(table) => table.well_formed(),
            AnyTable::Memory(table) => table.well_formed(),
            AnyTable::InputOutput(table) => table.well_formed(),
        }
    }

    /// The number of columns that the trace fills.
    pub open spec fn spec_base_width(&self) -> usize {
        match self {
            AnyTable::Processor(table) => table.0.base_width,
            AnyTable::Instruction(table) => table.0.base_width,
            AnyTable::Memory(table) => table.0.base_width,
            AnyTable::InputOutput(table) => table.0.base_width,
        }
    }

    /// The number of columns after extension.
    pub open spec fn spec_full_width(&self) -> usize {
        match self {
            AnyTable::Processor(table) => table.0.full_width,
            AnyTable::Instruction(table) => table.0.full_width,
            AnyTable::Memory(table) => table.0.full_width,
            AnyTable::InputOutput(table) => table.0.full_width,
        }
    }

    /// The degree of the interpolants of the columns.
    pub open spec fn degree(&self) -> int {
        match self {
            AnyTable::Processor(table) => table.degree(),
            AnyTable::Instruction(table) => table.degree(),
            AnyTable::Memory(table) => table.degree(),
            AnyTable::InputOutput(table) => table.degree(),
        }
    }

    /// The number of columns that the trace fills.
    pub fn base_width(&self) -> (r: usize)
        ensures
            r == self.spec_base_width(),
    {
        match self {
            AnyTable::Processor(table) => table.base_width(),
            AnyTable::Instruction(table) => table.base_width(),
            AnyTable::Memory(table) => table.base_width(),
            AnyTable::InputOutput(table) => table.base_width(),
        }
    }

    /// The number of columns after extension.
    pub fn full_width(&self) -> (r: usize)
        ensures
            r == self.spec_full_width(),
    {
        match self {
            AnyTable::Processor(table) => table.full_width(),
            AnyTable::Instruction(table) => table.full_width(),
            AnyTable::Memory(table) => table.full_width(),
            AnyTable::InputOutput(table) => table.full_width(),
        }
    }

    /// The degree of the interpolants of the columns.
    pub fn interpolant_degree(&self) -> (r: Degree)
        requires
            self.well_formed(),
        ensures
            r == self.degree(),
    {
        match self {
            AnyTable::Processor(table) => table.interpolant_degree(),
            AnyTable::Instruction(table) => table.interpolant_degree(),
            AnyTable::Memory(table) => table.interpolant_degree(),
            AnyTable::InputOutput(table) => table.interpolant_degree(),
        }
    }
}

/// The tables of one run of the machine.
#[derive(Debug, Clone)]
pub struct TableCollection {
    pub processor_table: ProcessorTable,
    pub instruction_table: InstructionTable,
    pub memory_table: MemoryTable,
    pub input_table: IOTable,
    pub output_table: IOTable,
}

impl TableCollection {
    /// Whether each of the five tables is well formed.
    pub open spec fn well_formed(&self) -> bool {
        &&& self.processor_table.well_formed()
        &&& self.instruction_table.well_formed()
        &&& self.memory_table.well_formed()
        &&& self.input_table.well_formed()
        &&& self.output_table.well_formed()
    }

    /// Whether each of the five tables has been padded.
    pub open spec fn is_padded(&self) -> bool {
        &&& self.processor_table.0.is_padded()
        &&& self.instruction_table.0.is_padded()
        &&& self.memory_table.0.is_padded()
        &&& self.input_table.0.is_padded()
        &&& self.output_table.0.is_padded()
    }

    /// Whether each of the five tables has been extended.
    pub open spec fn is_extended(&self) -> bool {
        &&& self.processor_table.0.is_extended()
        &&& self.instruction_table.0.is_extended()
        &&& self.memory_table.0.is_extended()
        &&& self.input_table.0.is_extended()
        &&& self.output_table.0.is_extended()
    }

    /// Whether `other` has tables of the same heights and with as many
    /// random values, and tables of input and output with the same
    /// challenges and terminals.
    pub open spec fn same_shape(&self, other: &Self) -> bool {
        &&& self.processor_table.0.height == other.processor_table.0.height
        &&& self.processor_table.0.num_randomizers == other.processor_table.0.num_randomizers
        &&& self.instruction_table.0.height == other.instruction_table.0.height
        &&& self.instruction_table.0.num_randomizers == other.instruction_table.0.num_randomizers
        &&& self.memory_table.0.height == other.memory_table.0.height
        &&& self.memory_table.0.num_randomizers == other.memory_table.0.num_randomizers
        &&& self.input_table.0.height == other.input_table.0.height
        &&& self.input_table.0.num_randomizers == other.input_table.0.num_randomizers
        &&& self.input_table.0.more.challenge_index == other.input_table.0.more.challenge_index
        &&& self.input_table.0.more.terminal_index == other.input_table.0.more.terminal_index
        &&& self.output_table.0.height == other.output_table.0.height
        &&& self.output_table.0.num_randomizers == other.output_table.0.num_randomizers
        &&& self.output_table.0.more.challenge_index == other.output_table.0.more.challenge_index
        &&& self.output_table.0.more.terminal_index == other.output_table.0.more.terminal_index
    }

    /// The largest degree that a quotient of a constraint on the traces can
    /// have: the largest of those of the five tables.
    pub open spec fn max_degree(&self) -> int {
        larger(
            larger(
                max_of(
                    transition_bounds(
                        processor_table::spec_base_transition_constraints(7),
                        7,
                        self.processor_table.degree(),
                        0,
                        self.processor_table.0.height as int,
                    ),
                ),
                max_of(
                    transition_bounds(
                        instruction_table::spec_base_transition_constraints(3),
                        3,
                        self.instruction_table.degree(),
                        0,
                        self.instruction_table.0.height as int,
                    ),
                ),
            ),
            larger(
                max_of(
                    transition_bounds(
                        memory_table::spec_base_transition_constraints(3),
                        3,
                        self.memory_table.degree(),
                        0,
                        self.memory_table.0.height as int,
                    ),
                ),
                -1,
            ),
        )
    }

    /// One bound per base column: the degree of the interpolants of its
    /// table.
    pub open spec fn base_degree_bounds(&self) -> Seq<int> {
        repeated(self.processor_table.degree(), 7) + repeated(self.instruction_table.degree(), 3)
            + repeated(self.memory_table.degree(), 3) + repeated(self.input_table.degree(), 1)
            + repeated(self.output_table.degree(), 1)
    }

    /// One bound per extension column: the degree of the interpolants of
    /// its table.
    pub open spec fn extension_degree_bounds(&self) -> Seq<int> {
        repeated(self.processor_table.degree(), 4) + repeated(self.instruction_table.degree(), 2)
            + repeated(self.memory_table.degree(), 1) + repeated(self.input_table.degree(), 1)
            + repeated(self.output_table.degree(), 1)
    }

    /// One bound per quotient.
    pub open spec fn quotient_degree_bounds(&self) -> Seq<int> {
        quotient_bounds_spec(
            processor_table::spec_boundary_constraints_ext(),
            processor_table::spec_transition_constraints_ext(),
            processor_table::spec_terminal_constraints_ext(),
            11,
            self.processor_table.degree(),
            17,
            self.processor_table.0.height as int,
        ) + quotient_bounds_spec(
            instruction_table::spec_boundary_constraints_ext(),
            instruction_table::spec_transition_constraints_ext(),
            instruction_table::spec_terminal_constraints_ext(),
            5,
            self.instruction_table.degree(),
            17,
            self.instruction_table.0.height as int,
        ) + quotient_bounds_spec(
            memory_table::spec_boundary_constraints_ext(),
            memory_table::spec_transition_constraints_ext(),
            memory_table::spec_terminal_constraints_ext(),
            4,
            self.memory_table.degree(),
            17,
            self.memory_table.0.height as int,
        ) + io_quotient_bounds(self.input_table) + io_quotient_bounds(self.output_table)
    }

    /// All quotients, from the codewords that the tables hold.
    pub open spec fn quotients(
        &self,
        domain: FriDomain,
        challenges: [XFieldElement; 11],
        terminals: [XFieldElement; 5],
    ) -> Seq<Seq<XValue>> {
        let parameters = parameters_spec(
            x_array_values(challenges),
            x_array_values(terminals),
            x_one(),
        );
        quotients_spec(
            processor_table::spec_boundary_constraints_ext(),
            processor_table::spec_transition_constraints_ext(),
            processor_table::spec_terminal_constraints_ext(),
            x_matrix_values(self.processor_table.0.extended_codewords@),
            parameters,
            domain.points(),
            self.processor_table.0.omicron@,
            self.processor_table.0.height as nat,
        ) + quotients_spec(
            instruction_table::spec_boundary_constraints_ext(),
            instruction_table::spec_transition_constraints_ext(),
            instruction_table::spec_terminal_constraints_ext(),
            x_matrix_values(self.instruction_table.0.extended_codewords@),
            parameters,
            domain.points(),
            self.instruction_table.0.omicron@,
            self.instruction_table.0.height as nat,
        ) + quotients_spec(
            memory_table::spec_boundary_constraints_ext(),
            memory_table::spec_transition_constraints_ext(),
            memory_table::spec_terminal_constraints_ext(),
            x_matrix_values(self.memory_table.0.extended_codewords@),
            parameters,
            domain.points(),
            self.memory_table.0.omicron@,
            self.memory_table.0.height as nat,
        ) + io_quotients(self.input_table, domain, challenges, terminals) + io_quotients(
            self.output_table,
            domain,
            challenges,
            terminals,
        )
    }

    /// Whether the rows of each extended table meet the constraints of its
    /// kind, with the given challenges and terminals.
    pub open spec fn meets_constraints(
        &self,
        challenges: [XFieldElement; 11],
        terminals: [XFieldElement; 5],
    ) -> bool {
        &&& self.processor_table.meets_constraints(challenges, terminals)
        &&& self.instruction_table.meets_constraints(challenges, terminals)
        &&& self.memory_table.meets_constraints(challenges, terminals)
        &&& self.input_table.meets_constraints(challenges, terminals)
        &&& self.output_table.meets_constraints(challenges, terminals)
    }

    /// Why the collection has no quotients over `domain`, if it has none:
    /// the codewords that the tables hold do not allow for them, or the
    /// tables have not been extended, or a row of a table violates a
    /// constraint.
    pub open spec fn quotient_error(
        &self,
        domain: FriDomain,
        challenges: [XFieldElement; 11],
        terminals: [XFieldElement; 5],
    ) -> Option<TableError> {
        if self.codeword_error(domain) is Some {
            self.codeword_error(domain)
        } else if !self.is_extended() {
            Some(TableError::ShapeMismatch)
        } else if !self.meets_constraints(challenges, terminals) {
            Some(TableError::ConstraintViolated)
        } else {
            None
        }
    }

    /// Why the quotients cannot be computed over `domain` from the codewords
    /// that the tables hold, if they cannot: the error of the first table
    /// that has one.
    pub open spec fn codeword_error(&self, domain: FriDomain) -> Option<TableError> {
        first_error(
            quotient_error_of(self.processor_table.0, domain),
            quotient_error_of(self.instruction_table.0, domain),
            quotient_error_of(self.memory_table.0, domain),
            quotient_error_of(self.input_table.0, domain),
            quotient_error_of(self.output_table.0, domain),
        )
    }

    /// Whether each table is the table of `before`, or that table with its
    /// base columns extended over `domain`: what holds of the tables whether
    /// the extension of all of them succeeded or stopped at one of them.
    pub open spec fn as_before_or_with_base_codewords(
        &self,
        before: &Self,
        domain: FriDomain,
    ) -> bool {
        &&& self.processor_table == before.processor_table || self.processor_table.0.holds_base_codewords(
            &before.processor_table.0,
            domain,
            self.processor_table.0.codewords@,
        )
        &&& self.instruction_table == before.instruction_table || self.instruction_table.0.holds_base_codewords(
            &before.instruction_table.0,
            domain,
            self.instruction_table.0.codewords@,
        )
        &&& self.memory_table == before.memory_table || self.memory_table.0.holds_base_codewords(
            &before.memory_table.0,
            domain,
            self.memory_table.0.codewords@,
        )
        &&& self.input_table == before.input_table || self.input_table.0.holds_base_codewords(
            &before.input_table.0,
            domain,
            self.input_table.0.codewords@,
        )
        &&& self.output_table == before.output_table || self.output_table.0.holds_base_codewords(
            &before.output_table.0,
            domain,
            self.output_table.0.codewords@,
        )
    }

    /// Whether each table is the table of `before`, or that table with the
    /// codewords of all its columns over `domain`.
    pub open spec fn as_before_or_with_extension_codewords(
        &self,
        before: &Self,
        domain: FriDomain,
    ) -> bool {
        &&& self.processor_table == before.processor_table || exists|codewords: Seq<Vec<XFieldElement>>| #[trigger]
            self.processor_table.0.holds_extension_codewords(&before.processor_table.0, domain, codewords)
        &&& self.instruction_table == before.instruction_table || exists|codewords: Seq<Vec<XFieldElement>>| #[trigger]
            self.instruction_table.0.holds_extension_codewords(&before.instruction_table.0, domain, codewords)
        &&& self.memory_table == before.memory_table || exists|codewords: Seq<Vec<XFieldElement>>| #[trigger]
            self.memory_table.0.holds_extension_codewords(&before.memory_table.0, domain, codewords)
        &&& self.input_table == before.input_table || exists|codewords: Seq<Vec<XFieldElement>>| #[trigger]
            self.input_table.0.holds_extension_codewords(&before.input_table.0, domain, codewords)
        &&& self.output_table == before.output_table || exists|codewords: Seq<Vec<XFieldElement>>| #[trigger]
            self.output_table.0.holds_extension_codewords(&before.output_table.0, domain, codewords)
    }

    /// The collection of the five given tables.
    pub fn new(
        processor_table: ProcessorTable,
        instruction_table: InstructionTable,
        memory_table: MemoryTable,
        input_table: IOTable,
        output_table: IOTable,
    ) -> (r: Self)
        ensures
            r.processor_table == processor_table,
            r.instruction_table == instruction_table,
            r.memory_table == memory_table,
            r.input_table == input_table,
            r.output_table == output_table,
    {
        Self { processor_table, instruction_table, memory_table, input_table, output_table }
    }

    /// The five tables in their order, each as a table of whatever kind.
    pub fn into_iter(&self) -> (r: [AnyTable<'_>; 5])
        ensures
            r[0] == AnyTable::Processor(&self.processor_table),
            r[1] == AnyTable::Instruction(&self.instruction_table),
            r[2] == AnyTable::Memory(&self.memory_table),
            r[3] == AnyTable::InputOutput(&self.input_table),
            r[4] == AnyTable::InputOutput(&self.output_table),
    {
        [
            AnyTable::Processor(&self.processor_table),
            AnyTable::Instruction(&self.instruction_table),
            AnyTable::Memory(&self.memory_table),
            AnyTable::InputOutput(&self.input_table),
            AnyTable::InputOutput(&self.output_table),
        ]
    }

    /// The codewords of all columns of the table at `index` in the order of
    /// the tables.
    pub fn get_table_codeword_by_index(&self, index: usize) -> (r: &Vec<Vec<XFieldElement>>)
        requires
            index < 5,
        ensures
            index == 0 ==> *r == self.processor_table.0.extended_codewords,
            index == 1 ==> *r == self.instruction_table.0.extended_codewords,
            index == 2 ==> *r == self.memory_table.0.extended_codewords,
            index == 3 ==> *r == self.input_table.0.extended_codewords,
            index == 4 ==> *r == self.output_table.0.extended_codewords,
    {
        if index == 0 {
            &self.processor_table.0.extended_codewords
        } else if index == 1 {
            &self.instruction_table.0.extended_codewords
        } else if index == 2 {
            &self.memory_table.0.extended_codewords
        } else if index == 3 {
            &self.input_table.0.extended_codewords
        } else {
            &self.output_table.0.extended_codewords
        }
    }

    /// The degree of the interpolants of the table at `index` in the order
    /// of the tables.
    pub fn get_table_interpolant_degree_by_index(&self, index: usize) -> (r: Degree)
        requires
            index < 5,
            self.well_formed(),
        ensures
            index == 0 ==> r == self.processor_table.degree(),
            index == 1 ==> r == self.instruction_table.degree(),
            index == 2 ==> r == self.memory_table.degree(),
            index == 3 ==> r == self.input_table.degree(),
            index == 4 ==> r == self.output_table.degree(),
    {
        if index == 0 {
            self.processor_table.interpolant_degree()
        } else if index == 1 {
            self.instruction_table.interpolant_degree()
        } else if index == 2 {
            self.memory_table.interpolant_degree()
        } else if index == 3 {
            self.input_table.interpolant_degree()
        } else {
            self.output_table.interpolant_degree()
        }
    }

    /// The largest degree that a quotient of a constraint on the traces can
    /// have. The size of the evaluation domain goes by it.
    pub fn get_max_degree(&self) -> (r: u64)
        requires
            self.well_formed(),
        ensures
            r == self.max_degree(),
    {
        let p = self.processor_table.max_degree();
        let i = self.instruction_table.max_degree();
        let m = self.memory_table.max_degree();
        let input = self.input_table.max_degree();
        let output = self.output_table.max_degree();
        proof {
            lemma_max_degree_not_negative(
                self.processor_table.degree(),
                self.processor_table.0.height as int,
            );
        }
        let mut best = p;
        if i > best {
            best = i;
        }
        if m > best {
            best = m;
        }
        if input > best {
            best = input;
        }
        if output > best {
            best = output;
        }
        best as u64
    }

    /// One bound per base column, in the order of the tables: the degree of
    /// the interpolants of its table.
    pub fn get_all_base_degree_bounds(&self) -> (r: Vec<Degree>)
        requires
            self.well_formed(),
        ensures
            degree_values(r@) == self.base_degree_bounds(),
    {
        let tables = self.into_iter();
        join_degrees(
            repeat_degree(tables[0].interpolant_degree(), tables[0].base_width()),
            repeat_degree(tables[1].interpolant_degree(), tables[1].base_width()),
            repeat_degree(tables[2].interpolant_degree(), tables[2].base_width()),
            repeat_degree(tables[3].interpolant_degree(), tables[3].base_width()),
            repeat_degree(tables[4].interpolant_degree(), tables[4].base_width()),
        )
    }

    /// One bound per extension column, in the order of the tables: the
    /// degree of the interpolants of its table.
    pub fn get_all_extension_degree_bounds(&self) -> (r: Vec<Degree>)
        requires
            self.well_formed(),
        ensures
            degree_values(r@) == self.extension_degree_bounds(),
    {
        let tables = self.into_iter();
        join_degrees(
            repeat_degree(
                tables[0].interpolant_degree(),
                tables[0].full_width() - tables[0].base_width(),
            ),
            repeat_degree(
                tables[1].interpolant_degree(),
                tables[1].full_width() - tables[1].base_width(),
            ),
            repeat_degree(
                tables[2].interpolant_degree(),
                tables[2].full_width() - tables[2].base_width(),
            ),
            repeat_degree(
                tables[3].interpolant_degree(),
                tables[3].full_width() - tables[3].base_width(),
            ),
            repeat_degree(
                tables[4].interpolant_degree(),
                tables[4].full_width() - tables[4].base_width(),
            ),
        )
    }

    /// Fills the tables of the processor, of the instructions, of the input
    /// and of the output with the rows of a trace. The memory table is
    /// derived from the processor table once that is padded.
    pub fn set_matrices(
        &mut self,
        processor_matrix: Vec<Register>,
        instruction_matrix: Vec<InstructionMatrixBaseRow>,
        input_matrix: Vec<BFieldElement>,
        output_matrix: Vec<BFieldElement>,
    )
        requires
            old(self).well_formed(),
        ensures
            final(self).well_formed(),
            final(self).memory_table == old(self).memory_table,
            old(self).processor_table.0.same_but_matrix(&final(self).processor_table.0),
            old(self).instruction_table.0.same_but_matrix(&final(self).instruction_table.0),
            old(self).input_table.0.same_but_matrix(&final(self).input_table.0),
            old(self).output_table.0.same_but_matrix(&final(self).output_table.0),
            matrix_values(final(self).processor_table.0.matrix@) == register_rows(
                processor_matrix@,
            ),
            matrix_values(final(self).instruction_table.0.matrix@) == instruction_rows(
                instruction_matrix@,
            ),
            matrix_values(final(self).input_table.0.matrix@) == symbol_rows(input_matrix@),
            matrix_values(final(self).output_table.0.matrix@) == symbol_rows(output_matrix@),
    {
        let mut rows: Vec<Vec<BFieldElement>> = Vec::new();
        let mut i: usize = 0;
        while i < processor_matrix.len()
            invariant
                i <= processor_matrix.len(),
                rows.len() == i,
                forall|j: int|
                    0 <= j < i ==> (#[trigger] rows[j]).len() == 7 && values(rows[j]@)
                        == processor_matrix[j].row(),
            decreases processor_matrix.len() - i,
        {
            rows.push(processor_matrix[i].into_row());
            i = i + 1;
        }
        assert(matrix_values(rows@) =~= register_rows(processor_matrix@));
        self.processor_table.0.matrix = rows;
        let mut rows: Vec<Vec<BFieldElement>> = Vec::new();
        let mut i: usize = 0;
        while i < instruction_matrix.len()
            invariant
                i <= instruction_matrix.len(),
                rows.len() == i,
                forall|j: int|
                    0 <= j < i ==> (#[trigger] rows[j]).len() == 3 && values(rows[j]@)
                        == instruction_matrix[j].row(),
            decreases instruction_matrix.len() - i,
        {
            rows.push(instruction_matrix[i].into_row());
            i = i + 1;
        }
        assert(matrix_values(rows@) =~= instruction_rows(instruction_matrix@));
        self.instruction_table.0.matrix = rows;
        self.input_table.0.matrix = symbols_as_rows(&input_matrix);
        self.output_table.0.matrix = symbols_as_rows(&output_matrix);
    }

    /// Pads every table, in the order of the tables and each under its own
    /// rule. A table without rows stays without rows: the memory table, as
    /// long as its rows have not been derived from the processor table, is
    /// left as it is.
    pub fn pad(&mut self)
        requires
            old(self).well_formed(),
        ensures
            final(self).well_formed(),
            final(self).processor_table.0.padded_from(
                &old(self).processor_table.0,
                PaddingRule::AdvanceCycle,
            ),
            final(self).instruction_table.0.padded_from(
                &old(self).instruction_table.0,
                PaddingRule::AdvanceAddress,
            ),
            final(self).memory_table.0.padded_from(
                &old(self).memory_table.0,
                PaddingRule::ReplicateLastRow,
            ),
            final(self).input_table.0.padded_from(
                &old(self).input_table.0,
                PaddingRule::ZeroMarker,
            ),
            final(self).output_table.0.padded_from(
                &old(self).output_table.0,
                PaddingRule::ZeroMarker,
            ),
    {
        self.processor_table.pad();
        self.instruction_table.pad();
        self.memory_table.pad();
        self.input_table.pad();
        self.output_table.pad();
    }

    /// Extends the base columns of all tables over `fri_domain`, keeps the
    /// codewords on the tables, and returns them in the order of the
    /// tables. Every codeword is as long as the domain.
    pub fn get_and_set_all_base_codewords(&mut self, fri_domain: &FriDomain) -> (r: Result<
        Vec<Vec<BFieldElement>>,
        TableError,
    >)
        requires
            old(self).well_formed(),
            old(self).is_padded(),
        ensures
            final(self).well_formed(),
            final(self).is_padded(),
            final(self).as_before_or_with_base_codewords(old(self), *fri_domain),
            r is Err ==> first_error(
                old(self).processor_table.0.lde_error(*fri_domain),
                old(self).instruction_table.0.lde_error(*fri_domain),
                old(self).memory_table.0.lde_error(*fri_domain),
                old(self).input_table.0.lde_error(*fri_domain),
                old(self).output_table.0.lde_error(*fri_domain),
            ) == Some(r->Err_0),
            r is Ok ==> {
                &&& first_error(
                    old(self).processor_table.0.lde_error(*fri_domain),
                    old(self).instruction_table.0.lde_error(*fri_domain),
                    old(self).memory_table.0.lde_error(*fri_domain),
                    old(self).input_table.0.lde_error(*fri_domain),
                    old(self).output_table.0.lde_error(*fri_domain),
                ) is None
                &&& final(self).processor_table.0.holds_base_codewords(
                    &old(self).processor_table.0,
                    *fri_domain,
                    final(self).processor_table.0.codewords@,
                )
                &&& final(self).instruction_table.0.holds_base_codewords(
                    &old(self).instruction_table.0,
                    *fri_domain,
                    final(self).instruction_table.0.codewords@,
                )
                &&& final(self).memory_table.0.holds_base_codewords(
                    &old(self).memory_table.0,
                    *fri_domain,
                    final(self).memory_table.0.codewords@,
                )
                &&& final(self).input_table.0.holds_base_codewords(
                    &old(self).input_table.0,
                    *fri_domain,
                    final(self).input_table.0.codewords@,
                )
                &&& final(self).output_table.0.holds_base_codewords(
                    &old(self).output_table.0,
                    *fri_domain,
                    final(self).output_table.0.codewords@,
                )
                &&& r->Ok_0.len() == 15
                &&& forall|k: int|
                    0 <= k < r->Ok_0.len() ==> (#[trigger] r->Ok_0[k]).len() == fri_domain.length
                &&& matrix_values(r->Ok_0@) == matrix_values(
                    final(self).processor_table.0.codewords@,
                ) + matrix_values(final(self).instruction_table.0.codewords@) + matrix_values(
                    final(self).memory_table.0.codewords@,
                ) + matrix_values(final(self).input_table.0.codewords@) + matrix_values(
                    final(self).output_table.0.codewords@,
                )
            },
    {
        let ghost before = *self;
        let p = match self.processor_table.0.lde(fri_domain) {
            Ok(codewords) => codewords,
            Err(e) => {
                return Err(e);
            },
        };
        proof {
            lemma_holds_own_base_codewords(
                self.processor_table.0,
                before.processor_table.0,
                *fri_domain,
                p@,
            );
        }
        let i = match self.instruction_table.0.lde(fri_domain) {
            Ok(codewords) => codewords,
            Err(e) => {
                return Err(e);
            },
        };
        proof {
            lemma_holds_own_base_codewords(
                self.instruction_table.0,
                before.instruction_table.0,
                *fri_domain,
                i@,
            );
        }
        let m = match self.memory_table.0.lde(fri_domain) {
            Ok(codewords) => codewords,
            Err(e) => {
                return Err(e);
            },
        };
        proof {
            lemma_holds_own_base_codewords(
                self.memory_table.0,
                before.memory_table.0,
                *fri_domain,
                m@,
            );
        }
        let input = match self.input_table.0.lde(fri_domain) {
            Ok(codewords) => codewords,
            Err(e) => {
                return Err(e);
            },
        };
        proof {
            lemma_holds_own_base_codewords(
                self.input_table.0,
                before.input_table.0,
                *fri_domain,
                input@,
            );
        }
        let output = match self.output_table.0.lde(fri_domain) {
            Ok(codewords) => codewords,
            Err(e) => {
                return Err(e);
            },
        };
        proof {
            lemma_holds_own_base_codewords(
                self.output_table.0,
                before.output_table.0,
                *fri_domain,
                output@,
            );
        }
        let mut parts: Vec<Vec<Vec<BFieldElement>>> = Vec::new();
        parts.push(p);
        parts.push(i);
        parts.push(m);
        parts.push(input);
        parts.push(output);
        proof {
            lemma_joined_five(parts@);
        }
        let r = concat_vecs(parts);
        proof {
            assert(r@ =~= p@ + i@ + m@ + input@ + output@);
            assert(matrix_values(r@) =~= matrix_values(p@) + matrix_values(i@) + matrix_values(m@)
                + matrix_values(input@) + matrix_values(output@));
            assert forall|k: int| 0 <= k < r.len() implies (#[trigger] r[k]).len()
                == fri_domain.length by {
                if k < 7 {
                    assert(r[k] == p[k]);
                } else if k < 10 {
                    assert(r[k] == i[k - 7]);
                } else if k < 13 {
                    assert(r[k] == m[k - 10]);
                } else if k < 14 {
                    assert(r[k] == input[k - 13]);
                } else {
                    assert(r[k] == output[k - 14]);
                }
            }
        }
        Ok(r)
    }

    /// Extends the extension columns of all tables over `fri_domain`, keeps
    /// on each table the codewords of all its columns, and returns those of
    /// the extension columns in the order of the tables. Every codeword is
    /// as long as the domain.
    pub fn get_and_set_all_extension_codewords(&mut self, fri_domain: &FriDomain) -> (r: Result<
        Vec<Vec<XFieldElement>>,
        TableError,
    >)
        requires
            old(self).well_formed(),
            old(self).is_extended(),
        ensures
            final(self).well_formed(),
            final(self).is_extended(),
            final(self).as_before_or_with_extension_codewords(old(self), *fri_domain),
            r is Err ==> first_error(
                old(self).processor_table.0.ldex_error(*fri_domain),
                old(self).instruction_table.0.ldex_error(*fri_domain),
                old(self).memory_table.0.ldex_error(*fri_domain),
                old(self).input_table.0.ldex_error(*fri_domain),
                old(self).output_table.0.ldex_error(*fri_domain),
            ) == Some(r->Err_0),
            r is Ok ==> {
                &&& first_error(
                    old(self).processor_table.0.ldex_error(*fri_domain),
                    old(self).instruction_table.0.ldex_error(*fri_domain),
                    old(self).memory_table.0.ldex_error(*fri_domain),
                    old(self).input_table.0.ldex_error(*fri_domain),
                    old(self).output_table.0.ldex_error(*fri_domain),
                ) is None
                &&& exists|codewords: Seq<Vec<XFieldElement>>| #[trigger]
                    final(self).processor_table.0.holds_extension_codewords(
                        &old(self).processor_table.0,
                        *fri_domain,
                        codewords,
                    )
                &&& exists|codewords: Seq<Vec<XFieldElement>>| #[trigger]
                    final(self).instruction_table.0.holds_extension_codewords(
                        &old(self).instruction_table.0,
                        *fri_domain,
                        codewords,
                    )
                &&& exists|codewords: Seq<Vec<XFieldElement>>| #[trigger]
                    final(self).memory_table.0.holds_extension_codewords(
                        &old(self).memory_table.0,
                        *fri_domain,
                        codewords,
                    )
                &&& exists|codewords: Seq<Vec<XFieldElement>>| #[trigger]
                    final(self).input_table.0.holds_extension_codewords(
                        &old(self).input_table.0,
                        *fri_domain,
                        codewords,
                    )
                &&& exists|codewords: Seq<Vec<XFieldElement>>| #[trigger]
                    final(self).output_table.0.holds_extension_codewords(
                        &old(self).output_table.0,
                        *fri_domain,
                        codewords,
                    )
                &&& r->Ok_0.len() == 9
                &&& forall|k: int|
                    0 <= k < r->Ok_0.len() ==> (#[trigger] r->Ok_0[k]).len() == fri_domain.length
                &&& x_matrix_values(r->Ok_0@) == x_matrix_values(
                    final(self).processor_table.0.extended_codewords@.subrange(7, 11),
                ) + x_matrix_values(
                    final(self).instruction_table.0.extended_codewords@.subrange(3, 5),
                ) + x_matrix_values(final(self).memory_table.0.extended_codewords@.subrange(3, 4))
                    + x_matrix_values(final(self).input_table.0.extended_codewords@.subrange(1, 2))
                    + x_matrix_values(
                    final(self).output_table.0.extended_codewords@.subrange(1, 2),
                )
            },
    {
        let ghost before = *self;
        let p = match self.processor_table.0.ldex(fri_domain) {
            Ok(codewords) => codewords,
            Err(e) => {
                return Err(e);
            },
        };
        proof {
            lemma_holds_own_extension_codewords(
                self.processor_table.0,
                before.processor_table.0,
                *fri_domain,
                p@,
            );
        }
        let i = match self.instruction_table.0.ldex(fri_domain) {
            Ok(codewords) => codewords,
            Err(e) => {
                return Err(e);
            },
        };
        proof {
            lemma_holds_own_extension_codewords(
                self.instruction_table.0,
                before.instruction_table.0,
                *fri_domain,
                i@,
            );
        }
        let m = match self.memory_table.0.ldex(fri_domain) {
            Ok(codewords) => codewords,
            Err(e) => {
                return Err(e);
            },
        };
        proof {
            lemma_holds_own_extension_codewords(
                self.memory_table.0,
                before.memory_table.0,
                *fri_domain,
                m@,
            );
        }
        let input = match self.input_table.0.ldex(fri_domain) {
            Ok(codewords) => codewords,
            Err(e) => {
                return Err(e);
            },
        };
        proof {
            lemma_holds_own_extension_codewords(
                self.input_table.0,
                before.input_table.0,
                *fri_domain,
                input@,
            );
        }
        let output = match self.output_table.0.ldex(fri_domain) {
            Ok(codewords) => codewords,
            Err(e) => {
                return Err(e);
            },
        };
        proof {
            lemma_holds_own_extension_codewords(
                self.output_table.0,
                before.output_table.0,
                *fri_domain,
                output@,
            );
        }
        let mut parts: Vec<Vec<Vec<XFieldElement>>> = Vec::new();
        parts.push(p);
        parts.push(i);
        parts.push(m);
        parts.push(input);
        parts.push(output);
        proof {
            lemma_joined_five(parts@);
        }
        let r = concat_vecs(parts);
        proof {
            assert(r@ =~= p@ + i@ + m@ + input@ + output@);
            assert(x_matrix_values(r@) =~= x_matrix_values(p@) + x_matrix_values(i@)
                + x_matrix_values(m@) + x_matrix_values(input@) + x_matrix_values(output@));
            assert forall|k: int| 0 <= k < r.len() implies (#[trigger] r[k]).len()
                == fri_domain.length by {
                if k < 4 {
                    assert(r[k] == p[k]);
                } else if k < 6 {
                    assert(r[k] == i[k - 4]);
                } else if k < 7 {
                    assert(r[k] == m[k - 6]);
                } else if k < 8 {
                    assert(r[k] == input[k - 7]);
                } else {
                    assert(r[k] == output[k - 8]);
                }
            }
            assert(x_matrix_values(p@) == x_matrix_values(
                self.processor_table.0.extended_codewords@.subrange(7, 11),
            ));
            assert(x_matrix_values(i@) == x_matrix_values(
                self.instruction_table.0.extended_codewords@.subrange(3, 5),
            ));
            assert(x_matrix_values(m@) == x_matrix_values(
                self.memory_table.0.extended_codewords@.subrange(3, 4),
            ));
            assert(x_matrix_values(input@) == x_matrix_values(
                self.input_table.0.extended_codewords@.subrange(1, 2),
            ));
            assert(x_matrix_values(output@) == x_matrix_values(
                self.output_table.0.extended_codewords@.subrange(1, 2),
            ));
        }
        Ok(r)
    }

    /// Extends all tables with the same challenges and initials.
    pub fn extend(
        &mut self,
        all_challenges: [XFieldElement; 11],
        all_initials: [XFieldElement; 2],
    )
        requires
            old(self).well_formed(),
        ensures
            final(self).well_formed(),
            final(self).processor_table.extended_from(
                &old(self).processor_table,
                all_challenges,
                all_initials,
            ),
            final(self).instruction_table.extended_from(
                &old(self).instruction_table,
                all_challenges,
                all_initials,
            ),
            final(self).memory_table.extended_from(
                &old(self).memory_table,
                all_challenges,
                all_initials,
            ),
            final(self).input_table.extended_from(
                &old(self).input_table,
                all_challenges,
                all_initials,
            ),
            final(self).output_table.extended_from(
                &old(self).output_table,
                all_challenges,
                all_initials,
            ),
            old(self).is_padded() ==> final(self).is_extended(),
    {
        self.processor_table.extend(all_challenges, all_initials);
        self.instruction_table.extend(all_challenges, all_initials);
        self.memory_table.extend(all_challenges, all_initials);
        self.input_table.extend(all_challenges, all_initials);
        self.output_table.extend(all_challenges, all_initials);
    }

    /// The terminals: those of the four arguments of the processor table,
    /// then that of the program evaluation of the instruction table.
    pub fn get_terminals(&self) -> (r: [XFieldElement; 5])
        ensures
            r[0] == self.processor_table.0.more.instruction_permutation_terminal,
            r[1] == self.processor_table.0.more.memory_permutation_terminal,
            r[2] == self.processor_table.0.more.input_evaluation_terminal,
            r[3] == self.processor_table.0.more.output_evaluation_terminal,
            r[4] == self.instruction_table.0.more.evaluation_terminal,
    {
        [
            self.processor_table.0.more.instruction_permutation_terminal,
            self.processor_table.0.more.memory_permutation_terminal,
            self.processor_table.0.more.input_evaluation_terminal,
            self.processor_table.0.more.output_evaluation_terminal,
            self.instruction_table.0.more.evaluation_terminal,
        ]
    }

    /// Whether each of the five tables has been extended.
    pub fn check_extended(&self) -> (r: bool)
        ensures
            r == self.is_extended(),
    {
        check_codewords(
            &self.processor_table.0.extended_matrix,
            self.processor_table.0.height,
            self.processor_table.0.full_width,
        ) && check_codewords(
            &self.instruction_table.0.extended_matrix,
            self.instruction_table.0.height,
            self.instruction_table.0.full_width,
        ) && check_codewords(
            &self.memory_table.0.extended_matrix,
            self.memory_table.0.height,
            self.memory_table.0.full_width,
        ) && check_codewords(
            &self.input_table.0.extended_matrix,
            self.input_table.0.height,
            self.input_table.0.full_width,
        ) && check_codewords(
            &self.output_table.0.extended_matrix,
            self.output_table.0.height,
            self.output_table.0.full_width,
        )
    }

    /// Whether the rows of each extended table meet the constraints of its
    /// kind.
    pub fn check_constraints(
        &self,
        challenges: [XFieldElement; 11],
        terminals: [XFieldElement; 5],
    ) -> (r: bool)
        requires
            self.well_formed(),
            self.is_extended(),
        ensures
            r == self.meets_constraints(challenges, terminals),
    {
        self.processor_table.check_constraints(challenges, terminals)
            && self.instruction_table.check_constraints(challenges, terminals)
            && self.memory_table.check_constraints(challenges, terminals)
            && self.input_table.check_constraints(challenges, terminals)
            && self.output_table.check_constraints(challenges, terminals)
    }

    /// All quotients over `fri_domain`, in the order of the tables, from the
    /// codewords that the tables hold. There are none where a row of a
    /// table violates a constraint.
    pub fn all_quotients(
        &self,
        fri_domain: &FriDomain,
        challenges: [XFieldElement; 11],
        terminals: [XFieldElement; 5],
    ) -> (r: Result<Vec<Vec<XFieldElement>>, TableError>)
        requires
            self.well_formed(),
        ensures
            r is Err ==> self.quotient_error(*fri_domain, challenges, terminals) == Some(
                r->Err_0,
            ),
            r is Ok ==> {
                &&& self.quotient_error(*fri_domain, challenges, terminals) is None
                &&& r->Ok_0.len() == 44
                &&& forall|k: int|
                    0 <= k < r->Ok_0.len() ==> (#[trigger] r->Ok_0[k]).len() == fri_domain.length
                &&& x_matrix_values(r->Ok_0@) == self.quotients(*fri_domain, challenges, terminals)
            },
    {
        let quotients = match self.quotients_from_codewords(fri_domain, challenges, terminals) {
            Ok(quotients) => quotients,
            Err(e) => {
                return Err(e);
            },
        };
        if !self.check_extended() {
            return Err(TableError::ShapeMismatch);
        }
        if !self.check_constraints(challenges, terminals) {
            return Err(TableError::ConstraintViolated);
        }
        Ok(quotients)
    }

    /// All quotients over `fri_domain`, in the order of the tables, from the
    /// codewords that the tables hold, whatever their rows hold.
    pub fn quotients_from_codewords(
        &self,
        fri_domain: &FriDomain,
        challenges: [XFieldElement; 11],
        terminals: [XFieldElement; 5],
    ) -> (r: Result<Vec<Vec<XFieldElement>>, TableError>)
        requires
            self.well_formed(),
        ensures
            r is Err ==> self.codeword_error(*fri_domain) == Some(r->Err_0),
            r is Ok ==> {
                &&& self.codeword_error(*fri_domain) is None
                &&& r->Ok_0.len() == 44
                &&& forall|k: int|
                    0 <= k < r->Ok_0.len() ==> (#[trigger] r->Ok_0[k]).len() == fri_domain.length
                &&& x_matrix_values(r->Ok_0@) == self.quotients(*fri_domain, challenges, terminals)
            },
    {
        let p = match self.processor_table.all_quotients(
            fri_domain,
            &self.processor_table.0.extended_codewords,
            challenges,
            terminals,
        ) {
            Ok(quotients) => quotients,
            Err(e) => {
                return Err(e);
            },
        };
        let i = match self.instruction_table.all_quotients(
            fri_domain,
            &self.instruction_table.0.extended_codewords,
            challenges,
            terminals,
        ) {
            Ok(quotients) => quotients,
            Err(e) => {
                return Err(e);
            },
        };
        let m = match self.memory_table.all_quotients(
            fri_domain,
            &self.memory_table.0.extended_codewords,
            challenges,
            terminals,
        ) {
            Ok(quotients) => quotients,
            Err(e) => {
                return Err(e);
            },
        };
        let input = match self.input_table.all_quotients(
            fri_domain,
            &self.input_table.0.extended_codewords,
            challenges,
            terminals,
        ) {
            Ok(quotients) => quotients,
            Err(e) => {
                return Err(e);
            },
        };
        let output = match self.output_table.all_quotients(
            fri_domain,
            &self.output_table.0.extended_codewords,
            challenges,
            terminals,
        ) {
            Ok(quotients) => quotients,
            Err(e) => {
                return Err(e);
            },
        };
        let mut parts: Vec<Vec<Vec<XFieldElement>>> = Vec::new();
        parts.push(p);
        parts.push(i);
        parts.push(m);
        parts.push(input);
        parts.push(output);
        proof {
            lemma_joined_five(parts@);
        }
        let r = concat_vecs(parts);
        proof {
            assert(r@ =~= p@ + i@ + m@ + input@ + output@);
            assert(x_matrix_values(r@) =~= x_matrix_values(p@) + x_matrix_values(i@)
                + x_matrix_values(m@) + x_matrix_values(input@) + x_matrix_values(output@));
            assert forall|k: int| 0 <= k < r.len() implies (#[trigger] r[k]).len()
                == fri_domain.length by {
                if k < 21 {
                    assert(r[k] == p[k]);
                } else if k < 30 {
                    assert(r[k] == i[k - 21]);
                } else if k < 38 {
                    assert(r[k] == m[k - 30]);
                } else if k < 41 {
                    assert(r[k] == input[k - 38]);
                } else {
                    assert(r[k] == output[k - 41]);
                }
            }
        }
        Ok(r)
    }

    /// One bound per quotient, in the order of the tables. The bounds depend
    /// on the dimensions of the tables alone: not on the challenges, not on
    /// the terminals, and not on the rows.
    pub fn all_quotient_degree_bounds(
        &self,
        challenges: [XFieldElement; 11],
        terminals: [XFieldElement; 5],
    ) -> (r: Vec<Degree>)
        requires
            self.well_formed(),
        ensures
            degree_values(r@) == self.quotient_degree_bounds(),
    {
        join_degrees(
            self.processor_table.all_quotient_degree_bounds(challenges, terminals),
            self.instruction_table.all_quotient_degree_bounds(challenges, terminals),
            self.memory_table.all_quotient_degree_bounds(challenges, terminals),
            self.input_table.all_quotient_degree_bounds(challenges, terminals),
            self.output_table.all_quotient_degree_bounds(challenges, terminals),
        )
    }
}

/// One row per symbol.
fn symbols_as_rows(symbols: &Vec<BFieldElement>) -> (r: Vec<Vec<BFieldElement>>)
    ensures
        r.len() == symbols.len(),
        forall|i: int| 0 <= i < r.len() ==> (#[trigger] r[i]).len() == 1,
        matrix_values(r@) == symbol_rows(symbols@),
{
    let mut rows: Vec<Vec<BFieldElement>> = Vec::new();
    let mut i: usize = 0;
    while i < symbols.len()
        invariant
            i <= symbols.len(),
            rows.len() == i,
            forall|j: int|
                0 <= j < i ==> (#[trigger] rows[j]).len() == 1 && rows[j][0] == symbols[j],
        decreases symbols.len() - i,
    {
        let mut row: Vec<BFieldElement> = Vec::new();
        row.push(symbols[i]);
        rows.push(row);
        i = i + 1;
    }
    assert(matrix_values(rows@) =~= symbol_rows(symbols@)) by {
        assert forall|j: int| 0 <= j < rows.len() implies values(rows[j]@) =~= seq![
            symbols[j]@,
        ] by {}
    }
    rows
}

/// Two collections of the same shape have the same bounds on the degrees of
/// their base columns, of their extension columns and of their quotients,
/// whatever their rows hold.
pub proof fn lemma_degree_bounds_go_by_shape(a: TableCollection, b: TableCollection)
    requires
        a.same_shape(&b),
    ensures
        a.max_degree() == b.max_degree(),
        a.base_degree_bounds() == b.base_degree_bounds(),
        a.extension_degree_bounds() == b.extension_degree_bounds(),
        a.quotient_degree_bounds() == b.quotient_degree_bounds(),
{
}

} // verus!
