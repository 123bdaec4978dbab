//! The ten tables of one run of the machine, worked on as one
//! arithmetization. Their order is fixed: program, instruction, processor,
//! input, output, operational stack, memory, stack of jumps, hash
//! coprocessor, coprocessor for 32-bit words.

use crate::shared_math::b_field_element::values;
use crate::shared_math::fri_domain::FriDomain;
use crate::shared_math::mpolynomial::Degree;
use crate::shared_math::mpolynomial::degree_values;
use crate::shared_math::other::concat_vecs;
use crate::shared_math::other::joined;
use crate::shared_math::stark::quotient::max_degree_for;
use crate::shared_math::stark::quotient::max_degree_of;
use crate::shared_math::stark::quotient::max_of;
use crate::shared_math::stark::table::MAX_HEIGHT;
use crate::shared_math::stark::table::TableError;
use crate::shared_math::stark::triton::table::aux_table::AuxTable;
use crate::shared_math::stark::triton::table::aux_table::ExtAuxTable;
use crate::shared_math::stark::triton::table::base_matrix::BaseMatrices;
use crate::shared_math::stark::triton::table::base_table::base_transition_constraints;
use crate::shared_math::stark::triton::table::base_table::BaseTable;
use crate::shared_math::stark::triton::table::base_table::BWord;
use crate::shared_math::stark::triton::table::base_table::max_degree_of_table;
use crate::shared_math::stark::triton::table::instruction_table::ExtInstructionTable;
use crate::shared_math::stark::triton::table::instruction_table::InstructionTable;
use crate::shared_math::stark::triton::table::io_table::ExtIOTable;
use crate::shared_math::stark::triton::table::io_table::IOTable;
use crate::shared_math::stark::triton::table::jump_stack_table::ExtJumpStackTable;
use crate::shared_math::stark::triton::table::jump_stack_table::JumpStackTable;
use crate::shared_math::stark::triton::table::op_stack_table::ExtOpStackTable;
use crate::shared_math::stark::triton::table::op_stack_table::OpStackTable;
use crate::shared_math::stark::triton::table::processor_table::ExtProcessorTable;
use crate::shared_math::stark::triton::table::processor_table::ProcessorTable;
use crate::shared_math::stark::triton::table::program_table::ExtProgramTable;
use crate::shared_math::stark::triton::table::program_table::ProgramTable;
use crate::shared_math::stark::triton::table::ram_table::ExtRAMTable;
use crate::shared_math::stark::triton::table::ram_table::RAMTable;
use crate::shared_math::stark::triton::table::u32_op_table::ExtU32OpTable;
use crate::shared_math::stark::triton::table::u32_op_table::U32OpTable;
use vstd::prelude::*;

verus! {

/// The tables of one run of the machine, each holding its trace.
#[derive(Debug, Clone)]
pub struct BaseTableCollection {
    pub program_table: ProgramTable,
    pub instruction_table: InstructionTable,
    pub processor_table: ProcessorTable,
    pub input_table: IOTable,
    pub output_table: IOTable,
    pub op_stack_table: OpStackTable,
    pub ram_table: RAMTable,
    pub jump_stack_table: JumpStackTable,
    pub aux_table: AuxTable,
    pub u32_op_table: U32OpTable,
}

/// The tables of one run of the machine after extension.
#[derive(Debug, Clone)]
pub struct ExtTableCollection {
    pub program_table: ExtProgramTable,
    pub instruction_table: ExtInstructionTable,
    pub processor_table: ExtProcessorTable,
    pub input_table: ExtIOTable,
    pub output_table: ExtIOTable,
    pub op_stack_table: ExtOpStackTable,
    pub ram_table: ExtRAMTable,
    pub jump_stack_table: ExtJumpStackTable,
    pub aux_table: ExtAuxTable,
    pub u32_op_table: ExtU32OpTable,
}

/// Whether `rows` are the rows `arrays`, one for one.
pub open spec fn same_rows<T, const S: usize>(rows: Seq<Vec<T>>, arrays: Seq<[T; S]>) -> bool {
    &&& rows.len() == arrays.len()
    &&& forall|i: int| 0 <= i < rows.len() ==> (#[trigger] rows[i])@ == arrays[i]@
}

/// The number of codewords that the tables before table `t` contribute.
pub open spec fn column_offset(tables: Seq<BaseTable>, t: nat) -> nat
    decreases t,
{
    if t == 0 {
        0
    } else {
        column_offset(tables, (t - 1) as nat) + tables[t - 1].base_width as nat
    }
}

/// The number `m` as an unsigned 64-bit number: itself where it is not
/// negative, and counted down from 2^64 where it is.
pub open spec fn wrapped(m: int) -> int {
    if m >= 0 {
        m
    } else {
        m + 0x1_0000_0000_0000_0000
    }
}

/// Converts a list of rows of fixed width to a list of rows of any width.
pub fn to_vec_vecs<T: Copy, const S: usize>(vector_of_arrays: &Vec<[T; S]>) -> (r: Vec<Vec<T>>)
    ensures
        same_rows(r@, vector_of_arrays@),
        forall|i: int| 0 <= i < r.len() ==> (#[trigger] r[i]).len() == S,
{
    let mut out: Vec<Vec<T>> = Vec::new();
    let mut i: usize = 0;
    while i < vector_of_arrays.len()
        invariant
            i <= vector_of_arrays.len(),
            out.len() == i,
            forall|k: int|
                0 <= k < i ==> (#[trigger] out[k])@ == vector_of_arrays[k]@ && out[k].len() == S,
        decreases vector_of_arrays.len() - i,
    {
        let mut row: Vec<T> = Vec::new();
        let mut j: usize = 0;
        while j < S
            invariant
                i < vector_of_arrays.len(),
                j <= S,
                row.len() == j,
                forall|k: int| 0 <= k < j ==> row[k] == vector_of_arrays[i as int][k],
            decreases S - j,
        {
            row.push(vector_of_arrays[i][j]);
            j = j + 1;
        }
        assert(row@ =~= vector_of_arrays[i as int]@);
        out.push(row);
        i = i + 1;
    }
    out
}

impl BaseTableCollection {
    /// The ten tables in their order.
    pub open spec fn tables(&self) -> Seq<BaseTable> {
        seq![
            self.program_table.base,
            self.instruction_table.base,
            self.processor_table.base,
            self.input_table.base,
            self.output_table.base,
            self.op_stack_table.base,
            self.ram_table.base,
            self.jump_stack_table.base,
            self.aux_table.base,
            self.u32_op_table.base,
        ]
    }

    /// Whether each of the ten tables is well formed.
    pub open spec fn well_formed(&self) -> bool {
        &&& self.program_table.well_formed()
        &&& self.instruction_table.well_formed()
        &&& self.processor_table.well_formed()
        &&& self.input_table.well_formed()
        &&& self.output_table.well_formed()
        &&& self.op_stack_table.well_formed()
        &&& self.ram_table.well_formed()
        &&& self.jump_stack_table.well_formed()
        &&& self.aux_table.well_formed()
        &&& self.u32_op_table.well_formed()
    }

    /// Whether each of the ten tables has as many rows as it is high.
    pub open spec fn is_padded(&self) -> bool {
        forall|t: int| 0 <= t < 10 ==> (#[trigger] self.tables()[t]).is_padded()
    }

    /// The largest degree of the quotients of the ten tables.
    pub open spec fn max_degree_of_tables(&self) -> int {
        max_of(Seq::new(10, |t: int| max_degree_of_table(self.tables()[t])))
    }

    /// The collection of ten tables without a single row.
    pub fn empty() -> (r: Self)
        ensures
            r.well_formed(),
            r.is_padded(),
            forall|t: int|
                0 <= t < 10 ==> (#[trigger] r.tables()[t]).matrix.len() == 0 && r.tables()[t].height
                    == 0,
    {
        let matrices = BaseMatrices::new();
        Self::from_base_matrices(BWord::ring_one(), 1, 0, &matrices)
    }

    /// The collection of the tables that hold the traces of a run: each
    /// table holds the rows of its own matrix, with the given generator,
    /// order and number of random values.
    pub fn from_base_matrices(
        generator: BWord,
        order: usize,
        num_randomizers: usize,
        base_matrices: &BaseMatrices,
    ) -> (r: Self)
        requires
            num_randomizers <= MAX_HEIGHT,
            base_matrices.fits(MAX_HEIGHT as nat),
        ensures
            r.well_formed(),
            same_rows(r.program_table.base.matrix@, base_matrices.program_matrix@),
            same_rows(r.instruction_table.base.matrix@, base_matrices.instruction_matrix@),
            same_rows(r.processor_table.base.matrix@, base_matrices.processor_matrix@),
            same_rows(r.input_table.base.matrix@, base_matrices.input_matrix@),
            same_rows(r.output_table.base.matrix@, base_matrices.output_matrix@),
            same_rows(r.op_stack_table.base.matrix@, base_matrices.op_stack_matrix@),
            same_rows(r.ram_table.base.matrix@, base_matrices.ram_matrix@),
            same_rows(r.jump_stack_table.base.matrix@, base_matrices.jump_stack_matrix@),
            same_rows(r.aux_table.base.matrix@, base_matrices.aux_matrix@),
            same_rows(r.u32_op_table.base.matrix@, base_matrices.u32_op_matrix@),
            forall|t: int|
                0 <= t < 10 ==> {
                    &&& (#[trigger] r.tables()[t]).generator == generator
                    &&& r.tables()[t].order == order
                    &&& r.tables()[t].num_randomizers == num_randomizers
                    &&& r.tables()[t].length == r.tables()[t].matrix.len()
                    &&& r.tables()[t].matrix.len() == 0 ==> r.tables()[t].height == 0
                    &&& r.tables()[t].matrix.len() > 0 ==> r.tables()[t].matrix.len()
                        <= r.tables()[t].height < 2 * r.tables()[t].matrix.len()
                },
    {
        let program_table = ProgramTable::new_prover(
            generator,
            order,
            num_randomizers,
            to_vec_vecs(&base_matrices.program_matrix),
        );
        let processor_table = ProcessorTable::new_prover(
            generator,
            order,
            num_randomizers,
            to_vec_vecs(&base_matrices.processor_matrix),
        );
        let instruction_table = InstructionTable::new_prover(
            generator,
            order,
            num_randomizers,
            to_vec_vecs(&base_matrices.instruction_matrix),
        );
        let input_table = IOTable::new_prover(
            generator,
            order,
            num_randomizers,
            to_vec_vecs(&base_matrices.input_matrix),
        );
        let output_table = IOTable::new_prover(
            generator,
            order,
            num_randomizers,
            to_vec_vecs(&base_matrices.output_matrix),
        );
        let op_stack_table = OpStackTable::new_prover(
            generator,
            order,
            num_randomizers,
            to_vec_vecs(&base_matrices.op_stack_matrix),
        );
        let ram_table = RAMTable::new_prover(
            generator,
            order,
            num_randomizers,
            to_vec_vecs(&base_matrices.ram_matrix),
        );
        let jump_stack_table = JumpStackTable::new_prover(
            generator,
            order,
            num_randomizers,
            to_vec_vecs(&base_matrices.jump_stack_matrix),
        );
        let aux_table = AuxTable::new_prover(
            generator,
            order,
            num_randomizers,
            to_vec_vecs(&base_matrices.aux_matrix),
        );
        let u32_op_table = U32OpTable::new_prover(
            generator,
            order,
            num_randomizers,
            to_vec_vecs(&base_matrices.u32_op_matrix),
        );

        BaseTableCollection {
            program_table,
            instruction_table,
            processor_table,
            input_table,
            output_table,
            op_stack_table,
            ram_table,
            jump_stack_table,
            aux_table,
            u32_op_table,
        }
    }

    /// The ten tables in their order.
    pub fn into_iter(&self) -> (r: Vec<&BaseTable>)
        ensures
            r.len() == 10,
            forall|t: int| 0 <= t < 10 ==> *(#[trigger] r[t]) == self.tables()[t],
    {
        let mut tables: Vec<&BaseTable> = Vec::new();
        tables.push(&self.program_table.base);
        tables.push(&self.instruction_table.base);
        tables.push(&self.processor_table.base);
        tables.push(&self.input_table.base);
        tables.push(&self.output_table.base);
        tables.push(&self.op_stack_table.base);
        tables.push(&self.ram_table.base);
        tables.push(&self.jump_stack_table.base);
        tables.push(&self.aux_table.base);
        tables.push(&self.u32_op_table.base);
        tables
    }

    /// The largest degree of the quotients of the ten tables, as an unsigned
    /// number.
    pub fn max_degree(&self) -> (r: u64)
        requires
            self.well_formed(),
        ensures
            r == wrapped(self.max_degree_of_tables()),
    {
        let tables = self.into_iter();
        let constraints = base_transition_constraints();
        let mut degrees: Vec<Degree> = Vec::new();
        let mut t: usize = 0;
        while t < 10
            invariant
                t <= 10,
                tables.len() == 10,
                self.well_formed(),
                forall|k: int| 0 <= k < 10 ==> *(#[trigger] tables[k]) == self.tables()[k],
                constraints@ == crate::shared_math::stark::triton::table::base_table::spec_base_transition_constraints(),
                forall|n: nat| crate::shared_math::stark::quotient::constraints_fit(constraints@, n),
                degrees.len() == t,
                forall|k: int|
                    0 <= k < t ==> degrees[k] == max_degree_of_table(self.tables()[k]),
            decreases 10 - t,
        {
            assert(tables[t as int].well_formed());
            degrees.push(max_degree_for(tables[t], &constraints));
            t = t + 1;
        }
        assert(degree_values(degrees@) =~= Seq::new(
            10,
            |t: int| max_degree_of_table(self.tables()[t]),
        ));
        let m = max_degree_of(&degrees);
        if m >= 0 {
            m as u64
        } else {
            u64::MAX - ((-(m + 1)) as u64)
        }
    }

    /// The codewords of the columns of the traces of all tables over
    /// `fri_domain`, in the order of the tables, with fresh random values
    /// mixed in. Every codeword is as long as the domain.
    pub fn codewords(&self, fri_domain: &FriDomain) -> (r: Result<Vec<Vec<BWord>>, TableError>)
        requires
            self.well_formed(),
            self.is_padded(),
        ensures
            r is Err ==> exists|t: int|
                0 <= t < 10 && (#[trigger] self.tables()[t]).lde_error(*fri_domain) == Some(
                    r->Err_0,
                ) && forall|u: int|
                    0 <= u < t ==> (#[trigger] self.tables()[u]).lde_error(*fri_domain) is None,
            r is Ok ==> {
                &&& forall|t: int|
                    0 <= t < 10 ==> (#[trigger] self.tables()[t]).lde_error(*fri_domain) is None
                &&& r->Ok_0.len() == column_offset(self.tables(), 10)
                &&& forall|k: int|
                    0 <= k < r->Ok_0.len() ==> (#[trigger] r->Ok_0[k]).len() == fri_domain.length
                &&& forall|t: int, c: int|
                    0 <= t < 10 && 0 <= c < self.tables()[t].base_width ==> #[trigger] self.tables()[t].is_base_codeword(
                        *fri_domain,
                        values(r->Ok_0[column_offset(self.tables(), t as nat) + c]@),
                        c,
                    )
            },
    {
        let tables = self.into_iter();
        let mut parts: Vec<Vec<Vec<BWord>>> = Vec::new();
        let ghost mut gathered: Seq<Vec<BWord>> = Seq::empty();
        let mut t: usize = 0;
        while t < 10
            invariant
                t <= 10,
                tables.len() == 10,
                self.well_formed(),
                self.is_padded(),
                forall|k: int| 0 <= k < 10 ==> *(#[trigger] tables[k]) == self.tables()[k],
                parts.len() == t,
                gathered == joined(parts@),
                gathered.len() == column_offset(self.tables(), t as nat),
                forall|u: int|
                    0 <= u < t ==> (#[trigger] self.tables()[u]).lde_error(*fri_domain) is None,
                forall|k: int|
                    0 <= k < gathered.len() ==> (#[trigger] gathered[k]).len()
                        == fri_domain.length,
                forall|u: int, c: int|
                    0 <= u < t && 0 <= c < self.tables()[u].base_width ==> #[trigger] self.tables()[u].is_base_codeword(
                        *fri_domain,
                        values(gathered[column_offset(self.tables(), u as nat) + c]@),
                        c,
                    ),
            decreases 10 - t,
        {
            assert(tables[t as int].well_formed());
            assert(self.tables()[t as int].is_padded());
            let codewords = match tables[t].base_codewords(fri_domain) {
                Ok(codewords) => codewords,
                Err(e) => {
                    return Err(e);
                },
            };
            let ghost before = gathered;
            let ghost before_parts = parts@;
            proof {
                gathered = gathered + codewords@;
            }
            parts.push(codewords);
            proof {
                assert(parts@.drop_last() =~= before_parts);
                let offset = column_offset(self.tables(), t as nat);
                assert forall|k: int| 0 <= k < gathered.len() implies (#[trigger] gathered[k]).len()
                    == fri_domain.length by {
                    if k >= before.len() {
                        assert(gathered[k] == codewords[k - before.len()]);
                    }
                }
                assert forall|u: int, c: int|
                    0 <= u < t + 1 && 0 <= c < self.tables()[u].base_width implies #[trigger] self.tables()[u].is_base_codeword(
                    *fri_domain,
                    values(gathered[column_offset(self.tables(), u as nat) + c]@),
                    c,
                ) by {
                    if u < t {
                        lemma_offsets_grow(self.tables(), u as nat, t as nat);
                        let place = column_offset(self.tables(), u as nat) + c;
                        assert(gathered[place] == before[place]);
                    } else {
                        assert(gathered[offset + c] == codewords[c]);
                        assert(codewords[c].len() == fri_domain.length);
                    }
                }
            }
            t = t + 1;
        }
        let r = concat_vecs(parts);
        Ok(r)
    }
}

/// The codewords of a table start where those of the tables before it end.
pub proof fn lemma_offsets_grow(tables: Seq<BaseTable>, u: nat, t: nat)
    requires
        u < t,
    ensures
        column_offset(tables, u) + tables[u as int].base_width <= column_offset(tables, t),
    decreases t,
{
    if u + 1 < t {
        lemma_offsets_grow(tables, u, (t - 1) as nat);
    }
}

} // verus!
