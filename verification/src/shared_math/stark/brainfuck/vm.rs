//! The rows that the virtual machine hands to the tables.

use crate::shared_math::b_field_element::BFieldElement;
use crate::shared_math::b_field_element::values;
use vstd::prelude::*;

verus! {

/// The registers of the machine at one cycle.
#[derive(Debug, Clone, Copy)]
pub struct Register {
    pub cycle: BFieldElement,
    pub instruction_pointer: BFieldElement,
    pub current_instruction: BFieldElement,
    pub next_instruction: BFieldElement,
    pub memory_pointer: BFieldElement,
    pub memory_value: BFieldElement,
    pub memory_value_inverse: BFieldElement,
}

/// One row of the instruction table: a word of the program with its
/// address and the word after it.
#[derive(Debug, Clone, Copy)]
pub struct InstructionMatrixBaseRow {
    pub instruction_pointer: BFieldElement,
    pub current_instruction: BFieldElement,
    pub next_instruction: BFieldElement,
}

/// The trace of one run of the machine: what each table is filled with.
#[derive(Debug, Clone)]
pub struct BaseMatrices {
    pub processor_matrix: Vec<Register>,
    pub instruction_matrix: Vec<InstructionMatrixBaseRow>,
    pub input_matrix: Vec<BFieldElement>,
    pub output_matrix: Vec<BFieldElement>,
}

impl Register {
    /// The registers in the order of the columns of the processor table.
    pub open spec fn row(&self) -> Seq<int> {
        seq![
            self.cycle@,
            self.instruction_pointer@,
            self.current_instruction@,
            self.next_instruction@,
            self.memory_pointer@,
            self.memory_value@,
            self.memory_value_inverse@,
        ]
    }

    /// The registers as a row of the processor table.
    pub fn into_row(self) -> (r: Vec<BFieldElement>)
        ensures
            r.len() == 7,
            values(r@) == self.row(),
    {
        let mut out: Vec<BFieldElement> = Vec::new();
        out.push(self.cycle);
        out.push(self.instruction_pointer);
        out.push(self.current_instruction);
        out.push(self.next_instruction);
        out.push(self.memory_pointer);
        out.push(self.memory_value);
        out.push(self.memory_value_inverse);
        assert(values(out@) =~= self.row());
        out
    }
}

impl InstructionMatrixBaseRow {
    /// The row in the order of the columns of the instruction table.
    pub open spec fn row(&self) -> Seq<int> {
        seq![self.instruction_pointer@, self.current_instruction@, self.next_instruction@]
    }

    /// The row as a row of the instruction table.
    pub fn into_row(self) -> (r: Vec<BFieldElement>)
        ensures
            r.len() == 3,
            values(r@) == self.row(),
    {
        let mut out: Vec<BFieldElement> = Vec::new();
        out.push(self.instruction_pointer);
        out.push(self.current_instruction);
        out.push(self.next_instruction);
        assert(values(out@) =~= self.row());
        out
    }
}

} // verus!
