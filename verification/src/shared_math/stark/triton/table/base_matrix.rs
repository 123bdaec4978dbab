//! The traces of one run of the machine: for each table the rows that fill
//! it, each row with as many words as the table has columns.

use crate::shared_math::stark::triton::table::base_table::BWord;
use vstd::prelude::*;

verus! {

/// The traces of one run of the machine.
#[derive(Debug, Clone)]
pub struct BaseMatrices {
    pub program_matrix: Vec<[BWord; 2]>,
    pub processor_matrix: Vec<[BWord; 38]>,
    pub instruction_matrix: Vec<[BWord; 3]>,
    pub input_matrix: Vec<[BWord; 1]>,
    pub output_matrix: Vec<[BWord; 1]>,
    pub op_stack_matrix: Vec<[BWord; 4]>,
    pub ram_matrix: Vec<[BWord; 4]>,
    pub jump_stack_matrix: Vec<[BWord; 5]>,
    pub aux_matrix: Vec<[BWord; 17]>,
    pub u32_op_matrix: Vec<[BWord; 7]>,
}

impl BaseMatrices {
    /// The traces of a run without a single row.
    pub fn new() -> (r: Self)
        ensures
            r.program_matrix.len() == 0,
            r.processor_matrix.len() == 0,
            r.instruction_matrix.len() == 0,
            r.input_matrix.len() == 0,
            r.output_matrix.len() == 0,
            r.op_stack_matrix.len() == 0,
            r.ram_matrix.len() == 0,
            r.jump_stack_matrix.len() == 0,
            r.aux_matrix.len() == 0,
            r.u32_op_matrix.len() == 0,
    {
        BaseMatrices {
            program_matrix: Vec::new(),
            processor_matrix: Vec::new(),
            instruction_matrix: Vec::new(),
            input_matrix: Vec::new(),
            output_matrix: Vec::new(),
            op_stack_matrix: Vec::new(),
            ram_matrix: Vec::new(),
            jump_stack_matrix: Vec::new(),
            aux_matrix: Vec::new(),
            u32_op_matrix: Vec::new(),
        }
    }

    /// Whether no trace has more rows than a table can hold.
    pub open spec fn fits(&self, limit: nat) -> bool {
        &&& self.program_matrix.len() <= limit
        &&& self.processor_matrix.len() <= limit
        &&& self.instruction_matrix.len() <= limit
        &&& self.input_matrix.len() <= limit
        &&& self.output_matrix.len() <= limit
        &&& self.op_stack_matrix.len() <= limit
        &&& self.ram_matrix.len() <= limit
        &&& self.jump_stack_matrix.len() <= limit
        &&& self.aux_matrix.len() <= limit
        &&& self.u32_op_matrix.len() <= limit
    }
}

} // verus!
