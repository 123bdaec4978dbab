//! The tables, one module per kind, and their collection.

pub mod aux_table;
pub mod base_matrix;
pub mod base_table;
pub mod instruction_table;
pub mod io_table;
pub mod jump_stack_table;
pub mod op_stack_table;
pub mod processor_table;
pub mod program_table;
pub mod ram_table;
pub mod table_collection;
pub mod u32_op_table;
