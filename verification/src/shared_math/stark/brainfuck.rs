//! The tables of a virtual machine with eight instructions, one data
//! pointer, an input and an output.

pub mod instruction_table;
pub mod io_table;
pub mod memory_table;
pub mod processor_table;
pub mod stark;
pub mod table_collection;
pub mod vm;
