//! The tables of a virtual machine with a stack, a memory, a stack of
//! jumps, a coprocessor for hashing and one for operations on 32-bit words.

pub mod table;
