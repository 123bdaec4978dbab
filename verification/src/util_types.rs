//! The transcript of a proof and the commitments that it carries.

pub mod merkle_tree;
pub mod proof_stream;
