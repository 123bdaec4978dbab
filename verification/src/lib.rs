//! A STARK proof engine and the signature scheme built on it.
//!
//! The crate is layered from the field arithmetic upwards: field elements,
//! polynomials and evaluation domains, the algebraic hash, execution-trace
//! tables and their collections, the transcript, and finally the signature
//! scheme that binds a document to a proof.

pub mod shared_math;
pub mod util_types;
pub mod utils;
