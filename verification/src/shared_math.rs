//! Field arithmetic and everything that is built on it.

pub mod b_field_element;
pub mod fri_domain;
pub mod mpolynomial;
pub mod other;
pub mod polynomial;
pub mod rescue_prime_regular;
pub mod rescue_prime_stark;
pub mod rpsss;
pub mod stark;
pub mod x_field_element;
pub mod xfri;
