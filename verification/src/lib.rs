//! An arithmetic-circuit constraint builder over linear combinations of
//! finite-field coefficients.

pub mod decimal;
pub mod error;
pub mod field;
pub mod laws;
pub mod linear;
pub mod modular;
pub mod scalar;
