//! The failures of circuit construction.

use vstd::prelude::*;

verus! {

/// Why an operation on linear combinations was refused.
#[derive(Clone, Copy, Debug, PartialEq, Eq, Structural)]
pub enum CircuitError {
    /// The two operands are over different moduli.
    ModulusMismatch,
    /// Two lists differ in length, two operands mention different indices,
    /// or a witness slice has the wrong number of values.
    ShapeMismatch,
    /// The scalar to divide by has no inverse modulo the modulus.
    NotInvertible,
}

} // verus!
