//! Decimal notation for scalars.

use crate::scalar::Scalar;
use primitive_types::U256;
use vstd::prelude::*;

verus! {

/// The character of a decimal digit.
pub open spec fn digit(d: nat) -> char {
    seq!['0', '1', '2', '3', '4', '5', '6', '7', '8', '9'][d as int]
}

/// The decimal notation of a number: its digits, most significant first,
/// with no leading zero; `0` is written "0".
pub open spec fn decimal(n: nat) -> Seq<char>
    decreases n,
{
    if n < 10 {
        seq![digit(n)]
    } else {
        decimal(n / 10).push(digit(n % 10))
    }
}

/// The decimal notation of a number is never empty.
pub proof fn lemma_decimal_nonempty(n: nat)
    ensures
        decimal(n).len() > 0,
{
}

/// Formats a `U256` with its `Display` impl, which writes the decimal
/// digits of the value, most significant first, and "0" for zero.
#[verifier::external_body]
fn engine_decimal(a: Scalar) -> (r: String)
    ensures
        r@ == decimal(a@),
{
    format!("{}", U256([a.w0, a.w1, a.w2, a.w3]))
}

/// The decimal notation of a scalar.
pub fn scalar_decimal(a: Scalar) -> (r: String)
    ensures
        r@ == decimal(a@),
        r@.len() > 0,
{
    proof {
        lemma_decimal_nonempty(a@);
    }
    engine_decimal(a)
}

} // verus!
