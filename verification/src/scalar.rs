//! 256-bit unsigned integers held as four 64-bit words.
//!
//! A [`Scalar`] is the value type for moduli, coefficients, witness values and
//! exponents. Its view is the natural number that the four words spell out,
//! least significant word first.

use vstd::prelude::*;

verus! {

/// The weight of the second word: 2^64.
pub open spec fn radix1() -> nat {
    0x1_0000_0000_0000_0000nat
}

/// The weight of the third word: 2^128.
pub open spec fn radix2() -> nat {
    0x1_0000_0000_0000_0000_0000_0000_0000_0000nat
}

/// The weight of the fourth word: 2^192.
pub open spec fn radix3() -> nat {
    0x1_0000_0000_0000_0000_0000_0000_0000_0000_0000_0000_0000_0000nat
}

/// The largest value a [`Scalar`] can hold: 2^256 - 1.
pub open spec fn scalar_max() -> nat {
    0xffff_ffff_ffff_ffff_ffff_ffff_ffff_ffff_ffff_ffff_ffff_ffff_ffff_ffff_ffff_ffffnat
}

/// The number spelled by four words, least significant first.
pub open spec fn words_value(w0: u64, w1: u64, w2: u64, w3: u64) -> nat {
    (w0 as nat) + (w1 as nat) * radix1() + (w2 as nat) * radix2() + (w3 as nat) * radix3()
}

/// A 256-bit unsigned integer.
#[derive(Clone, Copy, Debug, PartialEq, Eq, Hash, Structural)]
pub struct Scalar {
    pub w0: u64,
    pub w1: u64,
    pub w2: u64,
    pub w3: u64,
}

impl View for Scalar {
    type V = nat;

    open spec fn view(&self) -> nat {
        words_value(self.w0, self.w1, self.w2, self.w3)
    }
}

/// The values of a sequence of scalars.
pub open spec fn scalar_values(s: Seq<Scalar>) -> Seq<nat> {
    s.map_values(|x: Scalar| x@)
}

/// Two scalars with the same value have the same words.
pub proof fn lemma_scalar_view_injective(a: Scalar, b: Scalar)
    requires
        a@ == b@,
    ensures
        a == b,
{
    assert(a.w3 == b.w3);
    assert(a.w2 == b.w2);
    assert(a.w1 == b.w1);
    assert(a.w0 == b.w0);
}

/// Every scalar is at most `scalar_max()`.
pub proof fn lemma_scalar_bound(a: Scalar)
    ensures
        a@ <= scalar_max(),
{
}

impl Scalar {
    /// The scalar 0.
    pub fn zero() -> (r: Scalar)
        ensures
            r@ == 0,
    {
        Scalar { w0: 0, w1: 0, w2: 0, w3: 0 }
    }

    /// The scalar 1.
    pub fn one() -> (r: Scalar)
        ensures
            r@ == 1,
    {
        Scalar { w0: 1, w1: 0, w2: 0, w3: 0 }
    }

    /// The scalar with the value of a 64-bit integer.
    pub fn from_u64(x: u64) -> (r: Scalar)
        ensures
            r@ == x,
    {
        Scalar { w0: x, w1: 0, w2: 0, w3: 0 }
    }

    /// The scalar with the value of a machine-sized index.
    pub fn from_usize(x: usize) -> (r: Scalar)
        ensures
            r@ == x,
    {
        Scalar { w0: x as u64, w1: 0, w2: 0, w3: 0 }
    }

    /// The scalar spelled by four words, least significant first.
    pub fn from_limbs(limbs: [u64; 4]) -> (r: Scalar)
        ensures
            r@ == words_value(limbs[0], limbs[1], limbs[2], limbs[3]),
            r.w0 == limbs[0],
            r.w1 == limbs[1],
            r.w2 == limbs[2],
            r.w3 == limbs[3],
    {
        Scalar { w0: limbs[0], w1: limbs[1], w2: limbs[2], w3: limbs[3] }
    }

    /// The four words of the scalar, least significant first.
    pub fn to_limbs(&self) -> (limbs: [u64; 4])
        ensures
            limbs[0] == self.w0,
            limbs[1] == self.w1,
            limbs[2] == self.w2,
            limbs[3] == self.w3,
    {
        [self.w0, self.w1, self.w2, self.w3]
    }

    /// Whether the scalar is 0.
    pub fn is_zero(&self) -> (r: bool)
        ensures
            r == (self@ == 0),
    {
        self.w0 == 0 && self.w1 == 0 && self.w2 == 0 && self.w3 == 0
    }

    /// Whether the scalar is 1.
    pub fn is_one(&self) -> (r: bool)
        ensures
            r == (self@ == 1),
    {
        self.w0 == 1 && self.w1 == 0 && self.w2 == 0 && self.w3 == 0
    }

    /// Whether two scalars have the same value.
    pub fn same(&self, other: &Scalar) -> (r: bool)
        ensures
            r == (self@ == other@),
            r == (*self == *other),
    {
        proof {
            if self@ == other@ {
                lemma_scalar_view_injective(*self, *other);
            }
        }
        self.w0 == other.w0 && self.w1 == other.w1 && self.w2 == other.w2 && self.w3 == other.w3
    }

    /// Whether this scalar is strictly smaller than another.
    pub fn lt(&self, other: &Scalar) -> (r: bool)
        ensures
            r == (self@ < other@),
    {
        if self.w3 != other.w3 {
            self.w3 < other.w3
        } else if self.w2 != other.w2 {
            self.w2 < other.w2
        } else if self.w1 != other.w1 {
            self.w1 < other.w1
        } else {
            self.w0 < other.w0
        }
    }

    /// The next scalar.
    pub fn successor(&self) -> (r: Scalar)
        requires
            self@ < scalar_max(),
        ensures
            r@ == self@ + 1,
    {
        if self.w0 < u64::MAX {
            Scalar { w0: self.w0 + 1, w1: self.w1, w2: self.w2, w3: self.w3 }
        } else if self.w1 < u64::MAX {
            Scalar { w0: 0, w1: self.w1 + 1, w2: self.w2, w3: self.w3 }
        } else if self.w2 < u64::MAX {
            Scalar { w0: 0, w1: 0, w2: self.w2 + 1, w3: self.w3 }
        } else {
            Scalar { w0: 0, w1: 0, w2: 0, w3: self.w3 + 1 }
        }
    }
}

} // verus!
