//! Arithmetic modulo a fixed modulus, carried out by the `modular_math`
//! engine on `primitive_types::U256` values.

use crate::modular::{
    gcd, invertible, is_inverse, lemma_inverse_unique, lemma_invertible_iff_coprime, mod_inverse,
};
use crate::scalar::Scalar;
use modular_math::mod_math::ModMath;
use primitive_types::U256;
use vstd::arithmetic::div_mod::{lemma_mod_bound, lemma_sub_mod_noop};
use vstd::prelude::*;

verus! {

/// Calls `ModMath::new(m).modulus(a)`, which computes `a % m` on `U256`.
/// `ModMath::new` panics on a zero modulus, which `requires` leaves out.
#[verifier::external_body]
fn engine_reduce(m: Scalar, a: Scalar) -> (r: Scalar)
    requires
        m@ != 0,
    ensures
        r@ == a@ % m@,
{
    let r = ModMath::new(U256([m.w0, m.w1, m.w2, m.w3])).modulus(U256([a.w0, a.w1, a.w2, a.w3]));
    Scalar { w0: r.0[0], w1: r.0[1], w2: r.0[2], w3: r.0[3] }
}

/// Calls `ModMath::new(m).add(a, b)`, which computes `(a + b) % m` and
/// widens to 512 bits where the sum does not fit in 256.
#[verifier::external_body]
fn engine_add(m: Scalar, a: Scalar, b: Scalar) -> (r: Scalar)
    requires
        m@ != 0,
    ensures
        r@ == (a@ + b@) % m@,
{
    let r = ModMath::new(U256([m.w0, m.w1, m.w2, m.w3])).add(
        U256([a.w0, a.w1, a.w2, a.w3]),
        U256([b.w0, b.w1, b.w2, b.w3]),
    );
    Scalar { w0: r.0[0], w1: r.0[1], w2: r.0[2], w3: r.0[3] }
}

/// Calls `ModMath::new(m).sub(a, b)`. For `b <= a` it computes
/// `(a - b) % m`, for `a < b` it computes `(m + a - b) % m`, and it
/// overflows where `b` exceeds `m + a`: `requires` leaves that out. Either
/// way the result is the residue of the difference.
#[verifier::external_body]
fn engine_sub(m: Scalar, a: Scalar, b: Scalar) -> (r: Scalar)
    requires
        m@ != 0,
        b@ <= a@ + m@,
    ensures
        r@ == (a@ - b@) % (m@ as int),
{
    let r = ModMath::new(U256([m.w0, m.w1, m.w2, m.w3])).sub(
        U256([a.w0, a.w1, a.w2, a.w3]),
        U256([b.w0, b.w1, b.w2, b.w3]),
    );
    Scalar { w0: r.0[0], w1: r.0[1], w2: r.0[2], w3: r.0[3] }
}

/// Calls `ModMath::new(m).mul(a, b)`, which reduces both factors and
/// computes the residue of their product, in 512 bits where needed.
#[verifier::external_body]
fn engine_mul(m: Scalar, a: Scalar, b: Scalar) -> (r: Scalar)
    requires
        m@ != 0,
    ensures
        r@ == (a@ * b@) % m@,
{
    let r = ModMath::new(U256([m.w0, m.w1, m.w2, m.w3])).mul(
        U256([a.w0, a.w1, a.w2, a.w3]),
        U256([b.w0, b.w1, b.w2, b.w3]),
    );
    Scalar { w0: r.0[0], w1: r.0[1], w2: r.0[2], w3: r.0[3] }
}

/// `r` is the residue of `a` times an inverse of `b` modulo `m`.
pub open spec fn is_quotient(r: nat, a: nat, b: nat, m: nat) -> bool {
    exists|x: nat| is_inverse(b, x, m) && r == (a * x) % m
}

/// Calls `ModMath::new(m).div(a, b)`, which multiplies `a` by the inverse
/// that `ModMath::inv` finds for `b` with the extended Euclidean algorithm.
/// Where `b` has no inverse the engine panics or divides by zero, so
/// `requires` asks for one.
#[verifier::external_body]
fn engine_div(m: Scalar, a: Scalar, b: Scalar) -> (r: Scalar)
    requires
        invertible(b@, m@),
    ensures
        is_quotient(r@, a@, b@, m@),
{
    let r = ModMath::new(U256([m.w0, m.w1, m.w2, m.w3])).div(
        U256([a.w0, a.w1, a.w2, a.w3]),
        U256([b.w0, b.w1, b.w2, b.w3]),
    );
    Scalar { w0: r.0[0], w1: r.0[1], w2: r.0[2], w3: r.0[3] }
}

/// The ring of residues modulo a fixed non-zero modulus.
pub struct ModField {
    modulus: Scalar,
}

impl View for ModField {
    type V = nat;

    /// The modulus.
    closed spec fn view(&self) -> nat {
        self.modulus@
    }
}

impl ModField {
    #[verifier::type_invariant]
    spec fn well_formed(self) -> bool {
        self.modulus@ != 0
    }

    /// The ring of residues modulo `modulus`.
    pub fn new(modulus: Scalar) -> (f: ModField)
        requires
            modulus@ != 0,
        ensures
            f@ == modulus@,
    {
        ModField { modulus }
    }

    /// The modulus of this ring.
    pub fn characteristic(&self) -> (m: Scalar)
        ensures
            m@ == self@,
            m@ != 0,
    {
        proof {
            use_type_invariant(self);
        }
        self.modulus
    }

    /// The residue of `a`.
    pub fn modulus(&self, a: Scalar) -> (r: Scalar)
        ensures
            self@ != 0,
            r@ == a@ % self@,
            r@ < self@,
    {
        proof {
            use_type_invariant(self);
            lemma_mod_bound(a@ as int, self@ as int);
        }
        engine_reduce(self.modulus, a)
    }

    /// The residue of `a + b`.
    pub fn add(&self, a: Scalar, b: Scalar) -> (r: Scalar)
        ensures
            self@ != 0,
            r@ == (a@ + b@) % self@,
            r@ < self@,
    {
        proof {
            use_type_invariant(self);
            lemma_mod_bound((a@ + b@) as int, self@ as int);
        }
        engine_add(self.modulus, a, b)
    }

    /// The residue of `a - b`.
    pub fn sub(&self, a: Scalar, b: Scalar) -> (r: Scalar)
        ensures
            self@ != 0,
            r@ == (a@ - b@) % (self@ as int),
            r@ < self@,
    {
        proof {
            use_type_invariant(self);
        }
        let ra = engine_reduce(self.modulus, a);
        let rb = engine_reduce(self.modulus, b);
        proof {
            lemma_mod_bound(a@ as int, self@ as int);
            lemma_mod_bound(b@ as int, self@ as int);
            lemma_sub_mod_noop(a@ as int, b@ as int, self@ as int);
            lemma_mod_bound(a@ - b@, self@ as int);
        }
        engine_sub(self.modulus, ra, rb)
    }

    /// The residue of `a * b`.
    pub fn mul(&self, a: Scalar, b: Scalar) -> (r: Scalar)
        ensures
            self@ != 0,
            r@ == (a@ * b@) % self@,
            r@ < self@,
    {
        proof {
            use_type_invariant(self);
            lemma_mod_bound((a@ * b@) as int, self@ as int);
        }
        engine_mul(self.modulus, a, b)
    }

    /// Whether `s` has an inverse in this ring: the modulus is above 1 and
    /// coprime to the residue of `s`.
    pub fn is_invertible(&self, s: Scalar) -> (r: bool)
        ensures
            r == invertible(s@, self@),
    {
        proof {
            use_type_invariant(self);
            lemma_invertible_iff_coprime(s@, self@);
        }
        if self.modulus.is_one() {
            return false;
        }
        let mut x = self.modulus;
        let mut y = engine_reduce(self.modulus, s);
        proof {
            lemma_mod_bound(s@ as int, self@ as int);
            assert(gcd(s@ % self@, self@) == gcd(self@, (s@ % self@) % self@));
            vstd::arithmetic::div_mod::lemma_mod_twice(s@ as int, self@ as int);
        }
        while !y.is_zero()
            invariant
                gcd(x@, y@) == gcd(s@ % self@, self@),
            decreases y@,
        {
            let next = engine_reduce(y, x);
            proof {
                lemma_mod_bound(x@ as int, y@ as int);
            }
            x = y;
            y = next;
        }
        x.is_one()
    }

    /// The quotient of `a` by an invertible `b`: the residue of `a` times the
    /// inverse of `b`.
    pub fn div(&self, a: Scalar, b: Scalar) -> (r: Scalar)
        requires
            invertible(b@, self@),
        ensures
            r@ == (a@ * mod_inverse(b@, self@)) % self@,
            r@ < self@,
    {
        let r = engine_div(self.modulus, a, b);
        proof {
            let x = choose|x: nat| is_inverse(b@, x, self@) && r@ == (a@ * x) % self@;
            assert(is_inverse(b@, x, self@) && r@ == (a@ * x) % self@);
            lemma_inverse_unique(b@, x, mod_inverse(b@, self@), self@);
            lemma_mod_bound((a@ * x) as int, self@ as int);
        }
        r
    }
}

} // verus!
