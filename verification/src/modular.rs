//! The arithmetic of residues that the contracts of this crate speak of:
//! greatest common divisors, modular inverses and when they exist.

use vstd::arithmetic::div_mod::{
    lemma_fundamental_div_mod, lemma_mod_multiples_basic, lemma_mod_multiples_vanish,
    lemma_mul_mod_noop_left, lemma_mul_mod_noop_right, lemma_small_mod, lemma_mod_bound,
    lemma_mod_self_0,
};
use vstd::prelude::*;

verus! {

/// `x` is the inverse of `s` modulo `m`: a residue below `m` whose product
/// with `s` leaves remainder 1.
pub open spec fn is_inverse(s: nat, x: nat, m: nat) -> bool {
    m > 0 && x < m && (s * x) % m == 1
}

/// `s` has an inverse modulo `m`.
pub open spec fn invertible(s: nat, m: nat) -> bool {
    exists|x: nat| is_inverse(s, x, m)
}

/// The inverse of `s` modulo `m`, where there is one.
pub open spec fn mod_inverse(s: nat, m: nat) -> nat {
    choose|x: nat| is_inverse(s, x, m)
}

/// The greatest common divisor, by Euclid's recurrence.
pub open spec fn gcd(a: nat, b: nat) -> nat
    decreases b,
{
    if b == 0 {
        a
    } else {
        gcd(b, a % b)
    }
}

/// Integers `(u, v)` with `a * u + b * v == gcd(a, b)`.
pub open spec fn bezout(a: nat, b: nat) -> (int, int)
    decreases b,
{
    if b == 0 {
        (1, 0)
    } else {
        let (u, v) = bezout(b, a % b);
        (v, u - (a / b) * v)
    }
}

/// A residue has at most one inverse.
pub proof fn lemma_inverse_unique(s: nat, x: nat, y: nat, m: nat)
    requires
        is_inverse(s, x, m),
        is_inverse(s, y, m),
    ensures
        x == y,
{
    let mi = m as int;
    lemma_mul_mod_noop_right(x as int, (s * y) as int, mi);
    lemma_mul_mod_noop_right(y as int, (s * x) as int, mi);
    assert(x * (s * y) == y * (s * x)) by (nonlinear_arith);
    assert((x * 1) % m == x) by {
        lemma_small_mod(x, m);
    }
    assert((y * 1) % m == y) by {
        lemma_small_mod(y, m);
    }
}

/// A multiple of `g` plus a multiple of `g` is a multiple of `g`.
proof fn lemma_combination_divisible(g: int, x: int, y: int, k: int)
    requires
        g > 0,
        x % g == 0,
        y % g == 0,
    ensures
        (k * x + y) % g == 0,
{
    lemma_fundamental_div_mod(x, g);
    lemma_fundamental_div_mod(y, g);
    let q = k * (x / g) + y / g;
    assert(k * x + y == q * g) by (nonlinear_arith)
        requires
            x == g * (x / g),
            y == g * (y / g),
            q == k * (x / g) + y / g,
    ;
    lemma_mod_multiples_basic(q, g);
}

/// The greatest common divisor of two numbers, not both zero, is positive
/// and divides both.
pub proof fn lemma_gcd_divides(a: nat, b: nat)
    requires
        a > 0 || b > 0,
    ensures
        gcd(a, b) > 0,
        a % gcd(a, b) == 0,
        b % gcd(a, b) == 0,
    decreases b,
{
    if b == 0 {
        lemma_mod_self_0(a as int);
    } else {
        lemma_mod_bound(a as int, b as int);
        lemma_gcd_divides(b, a % b);
        let g = gcd(a, b) as int;
        lemma_fundamental_div_mod(a as int, b as int);
        lemma_combination_divisible(g, b as int, (a % b) as int, (a / b) as int);
        assert((a / b) * b + a % b == a) by (nonlinear_arith)
            requires
                a == b * (a / b) + a % b,
        ;
    }
}

/// The pair `bezout(a, b)` combines `a` and `b` into their greatest common
/// divisor.
pub proof fn lemma_bezout(a: nat, b: nat)
    ensures
        a * bezout(a, b).0 + b * bezout(a, b).1 == gcd(a, b),
    decreases b,
{
    if b == 0 {
    } else {
        lemma_mod_bound(a as int, b as int);
        lemma_bezout(b, a % b);
        let (u, v) = bezout(b, a % b);
        let r = (a % b) as int;
        let q = (a / b) as int;
        lemma_fundamental_div_mod(a as int, b as int);
        assert(a * v + b * (u - q * v) == b * u + r * v) by (nonlinear_arith)
            requires
                a == b * q + r,
        ;
    }
}

/// A scalar has an inverse modulo `m` exactly when the modulus is above 1 and
/// the scalar's residue is coprime to it.
pub proof fn lemma_invertible_iff_coprime(s: nat, m: nat)
    requires
        m > 0,
    ensures
        invertible(s, m) <==> (m > 1 && gcd(s % m, m) == 1),
{
    let a = s % m;
    let mi = m as int;
    lemma_mod_bound(s as int, mi);
    if m > 1 && gcd(a, m) == 1 {
        lemma_bezout(a, m);
        let (u, v) = bezout(a, m);
        lemma_mod_bound(u, mi);
        let x = (u % mi) as nat;
        lemma_mul_mod_noop_right(a as int, u, mi);
        assert(a * u == mi * (-v) + 1) by (nonlinear_arith)
            requires
                a * u + m * v == 1,
                mi == m,
        ;
        lemma_mod_multiples_vanish(-v, 1, mi);
        lemma_small_mod(1, m);
        lemma_mul_mod_noop_left(s as int, x as int, mi);
        assert(is_inverse(s, x, m));
    }
    if invertible(s, m) {
        let x = mod_inverse(s, m);
        assert(is_inverse(s, x, m));
        assert(m != 1);
        lemma_gcd_divides(a, m);
        let g = gcd(a, m) as int;
        lemma_mul_mod_noop_left(s as int, x as int, mi);
        let p = (a * x) as int;
        assert(p % mi == 1);
        lemma_fundamental_div_mod(p, mi);
        let q = p / mi;
        lemma_fundamental_div_mod(a as int, g);
        lemma_fundamental_div_mod(mi, g);
        let t = (a as int / g) * x - (mi / g) * q;
        assert(g * t == 1) by (nonlinear_arith)
            requires
                p == mi * q + 1,
                p == a * x,
                a == g * (a as int / g),
                mi == g * (mi / g),
                t == (a as int / g) * x - (mi / g) * q,
        ;
        assert(g == 1) by (nonlinear_arith)
            requires
                g * t == 1,
                g > 0,
        ;
    }
}

/// Multiplying by an invertible scalar and then by its inverse gives back
/// the residue one started from.
pub proof fn lemma_scale_cancels(a: nat, s: nat, m: nat)
    requires
        invertible(s, m),
        a < m,
    ensures
        (((a * s) % m) * mod_inverse(s, m)) % m == a,
{
    let x = mod_inverse(s, m);
    let mi = m as int;
    lemma_mul_mod_noop_left((a * s) as int, x as int, mi);
    assert((a * s) * x == a * (s * x)) by (nonlinear_arith);
    lemma_mul_mod_noop_right(a as int, (s * x) as int, mi);
    assert(a * 1 == a);
    lemma_small_mod(a, m);
}

} // verus!
