//! Laws of the algebra of linear combinations and of unrolled powers,
//! stated over the model and proved once for all inputs.

use crate::linear::model::{
    ascending, dot, lemma_sorted_keys, lemma_sorted_keys_exist, LinearCombView,
};
use crate::linear::ops::{lemma_power_comb_shape, power_comb, power_steps};
use crate::modular::{invertible, lemma_scale_cancels};
use vstd::arithmetic::div_mod::{
    lemma_mod_bound, lemma_mul_mod_noop_general, lemma_mul_mod_noop_left,
    lemma_mul_mod_noop_right, lemma_small_mod, lemma_sub_mod_noop,
};
use vstd::arithmetic::power::{lemma_pow1, lemma_pow_distributes, lemma_pow_mod_noop, pow};
use vstd::prelude::*;

verus! {

/// Addition commutes: for combinations over one modulus that mention the
/// same indices, `a + b` is `b + a`.
pub proof fn law_add_commutes(a: LinearCombView, b: LinearCombView)
    requires
        a.valid(),
        b.valid(),
        a.modulus == b.modulus,
        a.same_indexes(b),
    ensures
        a.plus(b) == b.plus(a),
{
    assert(a.plus(b).terms =~= b.plus(a).terms);
}

/// Subtraction undoes addition: for combinations over one modulus that
/// mention the same indices, `(a + b) - b` is `a`.
pub proof fn law_add_then_sub(a: LinearCombView, b: LinearCombView)
    requires
        a.valid(),
        b.valid(),
        a.modulus == b.modulus,
        a.same_indexes(b),
    ensures
        a.plus(b).minus(b) == a,
{
    let m = a.modulus;
    let r = a.plus(b).minus(b);
    assert(r.terms.dom() =~= a.terms.dom());
    assert forall|k: usize| r.terms.contains_key(k) implies r.terms[k] == a.terms[k] by {
        let x = a.terms[k];
        let y = b.terms[k];
        assert(a.terms.contains_key(k));
        assert(b.terms.contains_key(k));
        assert(a.plus(b).terms[k] == (x + y) % m);
        lemma_sub_mod_noop((x + y) as int, y as int, m as int);
        lemma_small_mod(y, m);
        lemma_small_mod(x, m);
    }
    assert(r.terms =~= a.terms);
}

/// Division undoes scaling: multiplying every coefficient by an invertible
/// scalar and then dividing by it gives back the combination.
pub proof fn law_scale_round_trip(a: LinearCombView, s: nat)
    requires
        a.valid(),
        invertible(s, a.modulus),
    ensures
        a.scaled(s).divided(s) == a,
{
    let m = a.modulus;
    let r = a.scaled(s).divided(s);
    assert(r.terms.dom() =~= a.terms.dom());
    assert forall|k: usize| r.terms.contains_key(k) implies r.terms[k] == a.terms[k] by {
        assert(a.terms.contains_key(k));
        assert(a.scaled(s).terms[k] == (a.terms[k] * s) % m);
        lemma_scale_cancels(a.terms[k], s, m);
    }
    assert(r.terms =~= a.terms);
}

/// A power unrolled into `e` multiplications records `e` constraints, and
/// an exponent of 0 gives the constant 1 and no constraint.
pub proof fn law_power_steps_count(x: LinearCombView, e: nat)
    ensures
        power_steps(x, e).len() == e,
        power_comb(x, 0) == LinearCombView::one(x.modulus),
        power_steps(x, 0).len() == 0,
    decreases e,
{
    if e > 0 {
        law_power_steps_count(x, (e - 1) as nat);
    }
}

/// From the first multiplication on, each coefficient of the running
/// product is the power of the coefficient it started from, reduced.
pub proof fn law_power_coefficients(x: LinearCombView, e: nat, k: usize)
    requires
        x.valid(),
        e >= 1,
        x.terms.contains_key(k),
    ensures
        power_comb(x, e).terms.contains_key(k),
        power_comb(x, e).terms[k] == pow(x.terms[k] as int, e) % (x.modulus as int),
    decreases e,
{
    let m = x.modulus;
    let c = x.terms[k];
    lemma_power_comb_shape(x, e);
    if e == 1 {
        lemma_pow1(c as int);
        lemma_small_mod(c, m);
    } else {
        let before = power_comb(x, (e - 1) as nat);
        law_power_coefficients(x, (e - 1) as nat, k);
        assert(power_comb(x, e).terms[k] == (before.terms[k] * c) % m);
        let p = pow(c as int, (e - 1) as nat);
        lemma_mul_mod_noop_left(p, c as int, m as int);
        assert(pow(c as int, e) == c * p) by {
            reveal(pow);
        }
        assert(p * c == c * p) by (nonlinear_arith);
    }
}

/// The coefficients of a combination, each raised to `e` and reduced.
pub open spec fn powered(coeffs: Seq<nat>, e: nat, m: nat) -> Seq<nat> {
    coeffs.map_values(|c: nat| (pow(c as int, e) % (m as int)) as nat)
}

/// Where raising the coefficients to `e` and raising the value of the form
/// to `e` agree on a witness, the power of a combination evaluates on that
/// witness to the power of what the combination evaluates to.
pub proof fn law_power_eval(x: LinearCombView, e: nat, w: Seq<nat>)
    requires
        x.valid(),
        e >= 1,
        dot(powered(x.coefficients(), e, x.modulus), w) % x.modulus == pow(x.eval(w) as int, e) % (
        x.modulus as int),
    ensures
        power_comb(x, e).eval(w) == pow(x.eval(w) as int, e) % (x.modulus as int),
{
    let m = x.modulus;
    let p = power_comb(x, e);
    lemma_power_comb_shape(x, e);
    lemma_sorted_keys_exist(x.terms.dom());
    assert(p.keys() == x.keys());
    assert forall|i: int| 0 <= i < x.keys().len() implies p.coefficients()[i] == powered(
        x.coefficients(),
        e,
        m,
    )[i] by {
        let k = x.keys()[i];
        assert(x.keys().to_set().contains(k)) by {
            assert(x.keys().contains(x.keys()[i]));
        }
        law_power_coefficients(x, e, k);
        lemma_mod_bound(pow(x.terms[k] as int, e), m as int);
    }
    assert(p.coefficients() =~= powered(x.coefficients(), e, m));
}

/// A power with exponent 1 evaluates on every witness to the first power
/// of what the combination evaluates to.
pub proof fn law_power_eval_first(x: LinearCombView, w: Seq<nat>)
    requires
        x.valid(),
    ensures
        power_comb(x, 1).eval(w) == pow(x.eval(w) as int, 1) % (x.modulus as int),
{
    let m = x.modulus;
    lemma_pow1(x.eval(w) as int);
    lemma_mod_bound(dot(x.coefficients(), w) as int, m as int);
    lemma_small_mod(x.eval(w), m);
}

/// A power of a combination with a single term evaluates to the power of
/// what the combination evaluates to on every witness value that is its own
/// power: on 0 and 1 for every exponent, and so on the constant wire, whose
/// value is 1.
pub proof fn law_power_eval_single_term(x: LinearCombView, e: nat, k: usize, v: nat)
    requires
        x.valid(),
        e >= 1,
        x.terms.dom() == set![k],
        pow(v as int, e) % (x.modulus as int) == v % x.modulus,
    ensures
        power_comb(x, e).eval(seq![v]) == pow(x.eval(seq![v]) as int, e) % (x.modulus as int),
{
    let m = x.modulus;
    let mi = m as int;
    let c = x.terms[k];
    let w = seq![v];
    let ks = seq![k];
    assert(ascending(ks));
    assert(ks.to_set() =~= x.terms.dom()) by {
        assert(ks[0] == k);
        assert forall|j: usize| ks.to_set().contains(j) <==> x.terms.dom().contains(j) by {
            if j == k {
                assert(ks[0] == j);
            }
        }
    }
    lemma_sorted_keys(ks);
    assert(x.coefficients() =~= seq![c]);
    let pc = (pow(c as int, e) % mi) as nat;
    lemma_mod_bound(pow(c as int, e), mi);
    assert(powered(x.coefficients(), e, m) =~= seq![pc]);
    assert(seq![c].drop_last() =~= Seq::<nat>::empty());
    assert(seq![pc].drop_last() =~= Seq::<nat>::empty());
    assert(w.drop_last() =~= Seq::<nat>::empty());
    assert(dot(Seq::<nat>::empty(), Seq::<nat>::empty()) == 0);
    assert(seq![c].last() == c && seq![pc].last() == pc && w.last() == v);
    assert(dot(seq![c], w) == c * v);
    assert(dot(seq![pc], w) == pc * v);
    lemma_pow_mod_noop((c * v) as int, e, mi);
    lemma_pow_distributes(c as int, v as int, e);
    lemma_mul_mod_noop_general(pow(c as int, e), pow(v as int, e), mi);
    lemma_mul_mod_noop_right(pc as int, v as int, mi);
    law_power_eval(x, e, w);
}

} // verus!
