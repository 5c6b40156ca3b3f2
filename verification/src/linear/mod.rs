//! Linear combinations over a finite field: sparse vectors of reduced
//! coefficients, one for each variable index, tagged with their modulus.

pub mod constraint;
pub mod model;
pub mod ops;
pub mod r1cs;
pub mod terms;

use crate::decimal::{lemma_decimal_nonempty, scalar_decimal};
use crate::error::CircuitError;
use crate::field::ModField;
use crate::linear::model::{
    ascending, dot, lemma_ascending_no_duplicates, lemma_paired_terms_distinct, paired_terms, term_text, terms_text, LinearCombView,
};
use crate::linear::terms::{hash_entries, lookup, ordered_keys, store};
use crate::modular::{invertible, mod_inverse};
use crate::scalar::{scalar_values, Scalar};
use std::collections::{BTreeMap, HashMap};
use vstd::arithmetic::div_mod::{lemma_add_mod_noop, lemma_small_mod};
use vstd::prelude::*;
use vstd::string::StringExecFns;

verus! {

/// The coefficients of a map of scalars, as numbers.
pub open spec fn term_values(m: Map<usize, Scalar>) -> Map<usize, nat> {
    Map::new(|k: usize| m.contains_key(k), |k: usize| m[k]@)
}

/// A finite map of scalars below a non-zero modulus is a valid combination.
proof fn lemma_reduced_terms_valid(m: Map<usize, Scalar>, modulus: nat)
    requires
        modulus > 0,
        m.dom().finite(),
        forall|k: usize| #[trigger] m.contains_key(k) ==> m[k]@ < modulus,
    ensures
        (LinearCombView { modulus, terms: term_values(m) }).valid(),
{
    assert(term_values(m).dom() =~= m.dom());
    assert forall|k: usize| #[trigger] term_values(m).contains_key(k) implies term_values(m)[k]
        < modulus by {
        assert(m.contains_key(k));
    }
}

/// How two coefficients under one index are combined.
#[derive(Clone, Copy)]
enum Pairing {
    Sum,
    Difference,
    Product,
}

/// The combination that pairing the coefficients of `a` and `b` gives.
spec fn paired(op: Pairing, a: LinearCombView, b: LinearCombView) -> LinearCombView {
    match op {
        Pairing::Sum => a.plus(b),
        Pairing::Difference => a.minus(b),
        Pairing::Product => a.times(b),
    }
}

/// Whether two lists of indices are the same.
fn same_keys(a: &Vec<usize>, b: &Vec<usize>) -> (r: bool)
    ensures
        r == (a@ == b@),
{
    if a.len() != b.len() {
        return false;
    }
    let n = a.len();
    let mut i: usize = 0;
    while i < n
        invariant
            i <= n,
            n == a@.len(),
            n == b@.len(),
            forall|j: int| 0 <= j < i ==> a@[j] == b@[j],
        decreases n - i,
    {
        if a[i] != b[i] {
            return false;
        }
        i = i + 1;
    }
    assert(a@ =~= b@);
    true
}

/// A linear combination: for each variable index it mentions, a coefficient
/// reduced modulo its modulus. Index 0 is the constant wire.
#[derive(Debug, PartialEq, Eq)]
pub struct LinearComb {
    modulus: Scalar,
    terms: BTreeMap<usize, Scalar>,
}

impl View for LinearComb {
    type V = LinearCombView;

    closed spec fn view(&self) -> LinearCombView {
        LinearCombView { modulus: self.modulus@, terms: term_values(self.terms@) }
    }
}

impl Clone for LinearComb {
    fn clone(&self) -> (r: Self)
        ensures
            r@ == self@,
            r@.valid(),
    {
        proof {
            use_type_invariant(self);
        }
        LinearComb { modulus: self.modulus, terms: self.terms.clone() }
    }
}

impl LinearComb {
    #[verifier::type_invariant]
    spec fn well_formed(self) -> bool {
        self@.valid()
    }

    /// Builds a combination from parallel lists of indices and coefficients,
    /// reducing each coefficient. Lists of different lengths are refused.
    pub fn new(modulus: Scalar, indexes: Vec<usize>, scalars: Vec<Scalar>) -> (r: Result<
        LinearComb,
        CircuitError,
    >)
        requires
            modulus@ != 0,
        ensures
            match r {
                Ok(lc) => {
                    &&& indexes@.len() == scalars@.len()
                    &&& lc@ == LinearCombView::from_lists(
                        modulus@,
                        indexes@,
                        scalar_values(scalars@),
                    )
                    &&& lc@.valid()
                },
                Err(e) => indexes@.len() != scalars@.len() && e == CircuitError::ShapeMismatch,
            },
    {
        broadcast use vstd::std_specs::btree::group_btree_axioms;

        if indexes.len() != scalars.len() {
            return Err(CircuitError::ShapeMismatch);
        }
        let field = ModField::new(modulus);
        let mut terms: BTreeMap<usize, Scalar> = BTreeMap::new();
        let ghost values = scalar_values(scalars@);
        let n = indexes.len();
        let mut i: usize = 0;
        assert(term_values(terms@) =~= paired_terms(indexes@.take(0), values.take(0), modulus@));
        while i < n
            invariant
                i <= n,
                n == indexes@.len(),
                n == scalars@.len(),
                values == scalar_values(scalars@),
                field@ == modulus@,
                modulus@ != 0,
                term_values(terms@) == paired_terms(
                    indexes@.take(i as int),
                    values.take(i as int),
                    modulus@,
                ),
                forall|k: usize| #[trigger] terms@.contains_key(k) ==> terms@[k]@ < modulus@,
            decreases n - i,
        {
            let k = indexes[i];
            let v = field.modulus(scalars[i]);
            let ghost before = terms@;
            store(&mut terms, k, v);
            proof {
                let ix = indexes@.take(i + 1);
                let vs = values.take(i + 1);
                assert(ix.drop_last() =~= indexes@.take(i as int));
                assert(vs.drop_last() =~= values.take(i as int));
                assert(ix.last() == k);
                assert(vs.last() == scalars@[i as int]@);
                assert(term_values(terms@) =~= term_values(before).insert(k, v@));
            }
            i = i + 1;
        }
        proof {
            assert(indexes@.take(n as int) =~= indexes@);
            assert(values.take(n as int) =~= values);
            lemma_reduced_terms_valid(terms@, modulus@);
        }
        Ok(LinearComb { modulus, terms })
    }

    /// The constant 1 over `modulus`: coefficient 1 on the constant wire.
    pub fn one(modulus: Scalar) -> (r: LinearComb)
        requires
            modulus@ != 0,
        ensures
            r@ == LinearCombView::one(modulus@),
            r@.valid(),
    {
        broadcast use vstd::std_specs::btree::group_btree_axioms;

        let field = ModField::new(modulus);
        let unit = field.modulus(Scalar::one());
        let mut terms: BTreeMap<usize, Scalar> = BTreeMap::new();
        store(&mut terms, 0, unit);
        proof {
            assert(term_values(terms@) =~= Map::<usize, nat>::empty().insert(
                0usize,
                1nat % modulus@,
            ));
            lemma_reduced_terms_valid(terms@, modulus@);
        }
        LinearComb { modulus, terms }
    }

    /// The modulus of the combination.
    pub fn modulus(&self) -> (m: Scalar)
        ensures
            m@ == self@.modulus,
            m@ != 0,
            self@.valid(),
    {
        proof {
            use_type_invariant(self);
        }
        self.modulus
    }

    /// The terms of the combination: the coefficient under each index.
    pub fn terms(&self) -> (r: BTreeMap<usize, Scalar>)
        ensures
            term_values(r@) == self@.terms,
    {
        self.terms.clone()
    }

    /// The indices of the combination in increasing order.
    pub fn indexes(&self) -> (r: Vec<usize>)
        ensures
            r@ == self@.keys(),
            ascending(r@),
            r@.len() == self@.terms.dom().len(),
            r@.to_set() == self@.terms.dom(),
    {
        let keys = ordered_keys(&self.terms);
        proof {
            lemma_ascending_no_duplicates(keys@);
            assert(self@.terms.dom() =~= self.terms@.dom());
        }
        keys
    }

    /// The coefficients of the combination in the order of their indices.
    pub fn scalars(&self) -> (r: Vec<Scalar>)
        ensures
            scalar_values(r@) == self@.coefficients(),
            r@.len() == self@.terms.dom().len(),
    {
        let keys = self.indexes();
        let mut out: Vec<Scalar> = Vec::new();
        let n = keys.len();
        let mut i: usize = 0;
        while i < n
            invariant
                i <= n,
                n == keys@.len(),
                keys@ == self@.keys(),
                keys@.to_set() == self@.terms.dom(),
                out@.len() == i,
                forall|j: int| 0 <= j < i ==> out@[j]@ == self@.terms[keys@[j]],
            decreases n - i,
        {
            let k = keys[i];
            assert(keys@.to_set().contains(k)) by {
                assert(keys@.contains(keys@[i as int]));
            }
            let v = match lookup(&self.terms, k) {
                Some(v) => v,
                None => vstd::pervasive::unreached(),
            };
            out.push(v);
            i = i + 1;
        }
        proof {
            assert(scalar_values(out@) =~= self@.coefficients());
        }
        out
    }

    /// The combination over `modulus` that holds `coeffs[j]` under
    /// `keys[j]`, which `target` describes.
    fn rebuild(
        modulus: Scalar,
        keys: Vec<usize>,
        coeffs: Vec<Scalar>,
        Ghost(target): Ghost<Map<usize, nat>>,
    ) -> (r: LinearComb)
        requires
            modulus@ != 0,
            ascending(keys@),
            keys@.len() == coeffs@.len(),
            target.dom() == keys@.to_set(),
            forall|j: int| 0 <= j < keys@.len() ==> target[keys@[j]] == #[trigger] coeffs@[j]@,
            forall|j: int| 0 <= j < keys@.len() ==> (#[trigger] coeffs@[j])@ < modulus@,
        ensures
            r@ == (LinearCombView { modulus: modulus@, terms: target }),
            r@.valid(),
    {
        let ghost ks = keys@;
        let ghost vs = scalar_values(coeffs@);
        match Self::new(modulus, keys, coeffs) {
            Ok(lc) => {
                proof {
                    lemma_ascending_no_duplicates(ks);
                    lemma_paired_terms_distinct(ks, vs, modulus@);
                    let built = paired_terms(ks, vs, modulus@);
                    assert forall|k: usize| built.contains_key(k) implies built[k]
                        == target[k] by {
                        assert(ks.contains(k));
                        let j = choose|j: int| 0 <= j < ks.len() && ks[j] == k;
                        assert(built[ks[j]] == vs[j] % modulus@);
                        assert(target[ks[j]] == vs[j]);
                        lemma_small_mod(vs[j], modulus@);
                    }
                    assert(built =~= target);
                }
                lc
            },
            Err(_) => vstd::pervasive::unreached(),
        }
    }

    /// Builds a combination from a map of coefficients, reducing each.
    pub fn new_terms(modulus: Scalar, terms: HashMap<usize, Scalar>) -> (r: LinearComb)
        requires
            modulus@ != 0,
        ensures
            r@ == LinearCombView::from_map(modulus@, term_values(terms@)),
            r@.valid(),
    {
        let (keys, vals) = hash_entries(&terms);
        let ghost ks = keys@;
        let ghost vs = scalar_values(vals@);
        match Self::new(modulus, keys, vals) {
            Ok(lc) => {
                proof {
                    lemma_paired_terms_distinct(ks, vs, modulus@);
                    let built = paired_terms(ks, vs, modulus@);
                    let wanted = LinearCombView::from_map(modulus@, term_values(terms@)).terms;
                    assert(built.dom() =~= wanted.dom());
                    assert forall|k: usize| built.contains_key(k) implies built[k]
                        == wanted[k] by {
                        assert(ks.contains(k));
                        let j = choose|j: int| 0 <= j < ks.len() && ks[j] == k;
                        assert(built[ks[j]] == vs[j] % modulus@);
                        assert(vals@[j] == terms@[ks[j]]);
                    }
                    assert(built =~= wanted);
                }
                lc
            },
            Err(_) => vstd::pervasive::unreached(),
        }
    }

    /// Evaluates the linear form on a witness slice that holds one value for
    /// each index of the combination, in increasing order of index. A slice
    /// of another length is refused.
    pub fn get(&self, values: &[Scalar]) -> (r: Result<Scalar, CircuitError>)
        ensures
            match r {
                Ok(v) => {
                    &&& values@.len() == self@.terms.dom().len()
                    &&& v@ == self@.eval(scalar_values(values@))
                },
                Err(e) => values@.len() != self@.terms.dom().len() && e
                    == CircuitError::ShapeMismatch,
            },
    {
        let coeffs = self.scalars();
        if coeffs.len() != values.len() {
            return Err(CircuitError::ShapeMismatch);
        }
        let field = self.math();
        let ghost m = self@.modulus;
        let ghost cs = scalar_values(coeffs@);
        let ghost ws = scalar_values(values@);
        let n = coeffs.len();
        let mut acc = Scalar::zero();
        let mut i: usize = 0;
        proof {
            lemma_small_mod(0, m);
        }
        while i < n
            invariant
                i <= n,
                n == coeffs@.len(),
                n == values@.len(),
                m == field@,
                m > 0,
                cs == scalar_values(coeffs@),
                ws == scalar_values(values@),
                acc@ == dot(cs.take(i as int), ws.take(i as int)) % m,
            decreases n - i,
        {
            let product = field.mul(values[i], coeffs[i]);
            let next = field.add(acc, product);
            proof {
                let d = dot(cs.take(i as int), ws.take(i as int));
                let c = coeffs@[i as int]@;
                let w = values@[i as int]@;
                assert(cs.take(i + 1).drop_last() =~= cs.take(i as int));
                assert(ws.take(i + 1).drop_last() =~= ws.take(i as int));
                assert(cs.take(i + 1).last() == c);
                assert(ws.take(i + 1).last() == w);
                assert(dot(cs.take(i + 1), ws.take(i + 1)) == d + c * w);
                assert(w * c == c * w) by (nonlinear_arith);
                lemma_add_mod_noop(d as int, (c * w) as int, m as int);
            }
            acc = next;
            i = i + 1;
        }
        proof {
            assert(cs.take(n as int) =~= cs);
            assert(ws.take(n as int) =~= ws);
        }
        Ok(acc)
    }

    /// The arithmetic of the combination's field.
    pub fn math(&self) -> (f: ModField)
        ensures
            f@ == self@.modulus,
            f@ != 0,
    {
        proof {
            use_type_invariant(self);
        }
        ModField::new(self.modulus)
    }

    /// Multiplies every coefficient by `scalar`.
    pub fn elem_wise_mul(&self, scalar: Scalar) -> (r: LinearComb)
        ensures
            r@ == self@.scaled(scalar@),
            r@.same_indexes(self@),
            r@.valid(),
    {
        let keys = self.indexes();
        let coeffs = self.scalars();
        let field = self.math();
        let ghost m = self@.modulus;
        let n = coeffs.len();
        let mut out: Vec<Scalar> = Vec::new();
        let mut i: usize = 0;
        while i < n
            invariant
                i <= n,
                n == coeffs@.len(),
                m == field@,
                m > 0,
                out@.len() == i,
                forall|j: int| 0 <= j < i ==> (#[trigger] out@[j])@ == (coeffs@[j]@ * scalar@) % m,
                forall|j: int| 0 <= j < i ==> (#[trigger] out@[j])@ < m,
            decreases n - i,
        {
            out.push(field.mul(coeffs[i], scalar));
            i = i + 1;
        }
        proof {
            let target = self@.scaled(scalar@).terms;
            assert(target.dom() =~= self@.terms.dom());
            assert forall|j: int| 0 <= j < keys@.len() implies target[keys@[j]]
                == #[trigger] out@[j]@ by {
                assert(keys@.contains(keys@[j]));
                assert(self@.coefficients()[j] == scalar_values(coeffs@)[j]);
            }
        }
        Self::rebuild(self.modulus, keys, out, Ghost(self@.scaled(scalar@).terms))
    }

    /// Divides every coefficient by `scalar`: multiplies it by the inverse
    /// of `scalar`. A scalar without an inverse is refused.
    pub fn elem_wise_div(&self, scalar: Scalar) -> (r: Result<LinearComb, CircuitError>)
        ensures
            match r {
                Ok(lc) => {
                    &&& invertible(scalar@, self@.modulus)
                    &&& lc@ == self@.divided(scalar@)
                    &&& lc@.same_indexes(self@)
                    &&& lc@.valid()
                },
                Err(e) => !invertible(scalar@, self@.modulus) && e == CircuitError::NotInvertible,
            },
    {
        let field = self.math();
        if !field.is_invertible(scalar) {
            return Err(CircuitError::NotInvertible);
        }
        let keys = self.indexes();
        let coeffs = self.scalars();
        let ghost m = self@.modulus;
        let ghost inv = mod_inverse(scalar@, m);
        let n = coeffs.len();
        let mut out: Vec<Scalar> = Vec::new();
        let mut i: usize = 0;
        while i < n
            invariant
                i <= n,
                n == coeffs@.len(),
                m == field@,
                m > 0,
                invertible(scalar@, m),
                inv == mod_inverse(scalar@, m),
                out@.len() == i,
                forall|j: int| 0 <= j < i ==> (#[trigger] out@[j])@ == (coeffs@[j]@ * inv) % m,
                forall|j: int| 0 <= j < i ==> (#[trigger] out@[j])@ < m,
            decreases n - i,
        {
            out.push(field.div(coeffs[i], scalar));
            i = i + 1;
        }
        proof {
            let target = self@.divided(scalar@).terms;
            assert(target.dom() =~= self@.terms.dom());
            assert forall|j: int| 0 <= j < keys@.len() implies target[keys@[j]]
                == #[trigger] out@[j]@ by {
                assert(keys@.contains(keys@[j]));
                assert(self@.coefficients()[j] == scalar_values(coeffs@)[j]);
            }
        }
        Ok(Self::rebuild(self.modulus, keys, out, Ghost(self@.divided(scalar@).terms)))
    }

    /// Combines the coefficients of two combinations index by index.
    /// Operands that mention different indices are refused first, then
    /// operands over different moduli.
    fn zip_terms(&self, rhs: &LinearComb, op: Pairing) -> (r: Result<LinearComb, CircuitError>)
        ensures
            match r {
                Ok(lc) => {
                    &&& self@.same_indexes(rhs@)
                    &&& self@.modulus == rhs@.modulus
                    &&& lc@ == paired(op, self@, rhs@)
                    &&& lc@.same_indexes(self@)
                    &&& lc@.valid()
                },
                Err(e) => if !self@.same_indexes(rhs@) {
                    e == CircuitError::ShapeMismatch
                } else {
                    self@.modulus != rhs@.modulus && e == CircuitError::ModulusMismatch
                },
            },
    {
        let keys = self.indexes();
        let other_keys = rhs.indexes();
        if !same_keys(&keys, &other_keys) {
            proof {
                if self@.same_indexes(rhs@) {
                    assert(keys@ == other_keys@);
                }
            }
            return Err(CircuitError::ShapeMismatch);
        }
        let modulus = self.modulus();
        if !modulus.same(&rhs.modulus()) {
            return Err(CircuitError::ModulusMismatch);
        }
        let left = self.scalars();
        let right = rhs.scalars();
        let field = self.math();
        let ghost m = self@.modulus;
        let ghost target = paired(op, self@, rhs@).terms;
        let n = left.len();
        let mut out: Vec<Scalar> = Vec::new();
        let mut i: usize = 0;
        while i < n
            invariant
                i <= n,
                n == left@.len(),
                n == right@.len(),
                n == keys@.len(),
                m == field@,
                m > 0,
                m == self@.modulus,
                m == rhs@.modulus,
                keys@ == self@.keys(),
                keys@ == rhs@.keys(),
                keys@.to_set() == self@.terms.dom(),
                scalar_values(left@) == self@.coefficients(),
                scalar_values(right@) == rhs@.coefficients(),
                target == paired(op, self@, rhs@).terms,
                out@.len() == i,
                forall|j: int| 0 <= j < i ==> target[keys@[j]] == #[trigger] out@[j]@,
                forall|j: int| 0 <= j < i ==> (#[trigger] out@[j])@ < m,
            decreases n - i,
        {
            let a = left[i];
            let b = right[i];
            let c = match op {
                Pairing::Sum => field.add(a, b),
                Pairing::Difference => field.sub(a, b),
                Pairing::Product => field.mul(a, b),
            };
            proof {
                let k = keys@[i as int];
                assert(keys@.contains(k));
                assert(self@.coefficients()[i as int] == scalar_values(left@)[i as int]);
                assert(rhs@.coefficients()[i as int] == scalar_values(right@)[i as int]);
                assert(self@.terms.contains_key(k));
                assert(target[k] == c@);
            }
            out.push(c);
            i = i + 1;
        }
        proof {
            assert(target.dom() =~= self@.terms.dom());
        }
        Ok(Self::rebuild(modulus, keys, out, Ghost(target)))
    }

    /// The coefficient-wise sum of two combinations over the same modulus
    /// that mention the same indices.
    pub fn add(self, rhs: LinearComb) -> (r: Result<LinearComb, CircuitError>)
        ensures
            match r {
                Ok(lc) => {
                    &&& self@.same_indexes(rhs@)
                    &&& self@.modulus == rhs@.modulus
                    &&& lc@ == self@.plus(rhs@)
                    &&& lc@.same_indexes(self@)
                    &&& lc@.valid()
                },
                Err(e) => if !self@.same_indexes(rhs@) {
                    e == CircuitError::ShapeMismatch
                } else {
                    self@.modulus != rhs@.modulus && e == CircuitError::ModulusMismatch
                },
            },
    {
        self.zip_terms(&rhs, Pairing::Sum)
    }

    /// The coefficient-wise difference of two combinations over the same
    /// modulus that mention the same indices.
    pub fn sub(self, rhs: LinearComb) -> (r: Result<LinearComb, CircuitError>)
        ensures
            match r {
                Ok(lc) => {
                    &&& self@.same_indexes(rhs@)
                    &&& self@.modulus == rhs@.modulus
                    &&& lc@ == self@.minus(rhs@)
                    &&& lc@.same_indexes(self@)
                    &&& lc@.valid()
                },
                Err(e) => if !self@.same_indexes(rhs@) {
                    e == CircuitError::ShapeMismatch
                } else {
                    self@.modulus != rhs@.modulus && e == CircuitError::ModulusMismatch
                },
            },
    {
        self.zip_terms(&rhs, Pairing::Difference)
    }

    /// The coefficient-wise product of two combinations over the same
    /// modulus that mention the same indices.
    pub fn times(&self, rhs: &LinearComb) -> (r: Result<LinearComb, CircuitError>)
        ensures
            match r {
                Ok(lc) => {
                    &&& self@.same_indexes(rhs@)
                    &&& self@.modulus == rhs@.modulus
                    &&& lc@ == self@.times(rhs@)
                    &&& lc@.same_indexes(self@)
                    &&& lc@.valid()
                },
                Err(e) => if !self@.same_indexes(rhs@) {
                    e == CircuitError::ShapeMismatch
                } else {
                    self@.modulus != rhs@.modulus && e == CircuitError::ModulusMismatch
                },
            },
    {
        self.zip_terms(rhs, Pairing::Product)
    }

    /// The canonical text of the combination: its non-zero terms in
    /// increasing order of index, each written `x<index> * <coefficient>`
    /// (the bare coefficient for index 0) and joined by ` + `, then ` | mod `
    /// and the modulus.
    pub fn to_string(&self) -> (r: String)
        ensures
            r@ == self@.text(),
    {
        let keys = self.indexes();
        let coeffs = self.scalars();
        let ghost terms = self@.terms;
        let n = keys.len();
        let mut out = String::new();
        let mut first = true;
        let mut i: usize = 0;
        while i < n
            invariant
                i <= n,
                n == keys@.len(),
                n == coeffs@.len(),
                keys@ == self@.keys(),
                terms == self@.terms,
                scalar_values(coeffs@) == self@.coefficients(),
                out@ == terms_text(keys@.take(i as int), terms),
                first == (out@.len() == 0),
            decreases n - i,
        {
            let k = keys[i];
            let c = coeffs[i];
            proof {
                assert(keys@.take(i + 1).drop_last() =~= keys@.take(i as int));
                assert(keys@.take(i + 1).last() == k);
                assert(scalar_values(coeffs@)[i as int] == c@);
                assert(self@.coefficients()[i as int] == terms[k]);
                lemma_decimal_nonempty(c@);
            }
            if !c.is_zero() {
                if !first {
                    proof {
                        reveal_strlit(" + ");
                        assert(" + "@ =~= seq![' ', '+', ' ']);
                    }
                    out.append(" + ");
                }
                if k == 0 {
                    let digits = scalar_decimal(c);
                    out.append(digits.as_str());
                } else {
                    proof {
                        reveal_strlit("x");
                        reveal_strlit(" * ");
                        assert("x"@ =~= seq!['x']);
                        assert(" * "@ =~= seq![' ', '*', ' ']);
                    }
                    let ghost before = out@;
                    out.append("x");
                    let name = scalar_decimal(Scalar::from_usize(k));
                    out.append(name.as_str());
                    out.append(" * ");
                    let digits = scalar_decimal(c);
                    out.append(digits.as_str());
                    proof {
                        assert(out@ =~= before + term_text(k, c@));
                    }
                }
                first = false;
            }
            i = i + 1;
        }
        proof {
            assert(keys@.take(n as int) =~= keys@);
            reveal_strlit(" | mod ");
            assert(" | mod "@ =~= seq![' ', '|', ' ', 'm', 'o', 'd', ' ']);
        }
        out.append(" | mod ");
        let digits = scalar_decimal(self.modulus);
        out.append(digits.as_str());
        out
    }
}

} // verus!
