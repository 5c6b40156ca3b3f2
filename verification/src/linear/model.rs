//! The mathematical model of a linear combination: a modulus and a finite
//! map from variable index to coefficient, with the operations on it that
//! the contracts of this crate are stated over.

use crate::decimal::decimal;
use crate::modular::mod_inverse;
use vstd::prelude::*;

verus! {

/// The sequence is strictly increasing.
pub open spec fn ascending(s: Seq<usize>) -> bool {
    forall|i: int, j: int| 0 <= i < j < s.len() ==> s[i] < s[j]
}

/// The elements of a finite set of indices in increasing order.
pub open spec fn sorted_keys(d: Set<usize>) -> Seq<usize> {
    choose|s: Seq<usize>| ascending(s) && s.to_set() == d
}

/// The sum of the pairwise products of two sequences of equal length.
pub open spec fn dot(coeffs: Seq<nat>, values: Seq<nat>) -> nat
    decreases coeffs.len(),
{
    if coeffs.len() == 0 {
        0
    } else {
        dot(coeffs.drop_last(), values.drop_last()) + coeffs.last() * values.last()
    }
}

/// The map that pairing `indexes` with `values` one by one builds, each
/// value reduced modulo `m`; where an index occurs twice the later pair
/// stands.
pub open spec fn paired_terms(indexes: Seq<usize>, values: Seq<nat>, m: nat) -> Map<usize, nat>
    decreases indexes.len(),
{
    if indexes.len() == 0 {
        Map::empty()
    } else {
        paired_terms(indexes.drop_last(), values.drop_last(), m).insert(
            indexes.last(),
            values.last() % m,
        )
    }
}

/// How one term is written: the bare coefficient on the constant wire,
/// `x<index> * <coefficient>` on any other.
pub open spec fn term_text(k: usize, c: nat) -> Seq<char> {
    if k == 0 {
        decimal(c)
    } else {
        seq!['x'] + decimal(k as nat) + seq![' ', '*', ' '] + decimal(c)
    }
}

/// The terms under `keys` written in that order and joined by ` + `, those
/// with coefficient 0 left out.
pub open spec fn terms_text(keys: Seq<usize>, terms: Map<usize, nat>) -> Seq<char>
    decreases keys.len(),
{
    if keys.len() == 0 {
        Seq::empty()
    } else {
        let before = terms_text(keys.drop_last(), terms);
        let k = keys.last();
        if terms[k] == 0 {
            before
        } else if before.len() == 0 {
            term_text(k, terms[k])
        } else {
            before + seq![' ', '+', ' '] + term_text(k, terms[k])
        }
    }
}

/// Where no index occurs twice, pairing puts each reduced value under its
/// own index.
pub proof fn lemma_paired_terms_distinct(indexes: Seq<usize>, values: Seq<nat>, m: nat)
    requires
        m > 0,
        indexes.no_duplicates(),
        indexes.len() == values.len(),
    ensures
        paired_terms(indexes, values, m).dom() == indexes.to_set(),
        forall|j: int|
            0 <= j < indexes.len() ==> #[trigger] paired_terms(indexes, values, m)[indexes[j]]
                == values[j] % m,
    decreases indexes.len(),
{
    if indexes.len() == 0 {
        assert(paired_terms(indexes, values, m).dom() =~= indexes.to_set());
    } else {
        let n = indexes.len() as int;
        let ix = indexes.drop_last();
        let vs = values.drop_last();
        lemma_paired_terms_distinct(ix, vs, m);
        let prev = paired_terms(ix, vs, m);
        let all = paired_terms(indexes, values, m);
        assert(all == prev.insert(indexes[n - 1], values[n - 1] % m));
        assert forall|k: usize| all.dom().contains(k) <==> indexes.to_set().contains(k) by {
            if indexes.contains(k) {
                let j = choose|j: int| 0 <= j < n && indexes[j] == k;
                if j < n - 1 {
                    assert(ix[j] == k);
                    assert(ix.contains(k));
                }
            }
            if ix.contains(k) {
                let j = choose|j: int| 0 <= j < n - 1 && ix[j] == k;
                assert(indexes[j] == k);
            }
            assert(indexes[n - 1] == indexes.last());
        }
        assert(all.dom() =~= indexes.to_set());
        assert forall|j: int| 0 <= j < n implies #[trigger] all[indexes[j]] == values[j] % m by {
            if j < n - 1 {
                assert(indexes[j] != indexes[n - 1]);
                assert(ix[j] == indexes[j]);
                assert(prev[ix[j]] == vs[j] % m);
            }
        }
    }
}

/// A strictly increasing sequence has no element twice.
pub proof fn lemma_ascending_no_duplicates(s: Seq<usize>)
    requires
        ascending(s),
    ensures
        s.no_duplicates(),
        s.len() == s.to_set().len(),
{
    assert forall|i: int, j: int| 0 <= i < s.len() && 0 <= j < s.len() && i != j implies s[i]
        != s[j] by {
        if i < j {
            assert(s[i] < s[j]);
        } else {
            assert(s[j] < s[i]);
        }
    }
    s.unique_seq_to_set();
}

/// Two strictly increasing sequences with the same elements are equal.
pub proof fn lemma_ascending_unique(s: Seq<usize>, t: Seq<usize>)
    requires
        ascending(s),
        ascending(t),
        s.to_set() == t.to_set(),
    ensures
        s == t,
    decreases s.len(),
{
    lemma_ascending_no_duplicates(s);
    lemma_ascending_no_duplicates(t);
    if s.len() == 0 {
        assert(s =~= t);
    } else {
        let n = s.len() as int;
        assert(t.to_set().contains(s[n - 1])) by {
            assert(s.contains(s[n - 1]));
        }
        assert(s.to_set().contains(t[n - 1])) by {
            assert(t.contains(t[n - 1]));
        }
        let i = choose|i: int| 0 <= i < n && t[i] == s[n - 1];
        let j = choose|j: int| 0 <= j < n && s[j] == t[n - 1];
        assert(t[i] == s[n - 1] && s[j] == t[n - 1]);
        if i < n - 1 {
            assert(t[i] < t[n - 1]);
        }
        if j < n - 1 {
            assert(s[j] < s[n - 1]);
        }
        assert(s[n - 1] == t[n - 1]);
        let s0 = s.drop_last();
        let t0 = t.drop_last();
        assert forall|x: usize| s0.to_set().contains(x) <==> t0.to_set().contains(x) by {
            if s0.contains(x) {
                let a = choose|a: int| 0 <= a < s0.len() && s0[a] == x;
                assert(s[a] == x);
                assert(s[a] < s[n - 1]);
                assert(s.contains(x));
                assert(t.to_set().contains(x));
                let b = choose|b: int| 0 <= b < n && t[b] == x;
                assert(t[b] == x);
                assert(b != n - 1);
                assert(t0[b] == x);
            }
            if t0.contains(x) {
                let a = choose|a: int| 0 <= a < t0.len() && t0[a] == x;
                assert(t[a] == x);
                assert(t[a] < t[n - 1]);
                assert(t.contains(x));
                assert(s.to_set().contains(x));
                let b = choose|b: int| 0 <= b < n && s[b] == x;
                assert(s[b] == x);
                assert(b != n - 1);
                assert(s0[b] == x);
            }
        }
        assert(s0.to_set() =~= t0.to_set());
        lemma_ascending_unique(s0, t0);
        assert(s =~= s0.push(s[n - 1]));
        assert(t =~= t0.push(t[n - 1]));
    }
}

/// A strictly increasing sequence is the sorted form of its set of elements.
pub proof fn lemma_sorted_keys(s: Seq<usize>)
    requires
        ascending(s),
    ensures
        sorted_keys(s.to_set()) == s,
{
    let t = sorted_keys(s.to_set());
    assert(ascending(t) && t.to_set() == s.to_set());
    lemma_ascending_unique(t, s);
}

/// The strictly increasing sequence `s` with the index `a` put in its place.
pub open spec fn with_key(s: Seq<usize>, a: usize) -> Seq<usize>
    decreases s.len(),
{
    if s.len() == 0 || s.last() < a {
        s.push(a)
    } else {
        with_key(s.drop_last(), a).push(s.last())
    }
}

/// Putting a new index in its place keeps the sequence strictly
/// increasing and adds the index to its elements.
pub proof fn lemma_with_key(s: Seq<usize>, a: usize)
    requires
        ascending(s),
        !s.contains(a),
    ensures
        ascending(with_key(s, a)),
        with_key(s, a).to_set() == s.to_set().insert(a),
        with_key(s, a).len() == s.len() + 1,
        forall|i: int|
            0 <= i < with_key(s, a).len() ==> (#[trigger] with_key(s, a)[i]) == a || s.contains(
                with_key(s, a)[i],
            ),
    decreases s.len(),
{
    let r = with_key(s, a);
    if s.len() == 0 || s.last() < a {
        assert forall|i: int, j: int| 0 <= i < j < r.len() implies r[i] < r[j] by {
            if j == s.len() {
                assert(s[i] <= s.last());
            }
        }
        assert forall|k: usize| r.to_set().contains(k) <==> s.to_set().insert(a).contains(k) by {
            if r.contains(k) {
                let i = choose|i: int| 0 <= i < r.len() && r[i] == k;
                if i < s.len() {
                    assert(s[i] == k);
                    assert(s.contains(k));
                }
            }
            if s.contains(k) {
                let i = choose|i: int| 0 <= i < s.len() && s[i] == k;
                assert(r[i] == k);
            }
            if k == a {
                assert(r[s.len() as int] == k);
            }
        }
        assert(r.to_set() =~= s.to_set().insert(a));
        assert forall|i: int| 0 <= i < r.len() implies (#[trigger] r[i]) == a || s.contains(
            r[i],
        ) by {
            if i < s.len() {
                assert(s[i] == r[i]);
            }
        }
    } else {
        let n = s.len() as int;
        let s0 = s.drop_last();
        let top = s[n - 1];
        assert(s.contains(top));
        assert(top > a);
        assert(!s0.contains(a)) by {
            if s0.contains(a) {
                let i = choose|i: int| 0 <= i < s0.len() && s0[i] == a;
                assert(s[i] == a);
            }
        }
        lemma_with_key(s0, a);
        let r0 = with_key(s0, a);
        assert(r == r0.push(top));
        assert forall|i: int| 0 <= i < r0.len() implies r0[i] < top by {
            if r0[i] != a {
                assert(s0.contains(r0[i]));
                let j = choose|j: int| 0 <= j < s0.len() && s0[j] == r0[i];
                assert(s[j] < s[n - 1]);
            }
        }
        assert forall|i: int, j: int| 0 <= i < j < r.len() implies r[i] < r[j] by {
            if j < r0.len() {
                assert(r0[i] < r0[j]);
            }
        }
        assert forall|k: usize| r.to_set().contains(k) <==> s.to_set().insert(a).contains(k) by {
            if r.contains(k) {
                let i = choose|i: int| 0 <= i < r.len() && r[i] == k;
                if i < r0.len() {
                    assert(r0[i] == k);
                    assert(r0.contains(k));
                    assert(r0.to_set().contains(k));
                    if k != a {
                        assert(s0.contains(k));
                        let j = choose|j: int| 0 <= j < s0.len() && s0[j] == k;
                        assert(s[j] == k);
                    }
                }
            }
            if s.contains(k) {
                let i = choose|i: int| 0 <= i < s.len() && s[i] == k;
                if i < n - 1 {
                    assert(s0[i] == k);
                    assert(s0.contains(k));
                    assert(r0.to_set().contains(k));
                    let j = choose|j: int| 0 <= j < r0.len() && r0[j] == k;
                    assert(r[j] == k);
                } else {
                    assert(r[r0.len() as int] == k);
                }
            }
            if k == a {
                assert(r0.to_set().contains(a));
                let j = choose|j: int| 0 <= j < r0.len() && r0[j] == a;
                assert(r[j] == a);
            }
        }
        assert(r.to_set() =~= s.to_set().insert(a));
        assert forall|i: int| 0 <= i < r.len() implies (#[trigger] r[i]) == a || s.contains(
            r[i],
        ) by {
            if i < r0.len() {
                if r0[i] != a {
                    assert(s0.contains(r0[i]));
                    let j = choose|j: int| 0 <= j < s0.len() && s0[j] == r0[i];
                    assert(s[j] == r0[i]);
                }
            }
        }
    }
}

/// The elements of a finite set of indices can be put in increasing order.
pub proof fn lemma_sorted_keys_exist(d: Set<usize>)
    requires
        d.finite(),
    ensures
        ascending(sorted_keys(d)),
        sorted_keys(d).to_set() == d,
        sorted_keys(d).len() == d.len(),
    decreases d.len(),
{
    if d.len() == 0 {
        let s = Seq::<usize>::empty();
        assert(d =~= Set::<usize>::empty());
        assert(s.to_set() =~= d);
        assert(ascending(s) && s.to_set() == d);
    } else {
        let a = d.choose();
        let rest = d.remove(a);
        lemma_sorted_keys_exist(rest);
        let s0 = sorted_keys(rest);
        assert(!s0.contains(a)) by {
            if s0.contains(a) {
                assert(s0.to_set().contains(a));
            }
        }
        lemma_with_key(s0, a);
        let s = with_key(s0, a);
        assert(rest.insert(a) =~= d);
        assert(ascending(s) && s.to_set() == d);
    }
    lemma_ascending_no_duplicates(sorted_keys(d));
}

/// What a linear combination is: the modulus of its field and the
/// coefficient of each variable index it mentions.
pub struct LinearCombView {
    pub modulus: nat,
    pub terms: Map<usize, nat>,
}

impl LinearCombView {
    /// The modulus is not zero, the indices are finitely many and every
    /// coefficient is reduced.
    pub open spec fn valid(self) -> bool {
        &&& self.modulus > 0
        &&& self.terms.dom().finite()
        &&& forall|k: usize| #[trigger] self.terms.contains_key(k) ==> self.terms[k] < self.modulus
    }

    /// The combination mentions the same indices as `other`.
    pub open spec fn same_indexes(self, other: LinearCombView) -> bool {
        self.terms.dom() == other.terms.dom()
    }

    /// The constant 1: coefficient 1 on the constant wire, index 0.
    pub open spec fn one(modulus: nat) -> LinearCombView {
        LinearCombView { modulus, terms: Map::empty().insert(0usize, 1nat % modulus) }
    }

    /// The combination built from parallel lists of indices and values.
    pub open spec fn from_lists(modulus: nat, indexes: Seq<usize>, values: Seq<nat>) -> LinearCombView {
        LinearCombView { modulus, terms: paired_terms(indexes, values, modulus) }
    }

    /// The combination built from a map of values, each reduced.
    pub open spec fn from_map(modulus: nat, values: Map<usize, nat>) -> LinearCombView {
        LinearCombView {
            modulus,
            terms: Map::new(|k: usize| values.contains_key(k), |k: usize| values[k] % modulus),
        }
    }

    /// The coefficient-wise sum.
    pub open spec fn plus(self, other: LinearCombView) -> LinearCombView {
        LinearCombView {
            modulus: self.modulus,
            terms: Map::new(
                |k: usize| self.terms.contains_key(k),
                |k: usize| (self.terms[k] + other.terms[k]) % self.modulus,
            ),
        }
    }

    /// The coefficient-wise difference.
    pub open spec fn minus(self, other: LinearCombView) -> LinearCombView {
        LinearCombView {
            modulus: self.modulus,
            terms: Map::new(
                |k: usize| self.terms.contains_key(k),
                |k: usize| ((self.terms[k] - other.terms[k]) % (self.modulus as int)) as nat,
            ),
        }
    }

    /// The coefficient-wise product.
    pub open spec fn times(self, other: LinearCombView) -> LinearCombView {
        LinearCombView {
            modulus: self.modulus,
            terms: Map::new(
                |k: usize| self.terms.contains_key(k),
                |k: usize| (self.terms[k] * other.terms[k]) % self.modulus,
            ),
        }
    }

    /// Every coefficient multiplied by the scalar `s`.
    pub open spec fn scaled(self, s: nat) -> LinearCombView {
        LinearCombView {
            modulus: self.modulus,
            terms: Map::new(
                |k: usize| self.terms.contains_key(k),
                |k: usize| (self.terms[k] * s) % self.modulus,
            ),
        }
    }

    /// Every coefficient multiplied by the inverse of the scalar `s`.
    pub open spec fn divided(self, s: nat) -> LinearCombView {
        self.scaled(mod_inverse(s, self.modulus))
    }

    /// The indices in increasing order.
    pub open spec fn keys(self) -> Seq<usize> {
        sorted_keys(self.terms.dom())
    }

    /// The coefficients in the order of their indices.
    pub open spec fn coefficients(self) -> Seq<nat> {
        self.keys().map_values(|k: usize| self.terms[k])
    }

    /// The canonical text: the non-zero terms in increasing order of index,
    /// then ` | mod ` and the modulus.
    pub open spec fn text(self) -> Seq<char> {
        terms_text(self.keys(), self.terms) + seq![' ', '|', ' ', 'm', 'o', 'd', ' '] + decimal(
            self.modulus,
        )
    }

    /// The value of the linear form on a witness slice that holds one value
    /// for each index, in the order of the indices.
    pub open spec fn eval(self, values: Seq<nat>) -> nat {
        dot(self.coefficients(), values) % self.modulus
    }
}

} // verus!
