//! Access to the ordered map of terms: lookup, insertion and the keys in
//! increasing order.

use crate::linear::model::{ascending, lemma_sorted_keys, sorted_keys};
use crate::scalar::Scalar;
use std::collections::{BTreeMap, HashMap};
use vstd::prelude::*;
use vstd::std_specs::btree::{axiom_increasing_seq_meaning, increasing_seq, spec_btree_map_iter};
use vstd::std_specs::cmp::OrdSpec;
use vstd::std_specs::hash::spec_hash_map_iter;
use vstd::std_specs::iter::IteratorSpec;

verus! {

/// The coefficient stored under index `k`, if there is one.
pub(crate) fn lookup(terms: &BTreeMap<usize, Scalar>, k: usize) -> (r: Option<Scalar>)
    ensures
        match r {
            Some(v) => terms@.contains_key(k) && terms@[k] == v,
            None => !terms@.contains_key(k),
        },
{
    broadcast use vstd::std_specs::btree::group_btree_axioms;
    broadcast use vstd::laws_cmp::group_laws_cmp;

    match terms.get(&k) {
        Some(v) => Some(*v),
        None => None,
    }
}

/// Stores coefficient `v` under index `k`, replacing what stood there.
pub(crate) fn store(terms: &mut BTreeMap<usize, Scalar>, k: usize, v: Scalar)
    ensures
        final(terms)@ == old(terms)@.insert(k, v),
{
    broadcast use vstd::std_specs::btree::group_btree_axioms;
    broadcast use vstd::laws_cmp::group_laws_cmp;

    let _ = terms.insert(k, v);
}

/// The entries of a hash map as parallel lists of indices and coefficients,
/// in the order in which the map hands them out. Each index of the map
/// occurs once.
pub(crate) fn hash_entries(map: &HashMap<usize, Scalar>) -> (r: (Vec<usize>, Vec<Scalar>))
    ensures
        r.0@.len() == r.1@.len(),
        r.0@.no_duplicates(),
        r.0@.to_set() == map@.dom(),
        forall|j: int| 0 <= j < r.0@.len() ==> r.1@[j] == #[trigger] map@[r.0@[j]],
{
    broadcast use vstd::std_specs::hash::group_hash_axioms;

    let mut keys: Vec<usize> = Vec::new();
    let mut vals: Vec<Scalar> = Vec::new();
    for kv in it: map.iter()
        invariant
            keys@.len() == it.index(),
            vals@.len() == it.index(),
            forall|i: int| 0 <= i < keys@.len() ==> keys@[i] == *it.seq()[i].0,
            forall|i: int| 0 <= i < vals@.len() ==> vals@[i] == *it.seq()[i].1,
            it.seq() == spec_hash_map_iter(map).remaining(),
            it.seq().no_duplicates(),
    {
        let (k, v) = kv;
        keys.push(*k);
        vals.push(*v);
    }
    proof {
        let v = spec_hash_map_iter(map).remaining();
        assert forall|i: int, j: int|
            0 <= i < keys@.len() && 0 <= j < keys@.len() && i != j implies keys@[i] != keys@[j] by {
            assert(map@.contains_key(*v[i].0) && map@[*v[i].0] == *v[i].1);
            assert(map@.contains_key(*v[j].0) && map@[*v[j].0] == *v[j].1);
            if keys@[i] == keys@[j] {
                assert(v[i] == v[j]);
            }
        }
        assert forall|k: usize| map@.dom().contains(k) implies keys@.to_set().contains(k) by {
            assert(map@.contains_key(k));
            assert(v.contains((&k, &map@[k])));
            let i = choose|i: int| 0 <= i < v.len() && v[i] == (&k, &map@[k]);
            assert(keys@[i] == k);
        }
        assert forall|k: usize| keys@.to_set().contains(k) implies map@.dom().contains(k) by {
            let i = choose|i: int| 0 <= i < keys@.len() && keys@[i] == k;
            assert(map@.contains_key(*v[i].0));
        }
        assert(keys@.to_set() =~= map@.dom());
        assert forall|j: int| 0 <= j < keys@.len() implies vals@[j] == #[trigger] map@[keys@[j]] by {
            assert(map@.contains_key(*v[j].0) && map@[*v[j].0] == *v[j].1);
        }
    }
    (keys, vals)
}

/// The indices of the map in increasing order.
pub(crate) fn ordered_keys(terms: &BTreeMap<usize, Scalar>) -> (r: Vec<usize>)
    ensures
        ascending(r@),
        r@.to_set() == terms@.dom(),
        r@ == sorted_keys(terms@.dom()),
{
    broadcast use vstd::std_specs::btree::group_btree_axioms;
    broadcast use vstd::laws_cmp::group_laws_cmp;

    let mut out: Vec<usize> = Vec::new();
    for kv in it: terms.iter()
        invariant
            out@.len() == it.index(),
            forall|i: int| 0 <= i < out@.len() ==> out@[i] == *it.seq()[i].0,
            it.seq() == spec_btree_map_iter(terms).remaining(),
            increasing_seq(it.seq().map_values(|kv: (&usize, &Scalar)| *kv.0)),
    {
        let (k, _v) = kv;
        out.push(*k);
    }
    proof {
        let v = spec_btree_map_iter(terms).remaining();
        let ks = v.map_values(|kv: (&usize, &Scalar)| *kv.0);
        assert(out@ =~= ks);
        axiom_increasing_seq_meaning::<usize>(ks);
        assert forall|i: int, j: int| 0 <= i < j < out@.len() implies out@[i] < out@[j] by {
            assert(ks[i].cmp_spec(&ks[j]) is Less);
        }
        assert forall|k: usize| terms@.dom().contains(k) implies out@.to_set().contains(k) by {
            assert(terms@.contains_key(k));
            assert(v.contains((&k, &terms@[k])));
            let i = choose|i: int| 0 <= i < v.len() && v[i] == (&k, &terms@[k]);
            assert(out@[i] == k);
        }
        assert forall|k: usize| out@.to_set().contains(k) implies terms@.dom().contains(k) by {
            let i = choose|i: int| 0 <= i < out@.len() && out@[i] == k;
            assert(terms@.contains_key(*v[i].0));
        }
        assert(out@.to_set() =~= terms@.dom());
        lemma_sorted_keys(out@);
    }
    out
}

} // verus!
