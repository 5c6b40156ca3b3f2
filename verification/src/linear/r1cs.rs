//! The accumulator of a rank-1 constraint system: constraints in the order
//! in which they were added, and the set of variable indices they touch.

use crate::linear::constraint::{constraint_views, Constraint, ConstraintView};
use vstd::prelude::*;

verus! {

/// What a constraint system is: its constraints in order, and its set of
/// variable indices.
pub struct R1CSView {
    pub constraints: Seq<ConstraintView>,
    pub variables: Set<usize>,
}

/// A rank-1 constraint system under construction.
#[derive(Debug)]
pub struct R1CS {
    constraints: Vec<Constraint>,
    indexes: Vec<usize>,
}

impl View for R1CS {
    type V = R1CSView;

    closed spec fn view(&self) -> R1CSView {
        R1CSView {
            constraints: constraint_views(self.constraints@),
            variables: self.indexes@.to_set(),
        }
    }
}

impl R1CS {
    #[verifier::type_invariant]
    spec fn well_formed(self) -> bool {
        self.indexes@.no_duplicates()
    }

    /// The empty system.
    pub fn new() -> (r: R1CS)
        ensures
            r@.constraints == Seq::<ConstraintView>::empty(),
            r@.variables == Set::<usize>::empty(),
    {
        let r = R1CS { constraints: Vec::new(), indexes: Vec::new() };
        assert(r@.constraints =~= Seq::<ConstraintView>::empty());
        assert(r@.variables =~= Set::<usize>::empty());
        r
    }

    /// Adds a variable index, unless it is there already.
    pub fn add_variable(&mut self, index: usize)
        ensures
            final(self)@.variables == old(self)@.variables.insert(index),
            final(self)@.constraints == old(self)@.constraints,
    {
        proof {
            use_type_invariant(&*self);
        }
        let n = self.indexes.len();
        let mut i: usize = 0;
        let mut found = false;
        while i < n
            invariant
                i <= n,
                n == self.indexes@.len(),
                self.indexes@ == old(self).indexes@,
                self.constraints@ == old(self).constraints@,
                self.indexes@.no_duplicates(),
                found == exists|j: int| 0 <= j < i && self.indexes@[j] == index,
            decreases n - i,
        {
            if self.indexes[i] == index {
                found = true;
            }
            i = i + 1;
        }
        if !found {
            let ghost before = self.indexes@;
            let mut list: Vec<usize> = Vec::new();
            std::mem::swap(&mut list, &mut self.indexes);
            list.push(index);
            proof {
                assert(list@ =~= before.push(index));
                assert forall|a: int, b: int|
                    0 <= a < list@.len() && 0 <= b < list@.len() && a != b implies list@[a]
                    != list@[b] by {
                    if a < before.len() && b < before.len() {
                        assert(before[a] != before[b]);
                    } else if a < before.len() {
                        assert(before.contains(before[a]));
                    } else {
                        assert(before.contains(before[b]));
                    }
                }
            }
            self.indexes = list;
            proof {
                assert(self.indexes@ =~= before.push(index));
                assert forall|k: usize| self.indexes@.to_set().contains(k) <==> before.to_set().insert(
                    index,
                ).contains(k) by {
                    if self.indexes@.contains(k) {
                        let j = choose|j: int| 0 <= j < self.indexes@.len() && self.indexes@[j] == k;
                        if j < before.len() {
                            assert(before[j] == k);
                            assert(before.contains(k));
                        }
                    }
                    if before.contains(k) {
                        let j = choose|j: int| 0 <= j < before.len() && before[j] == k;
                        assert(self.indexes@[j] == k);
                    }
                    if k == index {
                        assert(self.indexes@[before.len() as int] == k);
                    }
                }
                assert(self.indexes@.to_set() =~= before.to_set().insert(index));
            }
        } else {
            proof {
                assert(self.indexes@.contains(index));
                assert(self.indexes@.to_set() =~= self.indexes@.to_set().insert(index));
            }
        }
    }

    /// Adds every index of a list, each unless it is there already.
    pub fn extend_variables(&mut self, indexes: Vec<usize>)
        ensures
            final(self)@.variables == old(self)@.variables.union(indexes@.to_set()),
            final(self)@.constraints == old(self)@.constraints,
    {
        let n = indexes.len();
        let mut i: usize = 0;
        proof {
            assert(indexes@.take(0).to_set() =~= Set::<usize>::empty());
            assert(self@.variables =~= old(self)@.variables.union(indexes@.take(0).to_set()));
        }
        while i < n
            invariant
                i <= n,
                n == indexes@.len(),
                self@.variables == old(self)@.variables.union(indexes@.take(i as int).to_set()),
                self@.constraints == old(self)@.constraints,
            decreases n - i,
        {
            let ghost before = self@.variables;
            self.add_variable(indexes[i]);
            proof {
                let s0 = indexes@.take(i as int);
                let s1 = indexes@.take(i + 1);
                assert(s1 =~= s0.push(indexes@[i as int]));
                assert forall|k: usize| s1.to_set().contains(k) <==> s0.to_set().insert(
                    indexes@[i as int],
                ).contains(k) by {
                    if s1.contains(k) {
                        let j = choose|j: int| 0 <= j < s1.len() && s1[j] == k;
                        if j < s0.len() {
                            assert(s0[j] == k);
                            assert(s0.contains(k));
                        }
                    }
                    if s0.contains(k) {
                        let j = choose|j: int| 0 <= j < s0.len() && s0[j] == k;
                        assert(s1[j] == k);
                    }
                    if k == indexes@[i as int] {
                        assert(s1[i as int] == k);
                    }
                }
                assert(s1.to_set() =~= s0.to_set().insert(indexes@[i as int]));
                assert(self@.variables =~= old(self)@.variables.union(s1.to_set()));
            }
            i = i + 1;
        }
        proof {
            assert(indexes@.take(n as int) =~= indexes@);
        }
    }

    /// Appends a constraint.
    pub fn add_constraint(&mut self, constraint: Constraint)
        ensures
            final(self)@.constraints == old(self)@.constraints.push(constraint@),
            final(self)@.variables == old(self)@.variables,
    {
        proof {
            use_type_invariant(&*self);
        }
        let mut list: Vec<Constraint> = Vec::new();
        std::mem::swap(&mut list, &mut self.constraints);
        list.push(constraint);
        self.constraints = list;
        assert(self@.constraints =~= old(self)@.constraints.push(constraint@));
    }

    /// The constraints, in the order in which they were added.
    pub fn constraints(&self) -> (r: &Vec<Constraint>)
        ensures
            constraint_views(r@) == self@.constraints,
    {
        &self.constraints
    }

    /// The variable indices, each once.
    pub fn variables(&self) -> (r: &Vec<usize>)
        ensures
            r@.to_set() == self@.variables,
            r@.no_duplicates(),
    {
        proof {
            use_type_invariant(self);
        }
        &self.indexes
    }
}

} // verus!
