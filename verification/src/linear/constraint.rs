//! Rank-1 constraints: triples of linear combinations.

use crate::linear::model::LinearCombView;
use crate::linear::LinearComb;
use vstd::prelude::*;

verus! {

/// What a constraint is: the three combinations `a`, `b`, `c` of the
/// relation `(a . w) * (b . w) = (c . w)` on a witness `w`.
pub struct ConstraintView {
    pub a: LinearCombView,
    pub b: LinearCombView,
    pub c: LinearCombView,
}

/// One rank-1 relation between three linear combinations.
#[derive(Debug, PartialEq, Eq)]
pub struct Constraint {
    a: LinearComb,
    b: LinearComb,
    c: LinearComb,
}

impl View for Constraint {
    type V = ConstraintView;

    closed spec fn view(&self) -> ConstraintView {
        ConstraintView { a: self.a@, b: self.b@, c: self.c@ }
    }
}

impl Clone for Constraint {
    fn clone(&self) -> (r: Self)
        ensures
            r@ == self@,
    {
        Constraint { a: self.a.clone(), b: self.b.clone(), c: self.c.clone() }
    }
}

impl Constraint {
    /// The constraint `(a . w) * (b . w) = (c . w)`.
    pub fn new(a: LinearComb, b: LinearComb, c: LinearComb) -> (r: Constraint)
        ensures
            r@ == (ConstraintView { a: a@, b: b@, c: c@ }),
    {
        Constraint { a, b, c }
    }

    /// The left factor.
    pub fn a(&self) -> (r: &LinearComb)
        ensures
            r@ == self@.a,
    {
        &self.a
    }

    /// The right factor.
    pub fn b(&self) -> (r: &LinearComb)
        ensures
            r@ == self@.b,
    {
        &self.b
    }

    /// The product.
    pub fn c(&self) -> (r: &LinearComb)
        ensures
            r@ == self@.c,
    {
        &self.c
    }
}

/// The constraints of a list, as the model sees them.
pub open spec fn constraint_views(s: Seq<Constraint>) -> Seq<ConstraintView> {
    s.map_values(|c: Constraint| c@)
}

/// A copy of a list of constraints.
pub fn clone_constraints(list: &Vec<Constraint>) -> (r: Vec<Constraint>)
    ensures
        constraint_views(r@) == constraint_views(list@),
{
    let mut out: Vec<Constraint> = Vec::new();
    let n = list.len();
    let mut i: usize = 0;
    while i < n
        invariant
            i <= n,
            n == list@.len(),
            out@.len() == i,
            forall|j: int| 0 <= j < i ==> out@[j]@ == list@[j]@,
        decreases n - i,
    {
        out.push(list[i].clone());
        i = i + 1;
    }
    assert(constraint_views(out@) =~= constraint_views(list@));
    out
}

} // verus!
