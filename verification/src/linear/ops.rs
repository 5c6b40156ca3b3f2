//! The operation chain: each algebraic step wraps the handle it was applied
//! to, carries the resulting linear combination and records the rank-1
//! constraint that the step imposes. A handle flattens into a constraint
//! system by walking the chain down to the base combination.

use crate::error::CircuitError;
use crate::field::ModField;
use crate::linear::constraint::{
    clone_constraints, constraint_views, Constraint, ConstraintView,
};
use crate::linear::model::{ascending, LinearCombView};
use crate::linear::r1cs::R1CS;
use crate::linear::{term_values, LinearComb};
use crate::modular::invertible;
use crate::scalar::{scalar_values, Scalar};
use std::collections::BTreeMap;
use vstd::prelude::*;

verus! {

/// What one level of a chain holds: the combination it carries, the
/// constraint that stands for it, and the constraints of its unrolled
/// multiplications (none but at a power level).
pub struct LevelView {
    pub comb: LinearCombView,
    pub constraint: ConstraintView,
    pub steps: Seq<ConstraintView>,
}

/// The level of a base combination: it stands for itself.
pub open spec fn base_level(comb: LinearCombView) -> LevelView {
    LevelView {
        comb,
        constraint: ConstraintView { a: comb, b: comb, c: comb },
        steps: Seq::empty(),
    }
}

/// The level of a sum or a difference: the result, recorded as the product
/// of itself and the constant 1.
pub open spec fn bookkeeping_level(result: LinearCombView) -> LevelView {
    LevelView {
        comb: result,
        constraint: ConstraintView {
            a: result,
            b: LinearCombView::one(result.modulus),
            c: result,
        },
        steps: Seq::empty(),
    }
}

/// The level of a coefficient-wise product: a multiplication gate of its
/// two operands.
pub open spec fn product_level(left: LinearCombView, right: LinearCombView) -> LevelView {
    LevelView {
        comb: left.times(right),
        constraint: ConstraintView { a: left, b: right, c: left.times(right) },
        steps: Seq::empty(),
    }
}

/// The running product after `e` multiplications by `x`, starting from the
/// constant 1. The constant 1 is the identity, so the first product is `x`
/// itself; every later one is coefficient-wise.
pub open spec fn power_comb(x: LinearCombView, e: nat) -> LinearCombView
    decreases e,
{
    if e == 0 {
        LinearCombView::one(x.modulus)
    } else if e == 1 {
        x
    } else {
        power_comb(x, (e - 1) as nat).times(x)
    }
}

/// The constraints of the first `e` multiplications by `x`: each records
/// the running product, `x` and the next running product.
pub open spec fn power_steps(x: LinearCombView, e: nat) -> Seq<ConstraintView>
    decreases e,
{
    if e == 0 {
        Seq::empty()
    } else {
        power_steps(x, (e - 1) as nat).push(
            ConstraintView {
                a: power_comb(x, (e - 1) as nat),
                b: x,
                c: power_comb(x, e),
            },
        )
    }
}

/// The level of a power: the last running product, marked against the
/// constant 1, and the constraints of all the multiplications.
pub open spec fn power_level(x: LinearCombView, e: nat) -> LevelView {
    LevelView {
        comb: power_comb(x, e),
        constraint: ConstraintView {
            a: power_comb(x, e),
            b: LinearCombView::one(x.modulus),
            c: LinearCombView::one(x.modulus),
        },
        steps: power_steps(x, e),
    }
}

/// The levels of a handle whose carried combination was replaced by
/// `comb`. A base combination stands for itself, so its constraint follows;
/// any other level keeps the constraint it recorded.
pub open spec fn rescaled(levels: Seq<LevelView>, comb: LinearCombView) -> Seq<LevelView> {
    if levels.len() == 1 {
        seq![base_level(comb)]
    } else {
        levels.update(
            0,
            LevelView { comb, constraint: levels[0].constraint, steps: levels[0].steps },
        )
    }
}

/// The representative constraints of a chain, outermost level first.
pub open spec fn level_constraints(levels: Seq<LevelView>) -> Seq<ConstraintView> {
    levels.map_values(|l: LevelView| l.constraint)
}

/// The indices that the combinations of a chain mention, over all levels.
pub open spec fn level_variables(levels: Seq<LevelView>) -> Set<usize> {
    Set::new(
        |k: usize|
            exists|i: int| 0 <= i < levels.len() && #[trigger] levels[i].comb.terms.contains_key(k),
    )
}

/// The variables of a chain are those of its outermost level and those of
/// the rest.
pub proof fn lemma_level_variables_split(first: LevelView, rest: Seq<LevelView>)
    ensures
        level_variables(seq![first] + rest) == first.comb.terms.dom().union(
            level_variables(rest),
        ),
{
    let all = seq![first] + rest;
    assert forall|k: usize| level_variables(all).contains(k) <==> first.comb.terms.dom().union(
        level_variables(rest),
    ).contains(k) by {
        if level_variables(all).contains(k) {
            let i = choose|i: int| 0 <= i < all.len() && #[trigger] all[i].comb.terms.contains_key(k);
            if i > 0 {
                assert(rest[i - 1] == all[i]);
                assert(rest[i - 1].comb.terms.contains_key(k));
            }
        }
        if first.comb.terms.dom().contains(k) {
            assert(all[0].comb.terms.contains_key(k));
        }
        if level_variables(rest).contains(k) {
            let i = choose|i: int| 0 <= i < rest.len() && #[trigger] rest[i].comb.terms.contains_key(k);
            assert(all[i + 1] == rest[i]);
            assert(all[i + 1].comb.terms.contains_key(k));
        }
    }
    assert(level_variables(seq![first] + rest) =~= first.comb.terms.dom().union(
        level_variables(rest),
    ));
}

/// The variables of a single level are the indices of its combination.
pub proof fn lemma_level_variables_single(level: LevelView)
    ensures
        level_variables(seq![level]) == level.comb.terms.dom(),
{
    let all = seq![level];
    assert forall|k: usize| level_variables(all).contains(k) <==> level.comb.terms.dom().contains(
        k,
    ) by {
        if level.comb.terms.dom().contains(k) {
            assert(all[0].comb.terms.contains_key(k));
        }
    }
    assert(level_variables(seq![level]) =~= level.comb.terms.dom());
}

/// A running product of a valid combination is over its modulus, and from
/// the first multiplication on it mentions the same indices.
pub proof fn lemma_power_comb_shape(x: LinearCombView, e: nat)
    requires
        x.valid(),
    ensures
        power_comb(x, e).modulus == x.modulus,
        e >= 1 ==> power_comb(x, e).same_indexes(x),
    decreases e,
{
    if e >= 2 {
        lemma_power_comb_shape(x, (e - 1) as nat);
        assert(power_comb(x, e).terms.dom() =~= power_comb(x, (e - 1) as nat).terms.dom());
    }
}

/// How deep a handle is nested: the number of operations between it and
/// the base combination.
pub trait NestingDepth {
    /// The nesting depth.
    spec fn spec_depth(&self) -> nat;

    /// The nesting depth, where it fits the machine's index type.
    fn depth(&self) -> (d: usize)
        requires
            self.spec_depth() <= usize::MAX,
        ensures
            d == self.spec_depth(),
    ;
}

/// A handle of the chain: it carries a linear combination, stands for a
/// constraint and owns the handle it was made from.
pub trait Linear: Sized + Clone + NestingDepth {
    /// The type of the handle this one was made from.
    type Inner;

    /// The levels of the chain, from this handle down to the base.
    spec fn levels(&self) -> Seq<LevelView>;

    /// The levels of a handle of the inner type.
    spec fn inner_levels(inner: Self::Inner) -> Seq<LevelView>;

    /// A chain has one level more than its depth.
    proof fn lemma_levels(&self)
        ensures
            self.levels().len() == self.spec_depth() + 1,
    ;

    /// A clone has the levels of the handle it was cloned from.
    proof fn lemma_clone(&self, other: &Self)
        requires
            cloned(*self, *other),
        ensures
            other.levels() == self.levels(),
            other.spec_depth() == self.spec_depth(),
    ;

    /// The combination this handle carries.
    fn linear_comb(&self) -> (r: LinearComb)
        ensures
            r@ == self.levels()[0].comb,
            r@.valid(),
    ;

    /// The constraint that stands for this handle.
    fn constraint(&self) -> (r: Constraint)
        ensures
            r@ == self.levels()[0].constraint,
    ;

    /// Multiplies every coefficient of the carried combination by `scalar`.
    fn wise_mul_linear_comb(&mut self, scalar: &Scalar)
        ensures
            final(self).levels() == rescaled(
                old(self).levels(),
                old(self).levels()[0].comb.scaled(scalar@),
            ),
            final(self).spec_depth() == old(self).spec_depth(),
    ;

    /// Divides every coefficient of the carried combination by `scalar`,
    /// or leaves the handle as it is where `scalar` has no inverse.
    fn wise_div_linear_comb(&mut self, scalar: &Scalar) -> (r: Result<(), CircuitError>)
        ensures
            final(self).spec_depth() == old(self).spec_depth(),
            match r {
                Ok(_) => {
                    &&& invertible(scalar@, old(self).levels()[0].comb.modulus)
                    &&& final(self).levels() == rescaled(
                        old(self).levels(),
                        old(self).levels()[0].comb.divided(scalar@),
                    )
                },
                Err(e) => {
                    &&& !invertible(scalar@, old(self).levels()[0].comb.modulus)
                    &&& e == CircuitError::NotInvertible
                    &&& final(self).levels() == old(self).levels()
                },
            },
    ;

    /// The modulus of the carried combination.
    fn modulus(&self) -> (m: Scalar)
        ensures
            m@ == self.levels()[0].comb.modulus,
            m@ != 0,
    ;

    /// The indices of the carried combination in increasing order.
    fn indexes(&self) -> (r: Vec<usize>)
        ensures
            r@ == self.levels()[0].comb.keys(),
            ascending(r@),
            r@.to_set() == self.levels()[0].comb.terms.dom(),
    ;

    /// The coefficients of the carried combination in the order of their
    /// indices.
    fn scalars(&self) -> (r: Vec<Scalar>)
        ensures
            scalar_values(r@) == self.levels()[0].comb.coefficients(),
    ;

    /// The terms of the carried combination.
    fn terms(&self) -> (r: BTreeMap<usize, Scalar>)
        ensures
            term_values(r@) == self.levels()[0].comb.terms,
    ;

    /// The handle this one was made from; a base combination hands out
    /// itself.
    fn inner(&self) -> (r: Self::Inner)
        ensures
            Self::inner_levels(r) == if self.spec_depth() == 0 {
                self.levels()
            } else {
                self.levels().drop_first()
            },
    ;

    /// The arithmetic of the carried combination's field.
    fn math(&self) -> (f: ModField)
        ensures
            f@ == self.levels()[0].comb.modulus,
            f@ != 0,
    ;

    /// Adds to `acc` the representative constraint and the indices of every
    /// level, from this handle down to the base.
    fn flatten_into(&self, acc: &mut R1CS)
        ensures
            final(acc)@.constraints == old(acc)@.constraints + level_constraints(self.levels()),
            final(acc)@.variables == old(acc)@.variables.union(level_variables(self.levels())),
    ;
}

/// The operations that extend a chain and the flattening of a chain into a
/// constraint system.
pub trait ConstraintOp: Linear {
    /// The sum of this handle's combination and `rhs`, one level deeper.
    /// Operands over different moduli are refused first, then operands that
    /// mention different indices.
    fn ladd(&self, rhs: &impl Linear) -> (r: Result<AddLC<Self>, CircuitError>)
        ensures
            match r {
                Ok(h) => {
                    &&& self.levels()[0].comb.modulus == rhs.levels()[0].comb.modulus
                    &&& self.levels()[0].comb.same_indexes(rhs.levels()[0].comb)
                    &&& h.levels() == seq![bookkeeping_level(self.levels()[0].comb.plus(rhs.levels()[0].comb))]
                        + self.levels()
                    &&& h.spec_depth() == self.spec_depth() + 1
                },
                Err(e) => if self.levels()[0].comb.modulus != rhs.levels()[0].comb.modulus {
                    e == CircuitError::ModulusMismatch
                } else {
                    !self.levels()[0].comb.same_indexes(rhs.levels()[0].comb) && e == CircuitError::ShapeMismatch
                },
            },
    {
        let left = self.linear_comb();
        let right = rhs.linear_comb();
        if !left.modulus().same(&right.modulus()) {
            return Err(CircuitError::ModulusMismatch);
        }
        let modulus = self.modulus();
        match left.add(right) {
            Ok(result) => {
                let constraint = Constraint::new(
                    result.clone(),
                    LinearComb::one(modulus),
                    result.clone(),
                );
                let inner_op = self.clone();
                proof {
                    self.lemma_clone(&inner_op);
                }
                Ok(AddLC { inner_op, linear_comb: result, constraint })
            },
            Err(e) => Err(e),
        }
    }

    /// This handle with every coefficient of its combination multiplied by
    /// `rhs`: no level and no constraint is added.
    fn wmul(&self, rhs: &Scalar) -> (r: Self)
        ensures
            r.levels() == rescaled(self.levels(), self.levels()[0].comb.scaled(rhs@)),
            r.spec_depth() == self.spec_depth(),
    {
        let mut res = self.clone();
        proof {
            self.lemma_clone(&res);
        }
        res.wise_mul_linear_comb(rhs);
        res
    }

    /// This handle with every coefficient of its combination divided by
    /// `rhs`: no level and no constraint is added. A scalar without an
    /// inverse is refused.
    fn wdiv(&self, rhs: &Scalar) -> (r: Result<Self, CircuitError>)
        ensures
            match r {
                Ok(h) => {
                    &&& invertible(rhs@, self.levels()[0].comb.modulus)
                    &&& h.levels() == rescaled(self.levels(), self.levels()[0].comb.divided(rhs@))
                    &&& h.spec_depth() == self.spec_depth()
                },
                Err(e) => !invertible(rhs@, self.levels()[0].comb.modulus) && e
                    == CircuitError::NotInvertible,
            },
    {
        let mut res = self.clone();
        proof {
            self.lemma_clone(&res);
        }
        match res.wise_div_linear_comb(rhs) {
            Ok(_) => Ok(res),
            Err(e) => Err(e),
        }
    }

    /// The difference of this handle's combination and `rhs`, one level
    /// deeper. Operands over different moduli are refused first, then
    /// operands that mention different indices.
    fn lsub(&self, rhs: &impl Linear) -> (r: Result<SubLC<Self>, CircuitError>)
        ensures
            match r {
                Ok(h) => {
                    &&& self.levels()[0].comb.modulus == rhs.levels()[0].comb.modulus
                    &&& self.levels()[0].comb.same_indexes(rhs.levels()[0].comb)
                    &&& h.levels() == seq![bookkeeping_level(self.levels()[0].comb.minus(rhs.levels()[0].comb))]
                        + self.levels()
                    &&& h.spec_depth() == self.spec_depth() + 1
                },
                Err(e) => if self.levels()[0].comb.modulus != rhs.levels()[0].comb.modulus {
                    e == CircuitError::ModulusMismatch
                } else {
                    !self.levels()[0].comb.same_indexes(rhs.levels()[0].comb) && e == CircuitError::ShapeMismatch
                },
            },
    {
        let left = self.linear_comb();
        let right = rhs.linear_comb();
        if !left.modulus().same(&right.modulus()) {
            return Err(CircuitError::ModulusMismatch);
        }
        let modulus = self.modulus();
        match left.sub(right) {
            Ok(result) => {
                let constraint = Constraint::new(
                    result.clone(),
                    LinearComb::one(modulus),
                    result.clone(),
                );
                let inner_op = self.clone();
                proof {
                    self.lemma_clone(&inner_op);
                }
                Ok(SubLC { inner_op, linear_comb: result, constraint })
            },
            Err(e) => Err(e),
        }
    }

    /// The coefficient-wise product of this handle's combination and `rhs`,
    /// one level deeper, recorded as a multiplication gate. Operands over
    /// different moduli are refused first, then operands that mention
    /// different indices.
    fn scalar_mul(&self, rhs: &impl Linear) -> (r: Result<SmulLC<Self>, CircuitError>)
        ensures
            match r {
                Ok(h) => {
                    &&& self.levels()[0].comb.modulus == rhs.levels()[0].comb.modulus
                    &&& self.levels()[0].comb.same_indexes(rhs.levels()[0].comb)
                    &&& h.levels() == seq![product_level(self.levels()[0].comb, rhs.levels()[0].comb)]
                        + self.levels()
                    &&& h.spec_depth() == self.spec_depth() + 1
                },
                Err(e) => if self.levels()[0].comb.modulus != rhs.levels()[0].comb.modulus {
                    e == CircuitError::ModulusMismatch
                } else {
                    !self.levels()[0].comb.same_indexes(rhs.levels()[0].comb) && e == CircuitError::ShapeMismatch
                },
            },
    {
        let left = self.linear_comb();
        let right = rhs.linear_comb();
        if !left.modulus().same(&right.modulus()) {
            return Err(CircuitError::ModulusMismatch);
        }
        match left.times(&right) {
            Ok(result) => {
                let constraint = Constraint::new(left, right, result.clone());
                let inner_op = self.clone();
                proof {
                    self.lemma_clone(&inner_op);
                }
                Ok(SmulLC { inner_op, linear_comb: result, constraint })
            },
            Err(e) => Err(e),
        }
    }

    /// This handle's combination raised to `exp`, one level deeper. The
    /// power is unrolled into `exp` multiplications by the combination,
    /// starting from the constant 1, and the constraint of each is kept.
    fn lpow(&self, exp: &Scalar) -> (r: PowLC<Self>)
        ensures
            r.levels() == seq![power_level(self.levels()[0].comb, exp@)] + self.levels(),
            r.spec_depth() == self.spec_depth() + 1,
    {
        let base = self.linear_comb();
        let modulus = self.modulus();
        let ghost x = base@;
        let mut result = LinearComb::one(modulus);
        let mut steps: Vec<Constraint> = Vec::new();
        let mut i = Scalar::zero();
        proof {
            assert(constraint_views(steps@) =~= power_steps(x, 0));
        }
        while i.lt(exp)
            invariant
                i@ <= exp@,
                x == base@,
                x.valid(),
                result@ == power_comb(x, i@),
                constraint_views(steps@) == power_steps(x, i@),
            decreases exp@ - i@,
        {
            proof {
                lemma_power_comb_shape(x, i@);
                crate::scalar::lemma_scalar_bound(*exp);
            }
            let next = if i.is_zero() {
                base.clone()
            } else {
                match result.times(&base) {
                    Ok(product) => product,
                    Err(_) => vstd::pervasive::unreached(),
                }
            };
            let ghost before = steps@;
            let step = Constraint::new(result, base.clone(), next.clone());
            steps.push(step);
            proof {
                assert(constraint_views(steps@) =~= constraint_views(before).push(step@));
            }
            result = next;
            i = i.successor();
        }
        let constraint = Constraint::new(
            result.clone(),
            LinearComb::one(modulus),
            LinearComb::one(modulus),
        );
        let inner_op = self.clone();
        proof {
            self.lemma_clone(&inner_op);
        }
        PowLC { inner_op, linear_comb: result, constraint, constraints: steps }
    }

    /// Flattens the chain into a constraint system: the representative
    /// constraint of every level, from this handle down to the base, and
    /// the indices that the combinations of those levels mention.
    fn r1cs(&self) -> (r: R1CS)
        ensures
            r@.constraints == level_constraints(self.levels()),
            r@.constraints.len() == self.spec_depth() + 1,
            r@.variables == level_variables(self.levels()),
    {
        let mut acc = R1CS::new();
        self.flatten_into(&mut acc);
        proof {
            self.lemma_levels();
            assert(acc@.constraints =~= level_constraints(self.levels()));
            assert(acc@.variables =~= level_variables(self.levels()));
        }
        acc
    }
}

/// A sum: the handle it was applied to, the sum and its constraint.
pub struct AddLC<Op: Linear> {
    inner_op: Op,
    linear_comb: LinearComb,
    constraint: Constraint,
}

impl<Op: Linear> AddLC<Op> {
    /// `other` holds a clone of the inner handle and the same combination
    /// and constraints as this handle.
    pub closed spec fn copied_to(&self, other: &Self) -> bool {
        &&& cloned(self.inner_op, other.inner_op)
        &&& other.linear_comb@ == self.linear_comb@
        &&& other.constraint@ == self.constraint@
    }
}

impl<Op: Linear> Clone for AddLC<Op> {
    fn clone(&self) -> (r: Self)
        ensures
            self.copied_to(&r),
    {
        AddLC {
            inner_op: self.inner_op.clone(),
            linear_comb: self.linear_comb.clone(),
            constraint: self.constraint.clone(),
        }
    }
}

impl<Op: Linear> NestingDepth for AddLC<Op> {
    closed spec fn spec_depth(&self) -> nat {
        self.inner_op.spec_depth() + 1
    }

    fn depth(&self) -> (d: usize) {
        self.inner_op.depth() + 1
    }
}

impl<Op: Linear> Linear for AddLC<Op> {
    type Inner = Op;

    closed spec fn levels(&self) -> Seq<LevelView> {
        seq![
            LevelView {
                comb: self.linear_comb@,
                constraint: self.constraint@,
                steps: Seq::empty(),
            },
        ] + self.inner_op.levels()
    }

    open spec fn inner_levels(inner: Op) -> Seq<LevelView> {
        inner.levels()
    }

    proof fn lemma_levels(&self) {
        self.inner_op.lemma_levels();
    }

    proof fn lemma_clone(&self, other: &Self) {
        self.inner_op.lemma_clone(&other.inner_op);
    }

    fn linear_comb(&self) -> (r: LinearComb) {
        self.linear_comb.clone()
    }

    fn constraint(&self) -> (r: Constraint) {
        self.constraint.clone()
    }

    fn wise_mul_linear_comb(&mut self, scalar: &Scalar) {
        proof {
            self.inner_op.lemma_levels();
        }
        self.linear_comb = self.linear_comb.elem_wise_mul(*scalar);
        proof {
            assert(self.levels() =~= rescaled(
                old(self).levels(),
                old(self).levels()[0].comb.scaled(scalar@),
            ));
        }
    }

    fn wise_div_linear_comb(&mut self, scalar: &Scalar) -> (r: Result<(), CircuitError>) {
        proof {
            self.inner_op.lemma_levels();
        }
        match self.linear_comb.elem_wise_div(*scalar) {
            Ok(divided) => {
                self.linear_comb = divided;
                proof {
                    assert(self.levels() =~= rescaled(
                        old(self).levels(),
                        old(self).levels()[0].comb.divided(scalar@),
                    ));
                }
                Ok(())
            },
            Err(e) => Err(e),
        }
    }

    fn modulus(&self) -> (m: Scalar) {
        self.linear_comb.modulus()
    }

    fn indexes(&self) -> (r: Vec<usize>) {
        self.linear_comb.indexes()
    }

    fn scalars(&self) -> (r: Vec<Scalar>) {
        self.linear_comb.scalars()
    }

    fn terms(&self) -> (r: BTreeMap<usize, Scalar>) {
        self.linear_comb.terms()
    }

    fn inner(&self) -> (r: Op) {
        let r = self.inner_op.clone();
        proof {
            self.inner_op.lemma_clone(&r);
            assert(self.levels().drop_first() =~= self.inner_op.levels());
        }
        r
    }

    fn math(&self) -> (f: ModField) {
        self.linear_comb.math()
    }

    fn flatten_into(&self, acc: &mut R1CS) {
        acc.add_constraint(self.constraint.clone());
        acc.extend_variables(self.linear_comb.indexes());
        self.inner_op.flatten_into(acc);
        proof {
            let own = self.levels()[0];
            lemma_level_variables_split(own, self.inner_op.levels());
            assert(level_constraints(self.levels()) =~= seq![own.constraint] + level_constraints(
                self.inner_op.levels(),
            ));
            assert(final(acc)@.constraints =~= old(acc)@.constraints + level_constraints(
                self.levels(),
            ));
            assert(final(acc)@.variables =~= old(acc)@.variables.union(
                level_variables(self.levels()),
            ));
        }
    }
}

impl<Op: ConstraintOp> ConstraintOp for AddLC<Op> {
}

/// A quotient of two handles: the handle it was applied to, the quotient
/// and its constraint.
pub struct SDivLC<Op: Linear> {
    inner_op: Op,
    linear_comb: LinearComb,
    constraint: Constraint,
}

impl<Op: Linear> SDivLC<Op> {
    /// `other` holds a clone of the inner handle and the same combination
    /// and constraints as this handle.
    pub closed spec fn copied_to(&self, other: &Self) -> bool {
        &&& cloned(self.inner_op, other.inner_op)
        &&& other.linear_comb@ == self.linear_comb@
        &&& other.constraint@ == self.constraint@
    }
}

impl<Op: Linear> Clone for SDivLC<Op> {
    fn clone(&self) -> (r: Self)
        ensures
            self.copied_to(&r),
    {
        SDivLC {
            inner_op: self.inner_op.clone(),
            linear_comb: self.linear_comb.clone(),
            constraint: self.constraint.clone(),
        }
    }
}

impl<Op: Linear> NestingDepth for SDivLC<Op> {
    closed spec fn spec_depth(&self) -> nat {
        self.inner_op.spec_depth() + 1
    }

    fn depth(&self) -> (d: usize) {
        self.inner_op.depth() + 1
    }
}

impl<Op: Linear> Linear for SDivLC<Op> {
    type Inner = Op;

    closed spec fn levels(&self) -> Seq<LevelView> {
        seq![
            LevelView {
                comb: self.linear_comb@,
                constraint: self.constraint@,
                steps: Seq::empty(),
            },
        ] + self.inner_op.levels()
    }

    open spec fn inner_levels(inner: Op) -> Seq<LevelView> {
        inner.levels()
    }

    proof fn lemma_levels(&self) {
        self.inner_op.lemma_levels();
    }

    proof fn lemma_clone(&self, other: &Self) {
        self.inner_op.lemma_clone(&other.inner_op);
    }

    fn linear_comb(&self) -> (r: LinearComb) {
        self.linear_comb.clone()
    }

    fn constraint(&self) -> (r: Constraint) {
        self.constraint.clone()
    }

    fn wise_mul_linear_comb(&mut self, scalar: &Scalar) {
        proof {
            self.inner_op.lemma_levels();
        }
        self.linear_comb = self.linear_comb.elem_wise_mul(*scalar);
        proof {
            assert(self.levels() =~= rescaled(
                old(self).levels(),
                old(self).levels()[0].comb.scaled(scalar@),
            ));
        }
    }

    fn wise_div_linear_comb(&mut self, scalar: &Scalar) -> (r: Result<(), CircuitError>) {
        proof {
            self.inner_op.lemma_levels();
        }
        match self.linear_comb.elem_wise_div(*scalar) {
            Ok(divided) => {
                self.linear_comb = divided;
                proof {
                    assert(self.levels() =~= rescaled(
                        old(self).levels(),
                        old(self).levels()[0].comb.divided(scalar@),
                    ));
                }
                Ok(())
            },
            Err(e) => Err(e),
        }
    }

    fn modulus(&self) -> (m: Scalar) {
        self.linear_comb.modulus()
    }

    fn indexes(&self) -> (r: Vec<usize>) {
        self.linear_comb.indexes()
    }

    fn scalars(&self) -> (r: Vec<Scalar>) {
        self.linear_comb.scalars()
    }

    fn terms(&self) -> (r: BTreeMap<usize, Scalar>) {
        self.linear_comb.terms()
    }

    fn inner(&self) -> (r: Op) {
        let r = self.inner_op.clone();
        proof {
            self.inner_op.lemma_clone(&r);
            assert(self.levels().drop_first() =~= self.inner_op.levels());
        }
        r
    }

    fn math(&self) -> (f: ModField) {
        self.linear_comb.math()
    }

    fn flatten_into(&self, acc: &mut R1CS) {
        acc.add_constraint(self.constraint.clone());
        acc.extend_variables(self.linear_comb.indexes());
        self.inner_op.flatten_into(acc);
        proof {
            let own = self.levels()[0];
            lemma_level_variables_split(own, self.inner_op.levels());
            assert(level_constraints(self.levels()) =~= seq![own.constraint] + level_constraints(
                self.inner_op.levels(),
            ));
            assert(final(acc)@.constraints =~= old(acc)@.constraints + level_constraints(
                self.levels(),
            ));
            assert(final(acc)@.variables =~= old(acc)@.variables.union(
                level_variables(self.levels()),
            ));
        }
    }
}

impl<Op: ConstraintOp> ConstraintOp for SDivLC<Op> {
}

/// A coefficient-wise product: the handle it was applied to, the product
/// and its multiplication gate.
pub struct SmulLC<Op: Linear> {
    inner_op: Op,
    linear_comb: LinearComb,
    constraint: Constraint,
}

impl<Op: Linear> SmulLC<Op> {
    /// `other` holds a clone of the inner handle and the same combination
    /// and constraints as this handle.
    pub closed spec fn copied_to(&self, other: &Self) -> bool {
        &&& cloned(self.inner_op, other.inner_op)
        &&& other.linear_comb@ == self.linear_comb@
        &&& other.constraint@ == self.constraint@
    }
}

impl<Op: Linear> Clone for SmulLC<Op> {
    fn clone(&self) -> (r: Self)
        ensures
            self.copied_to(&r),
    {
        SmulLC {
            inner_op: self.inner_op.clone(),
            linear_comb: self.linear_comb.clone(),
            constraint: self.constraint.clone(),
        }
    }
}

impl<Op: Linear> NestingDepth for SmulLC<Op> {
    closed spec fn spec_depth(&self) -> nat {
        self.inner_op.spec_depth() + 1
    }

    fn depth(&self) -> (d: usize) {
        self.inner_op.depth() + 1
    }
}

impl<Op: Linear> Linear for SmulLC<Op> {
    type Inner = Op;

    closed spec fn levels(&self) -> Seq<LevelView> {
        seq![
            LevelView {
                comb: self.linear_comb@,
                constraint: self.constraint@,
                steps: Seq::empty(),
            },
        ] + self.inner_op.levels()
    }

    open spec fn inner_levels(inner: Op) -> Seq<LevelView> {
        inner.levels()
    }

    proof fn lemma_levels(&self) {
        self.inner_op.lemma_levels();
    }

    proof fn lemma_clone(&self, other: &Self) {
        self.inner_op.lemma_clone(&other.inner_op);
    }

    fn linear_comb(&self) -> (r: LinearComb) {
        self.linear_comb.clone()
    }

    fn constraint(&self) -> (r: Constraint) {
        self.constraint.clone()
    }

    fn wise_mul_linear_comb(&mut self, scalar: &Scalar) {
        proof {
            self.inner_op.lemma_levels();
        }
        self.linear_comb = self.linear_comb.elem_wise_mul(*scalar);
        proof {
            assert(self.levels() =~= rescaled(
                old(self).levels(),
                old(self).levels()[0].comb.scaled(scalar@),
            ));
        }
    }

    fn wise_div_linear_comb(&mut self, scalar: &Scalar) -> (r: Result<(), CircuitError>) {
        proof {
            self.inner_op.lemma_levels();
        }
        match self.linear_comb.elem_wise_div(*scalar) {
            Ok(divided) => {
                self.linear_comb = divided;
                proof {
                    assert(self.levels() =~= rescaled(
                        old(self).levels(),
                        old(self).levels()[0].comb.divided(scalar@),
                    ));
                }
                Ok(())
            },
            Err(e) => Err(e),
        }
    }

    fn modulus(&self) -> (m: Scalar) {
        self.linear_comb.modulus()
    }

    fn indexes(&self) -> (r: Vec<usize>) {
        self.linear_comb.indexes()
    }

    fn scalars(&self) -> (r: Vec<Scalar>) {
        self.linear_comb.scalars()
    }

    fn terms(&self) -> (r: BTreeMap<usize, Scalar>) {
        self.linear_comb.terms()
    }

    fn inner(&self) -> (r: Op) {
        let r = self.inner_op.clone();
        proof {
            self.inner_op.lemma_clone(&r);
            assert(self.levels().drop_first() =~= self.inner_op.levels());
        }
        r
    }

    fn math(&self) -> (f: ModField) {
        self.linear_comb.math()
    }

    fn flatten_into(&self, acc: &mut R1CS) {
        acc.add_constraint(self.constraint.clone());
        acc.extend_variables(self.linear_comb.indexes());
        self.inner_op.flatten_into(acc);
        proof {
            let own = self.levels()[0];
            lemma_level_variables_split(own, self.inner_op.levels());
            assert(level_constraints(self.levels()) =~= seq![own.constraint] + level_constraints(
                self.inner_op.levels(),
            ));
            assert(final(acc)@.constraints =~= old(acc)@.constraints + level_constraints(
                self.levels(),
            ));
            assert(final(acc)@.variables =~= old(acc)@.variables.union(
                level_variables(self.levels()),
            ));
        }
    }
}

impl<Op: ConstraintOp> ConstraintOp for SmulLC<Op> {
}

/// A difference: the handle it was applied to, the difference and its
/// constraint.
pub struct SubLC<Op: Linear> {
    inner_op: Op,
    linear_comb: LinearComb,
    constraint: Constraint,
}

impl<Op: Linear> SubLC<Op> {
    /// `other` holds a clone of the inner handle and the same combination
    /// and constraints as this handle.
    pub closed spec fn copied_to(&self, other: &Self) -> bool {
        &&& cloned(self.inner_op, other.inner_op)
        &&& other.linear_comb@ == self.linear_comb@
        &&& other.constraint@ == self.constraint@
    }
}

impl<Op: Linear> Clone for SubLC<Op> {
    fn clone(&self) -> (r: Self)
        ensures
            self.copied_to(&r),
    {
        SubLC {
            inner_op: self.inner_op.clone(),
            linear_comb: self.linear_comb.clone(),
            constraint: self.constraint.clone(),
        }
    }
}

impl<Op: Linear> NestingDepth for SubLC<Op> {
    closed spec fn spec_depth(&self) -> nat {
        self.inner_op.spec_depth() + 1
    }

    fn depth(&self) -> (d: usize) {
        self.inner_op.depth() + 1
    }
}

impl<Op: Linear> Linear for SubLC<Op> {
    type Inner = Op;

    closed spec fn levels(&self) -> Seq<LevelView> {
        seq![
            LevelView {
                comb: self.linear_comb@,
                constraint: self.constraint@,
                steps: Seq::empty(),
            },
        ] + self.inner_op.levels()
    }

    open spec fn inner_levels(inner: Op) -> Seq<LevelView> {
        inner.levels()
    }

    proof fn lemma_levels(&self) {
        self.inner_op.lemma_levels();
    }

    proof fn lemma_clone(&self, other: &Self) {
        self.inner_op.lemma_clone(&other.inner_op);
    }

    fn linear_comb(&self) -> (r: LinearComb) {
        self.linear_comb.clone()
    }

    fn constraint(&self) -> (r: Constraint) {
        self.constraint.clone()
    }

    fn wise_mul_linear_comb(&mut self, scalar: &Scalar) {
        proof {
            self.inner_op.lemma_levels();
        }
        self.linear_comb = self.linear_comb.elem_wise_mul(*scalar);
        proof {
            assert(self.levels() =~= rescaled(
                old(self).levels(),
                old(self).levels()[0].comb.scaled(scalar@),
            ));
        }
    }

    fn wise_div_linear_comb(&mut self, scalar: &Scalar) -> (r: Result<(), CircuitError>) {
        proof {
            self.inner_op.lemma_levels();
        }
        match self.linear_comb.elem_wise_div(*scalar) {
            Ok(divided) => {
                self.linear_comb = divided;
                proof {
                    assert(self.levels() =~= rescaled(
                        old(self).levels(),
                        old(self).levels()[0].comb.divided(scalar@),
                    ));
                }
                Ok(())
            },
            Err(e) => Err(e),
        }
    }

    fn modulus(&self) -> (m: Scalar) {
        self.linear_comb.modulus()
    }

    fn indexes(&self) -> (r: Vec<usize>) {
        self.linear_comb.indexes()
    }

    fn scalars(&self) -> (r: Vec<Scalar>) {
        self.linear_comb.scalars()
    }

    fn terms(&self) -> (r: BTreeMap<usize, Scalar>) {
        self.linear_comb.terms()
    }

    fn inner(&self) -> (r: Op) {
        let r = self.inner_op.clone();
        proof {
            self.inner_op.lemma_clone(&r);
            assert(self.levels().drop_first() =~= self.inner_op.levels());
        }
        r
    }

    fn math(&self) -> (f: ModField) {
        self.linear_comb.math()
    }

    fn flatten_into(&self, acc: &mut R1CS) {
        acc.add_constraint(self.constraint.clone());
        acc.extend_variables(self.linear_comb.indexes());
        self.inner_op.flatten_into(acc);
        proof {
            let own = self.levels()[0];
            lemma_level_variables_split(own, self.inner_op.levels());
            assert(level_constraints(self.levels()) =~= seq![own.constraint] + level_constraints(
                self.inner_op.levels(),
            ));
            assert(final(acc)@.constraints =~= old(acc)@.constraints + level_constraints(
                self.levels(),
            ));
            assert(final(acc)@.variables =~= old(acc)@.variables.union(
                level_variables(self.levels()),
            ));
        }
    }
}

impl<Op: ConstraintOp> ConstraintOp for SubLC<Op> {
}

/// A power: the handle it was applied to, the power, its constraint and the
/// constraints of the multiplications it was unrolled into.
pub struct PowLC<Op: Linear> {
    inner_op: Op,
    linear_comb: LinearComb,
    constraint: Constraint,
    constraints: Vec<Constraint>,
}

impl<Op: Linear> PowLC<Op> {
    /// `other` holds a clone of the inner handle and the same combination
    /// and constraints as this handle.
    pub closed spec fn copied_to(&self, other: &Self) -> bool {
        &&& cloned(self.inner_op, other.inner_op)
        &&& other.linear_comb@ == self.linear_comb@
        &&& other.constraint@ == self.constraint@
        &&& constraint_views(other.constraints@) == constraint_views(self.constraints@)
    }
}

impl<Op: Linear> Clone for PowLC<Op> {
    fn clone(&self) -> (r: Self)
        ensures
            self.copied_to(&r),
    {
        PowLC {
            inner_op: self.inner_op.clone(),
            linear_comb: self.linear_comb.clone(),
            constraint: self.constraint.clone(),
            constraints: clone_constraints(&self.constraints),
        }
    }
}

impl<Op: Linear> NestingDepth for PowLC<Op> {
    closed spec fn spec_depth(&self) -> nat {
        self.inner_op.spec_depth() + 1
    }

    fn depth(&self) -> (d: usize) {
        self.inner_op.depth() + 1
    }
}

impl<Op: Linear> Linear for PowLC<Op> {
    type Inner = Op;

    closed spec fn levels(&self) -> Seq<LevelView> {
        seq![
            LevelView {
                comb: self.linear_comb@,
                constraint: self.constraint@,
                steps: constraint_views(self.constraints@),
            },
        ] + self.inner_op.levels()
    }

    open spec fn inner_levels(inner: Op) -> Seq<LevelView> {
        inner.levels()
    }

    proof fn lemma_levels(&self) {
        self.inner_op.lemma_levels();
    }

    proof fn lemma_clone(&self, other: &Self) {
        self.inner_op.lemma_clone(&other.inner_op);
    }

    fn linear_comb(&self) -> (r: LinearComb) {
        self.linear_comb.clone()
    }

    fn constraint(&self) -> (r: Constraint) {
        self.constraint.clone()
    }

    fn wise_mul_linear_comb(&mut self, scalar: &Scalar) {
        proof {
            self.inner_op.lemma_levels();
        }
        self.linear_comb = self.linear_comb.elem_wise_mul(*scalar);
        proof {
            assert(self.levels() =~= rescaled(
                old(self).levels(),
                old(self).levels()[0].comb.scaled(scalar@),
            ));
        }
    }

    fn wise_div_linear_comb(&mut self, scalar: &Scalar) -> (r: Result<(), CircuitError>) {
        proof {
            self.inner_op.lemma_levels();
        }
        match self.linear_comb.elem_wise_div(*scalar) {
            Ok(divided) => {
                self.linear_comb = divided;
                proof {
                    assert(self.levels() =~= rescaled(
                        old(self).levels(),
                        old(self).levels()[0].comb.divided(scalar@),
                    ));
                }
                Ok(())
            },
            Err(e) => Err(e),
        }
    }

    fn modulus(&self) -> (m: Scalar) {
        self.linear_comb.modulus()
    }

    fn indexes(&self) -> (r: Vec<usize>) {
        self.linear_comb.indexes()
    }

    fn scalars(&self) -> (r: Vec<Scalar>) {
        self.linear_comb.scalars()
    }

    fn terms(&self) -> (r: BTreeMap<usize, Scalar>) {
        self.linear_comb.terms()
    }

    fn inner(&self) -> (r: Op) {
        let r = self.inner_op.clone();
        proof {
            self.inner_op.lemma_clone(&r);
            assert(self.levels().drop_first() =~= self.inner_op.levels());
        }
        r
    }

    fn math(&self) -> (f: ModField) {
        self.linear_comb.math()
    }

    fn flatten_into(&self, acc: &mut R1CS) {
        acc.add_constraint(self.constraint.clone());
        acc.extend_variables(self.linear_comb.indexes());
        self.inner_op.flatten_into(acc);
        proof {
            let own = self.levels()[0];
            lemma_level_variables_split(own, self.inner_op.levels());
            assert(level_constraints(self.levels()) =~= seq![own.constraint] + level_constraints(
                self.inner_op.levels(),
            ));
            assert(final(acc)@.constraints =~= old(acc)@.constraints + level_constraints(
                self.levels(),
            ));
            assert(final(acc)@.variables =~= old(acc)@.variables.union(
                level_variables(self.levels()),
            ));
        }
    }
}

impl<Op: ConstraintOp> ConstraintOp for PowLC<Op> {
}

impl<Op: Linear> PowLC<Op> {
    /// The constraints of the multiplications that the power was unrolled
    /// into, in order.
    pub fn constraints(&self) -> (r: Vec<Constraint>)
        ensures
            constraint_views(r@) == self.levels()[0].steps,
    {
        clone_constraints(&self.constraints)
    }
}

impl NestingDepth for LinearComb {
    open spec fn spec_depth(&self) -> nat {
        0
    }

    fn depth(&self) -> (d: usize) {
        0
    }
}

impl Linear for LinearComb {
    type Inner = LinearComb;

    open spec fn levels(&self) -> Seq<LevelView> {
        seq![base_level(self@)]
    }

    open spec fn inner_levels(inner: LinearComb) -> Seq<LevelView> {
        inner.levels()
    }

    proof fn lemma_levels(&self) {
    }

    proof fn lemma_clone(&self, other: &Self) {
    }

    fn linear_comb(&self) -> (r: LinearComb) {
        self.clone()
    }

    fn constraint(&self) -> (r: Constraint) {
        Constraint::new(self.clone(), self.clone(), self.clone())
    }

    fn wise_mul_linear_comb(&mut self, scalar: &Scalar) {
        let scaled = self.elem_wise_mul(*scalar);
        *self = scaled;
    }

    fn wise_div_linear_comb(&mut self, scalar: &Scalar) -> (r: Result<(), CircuitError>) {
        match self.elem_wise_div(*scalar) {
            Ok(divided) => {
                *self = divided;
                Ok(())
            },
            Err(e) => Err(e),
        }
    }

    fn modulus(&self) -> (m: Scalar) {
        LinearComb::modulus(self)
    }

    fn indexes(&self) -> (r: Vec<usize>) {
        LinearComb::indexes(self)
    }

    fn scalars(&self) -> (r: Vec<Scalar>) {
        LinearComb::scalars(self)
    }

    fn terms(&self) -> (r: BTreeMap<usize, Scalar>) {
        LinearComb::terms(self)
    }

    fn inner(&self) -> (r: LinearComb) {
        self.clone()
    }

    fn math(&self) -> (f: ModField) {
        LinearComb::math(self)
    }

    fn flatten_into(&self, acc: &mut R1CS) {
        acc.add_constraint(Linear::constraint(self));
        acc.extend_variables(LinearComb::indexes(self));
        proof {
            lemma_level_variables_single(base_level(self@));
            assert(level_constraints(self.levels()) =~= seq![base_level(self@).constraint]);
        }
    }
}

impl ConstraintOp for LinearComb {
}

} // verus!
