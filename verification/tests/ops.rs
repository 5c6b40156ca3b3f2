use r1cs_builder::error::CircuitError;
use r1cs_builder::linear::constraint::Constraint;
use r1cs_builder::linear::ops::{ConstraintOp, Linear, NestingDepth};
use r1cs_builder::linear::LinearComb;
use r1cs_builder::scalar::Scalar;

fn n(x: u64) -> Scalar {
    Scalar::from_u64(x)
}

fn lc(modulus: u64, terms: &[(usize, u64)]) -> LinearComb {
    LinearComb::new(
        n(modulus),
        terms.iter().map(|t| t.0).collect(),
        terms.iter().map(|t| n(t.1)).collect(),
    )
    .unwrap()
}

fn sorted(list: &Vec<usize>) -> Vec<usize> {
    let mut copy = list.clone();
    copy.sort();
    copy
}

fn bookkeeping(result: &LinearComb) -> Constraint {
    Constraint::new(result.clone(), LinearComb::one(result.modulus()), result.clone())
}

#[test]
fn chain_of_the_worked_example() {
    let a = lc(17, &[(1, 3), (2, 2), (3, 1)]);
    let b = lc(17, &[(1, 9), (2, 5), (3, 3)]);

    let c = a.ladd(&b).unwrap();
    assert_eq!(c.linear_comb(), lc(17, &[(1, 12), (2, 7), (3, 4)]));

    let d = c.wmul(&n(9));
    assert_eq!(d.linear_comb(), lc(17, &[(1, 6), (2, 12), (3, 2)]));
    assert_eq!(d.depth(), c.depth());

    let e = d.lsub(&c).unwrap();
    assert_eq!(e.linear_comb(), lc(17, &[(1, 11), (2, 5), (3, 15)]));

    let f = e.wdiv(&n(123)).unwrap();
    assert_eq!(f.linear_comb(), lc(17, &[(1, 7), (2, 14), (3, 8)]));

    let g = f.lpow(&n(13));
    assert_eq!(g.depth(), f.depth() + 1);
    assert_eq!(g.constraints().len(), 13);
}

#[test]
fn depth_counts_the_operations_that_add_a_level() {
    let x = lc(17, &[(1, 3), (2, 2)]);
    let y = lc(17, &[(1, 9), (2, 5)]);
    assert_eq!(x.depth(), 0);
    let sum = x.ladd(&y).unwrap();
    assert_eq!(sum.depth(), 1);
    assert_eq!(sum.wmul(&n(5)).depth(), 1);
    assert_eq!(sum.wdiv(&n(5)).unwrap().depth(), 1);
    assert_eq!(x.wmul(&n(5)).depth(), 0);
    let difference = sum.lsub(&y).unwrap();
    assert_eq!(difference.depth(), 2);
    let product = difference.scalar_mul(&y).unwrap();
    assert_eq!(product.depth(), 3);
    assert_eq!(product.lpow(&n(0)).depth(), 4);
    assert_eq!(product.lpow(&n(1)).depth(), 4);
    assert_eq!(product.lpow(&n(9)).depth(), 4);
    assert_eq!(x.lpow(&n(4)).depth(), 1);
}

#[test]
fn ladd_and_lsub_record_a_bookkeeping_constraint() {
    let x = lc(17, &[(1, 3), (2, 2)]);
    let y = lc(17, &[(1, 9), (2, 16)]);
    let sum = x.ladd(&y).unwrap();
    let expected = lc(17, &[(1, 12), (2, 1)]);
    assert_eq!(sum.linear_comb(), expected);
    assert_eq!(sum.constraint(), bookkeeping(&expected));
    assert_eq!(sum.inner(), x);
    let difference = x.lsub(&y).unwrap();
    let expected = lc(17, &[(1, 11), (2, 3)]);
    assert_eq!(difference.linear_comb(), expected);
    assert_eq!(difference.constraint(), bookkeeping(&expected));
    assert_eq!(difference.inner(), x);
}

#[test]
fn operations_take_any_handle_as_right_operand() {
    let x = lc(17, &[(1, 3), (2, 2)]);
    let y = lc(17, &[(1, 9), (2, 16)]);
    let sum = x.ladd(&y).unwrap();
    let scaled = sum.wmul(&n(2));
    // the right operand lends the combination it carries: {1: 7, 2: 2}
    assert_eq!(x.ladd(&scaled).unwrap().linear_comb(), lc(17, &[(1, 10), (2, 4)]));
    assert_eq!(x.lsub(&scaled).unwrap().linear_comb(), lc(17, &[(1, 13), (2, 0)]));
    let product = x.scalar_mul(&scaled).unwrap();
    assert_eq!(product.linear_comb(), lc(17, &[(1, 4), (2, 4)]));
    assert_eq!(
        product.constraint(),
        Constraint::new(x.clone(), scaled.linear_comb(), lc(17, &[(1, 4), (2, 4)]))
    );
    assert_eq!(product.depth(), 1);
}

#[test]
fn scalar_mul_records_a_multiplication_gate() {
    let x = lc(17, &[(1, 3), (2, 2)]);
    let y = lc(17, &[(1, 9), (2, 16)]);
    let product = x.scalar_mul(&y).unwrap();
    let expected = lc(17, &[(1, 10), (2, 15)]);
    assert_eq!(product.linear_comb(), expected);
    assert_eq!(product.constraint(), Constraint::new(x.clone(), y, expected));
    assert_eq!(product.inner(), x);
}

#[test]
fn operations_refuse_mismatched_operands() {
    let x = lc(17, &[(1, 3), (2, 2)]);
    let other_indexes = lc(17, &[(1, 3), (3, 2)]);
    let other_modulus = lc(19, &[(1, 3), (2, 2)]);
    let both = lc(19, &[(4, 3)]);
    assert_eq!(x.ladd(&other_indexes).err(), Some(CircuitError::ShapeMismatch));
    assert_eq!(x.ladd(&other_modulus).err(), Some(CircuitError::ModulusMismatch));
    assert_eq!(x.ladd(&both).err(), Some(CircuitError::ModulusMismatch));
    assert_eq!(x.lsub(&other_indexes).err(), Some(CircuitError::ShapeMismatch));
    assert_eq!(x.lsub(&other_modulus).err(), Some(CircuitError::ModulusMismatch));
    assert_eq!(x.lsub(&both).err(), Some(CircuitError::ModulusMismatch));
    assert_eq!(x.scalar_mul(&other_indexes).err(), Some(CircuitError::ShapeMismatch));
    assert_eq!(x.scalar_mul(&other_modulus).err(), Some(CircuitError::ModulusMismatch));
    assert_eq!(x.scalar_mul(&both).err(), Some(CircuitError::ModulusMismatch));
}

#[test]
fn wmul_and_wdiv_keep_the_recorded_constraint() {
    let x = lc(17, &[(1, 3), (2, 2)]);
    let y = lc(17, &[(1, 9), (2, 16)]);
    let sum = x.ladd(&y).unwrap();
    let scaled = sum.wmul(&n(2));
    assert_eq!(scaled.linear_comb(), lc(17, &[(1, 7), (2, 2)]));
    assert_eq!(scaled.constraint(), sum.constraint());
    assert_eq!(scaled.inner(), x);
    let divided = scaled.wdiv(&n(2)).unwrap();
    assert_eq!(divided.linear_comb(), sum.linear_comb());
    assert_eq!(divided.constraint(), sum.constraint());
    assert_eq!(divided.inner(), x);
}

#[test]
fn wmul_and_wdiv_of_a_base_combination_scale_it() {
    let x = lc(17, &[(1, 3), (2, 2)]);
    assert_eq!(x.wmul(&n(9)), lc(17, &[(1, 10), (2, 1)]));
    assert_eq!(x.wdiv(&n(4)), Ok(lc(17, &[(1, 5), (2, 9)])));
}

#[test]
fn wdiv_refuses_scalars_without_inverse() {
    let x = lc(17, &[(1, 3), (2, 2)]);
    let sum = x.ladd(&x).unwrap();
    assert_eq!(sum.wdiv(&n(0)).err(), Some(CircuitError::NotInvertible));
    assert_eq!(sum.wdiv(&n(17)).err(), Some(CircuitError::NotInvertible));
    assert_eq!(x.wdiv(&n(0)), Err(CircuitError::NotInvertible));
    let composite = lc(12, &[(1, 3)]);
    assert_eq!(composite.wdiv(&n(8)), Err(CircuitError::NotInvertible));
}

#[test]
fn wise_operations_change_the_handle_in_place() {
    let x = lc(17, &[(1, 3), (2, 2)]);
    let mut sum = x.ladd(&x).unwrap();
    sum.wise_mul_linear_comb(&n(3));
    assert_eq!(sum.linear_comb(), lc(17, &[(1, 1), (2, 12)]));
    assert_eq!(sum.wise_div_linear_comb(&n(3)), Ok(()));
    assert_eq!(sum.linear_comb(), lc(17, &[(1, 6), (2, 4)]));
    assert_eq!(sum.wise_div_linear_comb(&n(0)), Err(CircuitError::NotInvertible));
    assert_eq!(sum.linear_comb(), lc(17, &[(1, 6), (2, 4)]));
    let mut base = x.clone();
    base.wise_mul_linear_comb(&n(2));
    assert_eq!(base, lc(17, &[(1, 6), (2, 4)]));
    assert_eq!(base.wise_div_linear_comb(&n(0)), Err(CircuitError::NotInvertible));
    assert_eq!(base, lc(17, &[(1, 6), (2, 4)]));
}

#[test]
fn handles_expose_the_carried_combination() {
    let x = lc(17, &[(4, 3), (1, 2)]);
    let sum = x.ladd(&x).unwrap();
    assert_eq!(sum.modulus(), n(17));
    assert_eq!(sum.indexes(), vec![1, 4]);
    assert_eq!(sum.scalars(), vec![n(4), n(6)]);
    assert_eq!(sum.terms(), lc(17, &[(1, 4), (4, 6)]).terms());
    assert_eq!(sum.math().characteristic(), n(17));
    assert_eq!(Linear::constraint(&x), Constraint::new(x.clone(), x.clone(), x.clone()));
    assert_eq!(Linear::inner(&x), x);
}

#[test]
fn lpow_with_exponent_zero_is_the_constant_one() {
    let x = lc(17, &[(1, 7), (2, 14), (3, 8)]);
    let p = x.lpow(&n(0));
    assert_eq!(p.linear_comb(), LinearComb::one(n(17)));
    assert!(p.constraints().is_empty());
    let one = LinearComb::one(n(17));
    assert_eq!(p.constraint(), Constraint::new(one.clone(), one.clone(), one));
    assert_eq!(p.inner(), x);
}

#[test]
fn lpow_unrolls_into_one_constraint_for_each_multiplication() {
    let x = lc(17, &[(1, 7), (2, 14), (3, 8)]);
    let one = LinearComb::one(n(17));
    let square = lc(17, &[(1, 15), (2, 9), (3, 13)]);
    let cube = lc(17, &[(1, 3), (2, 7), (3, 2)]);
    let p = x.lpow(&n(3));
    assert_eq!(p.linear_comb(), cube);
    assert_eq!(
        p.constraints(),
        vec![
            Constraint::new(one.clone(), x.clone(), x.clone()),
            Constraint::new(x.clone(), x.clone(), square.clone()),
            Constraint::new(square, x.clone(), cube.clone()),
        ]
    );
    assert_eq!(p.constraint(), Constraint::new(cube, one.clone(), one));
    assert_eq!(x.lpow(&n(1)).linear_comb(), x);
    assert_eq!(x.lpow(&n(13)).linear_comb(), lc(17, &[(1, 6), (2, 5), (3, 9)]));
    for e in 0..20u64 {
        assert_eq!(x.lpow(&n(e)).constraints().len() as u64, e);
    }
}

#[test]
fn lpow_of_a_constant_evaluates_to_the_power_of_its_value() {
    // on the constant wire the witness value is 1, so the form 5 has value 5
    let x = lc(17, &[(0, 5)]);
    let witness = [n(1)];
    let mut expected = 5u64;
    for e in 1..10u64 {
        let p = x.lpow(&n(e));
        assert_eq!(p.linear_comb().get(&witness), Ok(n(expected)));
        expected = expected * 5 % 17;
    }
}

#[test]
fn lpow_of_a_form_with_two_terms_is_no_power_of_its_value() {
    let x = lc(17, &[(1, 1), (2, 1)]);
    let witness = [n(1), n(1)];
    assert_eq!(x.get(&witness), Ok(n(2)));
    // the coefficients are squared one by one: 1 + 1, not (1 + 1)^2
    assert_eq!(x.lpow(&n(2)).linear_comb().get(&witness), Ok(n(2)));
}

#[test]
fn wmul_of_a_power_keeps_its_steps() {
    let x = lc(17, &[(1, 7), (2, 14)]);
    let p = x.lpow(&n(2));
    let scaled = p.wmul(&n(3));
    assert_eq!(scaled.constraints(), p.constraints());
    assert_eq!(scaled.constraint(), p.constraint());
    assert_eq!(scaled.linear_comb(), lc(17, &[(1, 11), (2, 10)]));
}

#[test]
fn r1cs_of_a_base_combination_has_one_constraint() {
    let x = lc(17, &[(1, 3), (5, 2)]);
    let r = x.r1cs();
    assert_eq!(r.constraints(), &vec![Constraint::new(x.clone(), x.clone(), x.clone())]);
    assert_eq!(sorted(r.variables()), vec![1, 5]);
}

#[test]
fn r1cs_walks_every_level_down_to_the_base() {
    let x = lc(17, &[(1, 3), (2, 2)]);
    let y = lc(17, &[(1, 9), (2, 16)]);
    let sum = x.ladd(&y).unwrap();
    let product = sum.scalar_mul(&y).unwrap();
    let difference = product.lsub(&x).unwrap();
    let r = difference.r1cs();
    assert_eq!(r.constraints().len(), difference.depth() + 1);
    assert_eq!(
        r.constraints(),
        &vec![
            difference.constraint(),
            product.constraint(),
            sum.constraint(),
            Constraint::new(x.clone(), x.clone(), x.clone()),
        ]
    );
    assert_ne!(r.constraints()[0], r.constraints()[1]);
    assert_ne!(r.constraints()[1], r.constraints()[2]);
    assert_ne!(r.constraints()[2], r.constraints()[3]);
    assert_eq!(sorted(r.variables()), vec![1, 2]);
}

#[test]
fn r1cs_unites_the_indexes_of_all_levels() {
    let x = lc(17, &[(1, 3), (2, 2)]);
    let p = x.lpow(&n(0));
    // the power level carries the constant one, on index 0
    let r = p.r1cs();
    assert_eq!(r.constraints().len(), 2);
    assert_eq!(sorted(r.variables()), vec![0, 1, 2]);
    let deeper = p.wmul(&n(3)).lpow(&n(2));
    let r = deeper.r1cs();
    assert_eq!(r.constraints().len(), 3);
    assert_eq!(sorted(r.variables()), vec![0, 1, 2]);
}

#[test]
fn r1cs_leaves_out_the_steps_of_a_power() {
    let x = lc(17, &[(1, 7), (2, 14)]);
    let p = x.lpow(&n(5));
    assert_eq!(p.constraints().len(), 5);
    let r = p.r1cs();
    assert_eq!(r.constraints().len(), 2);
    assert_eq!(r.constraints()[0], p.constraint());
}
