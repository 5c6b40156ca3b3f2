use std::collections::{BTreeMap, HashMap};

use r1cs_builder::error::CircuitError;
use r1cs_builder::linear::LinearComb;
use r1cs_builder::scalar::Scalar;

fn n(x: u64) -> Scalar {
    Scalar::from_u64(x)
}

fn lc(modulus: u64, terms: &[(usize, u64)]) -> LinearComb {
    LinearComb::new(
        n(modulus),
        terms.iter().map(|t| t.0).collect(),
        terms.iter().map(|t| n(t.1)).collect(),
    )
    .unwrap()
}

#[test]
fn new_reduces_coefficients() {
    let a = lc(17, &[(1, 214), (2, 12412), (3, 5645)]);
    assert_eq!(a.modulus(), n(17));
    assert_eq!(a.indexes(), vec![1, 2, 3]);
    assert_eq!(a.scalars(), vec![n(10), n(2), n(1)]);
    assert_eq!(a, lc(17, &[(1, 10), (2, 2), (3, 1)]));
}

#[test]
fn new_orders_indexes_and_keeps_the_later_of_two_equal_ones() {
    let a = lc(17, &[(5, 1), (2, 2), (9, 3), (2, 4)]);
    assert_eq!(a.indexes(), vec![2, 5, 9]);
    assert_eq!(a.scalars(), vec![n(4), n(1), n(3)]);
    let terms: BTreeMap<usize, Scalar> = a.terms();
    assert_eq!(terms, BTreeMap::from([(2, n(4)), (5, n(1)), (9, n(3))]));
}

#[test]
fn new_refuses_lists_of_different_lengths() {
    let r = LinearComb::new(n(17), vec![1, 2], vec![n(1)]);
    assert_eq!(r, Err(CircuitError::ShapeMismatch));
    let r = LinearComb::new(n(17), vec![], vec![n(1)]);
    assert_eq!(r, Err(CircuitError::ShapeMismatch));
}

#[test]
fn new_terms_reduces_coefficients() {
    let a = LinearComb::new_terms(
        n(17),
        HashMap::from([(3usize, n(5645)), (1usize, n(214)), (2usize, n(12412))]),
    );
    assert_eq!(a, lc(17, &[(1, 10), (2, 2), (3, 1)]));
    let empty = LinearComb::new_terms(n(17), HashMap::new());
    assert_eq!(empty.indexes(), Vec::<usize>::new());
}

#[test]
fn one_is_the_constant_wire() {
    let one = LinearComb::one(n(17));
    assert_eq!(one.indexes(), vec![0]);
    assert_eq!(one.scalars(), vec![n(1)]);
    assert_eq!(one, lc(17, &[(0, 1)]));
    assert_eq!(LinearComb::one(n(1)).scalars(), vec![n(0)]);
}

#[test]
fn get_evaluates_the_linear_form() {
    let a = lc(17, &[(1, 3), (2, 2), (3, 1)]);
    // 3 * 4 + 2 * 5 + 1 * 6 = 28 = 11 mod 17
    assert_eq!(a.get(&[n(4), n(5), n(6)]), Ok(n(11)));
    // witness values need not be reduced: 3 * 21 + 2 * 22 + 1 * 23 = 130 = 11 mod 17
    assert_eq!(a.get(&[n(21), n(22), n(23)]), Ok(n(11)));
    assert_eq!(a.get(&[n(0), n(0), n(0)]), Ok(n(0)));
    let empty = lc(17, &[]);
    assert_eq!(empty.get(&[]), Ok(n(0)));
}

#[test]
fn get_pairs_values_with_indexes_in_increasing_order() {
    let a = lc(17, &[(9, 1), (4, 2)]);
    // index 4 comes first: 2 * 10 + 1 * 3 = 23 = 6 mod 17
    assert_eq!(a.get(&[n(10), n(3)]), Ok(n(6)));
}

#[test]
fn get_refuses_a_slice_of_the_wrong_length() {
    let a = lc(17, &[(1, 3), (2, 2), (3, 1)]);
    assert_eq!(a.get(&[n(4), n(5)]), Err(CircuitError::ShapeMismatch));
    assert_eq!(a.get(&[n(4), n(5), n(6), n(7)]), Err(CircuitError::ShapeMismatch));
    assert_eq!(a.get(&[]), Err(CircuitError::ShapeMismatch));
}

#[test]
fn add_and_sub_work_coefficient_by_coefficient() {
    let a = lc(17, &[(1, 3), (2, 2), (3, 1)]);
    let b = lc(17, &[(1, 9), (2, 5), (3, 3)]);
    assert_eq!(a.clone().add(b.clone()), Ok(lc(17, &[(1, 12), (2, 7), (3, 4)])));
    assert_eq!(a.clone().sub(b.clone()), Ok(lc(17, &[(1, 11), (2, 14), (3, 15)])));
    assert_eq!(b.clone().sub(a.clone()), Ok(lc(17, &[(1, 6), (2, 3), (3, 2)])));
    let c = lc(17, &[(1, 16), (2, 16), (3, 16)]);
    assert_eq!(c.clone().add(c.clone()), Ok(lc(17, &[(1, 15), (2, 15), (3, 15)])));
}

#[test]
fn add_then_sub_gives_back_the_first_operand() {
    let a = lc(17, &[(1, 3), (2, 16), (3, 0)]);
    let b = lc(17, &[(1, 9), (2, 16), (3, 5)]);
    let sum = a.clone().add(b.clone()).unwrap();
    assert_eq!(sum.sub(b), Ok(a));
}

#[test]
fn add_commutes() {
    let a = lc(17, &[(1, 3), (2, 16), (3, 0)]);
    let b = lc(17, &[(1, 9), (2, 16), (3, 5)]);
    assert_eq!(a.clone().add(b.clone()), b.add(a));
}

#[test]
fn add_and_sub_refuse_mismatched_operands() {
    let a = lc(17, &[(1, 3), (2, 2)]);
    let other_indexes = lc(17, &[(1, 3), (3, 2)]);
    let fewer_indexes = lc(17, &[(1, 3)]);
    let other_modulus = lc(19, &[(1, 3), (2, 2)]);
    let both = lc(19, &[(1, 3)]);
    assert_eq!(a.clone().add(other_indexes.clone()), Err(CircuitError::ShapeMismatch));
    assert_eq!(a.clone().add(fewer_indexes), Err(CircuitError::ShapeMismatch));
    assert_eq!(a.clone().add(other_modulus.clone()), Err(CircuitError::ModulusMismatch));
    assert_eq!(a.clone().add(both.clone()), Err(CircuitError::ShapeMismatch));
    assert_eq!(a.clone().sub(other_indexes), Err(CircuitError::ShapeMismatch));
    assert_eq!(a.clone().sub(other_modulus), Err(CircuitError::ModulusMismatch));
    assert_eq!(a.sub(both), Err(CircuitError::ShapeMismatch));
}

#[test]
fn times_multiplies_coefficient_by_coefficient() {
    let a = lc(17, &[(1, 3), (2, 2), (3, 16)]);
    let b = lc(17, &[(1, 9), (2, 5), (3, 16)]);
    assert_eq!(a.times(&b), Ok(lc(17, &[(1, 10), (2, 10), (3, 1)])));
    assert_eq!(a.times(&lc(17, &[(1, 9)])), Err(CircuitError::ShapeMismatch));
    assert_eq!(
        a.times(&lc(5, &[(1, 1), (2, 1), (3, 1)])),
        Err(CircuitError::ModulusMismatch)
    );
}

#[test]
fn elem_wise_mul_scales_every_coefficient() {
    let c = lc(17, &[(1, 12), (2, 7), (3, 4)]);
    assert_eq!(c.elem_wise_mul(n(9)), lc(17, &[(1, 6), (2, 12), (3, 2)]));
    assert_eq!(c.elem_wise_mul(n(0)), lc(17, &[(1, 0), (2, 0), (3, 0)]));
    assert_eq!(c.elem_wise_mul(n(18)), c);
}

#[test]
fn elem_wise_div_multiplies_by_the_inverse() {
    let e = lc(17, &[(1, 11), (2, 5), (3, 15)]);
    assert_eq!(e.elem_wise_div(n(123)), Ok(lc(17, &[(1, 7), (2, 14), (3, 8)])));
    assert_eq!(e.elem_wise_div(n(1)), Ok(e.clone()));
}

#[test]
fn elem_wise_div_refuses_scalars_without_inverse() {
    let e = lc(17, &[(1, 11), (2, 5), (3, 15)]);
    assert_eq!(e.elem_wise_div(n(0)), Err(CircuitError::NotInvertible));
    assert_eq!(e.elem_wise_div(n(34)), Err(CircuitError::NotInvertible));
    let composite = lc(12, &[(1, 6), (2, 5)]);
    assert_eq!(composite.elem_wise_div(n(8)), Err(CircuitError::NotInvertible));
    assert_eq!(composite.elem_wise_div(n(9)), Err(CircuitError::NotInvertible));
    assert_eq!(composite.elem_wise_div(n(5)), Ok(lc(12, &[(1, 6), (2, 1)])));
    let empty = lc(17, &[]);
    assert_eq!(empty.elem_wise_div(n(0)), Err(CircuitError::NotInvertible));
    let trivial = lc(1, &[(1, 0)]);
    assert_eq!(trivial.elem_wise_div(n(1)), Err(CircuitError::NotInvertible));
}

#[test]
fn scaling_by_an_invertible_scalar_round_trips() {
    let a = lc(17, &[(1, 3), (2, 16), (3, 0), (8, 5)]);
    for s in 1..17u64 {
        assert_eq!(a.elem_wise_mul(n(s)).elem_wise_div(n(s)), Ok(a.clone()));
    }
    let b = lc(12, &[(1, 3), (2, 11)]);
    for s in [1u64, 5, 7, 11] {
        assert_eq!(b.elem_wise_mul(n(s)).elem_wise_div(n(s)), Ok(b.clone()));
    }
}

#[test]
fn math_is_the_field_of_the_modulus() {
    let a = lc(17, &[(1, 3)]);
    let f = a.math();
    assert_eq!(f.characteristic(), n(17));
    assert_eq!(f.mul(n(5), n(7)), n(1));
}
