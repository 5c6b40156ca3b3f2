use r1cs_builder::linear::constraint::{clone_constraints, Constraint};
use r1cs_builder::linear::r1cs::R1CS;
use r1cs_builder::linear::LinearComb;
use r1cs_builder::scalar::Scalar;

fn lc(modulus: u64, terms: &[(usize, u64)]) -> LinearComb {
    LinearComb::new(
        Scalar::from_u64(modulus),
        terms.iter().map(|t| t.0).collect(),
        terms.iter().map(|t| Scalar::from_u64(t.1)).collect(),
    )
    .unwrap()
}

fn sorted(list: &Vec<usize>) -> Vec<usize> {
    let mut copy = list.clone();
    copy.sort();
    copy
}

#[test]
fn constraint_keeps_its_three_combinations() {
    let a = lc(17, &[(1, 3)]);
    let b = lc(17, &[(2, 4)]);
    let c = lc(17, &[(3, 5)]);
    let k = Constraint::new(a.clone(), b.clone(), c.clone());
    assert_eq!(k.a(), &a);
    assert_eq!(k.b(), &b);
    assert_eq!(k.c(), &c);
    assert_eq!(k.clone(), k);
    let list = vec![k.clone(), Constraint::new(c, b, a)];
    assert_eq!(clone_constraints(&list), list);
}

#[test]
fn r1cs_starts_empty() {
    let r = R1CS::new();
    assert!(r.constraints().is_empty());
    assert!(r.variables().is_empty());
}

#[test]
fn r1cs_add_variable_ignores_what_is_there() {
    let mut r = R1CS::new();
    r.add_variable(3);
    r.add_variable(1);
    r.add_variable(3);
    r.add_variable(1);
    r.add_variable(0);
    assert_eq!(sorted(r.variables()), vec![0, 1, 3]);
    assert!(r.constraints().is_empty());
}

#[test]
fn r1cs_extend_variables_forms_the_union() {
    let mut r = R1CS::new();
    r.extend_variables(vec![1, 2, 3]);
    r.extend_variables(vec![3, 4, 4, 1]);
    r.extend_variables(vec![]);
    assert_eq!(sorted(r.variables()), vec![1, 2, 3, 4]);
}

#[test]
fn r1cs_add_constraint_keeps_order_and_duplicates() {
    let first = Constraint::new(lc(17, &[(1, 3)]), lc(17, &[(1, 4)]), lc(17, &[(1, 12)]));
    let second = Constraint::new(lc(17, &[(2, 1)]), lc(17, &[(2, 1)]), lc(17, &[(2, 1)]));
    let mut r = R1CS::new();
    r.add_constraint(first.clone());
    r.add_constraint(second.clone());
    r.add_constraint(first.clone());
    assert_eq!(r.constraints(), &vec![first.clone(), second, first]);
    assert!(r.variables().is_empty());
}
