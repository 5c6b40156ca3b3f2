use std::collections::HashMap;

use primitive_types::U256;
use r1cs_builder::linear::LinearComb;
use r1cs_builder::scalar::Scalar;

fn scalar(text: &str) -> Scalar {
    Scalar::from_limbs(U256::from_dec_str(text).unwrap().0)
}

#[test]
fn check_display() {
    let a: LinearComb = LinearComb::new_terms(
        scalar("17"),
        HashMap::from([
            (1usize, scalar("214")),
            (2usize, scalar("12412")),
            (3usize, scalar("5645")),
        ]),
    );
    println!("{}", a.to_string());
}

#[test]
fn display_reduces_and_orders_terms() {
    let a: LinearComb = LinearComb::new_terms(
        scalar("17"),
        HashMap::from([
            (3usize, scalar("5645")),
            (1usize, scalar("214")),
            (2usize, scalar("12412")),
        ]),
    );
    assert_eq!(a.to_string(), "x1 * 10 + x2 * 2 + x3 * 1 | mod 17");
}

#[test]
fn display_skips_zero_coefficients() {
    let a = LinearComb::new(
        Scalar::from_u64(17),
        vec![1, 2, 3, 4],
        vec![
            Scalar::from_u64(17),
            Scalar::from_u64(5),
            Scalar::from_u64(34),
            Scalar::from_u64(16),
        ],
    )
    .unwrap();
    assert_eq!(a.to_string(), "x2 * 5 + x4 * 16 | mod 17");
}

#[test]
fn display_writes_the_constant_wire_bare() {
    let a = LinearComb::new(
        Scalar::from_u64(17),
        vec![7, 0],
        vec![Scalar::from_u64(2), Scalar::from_u64(20)],
    )
    .unwrap();
    assert_eq!(a.to_string(), "3 + x7 * 2 | mod 17");
    assert_eq!(LinearComb::one(Scalar::from_u64(5)).to_string(), "1 | mod 5");
}

#[test]
fn display_of_no_terms_is_the_modulus_alone() {
    let empty = LinearComb::new(Scalar::from_u64(17), vec![], vec![]).unwrap();
    assert_eq!(empty.to_string(), " | mod 17");
    let zeros = LinearComb::new(Scalar::from_u64(17), vec![4], vec![Scalar::zero()]).unwrap();
    assert_eq!(zeros.to_string(), " | mod 17");
}

#[test]
fn display_writes_large_values_in_decimal() {
    let modulus =
        scalar("115792089237316195423570985008687907853269984665640564039457584007913129639935");
    let a = LinearComb::new(
        modulus,
        vec![18446744073709551615usize],
        vec![scalar("340282366920938463463374607431768211456")],
    )
    .unwrap();
    assert_eq!(
        a.to_string(),
        "x18446744073709551615 * 340282366920938463463374607431768211456 | mod 115792089237316195423570985008687907853269984665640564039457584007913129639935"
    );
}
