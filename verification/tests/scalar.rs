use primitive_types::U256;
use r1cs_builder::decimal::scalar_decimal;
use r1cs_builder::scalar::Scalar;

#[test]
fn scalar_words_are_least_significant_first() {
    let s = Scalar::from_limbs([1, 2, 3, 4]);
    assert_eq!(s.to_limbs(), [1, 2, 3, 4]);
    assert_eq!(U256(s.to_limbs()), U256([1, 2, 3, 4]));
    assert_eq!(Scalar::from_u64(9).to_limbs(), [9, 0, 0, 0]);
    assert_eq!(Scalar::from_usize(9), Scalar::from_u64(9));
    assert_eq!(Scalar::zero().to_limbs(), [0, 0, 0, 0]);
    assert_eq!(Scalar::one().to_limbs(), [1, 0, 0, 0]);
}

#[test]
fn scalar_zero_and_one_are_recognised() {
    assert!(Scalar::zero().is_zero());
    assert!(!Scalar::one().is_zero());
    assert!(!Scalar::from_limbs([0, 0, 0, 1]).is_zero());
    assert!(Scalar::one().is_one());
    assert!(!Scalar::from_limbs([1, 1, 0, 0]).is_one());
    assert!(!Scalar::zero().is_one());
}

#[test]
fn scalar_comparison_goes_by_the_most_significant_word() {
    let small = Scalar::from_limbs([u64::MAX, u64::MAX, u64::MAX, 0]);
    let large = Scalar::from_limbs([0, 0, 0, 1]);
    assert!(small.lt(&large));
    assert!(!large.lt(&small));
    assert!(!large.lt(&large));
    assert!(Scalar::from_u64(3).lt(&Scalar::from_u64(4)));
    assert!(Scalar::from_limbs([9, 1, 0, 0]).lt(&Scalar::from_limbs([0, 2, 0, 0])));
    assert!(small.same(&small));
    assert!(!small.same(&large));
}

#[test]
fn scalar_successor_carries() {
    assert_eq!(Scalar::from_u64(41).successor(), Scalar::from_u64(42));
    assert_eq!(
        Scalar::from_limbs([u64::MAX, 0, 0, 0]).successor(),
        Scalar::from_limbs([0, 1, 0, 0])
    );
    assert_eq!(
        Scalar::from_limbs([u64::MAX, u64::MAX, 0, 0]).successor(),
        Scalar::from_limbs([0, 0, 1, 0])
    );
    assert_eq!(
        Scalar::from_limbs([u64::MAX, u64::MAX, u64::MAX, 7]).successor(),
        Scalar::from_limbs([0, 0, 0, 8])
    );
}

#[test]
fn scalar_decimal_writes_digits() {
    assert_eq!(scalar_decimal(Scalar::zero()), "0");
    assert_eq!(scalar_decimal(Scalar::from_u64(7)), "7");
    assert_eq!(scalar_decimal(Scalar::from_u64(1203)), "1203");
    assert_eq!(
        scalar_decimal(Scalar::from_limbs([0, 1, 0, 0])),
        "18446744073709551616"
    );
    assert_eq!(
        scalar_decimal(Scalar::from_limbs([u64::MAX, u64::MAX, u64::MAX, u64::MAX])),
        "115792089237316195423570985008687907853269984665640564039457584007913129639935"
    );
}
