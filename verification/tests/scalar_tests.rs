use body_dynamics::scalar::{Real, LIMIT};

#[test]
fn half_plus_half_is_one() {
    let h = Real::new(1, 2);
    assert_eq!(h.plus(&h), Real::one());
}

#[test]
fn fractions_are_kept_in_lowest_terms() {
    let r = Real::new(6, -4);
    assert_eq!(r.numerator(), -3);
    assert_eq!(r.denominator(), 2);
}

#[test]
fn zero_has_one_form() {
    assert_eq!(Real::new(0, -7), Real::zero());
    assert_eq!(Real::new(0, 5).denominator(), 1);
    assert!(Real::new(0, 5).is_zero());
}

#[test]
fn a_zero_denominator_is_not_finite() {
    let r = Real::new(3, 0);
    assert!(!r.is_finite());
    assert_eq!(r, Real::infinite());
}

#[test]
fn sum_of_thirds_and_sixths() {
    let a = Real::new(1, 3);
    let b = Real::new(1, 6);
    assert_eq!(a.plus(&b), Real::new(1, 2));
}

#[test]
fn product_is_reduced() {
    let a = Real::new(2, 3);
    let b = Real::new(3, 4);
    assert_eq!(a.times(&b), Real::new(1, 2));
    assert_eq!(a.times(&b).numerator(), 1);
    assert_eq!(a.times(&b).denominator(), 2);
}

#[test]
fn product_of_negatives_is_positive() {
    let a = Real::new(-2, 3);
    let b = Real::new(-3, 5);
    assert_eq!(a.times(&b), Real::new(2, 5));
    assert!(a.times(&b).is_positive());
}

#[test]
fn reciprocal_swaps_and_keeps_the_sign_above() {
    let a = Real::new(-2, 3);
    let r = a.recip();
    assert_eq!(r.numerator(), -3);
    assert_eq!(r.denominator(), 2);
    assert_eq!(a.times(&r), Real::one());
}

#[test]
fn reciprocal_of_zero_is_not_finite() {
    assert!(!Real::zero().recip().is_finite());
    assert!(!Real::infinite().recip().is_finite());
}

#[test]
fn negation_flips_the_numerator() {
    assert_eq!(Real::new(5, 7).negated(), Real::new(-5, 7));
    assert_eq!(Real::zero().negated(), Real::zero());
    assert_eq!(Real::infinite().negated(), Real::infinite());
}

#[test]
fn overflow_is_not_finite() {
    let big = Real::from_int(LIMIT);
    assert!(big.is_finite());
    assert!(!big.plus(&Real::one()).is_finite());
    assert!(!big.times(&Real::from_int(2)).is_finite());
}

#[test]
fn the_least_integer_does_not_fit() {
    assert!(!Real::from_int(i64::MIN).is_finite());
    assert!(Real::from_int(-LIMIT).is_finite());
    assert_eq!(Real::new(i64::MIN, i64::MIN), Real::one());
    assert_eq!(Real::new(i64::MIN, 2).numerator(), i64::MIN / 2);
    assert!(!Real::new(i64::MIN, -1).is_finite());
    assert!(!Real::new(i64::MIN, 1).is_finite());
    assert_eq!(Real::new(1, i64::MIN).denominator(), 0);
    assert_eq!(Real::new(-2, i64::MIN), Real::new(1, 1 << 62));
}

#[test]
fn a_sum_that_cancels_fits_again() {
    let big = Real::from_int(LIMIT);
    let sum = big.plus(&big.negated());
    assert_eq!(sum, Real::zero());
}

#[test]
fn zero_times_anything_is_zero() {
    assert_eq!(Real::zero().times(&Real::infinite()), Real::zero());
    assert_eq!(Real::infinite().times(&Real::zero()), Real::zero());
    assert_eq!(Real::zero().times(&Real::new(7, 3)), Real::zero());
}

#[test]
fn not_finite_spreads_through_sums_and_products() {
    let x = Real::new(7, 3);
    assert!(!x.plus(&Real::infinite()).is_finite());
    assert!(!Real::infinite().plus(&Real::zero()).is_finite());
    assert!(!x.times(&Real::infinite()).is_finite());
}

#[test]
fn one_is_neutral() {
    let x = Real::new(-7, 3);
    assert_eq!(x.times(&Real::one()), x);
    assert_eq!(x.plus(&Real::zero()), x);
}

#[test]
fn sign_tests() {
    assert!(Real::new(1, 9).is_positive());
    assert!(!Real::new(-1, 9).is_positive());
    assert!(!Real::zero().is_positive());
    assert!(!Real::infinite().is_positive());
    assert!(!Real::infinite().is_zero());
}
