//! Exact arithmetic checks for the crate's fixed-point scalar.

use undertone::sample::{Fixed, Sample, UNIT};

#[test]
fn ratio_and_identities() {
    assert_eq!(Fixed::ratio(1, 2).units, 500_000);
    assert_eq!(Fixed::ratio(44100, 1).units, 44_100 * UNIT);
    assert_eq!(Fixed::ratio(1, 3).units, 333_333);
    assert_eq!(Fixed::ratio(-1, 2).units, -500_000);
    assert_eq!(Fixed::ratio(5, 0).units, 0);
    assert_eq!(Fixed::zero().units, 0);
    assert_eq!(Fixed::one().units, UNIT);
    assert_eq!(Fixed::pi().units, 3_141_593);
}

#[test]
fn saturating_arithmetic() {
    let big = Fixed::raw(i64::MAX);
    assert_eq!(Fixed::add(big, big).units, i64::MAX);
    assert_eq!(Fixed::sub(Fixed::raw(i64::MIN), big).units, i64::MIN);
    assert_eq!(Fixed::neg(Fixed::raw(i64::MIN)).units, i64::MAX);
    assert_eq!(Fixed::add(Fixed::ratio(3, 2), Fixed::ratio(1, 4)).units, 1_750_000);
    assert_eq!(Fixed::sub(Fixed::one(), Fixed::ratio(1, 4)).units, 750_000);
}

#[test]
fn multiplication_division() {
    let a = Fixed::ratio(3, 2);
    let b = Fixed::ratio(5, 2);
    assert_eq!(Fixed::mul(a, b).units, 3_750_000);
    assert_eq!(Fixed::div(Fixed::one(), Fixed::ratio(3, 1)).units, 333_333);
    assert_eq!(Fixed::div(a, Fixed::zero()).units, 0);
    assert_eq!(Fixed::mul(Fixed::neg(a), b).units, -3_750_000);
}

#[test]
fn comparisons_and_clamps() {
    let a = Fixed::ratio(1, 2);
    let b = Fixed::one();
    assert!(Fixed::lt(a, b));
    assert!(Fixed::le(a, a));
    assert!(<Fixed as Sample>::eq(a, a));
    assert!(!<Fixed as Sample>::eq(a, b));
    assert_eq!(Fixed::min(a, b), a);
    assert_eq!(Fixed::max(a, b), b);
    assert_eq!(Fixed::abs(Fixed::neg(a)), a);
    assert_eq!(Fixed::signum(Fixed::neg(a)).units, -UNIT);
    assert_eq!(Fixed::signum(Fixed::zero()).units, 0);
}

#[test]
fn indexing_wrapping_powers() {
    assert_eq!(Fixed::index(Fixed::ratio(5, 2)), 2);
    assert_eq!(Fixed::index(Fixed::neg(Fixed::one())), 0);
    assert_eq!(Fixed::wrap(Fixed::ratio(-3, 2), Fixed::one()).units, 500_000);
    assert_eq!(Fixed::wrap(Fixed::ratio(7, 2), Fixed::one()).units, 500_000);
    assert_eq!(Fixed::wrap(Fixed::one(), Fixed::zero()).units, 0);
    assert_eq!(Fixed::pow(Fixed::ratio(2, 1), Fixed::ratio(3, 1)).units, 8 * UNIT);
    assert_eq!(Fixed::pow(Fixed::ratio(1, 2), Fixed::one()).units, 500_000);
    assert_eq!(Fixed::pow(Fixed::ratio(7, 1), Fixed::zero()).units, UNIT);
}

#[test]
fn triangle_trigonometry() {
    assert_eq!(Fixed::sin(Fixed::zero()).units, 0);
    assert_eq!(Fixed::sin(Fixed::raw(1_570_796)).units, UNIT);
    assert_eq!(Fixed::sin(Fixed::raw(3_141_593)).units, 0);
    let three_half_pi = Fixed::raw(4_712_389);
    assert_eq!(Fixed::sin(three_half_pi).units, -1_000_000);
    assert_eq!(Fixed::cos(Fixed::zero()).units, UNIT);
    assert_eq!(Fixed::unit(1_234_567_890).units, 1_234_567_890 % 1_000_000);
}
