use num_complex::Complex;
use rational::{Gcd, ParseRationalError, Rational, RationalComplex};
use std::cmp::Ordering;

#[test]
fn new() {
    assert_eq!(Rational::new(1, 2), Rational::new(4, 8));
    assert_eq!(Rational::new(0, 1), Rational::new(0, 4));
    assert_eq!(Rational::new(0, 0), Rational::new(3, 0));
}

#[test]
fn add() {
    assert_eq!(
        Rational::new(5, 4),
        Rational::new(1, 2) + Rational::new(3, 4)
    );
}

#[test]
fn sub() {
    assert_eq!(
        Rational::new(1, 5),
        Rational::new(3, 5) - Rational::new(2, 5)
    );
    assert_eq!(
        Rational::new(0, 0),
        Rational::new(1, 0) - Rational::new(3, 2)
    );
}

#[test]
fn mul() {
    assert_eq!(
        Rational::new(3, 8),
        Rational::new(1, 2) * Rational::new(3, 4)
    );
}

#[test]
fn div() {
    assert_eq!(
        Rational::new(1, 1),
        Rational::new(1, 2) / Rational::new(1, 2)
    );
    assert_eq!(
        Rational::new(0, 0),
        Rational::new(0, 1) / Rational::new(1, 0)
    );
}

#[test]
fn from_str() {
    assert_eq!(
        Rational::new(2, 3),
        Rational::from_str_radix("2/3", 10).unwrap()
    );
    assert_eq!(
        Rational::new(0x10, 0x12),
        Rational::from_str_radix("10/12", 16).unwrap()
    );
}

#[test]
fn scaling_keeps_canonical_form() {
    assert_eq!(Rational::new(3, 7), Rational::new(-9, -21));
    assert_eq!(Rational::new(6, 10), Rational::new(3, 5));
    let r = Rational::new(12, 18);
    assert_eq!((r.numer(), r.denom()), (2, 3));
}

#[test]
fn signs_are_not_normalised() {
    let r = Rational::new(4, -6);
    assert_eq!((r.numer(), r.denom()), (-2, 3));
    let s = Rational::new(-4, 6);
    assert_eq!((s.numer(), s.denom()), (-2, 3));
    let t = Rational::new(1, -1);
    assert_eq!((t.numer(), t.denom()), (-1, 1));
}

#[test]
fn zero_numerator_is_canonical_zero() {
    assert_eq!(Rational::new(0, -7), Rational::zero());
    assert_eq!(Rational::new(0, 1), Rational::zero());
    assert!(Rational::zero().is_zero());
    assert!(Rational::new(0, 5).is_zero());
}

#[test]
fn zero_denominator_is_undefined() {
    let u = Rational::new(5, 0);
    assert_eq!(u, Rational::new(0, 0));
    assert_eq!((u.numer(), u.denom()), (0, 0));
    assert!(!u.is_zero());
    assert!(!Rational::new(0, 0).is_zero());
}

#[test]
fn identities() {
    assert!(Rational::one().is_one());
    assert!(Rational::new(7, 7).is_one());
    assert!(!Rational::new(1, 2).is_one());
    assert_eq!(Rational::from(5), Rational::new(5, 1));
    assert_eq!(Rational::from(0), Rational::zero());
}

#[test]
fn inverse_swaps_without_reducing() {
    let r = Rational::new(2, 3).inverse();
    assert_eq!((r.numer(), r.denom()), (3, 2));
    let u = Rational::new(0, 0).inverse();
    assert_eq!(u, Rational::new(0, 0));
    let z = Rational::zero().inverse();
    assert_eq!((z.numer(), z.denom()), (1, 0));
}

#[test]
fn remainder_formula() {
    // (7 % 3) * 2 over 4 * 2 is 2/8, reduced to 1/4.
    assert_eq!(Rational::new(7, 2) % Rational::new(3, 4), Rational::new(1, 4));
    // (-7 % 2) keeps the sign of the dividend.
    assert_eq!(Rational::new(-7, 1) % Rational::new(2, 1), Rational::new(-1, 1));
}

#[test]
fn ordering_by_cross_products() {
    let half = Rational::new(1, 2);
    let three_quarters = Rational::new(3, 4);
    assert_eq!(half.partial_cmp(&three_quarters), Some(Ordering::Less));
    assert_eq!(three_quarters.partial_cmp(&half), Some(Ordering::Greater));
    assert_eq!(half.partial_cmp(&Rational::new(2, 4)), Some(Ordering::Equal));
    assert!(half < three_quarters);
    assert_eq!(Rational::zero().partial_cmp(&half), None);
    assert_eq!(Rational::new(0, 0).partial_cmp(&half), None);
    assert_eq!(half.partial_cmp(&Rational::zero()), Some(Ordering::Greater));
}

#[test]
fn gcd_follows_truncating_remainder() {
    assert_eq!(12i64.gcd(18), 6);
    assert_eq!(4i64.gcd(-6), -2);
    assert_eq!((-4i64).gcd(6), 2);
    assert_eq!(5i64.gcd(0), 5);
    assert_eq!(0i64.gcd(7), 7);
}

#[test]
fn parse_with_colon_and_signs() {
    assert_eq!(Rational::from_str_radix("3:4", 10).unwrap(), Rational::new(3, 4));
    assert_eq!(Rational::from_str_radix("-6/+8", 10).unwrap(), Rational::new(-3, 4));
    assert_eq!(Rational::from_str_radix("ff/F", 16).unwrap(), Rational::new(17, 1));
    assert_eq!(Rational::from_str_radix("101/11", 2).unwrap(), Rational::new(5, 3));
    assert_eq!(Rational::from_str_radix("4/0", 10).unwrap(), Rational::new(0, 0));
}

#[test]
fn parse_errors() {
    assert_eq!(
        Rational::from_str_radix("12", 10),
        Err(ParseRationalError::MissingDenominator)
    );
    assert!(matches!(
        Rational::from_str_radix("x/2", 10),
        Err(ParseRationalError::Item(_))
    ));
    assert!(matches!(
        Rational::from_str_radix("1/2/3", 10),
        Err(ParseRationalError::Item(_))
    ));
    assert!(matches!(
        Rational::from_str_radix("1/", 10),
        Err(ParseRationalError::Item(_))
    ));
    assert!(matches!(
        Rational::from_str_radix("", 10),
        Err(ParseRationalError::Item(_))
    ));
    assert!(matches!(
        Rational::from_str_radix("1/99999999999999999999", 10),
        Err(ParseRationalError::Item(_))
    ));
    assert_eq!(
        Rational::from_str_radix("-9223372036854775808/-1", 10),
        Err(ParseRationalError::OutOfRange)
    );
}

#[test]
fn parse_least_value() {
    let r = Rational::from_str_radix("-9223372036854775808/1", 10).unwrap();
    assert_eq!((r.numer(), r.denom()), (i64::MIN, 1));
    assert_eq!(r, Rational::new(i64::MIN, 1));
    let h = Rational::from_str_radix("-9223372036854775808/2", 10).unwrap();
    assert_eq!((h.numer(), h.denom()), (-4611686018427387904, 1));
}

#[test]
fn least_value_construction() {
    assert_eq!(Rational::new(0, i64::MIN), Rational::zero());
    assert_eq!(Rational::new(i64::MIN, 0), Rational::new(0, 0));
    assert_eq!(Rational::new(i64::MIN, 4), Rational::new(-2305843009213693952, 1));
    assert_eq!(Rational::checked_new(i64::MIN, -1), None);
    assert_eq!(Rational::checked_new(6, 4), Some(Rational::new(3, 2)));
    assert_eq!(i64::MIN.gcd(1), 1);
    assert_eq!(i64::MIN.gcd(i64::MIN), i64::MIN);
}

#[test]
fn pair_conversion() {
    assert_eq!(Rational::from_pair((6, 8)), Rational::new(3, 4));
    assert_eq!(Rational::from_pair((2, 0)), Rational::new(0, 0));
    assert_eq!(Rational::from(7), Rational::from_pair((7, 1)));
}

#[test]
fn text_form() {
    // gcd(-1, 2) by truncating Euclid is -1, so the sign moves down.
    assert_eq!(Rational::new(-1, 2).to_string(), "1/-2");
    assert_eq!(Rational::new(-3, 4).to_string(), "-3/4");
    assert_eq!(Rational::new(10, 4).to_string(), "5/2");
    assert_eq!(Rational::new(3, 0).to_string(), "0/0");
}

#[test]
fn text_round_trip() {
    for (a, b) in [(1i64, 2i64), (4, -6), (-35, 21), (0, 9), (7, 0), (i64::MAX, 3)] {
        let r = Rational::new(a, b);
        let back = Rational::from_str_radix(&r.to_string(), 10).unwrap();
        assert_eq!(back, r);
    }
}

#[test]
fn complex() {
    let r1 = RationalComplex::new(Complex::new(1, 2), Complex::new(3, -4));
    let rf = r1.into_complex();
    assert_eq!(Complex::new(Rational::new(-1, 5), Rational::new(2, 5)), rf);
}

#[test]
fn complex_conversion_is_the_quotient() {
    // (2 + 4i) / (1 + 1i) is 3 + 1i.
    let q = RationalComplex::new(Complex::new(2, 4), Complex::new(1, 1));
    assert_eq!(q.into_complex(), Complex::new(Rational::from(3), Rational::from(1)));
    // 1 / i is -i.
    let r = RationalComplex::new(Complex::new(1, 0), Complex::new(0, 1));
    assert_eq!(r.into_complex(), Complex::new(Rational::zero(), Rational::new(-1, 1)));
}

#[test]
fn complex_zero_cases() {
    let undefined = RationalComplex::new(Complex::new(1, 1), Complex::new(0, 0));
    let c = undefined.into_complex();
    assert_eq!(c, Complex::new(Rational::new(0, 0), Rational::new(0, 0)));
    let zero = RationalComplex::new(Complex::new(0, 0), Complex::new(2, 5));
    let z = zero.into_complex();
    assert_eq!(z, Complex::new(Rational::zero(), Rational::zero()));
}
