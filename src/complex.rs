//! Rationals over complex integers, and their conversion to complex numbers
//! with rational parts.
use vstd::prelude::*;

use crate::{canonical, fits, reduced_fits, Rational};

verus! {

/// `num_complex::Complex`, with its two public fields `re` and `im`.
#[verifier::external_type_specification]
#[verifier::reject_recursive_types(T)]
pub struct ExComplex<T>(num_complex::Complex<T>);

/// A quotient of two complex integers. A zero denominator gives the
/// undefined value `0 / 0` and a zero numerator gives `0 / 1`; otherwise
/// both parts are kept as given. No common complex factor is removed:
/// Euclid's algorithm over the truncating complex remainder need not
/// terminate (on `9 + 9i` and `10` it cycles), and the conversion to a
/// complex number with rational parts gives the quotient either way.
#[derive(Clone, Copy, Debug, PartialEq, Eq)]
pub struct RationalComplex {
    num: num_complex::Complex<i64>,
    den: num_complex::Complex<i64>,
}

/// A complex integer's parts as mathematical integers.
pub open spec fn parts(c: num_complex::Complex<i64>) -> (int, int) {
    (c.re as int, c.im as int)
}

/// The parts of the conversion of `n / d`, after multiplying both by the
/// conjugate of `d`: the real numerator `n.re * d.re + n.im * d.im`, the
/// imaginary numerator `n.im * d.re - n.re * d.im`, and the squared
/// magnitude of `d` as common denominator. This is true complex division;
/// the matching-axis products alone (`n.re * d.re`, `n.im * d.im`) would
/// not give the quotient.
pub open spec fn conjugate_products(n: (int, int), d: (int, int)) -> (int, int, int) {
    (n.0 * d.0 + n.1 * d.1, n.1 * d.0 - n.0 * d.1, d.0 * d.0 + d.1 * d.1)
}

/// Every product and sum that the conversion forms fits an `i64`, and so
/// do both reduced parts.
pub open spec fn conversion_fits(n: (int, int), d: (int, int)) -> bool {
    &&& fits(n.0 * d.0)
    &&& fits(n.1 * d.1)
    &&& fits(n.1 * d.0)
    &&& fits(n.0 * d.1)
    &&& fits(d.0 * d.0)
    &&& fits(d.1 * d.1)
    &&& fits(conjugate_products(n, d).0)
    &&& fits(conjugate_products(n, d).1)
    &&& fits(conjugate_products(n, d).2)
    &&& reduced_fits(conjugate_products(n, d).0, conjugate_products(n, d).2)
    &&& reduced_fits(conjugate_products(n, d).1, conjugate_products(n, d).2)
}

impl View for RationalComplex {
    /// Numerator and denominator, each as a pair of real and imaginary part.
    type V = ((int, int), (int, int));

    closed spec fn view(&self) -> ((int, int), (int, int)) {
        (parts(self.num), parts(self.den))
    }
}

impl RationalComplex {
    /// `num / den`: the undefined value `0 / 0` when `den` is zero, `0 / 1`
    /// when `num` is zero, otherwise both as given.
    pub fn new(num: num_complex::Complex<i64>, den: num_complex::Complex<i64>) -> (r:
        RationalComplex)
        ensures
            r@ == (if parts(den) == (0int, 0int) {
                ((0int, 0int), (0int, 0int))
            } else if parts(num) == (0int, 0int) {
                ((0int, 0int), (1int, 0int))
            } else {
                (parts(num), parts(den))
            }),
    {
        let zero = num_complex::Complex { re: 0i64, im: 0i64 };
        if den.re == 0 && den.im == 0 {
            RationalComplex { num: zero, den: zero }
        } else if num.re == 0 && num.im == 0 {
            RationalComplex { num: zero, den: num_complex::Complex { re: 1i64, im: 0i64 } }
        } else {
            RationalComplex { num, den }
        }
    }

    /// The complex number with rational parts equal to this quotient: both
    /// parts multiplied by the conjugate of the denominator, each part then
    /// reduced over `|den|^2`.
    pub fn into_complex(self) -> (r: num_complex::Complex<Rational>)
        requires
            conversion_fits(self@.0, self@.1),
        ensures
            r.re@ == canonical(
                conjugate_products(self@.0, self@.1).0,
                conjugate_products(self@.0, self@.1).2,
            ),
            r.im@ == canonical(
                conjugate_products(self@.0, self@.1).1,
                conjugate_products(self@.0, self@.1).2,
            ),
    {
        let den = self.den.re * self.den.re + self.den.im * self.den.im;
        let re = Rational::new(self.num.re * self.den.re + self.num.im * self.den.im, den);
        let im = Rational::new(self.num.im * self.den.re - self.num.re * self.den.im, den);
        num_complex::Complex { re, im }
    }
}

} // verus!
