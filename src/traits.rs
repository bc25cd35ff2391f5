use vstd::arithmetic::div_mod::{
    lemma_fundamental_div_mod, lemma_fundamental_div_mod_converse, lemma_truncate_middle,
};
use vstd::prelude::*;

verus! {

/// Absolute value of a mathematical integer.
pub open spec fn abs(x: int) -> int {
    if x < 0 {
        -x
    } else {
        x
    }
}

/// Remainder of truncating division, as Rust's `%` computes it on signed
/// integers: its magnitude is `|a| mod |b|` and it takes the sign of `a`.
pub open spec fn trunc_rem(a: int, b: int) -> int {
    if a >= 0 {
        abs(a) % abs(b)
    } else {
        -(abs(a) % abs(b))
    }
}

/// Quotient of truncating division (rounds toward zero), as Rust's `/` does.
pub open spec fn trunc_quot(a: int, b: int) -> int {
    if (a >= 0) == (b >= 0) {
        abs(a) / abs(b)
    } else {
        -(abs(a) / abs(b))
    }
}

/// `a == q * b + r` with `|r| < |b|` for truncating division.
pub proof fn lemma_trunc_division(a: int, b: int)
    requires
        b != 0,
    ensures
        a == trunc_quot(a, b) * b + trunc_rem(a, b),
        abs(trunc_rem(a, b)) < abs(b),
        a == 0 ==> trunc_rem(a, b) == 0,
{
    lemma_fundamental_div_mod(abs(a), abs(b));
    let q = abs(a) / abs(b);
    let r = abs(a) % abs(b);
    assert(abs(a) == abs(b) * q + r);
    if a >= 0 && b < 0 {
        assert(a == (-q) * b + r) by (nonlinear_arith)
            requires
                a == (-b) * q + r,
        ;
    } else if a < 0 && b >= 0 {
        assert(a == (-q) * b - r) by (nonlinear_arith)
            requires
                -a == b * q + r,
        ;
    } else if a < 0 && b < 0 {
        assert(a == q * b - r) by (nonlinear_arith)
            requires
                -a == (-b) * q + r,
        ;
    }
}

/// Verus's `%` on `int` is Euclidean; a negative divisor gives the same
/// remainder as its magnitude.
proof fn lemma_mod_neg_divisor(x: int, d: int)
    requires
        d < 0,
    ensures
        x % d == x % (-d),
{
    lemma_fundamental_div_mod(x, d);
    assert(0 <= x % d < -d);
    assert(x == (-d) * (-(x / d)) + x % d) by (nonlinear_arith)
        requires
            x == d * (x / d) + x % d,
    ;
    lemma_fundamental_div_mod_converse(x, -d, -(x / d), x % d);
}

/// What `%` on a signed machine integer computes, in terms of `trunc_rem`.
pub proof fn lemma_exec_rem(a: int, b: int, r: int)
    requires
        b != 0,
        r == (if a >= 0 {
            a % b
        } else {
            -((-a) % b)
        }),
    ensures
        r == trunc_rem(a, b),
{
    if b < 0 {
        lemma_mod_neg_divisor(a, b);
        lemma_mod_neg_divisor(-a, b);
    }
}

/// Euclidean `(y * g) / g` is `y`.
proof fn lemma_div_multiple(y: int, g: int)
    requires
        g != 0,
    ensures
        (y * g) / g == y,
{
    lemma_fundamental_div_mod(y * g, g);
    if g > 0 {
        assert(y * g == y * g + 0);
        lemma_fundamental_div_mod_converse(y * g, g, y, 0);
    } else {
        lemma_mod_neg_divisor(y * g, g);
        assert(y * g == (-y) * (-g) + 0) by (nonlinear_arith);
        lemma_fundamental_div_mod_converse(y * g, -g, -y, 0);
        let q = (y * g) / g;
        assert(q == y) by (nonlinear_arith)
            requires
                y * g == g * q,
                g != 0,
        ;
    }
}

/// What `/` on a signed machine integer computes when the division is
/// exact, with a bound on the quotient.
pub proof fn lemma_exec_exact_div(a: int, g: int, x: int)
    requires
        g != 0,
        a == x * g,
    ensures
        (if a >= 0 {
            a / g
        } else {
            -((-a) / g)
        }) == x,
        abs(x) <= abs(a),
{
    if a >= 0 {
        lemma_div_multiple(x, g);
    } else {
        assert(-a == (-x) * g) by (nonlinear_arith)
            requires
                a == x * g,
        ;
        lemma_div_multiple(-x, g);
    }
    assert(abs(x) <= abs(a)) by (nonlinear_arith)
        requires
            a == x * g,
            g != 0,
    ;
}

#[via_fn]
proof fn euclid_decreases(a: int, b: int) {
    if b != 0 {
        lemma_trunc_division(a, b);
    }
}

/// Euclid's algorithm over truncating remainder: `(a, b)` becomes
/// `(b, a % b)` until `b` is zero, and the last `a` is the result.
/// The sign of the result is whatever the steps produce.
pub open spec fn euclid(a: int, b: int) -> int
    decreases abs(b),
    via euclid_decreases
{
    if b == 0 {
        a
    } else {
        euclid(b, trunc_rem(a, b))
    }
}

/// Cofactors of `euclid(a, b)`: the pair `(x, y)` with
/// `a == x * euclid(a, b)` and `b == y * euclid(a, b)`.
pub open spec fn cofactors(a: int, b: int) -> (int, int)
    decreases abs(b),
    via cofactors_decreases
{
    if b == 0 {
        (1, 0)
    } else {
        let c = cofactors(b, trunc_rem(a, b));
        (trunc_quot(a, b) * c.0 + c.1, c.0)
    }
}

#[via_fn]
proof fn cofactors_decreases(a: int, b: int) {
    if b != 0 {
        lemma_trunc_division(a, b);
    }
}

/// The result of Euclid's algorithm divides both inputs, with the
/// cofactors as quotients.
pub proof fn lemma_cofactors(a: int, b: int)
    ensures
        a == cofactors(a, b).0 * euclid(a, b),
        b == cofactors(a, b).1 * euclid(a, b),
        abs(euclid(a, b)) <= abs(a) || abs(euclid(a, b)) <= abs(b),
    decreases abs(b),
{
    if b != 0 {
        lemma_trunc_division(a, b);
        let r = trunc_rem(a, b);
        let q = trunc_quot(a, b);
        lemma_cofactors(b, r);
        let g = euclid(b, r);
        let c = cofactors(b, r);
        assert(a == (q * c.0 + c.1) * g) by (nonlinear_arith)
            requires
                a == q * b + r,
                b == c.0 * g,
                r == c.1 * g,
        ;
    } else {
        assert(0 * a == 0);
    }
}

/// Scaling both operands by a non-zero factor scales the truncating
/// quotient not at all and the remainder by the factor.
pub proof fn lemma_trunc_scale(a: int, b: int, k: int)
    requires
        b != 0,
        k != 0,
    ensures
        trunc_rem(k * a, k * b) == k * trunc_rem(a, b),
        trunc_quot(k * a, k * b) == trunc_quot(a, b),
{
    assert(abs(k * a) == abs(k) * abs(a)) by (nonlinear_arith);
    assert(abs(k * b) == abs(k) * abs(b)) by (nonlinear_arith);
    assert(abs(k) * abs(b) != 0) by (nonlinear_arith)
        requires
            k != 0,
            b != 0,
    ;
    lemma_truncate_middle(abs(a), abs(k), abs(b));
    lemma_fundamental_div_mod(abs(a), abs(b));
    lemma_fundamental_div_mod(abs(k) * abs(a), abs(k) * abs(b));
    let q = abs(a) / abs(b);
    let r = abs(a) % abs(b);
    let q2 = (abs(k) * abs(a)) / (abs(k) * abs(b));
    assert(abs(k) * abs(a) == (abs(k) * abs(b)) * q2 + abs(k) * r);
    assert(abs(k) * abs(a) == (abs(k) * abs(b)) * q + abs(k) * r) by (nonlinear_arith)
        requires
            abs(a) == abs(b) * q + r,
    ;
    assert(q2 == q) by (nonlinear_arith)
        requires
            (abs(k) * abs(b)) * q2 == (abs(k) * abs(b)) * q,
            abs(k) * abs(b) != 0,
    ;
    assert(abs(k * a) % abs(k * b) == abs(k) * r);
    if a == 0 {
        assert(k * a == 0);
    } else {
        if k > 0 {
            assert(abs(k) * r == k * r);
        } else {
            assert(abs(k) * r == -(k * r)) by (nonlinear_arith)
                requires
                    k < 0,
            ;
        }
        assert(k * (-r) == -(k * r)) by (nonlinear_arith);
        assert((k * a >= 0) == ((k >= 0) == (a >= 0))) by (nonlinear_arith)
            requires
                k != 0,
                a != 0,
        ;
    }
    assert((k * b >= 0) == ((k >= 0) == (b >= 0))) by (nonlinear_arith)
        requires
            k != 0,
            b != 0,
    ;
}

/// Euclid's algorithm commutes with scaling by a non-zero factor, and
/// the cofactors are unchanged by it.
pub proof fn lemma_euclid_scale(a: int, b: int, k: int)
    requires
        k != 0,
    ensures
        euclid(k * a, k * b) == k * euclid(a, b),
        cofactors(k * a, k * b) == cofactors(a, b),
    decreases abs(b),
{
    if b == 0 {
        assert(k * b == 0);
    } else {
        assert(k * b != 0) by (nonlinear_arith)
            requires
                k != 0,
                b != 0,
        ;
        lemma_trunc_scale(a, b, k);
        lemma_trunc_division(a, b);
        lemma_euclid_scale(b, trunc_rem(a, b), k);
    }
}

/// No step of Euclid's algorithm on `(a, b)` takes the remainder of `min`
/// by `-1`, the one remainder that overflows a signed type whose least
/// value is `min`.
pub open spec fn euclid_safe(a: int, b: int, min: int) -> bool
    decreases abs(b),
    via euclid_safe_decreases
{
    if b == 0 {
        true
    } else {
        !(a == min && b == -1) && euclid_safe(b, trunc_rem(a, b), min)
    }
}

#[via_fn]
proof fn euclid_safe_decreases(a: int, b: int, min: int) {
    if b != 0 {
        lemma_trunc_division(a, b);
    }
}

/// Inputs whose magnitudes stay below `-min` never reach the overflowing
/// remainder.
pub proof fn lemma_euclid_safe_small(a: int, b: int, min: int)
    requires
        abs(a) < -min,
        abs(b) < -min,
    ensures
        euclid_safe(a, b, min),
    decreases abs(b),
{
    if b != 0 {
        lemma_trunc_division(a, b);
        lemma_euclid_safe_small(b, trunc_rem(a, b), min);
    }
}

/// The greatest common divisor, computed by Euclid's algorithm over the
/// type's own remainder.
pub trait Gcd: Sized {
    /// Inputs on which the algorithm runs without overflow.
    spec fn gcd_allowed(self, other: Self) -> bool;

    /// What the algorithm returns.
    spec fn gcd_spec(self, other: Self) -> Self;

    fn gcd(self, other: Self) -> (r: Self)
        requires
            self.gcd_allowed(other),
        ensures
            r == self.gcd_spec(other),
    ;
}

impl Gcd for i64 {
    open spec fn gcd_allowed(self, other: i64) -> bool {
        euclid_safe(self as int, other as int, i64::MIN as int)
    }

    open spec fn gcd_spec(self, other: i64) -> i64 {
        euclid(self as int, other as int) as i64
    }

    fn gcd(self, other: i64) -> (r: i64) {
        let mut a: i64 = self;
        let mut b: i64 = other;
        while b != 0
            invariant
                euclid_safe(a as int, b as int, i64::MIN as int),
                euclid(a as int, b as int) == euclid(self as int, other as int),
            decreases abs(b as int),
        {
            proof {
                lemma_trunc_division(a as int, b as int);
            }
            let old_b = b;
            b = a % b;
            proof {
                lemma_exec_rem(a as int, old_b as int, b as int);
            }
            a = old_b;
        }
        a
    }
}

impl Gcd for i128 {
    open spec fn gcd_allowed(self, other: i128) -> bool {
        euclid_safe(self as int, other as int, i128::MIN as int)
    }

    open spec fn gcd_spec(self, other: i128) -> i128 {
        euclid(self as int, other as int) as i128
    }

    fn gcd(self, other: i128) -> (r: i128) {
        let mut a: i128 = self;
        let mut b: i128 = other;
        while b != 0
            invariant
                euclid_safe(a as int, b as int, i128::MIN as int),
                euclid(a as int, b as int) == euclid(self as int, other as int),
            decreases abs(b as int),
        {
            proof {
                lemma_trunc_division(a as int, b as int);
            }
            let old_b = b;
            b = a % b;
            proof {
                lemma_exec_rem(a as int, old_b as int, b as int);
            }
            a = old_b;
        }
        a
    }
}

/// What a type needs to serve as numerator and denominator of a rational.
pub trait RationalItem: Gcd {

}

impl RationalItem for i64 {

}

impl RationalItem for i128 {

}

/// A one-way, possibly lossy, conversion of an exact value to an
/// approximate one of type `T`.
pub trait Eval<T> {
    fn eval(self) -> T;
}

} // verus!
