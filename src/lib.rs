//! Exact rational numbers kept in a canonical reduced form.
use vstd::prelude::*;

pub mod complex;
pub mod text;
pub mod traits;

pub use complex::RationalComplex;
pub use traits::{Eval, Gcd, RationalItem};
use text::{
    first_token, int_decimal, is_separator, is_split_point, item_from_str_radix, item_to_string,
    lemma_int_decimal, lemma_split_point, parsed_item, second_token, split_point,
};
use vstd::string::{StrSliceExecFns, StringExecFns};
use traits::{
    cofactors, euclid, lemma_cofactors, lemma_euclid_safe_small, lemma_euclid_scale, lemma_exec_exact_div, lemma_exec_rem,
    trunc_rem,
};

verus! {

/// The canonical pair for a requested `a / b`: the undefined value
/// `(0, 0)` when `b` is zero, `(0, 1)` when `a` is zero, and otherwise both
/// divided by `euclid(a, b)`. Signs are not normalised.
pub open spec fn canonical(a: int, b: int) -> (int, int) {
    if b == 0 {
        (0, 0)
    } else if a == 0 {
        (0, 1)
    } else {
        cofactors(a, b)
    }
}

/// A value that an `i64` holds.
pub open spec fn fits(x: int) -> bool {
    i64::MIN <= x <= i64::MAX
}

/// The canonical form of `a / b` fits an `i64` pair. It fails only where
/// the reduction divides `i64::MIN` by `-1`.
pub open spec fn reduced_fits(a: int, b: int) -> bool {
    fits(canonical(a, b).0) && fits(canonical(a, b).1)
}

/// A rational number: a numerator and a denominator. Every constructor
/// brings the pair to its canonical form; `(0, 0)` stands for an undefined
/// value, such as the result of a division by zero.
#[derive(Clone, Copy, Debug, PartialEq, Eq, Structural, Hash)]
pub struct Rational {
    num: i64,
    den: i64,
}

impl View for Rational {
    type V = (int, int);

    closed spec fn view(&self) -> (int, int) {
        (self.num as int, self.den as int)
    }
}

impl Rational {
    /// The rational `a / b` in canonical form.
    pub fn new(a: i64, b: i64) -> (r: Rational)
        requires
            reduced_fits(a as int, b as int),
        ensures
            r@ == canonical(a as int, b as int),
    {
        let (num, den) = Self::simplify(a, b);
        Rational { num, den }
    }

    /// The rational `p.0 / p.1`, as `new` builds it.
    pub fn from_pair(p: (i64, i64)) -> (r: Rational)
        requires
            reduced_fits(p.0 as int, p.1 as int),
        ensures
            r@ == canonical(p.0 as int, p.1 as int),
    {
        Self::new(p.0, p.1)
    }

    /// The rational `a / b` in canonical form, or `None` where that form
    /// does not fit an `i64` pair.
    pub fn checked_new(a: i64, b: i64) -> (r: Option<Rational>)
        ensures
            r is Some <==> reduced_fits(a as int, b as int),
            r is Some ==> r->Some_0@ == canonical(a as int, b as int),
    {
        let (x, y) = Self::reduce_wide(a, b);
        if i64::MIN as i128 <= x && x <= i64::MAX as i128 && i64::MIN as i128 <= y && y
            <= i64::MAX as i128 {
            Some(Rational { num: x as i64, den: y as i64 })
        } else {
            None
        }
    }

    fn simplify(a: i64, b: i64) -> (r: (i64, i64))
        requires
            reduced_fits(a as int, b as int),
        ensures
            (r.0 as int, r.1 as int) == canonical(a as int, b as int),
    {
        let (x, y) = Self::reduce_wide(a, b);
        (x as i64, y as i64)
    }

    /// The canonical form of `a / b`, computed in `i128` so that no step
    /// overflows.
    fn reduce_wide(a: i64, b: i64) -> (r: (i128, i128))
        ensures
            (r.0 as int, r.1 as int) == canonical(a as int, b as int),
    {
        if b == 0 {
            (0, 0)
        } else if a == 0 {
            (0, 1)
        } else {
            let a2 = a as i128;
            let b2 = b as i128;
            proof {
                lemma_euclid_safe_small(a as int, b as int, i128::MIN as int);
                lemma_cofactors(a as int, b as int);
            }
            let g = a2.gcd(b2);
            proof {
                let c = cofactors(a as int, b as int);
                assert(g != 0) by (nonlinear_arith)
                    requires
                        a as int == c.0 * euclid(a as int, b as int),
                        g as int == euclid(a as int, b as int),
                        a != 0,
                ;
                lemma_exec_exact_div(a as int, g as int, c.0);
                lemma_exec_exact_div(b as int, g as int, c.1);
            }
            (a2 / g, b2 / g)
        }
    }

    /// Numerator and denominator swapped, with no further reduction.
    pub fn inverse(self) -> (r: Rational)
        ensures
            r@ == (self@.1, self@.0),
    {
        Rational { num: self.den, den: self.num }
    }
}

impl Rational {
    /// The value whose view is `v`, on views that fit the fields.
    pub closed spec fn from_view(v: (int, int)) -> Rational {
        Rational { num: v.0 as i64, den: v.1 as i64 }
    }

    /// `from_view` inverts the view on pairs that fit the fields.
    pub proof fn lemma_from_view(v: (int, int))
        requires
            i64::MIN <= v.0 <= i64::MAX,
            i64::MIN <= v.1 <= i64::MAX,
        ensures
            Rational::from_view(v)@ == v,
    {
    }
}

/// The products and the sum that `+` forms fit, and so does the result.
pub open spec fn sum_fits(x: (int, int), y: (int, int)) -> bool {
    &&& fits(x.0 * y.1)
    &&& fits(x.1 * y.0)
    &&& fits(x.0 * y.1 + x.1 * y.0)
    &&& fits(x.1 * y.1)
    &&& reduced_fits(x.0 * y.1 + x.1 * y.0, x.1 * y.1)
}

/// The products and the difference that `-` forms fit, and so does the
/// result.
pub open spec fn difference_fits(x: (int, int), y: (int, int)) -> bool {
    &&& fits(x.0 * y.1)
    &&& fits(x.1 * y.0)
    &&& fits(x.0 * y.1 - x.1 * y.0)
    &&& fits(x.1 * y.1)
    &&& reduced_fits(x.0 * y.1 - x.1 * y.0, x.1 * y.1)
}

/// The two products that `*` forms fit, and so does the result.
pub open spec fn product_fits(x: (int, int), y: (int, int)) -> bool {
    fits(x.0 * y.0) && fits(x.1 * y.1) && reduced_fits(x.0 * y.0, x.1 * y.1)
}

/// The remainder of the numerators is defined (a non-zero divisor, and not
/// `i64::MIN % -1`), and the products and the result fit.
pub open spec fn remainder_fits(x: (int, int), y: (int, int)) -> bool {
    &&& y.0 != 0
    &&& !(x.0 == i64::MIN && y.0 == -1)
    &&& fits(trunc_rem(x.0, y.0) * x.1)
    &&& fits(y.1 * x.1)
    &&& reduced_fits(trunc_rem(x.0, y.0) * x.1, y.1 * x.1)
}

impl core::ops::Add for Rational {
    type Output = Rational;

    /// Cross-multiplies to the common denominator and reduces.
    fn add(self, other: Rational) -> (r: Rational) {
        let a = self.num * other.den;
        let b = self.den * other.num;
        Rational::new(a + b, self.den * other.den)
    }
}

impl vstd::std_specs::ops::AddSpecImpl for Rational {
    open spec fn obeys_add_spec() -> bool {
        true
    }

    open spec fn add_req(self, rhs: Rational) -> bool {
        sum_fits(self@, rhs@)
    }

    open spec fn add_spec(self, rhs: Rational) -> Rational {
        Rational::from_view(
            canonical(self@.0 * rhs@.1 + self@.1 * rhs@.0, self@.1 * rhs@.1),
        )
    }
}

impl core::ops::Sub for Rational {
    type Output = Rational;

    /// Cross-multiplies to the common denominator and reduces.
    fn sub(self, other: Rational) -> (r: Rational) {
        let a = self.num * other.den;
        let b = self.den * other.num;
        Rational::new(a - b, self.den * other.den)
    }
}

impl vstd::std_specs::ops::SubSpecImpl for Rational {
    open spec fn obeys_sub_spec() -> bool {
        true
    }

    open spec fn sub_req(self, rhs: Rational) -> bool {
        difference_fits(self@, rhs@)
    }

    open spec fn sub_spec(self, rhs: Rational) -> Rational {
        Rational::from_view(
            canonical(self@.0 * rhs@.1 - self@.1 * rhs@.0, self@.1 * rhs@.1),
        )
    }
}

impl core::ops::Mul for Rational {
    type Output = Rational;

    /// Numerators and denominators multiplied, then reduced.
    fn mul(self, other: Rational) -> (r: Rational) {
        Rational::new(self.num * other.num, self.den * other.den)
    }
}

impl vstd::std_specs::ops::MulSpecImpl for Rational {
    open spec fn obeys_mul_spec() -> bool {
        true
    }

    open spec fn mul_req(self, rhs: Rational) -> bool {
        product_fits(self@, rhs@)
    }

    open spec fn mul_spec(self, rhs: Rational) -> Rational {
        Rational::from_view(canonical(self@.0 * rhs@.0, self@.1 * rhs@.1))
    }
}

impl core::ops::Div for Rational {
    type Output = Rational;

    /// Multiplication by the inverse; dividing by zero or by the undefined
    /// value gives the undefined value.
    fn div(self, other: Rational) -> (r: Rational) {
        self * other.inverse()
    }
}

impl vstd::std_specs::ops::DivSpecImpl for Rational {
    open spec fn obeys_div_spec() -> bool {
        true
    }

    open spec fn div_req(self, rhs: Rational) -> bool {
        product_fits(self@, (rhs@.1, rhs@.0))
    }

    open spec fn div_spec(self, rhs: Rational) -> Rational {
        Rational::from_view(canonical(self@.0 * rhs@.1, self@.1 * rhs@.0))
    }
}

impl core::ops::Rem for Rational {
    type Output = Rational;

    /// `(self.num % other.num) * self.den` over `other.den * self.den`,
    /// reduced: a symbolic remainder, not the usual one on rationals.
    fn rem(self, other: Rational) -> (r: Rational) {
        let m = self.num % other.num;
        proof {
            lemma_exec_rem(self@.0, other@.0, m as int);
        }
        Rational::new(m * self.den, other.den * self.den)
    }
}

impl vstd::std_specs::ops::RemSpecImpl for Rational {
    open spec fn obeys_rem_spec() -> bool {
        true
    }

    open spec fn rem_req(self, rhs: Rational) -> bool {
        remainder_fits(self@, rhs@)
    }

    open spec fn rem_spec(self, rhs: Rational) -> Rational {
        Rational::from_view(
            canonical(trunc_rem(self@.0, rhs@.0) * self@.1, rhs@.1 * self@.1),
        )
    }
}

impl Rational {
    /// The canonical zero, `0 / 1`.
    pub fn zero() -> (r: Rational)
        ensures
            r@ == (0int, 1int),
    {
        Rational { num: 0, den: 1 }
    }

    /// Zero and defined: the undefined value `0 / 0` is not zero.
    pub fn is_zero(&self) -> (r: bool)
        ensures
            r == (self@.0 == 0 && self@.1 != 0),
    {
        self.num == 0 && self.den != 0
    }

    /// The canonical one, `1 / 1`.
    pub fn one() -> (r: Rational)
        ensures
            r@ == (1int, 1int),
    {
        Rational { num: 1, den: 1 }
    }

    /// Numerator and denominator both one.
    pub fn is_one(&self) -> (r: bool)
        ensures
            r == (self@.0 == 1 && self@.1 == 1),
    {
        self.den == 1 && self.num == 1
    }

    /// The numerator as stored.
    pub fn numer(&self) -> (r: i64)
        ensures
            r as int == self@.0,
    {
        self.num
    }

    /// The denominator as stored.
    pub fn denom(&self) -> (r: i64)
        ensures
            r as int == self@.1,
    {
        self.den
    }
}

impl From<i64> for Rational {
    /// The integer `n` as `n / 1`.
    fn from(n: i64) -> (r: Rational) {
        Rational { num: n, den: 1 }
    }
}

impl vstd::std_specs::convert::FromSpecImpl<i64> for Rational {
    open spec fn obeys_from_spec() -> bool {
        true
    }

    open spec fn from_spec(n: i64) -> Rational {
        Rational::from_view((n as int, 1int))
    }
}

/// How `x` compares with `y`.
pub open spec fn int_cmp(x: int, y: int) -> core::cmp::Ordering {
    if x < y {
        core::cmp::Ordering::Less
    } else if x == y {
        core::cmp::Ordering::Equal
    } else {
        core::cmp::Ordering::Greater
    }
}

/// The ordering of rationals: none when the left numerator is zero (zero
/// and the undefined value alike), otherwise that of the cross products.
/// Only the left operand is inspected for a zero numerator.
pub open spec fn rational_cmp(x: (int, int), y: (int, int)) -> Option<core::cmp::Ordering> {
    if x.0 == 0 {
        None
    } else {
        Some(int_cmp(x.0 * y.1, y.0 * x.1))
    }
}

/// The product of two `i64` values fits in an `i128`.
proof fn lemma_wide_product(x: int, y: int)
    requires
        i64::MIN <= x <= i64::MAX,
        i64::MIN <= y <= i64::MAX,
    ensures
        i128::MIN <= x * y <= i128::MAX,
{
    assert(-0x8000_0000_0000_0000 * 0x8000_0000_0000_0000 <= x * y <= 0x8000_0000_0000_0000
        * 0x8000_0000_0000_0000) by (nonlinear_arith)
        requires
            -0x8000_0000_0000_0000 <= x <= 0x7fff_ffff_ffff_ffff,
            -0x8000_0000_0000_0000 <= y <= 0x7fff_ffff_ffff_ffff,
    ;
}

impl PartialOrd for Rational {
    fn partial_cmp(&self, other: &Rational) -> (r: Option<core::cmp::Ordering>) {
        if self.num == 0 {
            None
        } else {
            proof {
                lemma_wide_product(self@.0, other@.1);
                lemma_wide_product(other@.0, self@.1);
            }
            let a: i128 = self.num as i128 * other.den as i128;
            let b: i128 = other.num as i128 * self.den as i128;
            if a < b {
                Some(core::cmp::Ordering::Less)
            } else if a == b {
                Some(core::cmp::Ordering::Equal)
            } else {
                Some(core::cmp::Ordering::Greater)
            }
        }
    }
}

impl vstd::std_specs::cmp::PartialOrdSpecImpl for Rational {
    open spec fn obeys_partial_cmp_spec() -> bool {
        true
    }

    open spec fn partial_cmp_spec(&self, other: &Rational) -> Option<core::cmp::Ordering> {
        rational_cmp(self@, other@)
    }
}

/// Scaling numerator and denominator by the same non-zero factor does not
/// change the canonical form: `a / b` and `ka / kb` construct equal values.
pub proof fn lemma_scaling_invariant(a: int, b: int, k: int)
    requires
        b != 0,
        k != 0,
    ensures
        canonical(a, b) == canonical(k * a, k * b),
{
    assert(k * b != 0) by (nonlinear_arith)
        requires
            k != 0,
            b != 0,
    ;
    if a == 0 {
        assert(k * a == 0);
    } else {
        assert(k * a != 0) by (nonlinear_arith)
            requires
                k != 0,
                a != 0,
        ;
        lemma_euclid_scale(a, b, k);
    }
}

/// A zero numerator over any non-zero denominator gives the canonical zero,
/// which is also `0 / 1` and what `Rational::zero` returns.
pub proof fn lemma_zero_numerator(n: int)
    requires
        n != 0,
    ensures
        canonical(0, n) == canonical(0, 1),
        canonical(0, 1) == (0int, 1int),
{
}

/// Any numerator over a zero denominator gives the undefined value `0 / 0`,
/// and that value is not zero.
pub proof fn lemma_zero_denominator(n: int)
    ensures
        canonical(n, 0) == canonical(0, 0),
        canonical(0, 0) == (0int, 0int),
        !(canonical(0, 0).0 == 0 && canonical(0, 0).1 != 0),
{
}

/// A canonical pair is its own canonical form.
pub proof fn lemma_canonical_idempotent(a: int, b: int)
    ensures
        canonical(canonical(a, b).0, canonical(a, b).1) == canonical(a, b),
{
    if b != 0 && a != 0 {
        lemma_cofactors(a, b);
        let g = euclid(a, b);
        let c = cofactors(a, b);
        assert(g != 0 && c.0 != 0 && c.1 != 0) by (nonlinear_arith)
            requires
                a == c.0 * g,
                b == c.1 * g,
                a != 0,
                b != 0,
        ;
        assert(a == g * c.0 && b == g * c.1) by (nonlinear_arith)
            requires
                a == c.0 * g,
                b == c.1 * g,
        ;
        lemma_euclid_scale(c.0, c.1, g);
    }
}

/// Why text could not be read as a rational.
#[derive(Debug, PartialEq, Eq)]
pub enum ParseRationalError {
    /// A token is not a numeral of the radix or does not fit an `i64`: the
    /// integer parser's own error.
    Item(core::num::ParseIntError),
    /// The text holds no separator, so no denominator.
    MissingDenominator,
    /// Both tokens parse, but reducing them divides `i64::MIN` by `-1`.
    OutOfRange,
}

/// Numerator and denominator that the text `s` gives in `radix`: the text
/// before the first `/` or `:` and the text after it both parse as `i64`.
pub open spec fn parsed_pair(s: Seq<char>, radix: int) -> Option<(int, int)> {
    if split_point(s) < s.len() {
        match parsed_item(first_token(s), radix) {
            Some(n) => match parsed_item(second_token(s), radix) {
                Some(d) => Some((n, d)),
                None => None,
            },
            None => None,
        }
    } else {
        None
    }
}

/// The canonical rational that the text `s` denotes in `radix`, if any.
pub open spec fn parse_value(s: Seq<char>, radix: int) -> Option<(int, int)> {
    match parsed_pair(s, radix) {
        Some(p) => if reduced_fits(p.0, p.1) {
            Some(canonical(p.0, p.1))
        } else {
            None
        },
        None => None,
    }
}

/// The text form `"<numerator>/<denominator>"` of a pair, in decimal.
pub open spec fn display(v: (int, int)) -> Seq<char> {
    int_decimal(v.0) + seq!['/'] + int_decimal(v.1)
}

impl Rational {
    /// Reads `"<numerator>/<denominator>"` (or with `:`) in the given radix
    /// and reduces it. Only the first separator splits; the rest belongs to
    /// the denominator.
    pub fn from_str_radix(s: &str, radix: u32) -> (r: Result<Rational, ParseRationalError>)
        requires
            2 <= radix <= 36,
        ensures
            r is Ok <==> parse_value(s@, radix as int) is Some,
            r is Ok ==> parse_value(s@, radix as int) == Some(r->Ok_0@),
            r matches Err(ParseRationalError::Item(_)) <==> (parsed_item(first_token(s@), radix as int)
                is None || (split_point(s@) < s@.len() && parsed_item(second_token(s@), radix as int)
                is None)),
            r matches Err(ParseRationalError::MissingDenominator) <==> (parsed_item(
                first_token(s@),
                radix as int,
            ) is Some && split_point(s@) == s@.len()),
            r matches Err(ParseRationalError::OutOfRange) <==> (parsed_pair(s@, radix as int) is Some
                && parse_value(s@, radix as int) is None),
    {
        let len = s.unicode_len();
        let mut k: usize = 0;
        loop
            invariant
                k <= len,
                len == s@.len(),
                forall|j: int| 0 <= j < k ==> !is_separator(#[trigger] s@[j]),
            ensures
                is_split_point(s@, k as int),
            decreases len - k,
        {
            if k == len {
                break;
            }
            let c = s.get_char(k);
            if c == '/' || c == ':' {
                break;
            }
            k = k + 1;
        }
        proof {
            lemma_split_point(s@, k as int);
        }
        let first = s.substring_char(0, k);
        assert(first@ =~= first_token(s@));
        let n = match item_from_str_radix(first, radix) {
            Ok(v) => v,
            Err(e) => {
                return Err(ParseRationalError::Item(e));
            },
        };
        if k == len {
            return Err(ParseRationalError::MissingDenominator);
        }
        let second = s.substring_char(k + 1, len);
        assert(second@ =~= second_token(s@));
        let d = match item_from_str_radix(second, radix) {
            Ok(v) => v,
            Err(e) => {
                return Err(ParseRationalError::Item(e));
            },
        };
        match Rational::checked_new(n, d) {
            Some(q) => Ok(q),
            None => Err(ParseRationalError::OutOfRange),
        }
    }

    /// The text form `"<numerator>/<denominator>"`, in decimal.
    pub fn to_string(&self) -> (r: String)
        ensures
            r@ == display(self@),
    {
        let mut r = item_to_string(self.num);
        proof {
            reveal_strlit("/");
        }
        r.append("/");
        let d = item_to_string(self.den);
        r.append(d.as_str());
        r
    }
}

/// Parsing the text form of a canonical rational in radix 10 gives the
/// same rational back.
pub proof fn lemma_text_round_trip(a: int, b: int)
    requires
        reduced_fits(a, b),
    ensures
        parse_value(display(canonical(a, b)), 10) == Some(canonical(a, b)),
{
    let v = canonical(a, b);
    lemma_canonical_idempotent(a, b);
    let s = display(v);
    let d0 = int_decimal(v.0);
    let d1 = int_decimal(v.1);
    lemma_int_decimal(v.0);
    lemma_int_decimal(v.1);
    let k = d0.len() as int;
    assert forall|j: int| 0 <= j < k implies !is_separator(#[trigger] s[j]) by {
        assert(s[j] == d0[j]);
    }
    assert(s[k] == '/');
    assert(is_split_point(s, k));
    lemma_split_point(s, k);
    assert(first_token(s) =~= d0);
    assert(second_token(s) =~= d1);
}

} // verus!
