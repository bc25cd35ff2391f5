//! The text form of rationals: `"<numerator>/<denominator>"`, with `/` or
//! `:` accepted as separator when parsing.
use vstd::prelude::*;

verus! {

/// The value of a digit character in radices up to 36, or 36 for a
/// character that is no digit in any of them.
pub open spec fn digit_value(c: char) -> int {
    if '0' <= c && c <= '9' {
        c as int - '0' as int
    } else if 'a' <= c && c <= 'z' {
        c as int - 'a' as int + 10
    } else if 'A' <= c && c <= 'Z' {
        c as int - 'A' as int + 10
    } else {
        36
    }
}

/// Every character is a digit of the radix.
pub open spec fn all_digits(s: Seq<char>, radix: int) -> bool {
    forall|i: int| 0 <= i < s.len() ==> #[trigger] digit_value(s[i]) < radix
}

/// The value of a string of digits, most significant first.
pub open spec fn digits_value(s: Seq<char>, radix: int) -> int
    decreases s.len(),
{
    if s.len() == 0 {
        0
    } else {
        digits_value(s.drop_last(), radix) * radix + digit_value(s.last())
    }
}

/// The integer that a numeral denotes: an optional `+` or `-` followed by
/// one or more digits of the radix and nothing else; `None` for any other
/// string.
pub open spec fn numeral_value(s: Seq<char>, radix: int) -> Option<int> {
    if s.len() > 1 && s[0] == '-' && all_digits(s.skip(1), radix) {
        Some(-digits_value(s.skip(1), radix))
    } else if s.len() > 1 && s[0] == '+' && all_digits(s.skip(1), radix) {
        Some(digits_value(s.skip(1), radix))
    } else if s.len() > 0 && all_digits(s, radix) {
        Some(digits_value(s, radix))
    } else {
        None
    }
}

/// The `i64` that a numeral denotes, if it is one and fits.
pub open spec fn parsed_item(s: Seq<char>, radix: int) -> Option<int> {
    match numeral_value(s, radix) {
        Some(v) => if i64::MIN <= v <= i64::MAX {
            Some(v)
        } else {
            None
        },
        None => None,
    }
}

/// The error of std's integer parsing, carried through unchanged.
#[verifier::external_type_specification]
#[verifier::external_body]
pub struct ExParseIntError(core::num::ParseIntError);

/// Relies on `num_traits::Num::from_str_radix` for `i64`, which hands the
/// string to std's `i64::from_str_radix`: an optional sign and one or more
/// digits of the radix (either case), and an error for anything else or a
/// value out of range. It panics on a radix outside `2..=36`.
#[verifier::external_body]
pub(crate) fn item_from_str_radix(s: &str, radix: u32) -> (r: Result<
    i64,
    core::num::ParseIntError,
>)
    requires
        2 <= radix <= 36,
    ensures
        match r {
            Ok(v) => parsed_item(s@, radix as int) == Some(v as int),
            Err(_) => parsed_item(s@, radix as int) is None,
        },
{
    <i64 as num_traits::Num>::from_str_radix(s, radix)
}

/// The decimal digit character for `d` in `0..10`.
pub open spec fn digit_char(d: int) -> char {
    if d == 0 {
        '0'
    } else if d == 1 {
        '1'
    } else if d == 2 {
        '2'
    } else if d == 3 {
        '3'
    } else if d == 4 {
        '4'
    } else if d == 5 {
        '5'
    } else if d == 6 {
        '6'
    } else if d == 7 {
        '7'
    } else if d == 8 {
        '8'
    } else {
        '9'
    }
}

/// The decimal digits of a natural number, without leading zeros.
pub open spec fn nat_decimal(n: nat) -> Seq<char>
    decreases n,
{
    if n < 10 {
        seq![digit_char(n as int)]
    } else {
        nat_decimal(n / 10).push(digit_char((n % 10) as int))
    }
}

/// The decimal form of an integer, with a `-` before a negative one.
pub open spec fn int_decimal(n: int) -> Seq<char> {
    if n < 0 {
        seq!['-'] + nat_decimal((-n) as nat)
    } else {
        nat_decimal(n as nat)
    }
}

/// Relies on std's `ToString` for `i64` (through its `Display`): the
/// decimal form, with a leading `-` for a negative value.
#[verifier::external_body]
pub(crate) fn item_to_string(n: i64) -> (r: String)
    ensures
        r@ == int_decimal(n as int),
{
    n.to_string()
}

/// The decimal form of a natural number is a numeral of radix 10 that
/// denotes it, and holds digits only.
pub proof fn lemma_nat_decimal(n: nat)
    ensures
        nat_decimal(n).len() > 0,
        all_digits(nat_decimal(n), 10),
        digits_value(nat_decimal(n), 10) == n,
        forall|j: int|
            0 <= j < nat_decimal(n).len() ==> '0' <= #[trigger] nat_decimal(n)[j] && nat_decimal(
                n,
            )[j] <= '9',
    decreases n,
{
    if n >= 10 {
        lemma_nat_decimal(n / 10);
        let x = nat_decimal(n / 10);
        let s = nat_decimal(n);
        assert(s.drop_last() =~= x);
        assert forall|i: int| 0 <= i < s.len() implies #[trigger] digit_value(s[i]) < 10 && '0'
            <= s[i] && s[i] <= '9' by {
            if i < x.len() {
                assert(s[i] == x[i]);
            }
        }
        let d = (n % 10) as int;
        assert(digit_value(digit_char(d)) == d);
        assert(s.last() == digit_char(d));
        assert(digits_value(s, 10) == digits_value(x, 10) * 10 + d);
        assert(n == (n / 10) * 10 + n % 10);
    } else {
        let s = nat_decimal(n);
        assert(digit_value(digit_char(n as int)) == n);
        assert(s.drop_last() =~= Seq::<char>::empty());
        assert(digits_value(s, 10) == digits_value(s.drop_last(), 10) * 10 + digit_value(s.last()));
    }
}

/// The decimal form of an integer is a numeral of radix 10 that denotes
/// it, and holds no separator.
pub proof fn lemma_int_decimal(n: int)
    ensures
        numeral_value(int_decimal(n), 10) == Some(n),
        forall|j: int| 0 <= j < int_decimal(n).len() ==> !is_separator(#[trigger] int_decimal(n)[j]),
{
    if n < 0 {
        let d = nat_decimal((-n) as nat);
        lemma_nat_decimal((-n) as nat);
        let s = int_decimal(n);
        assert(s.skip(1) =~= d);
        assert forall|j: int| 0 <= j < s.len() implies !is_separator(#[trigger] s[j]) by {
            if j > 0 {
                assert(s[j] == d[j - 1]);
            }
        }
    } else {
        lemma_nat_decimal(n as nat);
        let s = int_decimal(n);
        assert('0' <= s[0] && s[0] <= '9');
    }
}

/// A character that separates numerator from denominator.
pub open spec fn is_separator(c: char) -> bool {
    c == '/' || c == ':'
}

/// `k` is the position of the first separator, or the length when there is
/// none.
pub open spec fn is_split_point(s: Seq<char>, k: int) -> bool {
    &&& 0 <= k <= s.len()
    &&& forall|j: int| 0 <= j < k ==> !is_separator(#[trigger] s[j])
    &&& k < s.len() ==> is_separator(s[k])
}

/// The position of the first separator, or the length when there is none.
pub open spec fn split_point(s: Seq<char>) -> int {
    choose|k: int| is_split_point(s, k)
}

/// There is exactly one split point.
pub proof fn lemma_split_point(s: Seq<char>, k: int)
    requires
        is_split_point(s, k),
    ensures
        split_point(s) == k,
{
    let c = split_point(s);
    assert(is_split_point(s, c));
    if c < k {
        assert(!is_separator(s[c]));
    }
    if k < c {
        assert(!is_separator(s[k]));
    }
}

/// The text before the first separator.
pub open spec fn first_token(s: Seq<char>) -> Seq<char> {
    s.take(split_point(s))
}

/// The text after the first separator, further separators included.
pub open spec fn second_token(s: Seq<char>) -> Seq<char> {
    s.skip(split_point(s) + 1)
}

} // verus!
