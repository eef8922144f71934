//! Parsing unsigned decimal settings with std's `FromStr` for the unsigned
//! integer types.
//!
//! std documents the accepted text: an optional `+` sign followed by only
//! ASCII digits, whose value fits the target type. Anything else (an empty
//! string, white space, a `-` sign, any other character, overflow) is an
//! error.
//!
//! Floating-point settings are only checked here, never converted: std's
//! float parsing accepts exactly the text of its documented grammar, and
//! [`float_literal`] states that grammar on chars.

use vstd::prelude::*;

use crate::numfmt::value_of;
use crate::text::{ascii_lower, chars_of};

verus! {

/// The error of std's integer parsing.
#[verifier::external_type_specification]
#[verifier::external_body]
pub struct ExParseIntError(core::num::ParseIntError);

/// `s` without its optional leading `+`.
pub open spec fn unsigned_digits(s: Seq<char>) -> Seq<char> {
    if s.len() > 0 && s[0] == '+' {
        s.drop_first()
    } else {
        s
    }
}

/// Every char of `d` is an ASCII digit.
pub open spec fn ascii_digits(d: Seq<char>) -> bool {
    forall|i: int| 0 <= i < d.len() ==> '0' <= #[trigger] d[i] <= '9'
}

/// The decimal value of `s` when std's unsigned parsing accepts it for a
/// type whose largest value is `max`.
pub open spec fn parse_unsigned(s: Seq<char>, max: nat) -> Option<nat> {
    let d = unsigned_digits(s);
    if d.len() > 0 && ascii_digits(d) && value_of(d, 10) <= max {
        Some(value_of(d, 10))
    } else {
        None
    }
}

/// `<usize as FromStr>::from_str`: accepts exactly the text that
/// [`parse_unsigned`] describes, with that value.
#[verifier::external_body]
pub(crate) fn parse_usize_std(s: &str) -> (r: Result<usize, core::num::ParseIntError>)
    ensures
        match parse_unsigned(s@, usize::MAX as nat) {
            Some(v) => r matches Ok(x) && x == v,
            None => r is Err,
        },
{
    s.parse::<usize>()
}

/// `<u64 as FromStr>::from_str`: accepts exactly the text that
/// [`parse_unsigned`] describes, with that value.
#[verifier::external_body]
pub(crate) fn parse_u64_std(s: &str) -> (r: Result<u64, core::num::ParseIntError>)
    ensures
        match parse_unsigned(s@, u64::MAX as nat) {
            Some(v) => r matches Ok(x) && x == v,
            None => r is Err,
        },
{
    s.parse::<u64>()
}

/// `<u32 as FromStr>::from_str`: accepts exactly the text that
/// [`parse_unsigned`] describes, with that value.
#[verifier::external_body]
pub(crate) fn parse_u32_std(s: &str) -> (r: Result<u32, core::num::ParseIntError>)
    ensures
        match parse_unsigned(s@, u32::MAX as nat) {
            Some(v) => r matches Ok(x) && x == v,
            None => r is Err,
        },
{
    s.parse::<u32>()
}

/// `<u16 as FromStr>::from_str`: accepts exactly the text that
/// [`parse_unsigned`] describes, with that value.
#[verifier::external_body]
pub(crate) fn parse_u16_std(s: &str) -> (r: Result<u16, core::num::ParseIntError>)
    ensures
        match parse_unsigned(s@, u16::MAX as nat) {
            Some(v) => r matches Ok(x) && x == v,
            None => r is Err,
        },
{
    s.parse::<u16>()
}

/// The `Display` text of a parse error. Its wording is not stated.
#[verifier::external_body]
pub(crate) fn parse_error_text(e: &core::num::ParseIntError) -> (t: String) {
    e.to_string()
}

/// Where a scan of decimal float text stands.
#[derive(Debug, Clone, Copy, PartialEq, Eq, Structural)]
pub enum FloatScan {
    /// Nothing read.
    Start,
    /// A sign read.
    Signed,
    /// Digits read, no point.
    Whole,
    /// A point read with no digit before it, and none after it yet.
    Point,
    /// A point read, with a digit on at least one side of it.
    Fraction,
    /// The exponent marker `e` or `E` read.
    Exp,
    /// The exponent's sign read.
    ExpSigned,
    /// Exponent digits read.
    ExpDigits,
    /// Not a number.
    Reject,
}

/// ASCII decimal digit.
pub open spec fn is_digit(c: char) -> bool {
    '0' <= c <= '9'
}

/// One step of the scan over char `c`.
pub open spec fn float_step(st: FloatScan, c: char) -> FloatScan {
    let sign = c == '+' || c == '-';
    let exp = c == 'e' || c == 'E';
    match st {
        FloatScan::Start => if sign {
            FloatScan::Signed
        } else if is_digit(c) {
            FloatScan::Whole
        } else if c == '.' {
            FloatScan::Point
        } else {
            FloatScan::Reject
        },
        FloatScan::Signed => if is_digit(c) {
            FloatScan::Whole
        } else if c == '.' {
            FloatScan::Point
        } else {
            FloatScan::Reject
        },
        FloatScan::Whole => if is_digit(c) {
            FloatScan::Whole
        } else if c == '.' {
            FloatScan::Fraction
        } else if exp {
            FloatScan::Exp
        } else {
            FloatScan::Reject
        },
        FloatScan::Point => if is_digit(c) {
            FloatScan::Fraction
        } else {
            FloatScan::Reject
        },
        FloatScan::Fraction => if is_digit(c) {
            FloatScan::Fraction
        } else if exp {
            FloatScan::Exp
        } else {
            FloatScan::Reject
        },
        FloatScan::Exp => if sign {
            FloatScan::ExpSigned
        } else if is_digit(c) {
            FloatScan::ExpDigits
        } else {
            FloatScan::Reject
        },
        FloatScan::ExpSigned => if is_digit(c) {
            FloatScan::ExpDigits
        } else {
            FloatScan::Reject
        },
        FloatScan::ExpDigits => if is_digit(c) {
            FloatScan::ExpDigits
        } else {
            FloatScan::Reject
        },
        FloatScan::Reject => FloatScan::Reject,
    }
}

/// The scan state after reading all of `s`.
pub open spec fn float_scan(s: Seq<char>) -> FloatScan
    decreases s.len(),
{
    if s.len() == 0 {
        FloatScan::Start
    } else {
        float_step(float_scan(s.drop_last()), s.last())
    }
}

/// `s` is a decimal number of std's float grammar:
/// `[+-]? (Digit+ | Digit+ '.' Digit* | Digit* '.' Digit+) ([eE] [+-]? Digit+)?`.
pub open spec fn float_number(s: Seq<char>) -> bool {
    let st = float_scan(s);
    st == FloatScan::Whole || st == FloatScan::Fraction || st == FloatScan::ExpDigits
}

/// `s` without its optional leading sign.
pub open spec fn unsigned_text(s: Seq<char>) -> Seq<char> {
    if s.len() > 0 && (s[0] == '+' || s[0] == '-') {
        s.drop_first()
    } else {
        s
    }
}

/// `s` is a signed `inf`, `infinity` or `nan`, in any ASCII case.
pub open spec fn float_word(s: Seq<char>) -> bool {
    let w = unsigned_text(s).map_values(|c: char| ascii_lower(c));
    w == "inf"@ || w == "infinity"@ || w == "nan"@
}

/// The text std's `f32` and `f64` parsing accepts: a decimal number or a
/// signed `inf`, `infinity` or `nan` (ASCII case ignored), with nothing
/// around it. Out-of-range magnitudes are still accepted (they round).
pub open spec fn float_literal(s: Seq<char>) -> bool {
    float_number(s) || float_word(s)
}

fn float_step_exec(st: FloatScan, c: char) -> (r: FloatScan)
    ensures
        r == float_step(st, c),
{
    let sign = c == '+' || c == '-';
    let exp = c == 'e' || c == 'E';
    let digit = '0' <= c && c <= '9';
    match st {
        FloatScan::Start => if sign {
            FloatScan::Signed
        } else if digit {
            FloatScan::Whole
        } else if c == '.' {
            FloatScan::Point
        } else {
            FloatScan::Reject
        },
        FloatScan::Signed => if digit {
            FloatScan::Whole
        } else if c == '.' {
            FloatScan::Point
        } else {
            FloatScan::Reject
        },
        FloatScan::Whole => if digit {
            FloatScan::Whole
        } else if c == '.' {
            FloatScan::Fraction
        } else if exp {
            FloatScan::Exp
        } else {
            FloatScan::Reject
        },
        FloatScan::Point => if digit {
            FloatScan::Fraction
        } else {
            FloatScan::Reject
        },
        FloatScan::Fraction => if digit {
            FloatScan::Fraction
        } else if exp {
            FloatScan::Exp
        } else {
            FloatScan::Reject
        },
        FloatScan::Exp => if sign {
            FloatScan::ExpSigned
        } else if digit {
            FloatScan::ExpDigits
        } else {
            FloatScan::Reject
        },
        FloatScan::ExpSigned => if digit {
            FloatScan::ExpDigits
        } else {
            FloatScan::Reject
        },
        FloatScan::ExpDigits => if digit {
            FloatScan::ExpDigits
        } else {
            FloatScan::Reject
        },
        FloatScan::Reject => FloatScan::Reject,
    }
}

/// Whether `c` is the lowercase letter `lower` in either ASCII case.
fn is_letter_ignoring_case(c: char, lower: char) -> (r: bool)
    requires
        'a' <= lower <= 'z',
    ensures
        r == (ascii_lower(c) == lower),
{
    c == lower || (c as u32) + 32 == (lower as u32)
}

/// Whether the chars of `s` from `lo` on spell the lowercase word `word`,
/// ASCII case ignored.
fn spells_ignoring_case(s: &Vec<char>, lo: usize, word: &Vec<char>) -> (r: bool)
    requires
        lo <= s@.len(),
        forall|i: int| 0 <= i < word@.len() ==> 'a' <= #[trigger] word@[i] <= 'z',
    ensures
        r == (s@.skip(lo as int).map_values(|c: char| ascii_lower(c)) == word@),
{
    let ghost w = s@.skip(lo as int).map_values(|c: char| ascii_lower(c));
    if s.len() - lo != word.len() {
        assert(w.len() != word@.len());
        return false;
    }
    let n = word.len();
    let mut i: usize = 0;
    while i < n
        invariant
            n == word@.len(),
            lo + n == s.len(),
            w == s@.skip(lo as int).map_values(|c: char| ascii_lower(c)),
            forall|j: int| 0 <= j < word@.len() ==> 'a' <= #[trigger] word@[j] <= 'z',
            i <= n,
            forall|j: int| 0 <= j < i ==> w[j] == #[trigger] word@[j],
        decreases n - i,
    {
        if !is_letter_ignoring_case(s[lo + i], word[i]) {
            assert(w[i as int] != word@[i as int]);
            return false;
        }
        i += 1;
    }
    assert(w =~= word@);
    true
}

/// Whether std's float parsing accepts `s` ([`float_literal`]).
pub fn is_float_literal(s: &str) -> (r: bool)
    ensures
        r == float_literal(s@),
{
    let cs = chars_of(s);
    let n = cs.len();
    let mut st = FloatScan::Start;
    let mut i: usize = 0;
    while i < n
        invariant
            n == cs@.len(),
            cs@ == s@,
            i <= n,
            st == float_scan(s@.take(i as int)),
        decreases n - i,
    {
        proof {
            assert(s@.take(i + 1).drop_last() =~= s@.take(i as int));
            assert(s@.take(i + 1).last() == cs@[i as int]);
        }
        st = float_step_exec(st, cs[i]);
        i += 1;
    }
    proof {
        assert(s@.take(n as int) =~= s@);
    }
    if st == FloatScan::Whole || st == FloatScan::Fraction || st == FloatScan::ExpDigits {
        return true;
    }
    let lo: usize = if n > 0 && (cs[0] == '+' || cs[0] == '-') {
        1
    } else {
        0
    };
    proof {
        assert(unsigned_text(s@) =~= s@.skip(lo as int));
        reveal_strlit("inf");
        reveal_strlit("infinity");
        reveal_strlit("nan");
    }
    spells_ignoring_case(&cs, lo, &chars_of("inf")) || spells_ignoring_case(
        &cs,
        lo,
        &chars_of("infinity"),
    ) || spells_ignoring_case(&cs, lo, &chars_of("nan"))
}

} // verus!
