use vstd::prelude::*;

use rustc_apfloat::Float;

verus! {

// Names for the results of IEEE-754 double-precision operations. A double is
// carried as its 64-bit pattern; the operations below are functions of their
// arguments alone, so each gets a name that the library's contracts share.

/// The bit pattern of the sum of the doubles the two bit patterns encode.
pub uninterp spec fn add_bits(a: u64, b: u64) -> u64;

/// The bit pattern of the difference of the doubles the two bit patterns encode.
pub uninterp spec fn sub_bits(a: u64, b: u64) -> u64;

/// The bit pattern of the product of the doubles the two bit patterns encode.
pub uninterp spec fn mul_bits(a: u64, b: u64) -> u64;

/// The bit pattern of the quotient of the doubles the two bit patterns encode.
pub uninterp spec fn div_bits(a: u64, b: u64) -> u64;

/// What parsing a decimal text as a double yields: the bit pattern of the
/// nearest double, or nothing when the text is not a numeric literal.
pub uninterp spec fn number_bits(s: Seq<char>) -> Option<u64>;

/// The decimal rendering of the double a bit pattern encodes, at full
/// precision.
pub uninterp spec fn number_text(x: u64) -> Seq<char>;

/// The decimal rendering of the double a bit pattern encodes, cut to the
/// given count of significant digits.
pub uninterp spec fn number_text_prec(x: u64, k: nat) -> Seq<char>;

/// The bit pattern of the double nearest to an unsigned machine integer.
pub uninterp spec fn uint_bits(n: nat) -> u64;

/// The year/month/day rendering of the OA-date a bit pattern encodes.
pub uninterp spec fn oadate_text(x: u64) -> Seq<char>;

// The IEEE-754 double format fixes what a bit pattern says without any
// arithmetic: bit 63 is the sign, bits 62 to 52 the exponent, the rest the
// fraction. The three predicates below read a pattern that way.

/// Whether the bit pattern encodes a zero (of either sign).
pub open spec fn f64_is_zero(x: u64) -> bool {
    x & 0x7FFF_FFFF_FFFF_FFFF == 0
}

/// Whether the bit pattern encodes a NaN: all exponent bits set and a
/// nonzero fraction.
pub open spec fn f64_is_nan(x: u64) -> bool {
    x & 0x7FF0_0000_0000_0000 == 0x7FF0_0000_0000_0000 && x & 0x000F_FFFF_FFFF_FFFF != 0
}

/// Whether the bit pattern encodes a value strictly below zero.
pub open spec fn f64_is_neg(x: u64) -> bool {
    x & 0x8000_0000_0000_0000 != 0 && !f64_is_zero(x) && !f64_is_nan(x)
}

/// Whether the bit pattern encodes a value strictly above zero.
pub open spec fn f64_is_pos(x: u64) -> bool {
    x & 0x8000_0000_0000_0000 == 0 && !f64_is_zero(x) && !f64_is_nan(x)
}

/// The bit pattern a special floating-point word denotes: the infinity of
/// its sign for the infinity words, and the quiet NaN of its sign for the
/// NaN word.
pub open spec fn special_float_bits(s: Seq<char>) -> u64 {
    let neg = s.len() > 0 && s[0] == '-';
    let t = if s.len() > 0 && (s[0] == '+' || s[0] == '-') {
        s.skip(1)
    } else {
        s
    };
    let mag: u64 = if crate::strutil::spec_upper(t) == "NAN"@ {
        0x7FF8_0000_0000_0000
    } else {
        0x7FF0_0000_0000_0000
    };
    if neg {
        mag | 0x8000_0000_0000_0000
    } else {
        mag
    }
}

/// The bit pattern a special floating-point word denotes.
pub fn special_float_bits_x(s: &str) -> (r: u64)
    ensures
        r == special_float_bits(s@),
{
    let n = s.unicode_len();
    let mut neg = false;
    let mut start: usize = 0;
    if n > 0 {
        let c = s.get_char(0);
        if c == '-' {
            neg = true;
            start = 1;
        } else if c == '+' {
            start = 1;
        }
    }
    let rest = s.substring_char(start, n);
    proof {
        if start == 1 {
            assert(rest@ =~= s@.skip(1));
        } else {
            assert(rest@ =~= s@);
        }
    }
    let up = crate::strutil::upper_x(rest);
    let mag: u64 = if crate::strutil::str_eq(up.as_str(), "NAN") {
        0x7FF8_0000_0000_0000
    } else {
        0x7FF0_0000_0000_0000
    };
    if neg {
        mag | 0x8000_0000_0000_0000
    } else {
        mag
    }
}

/// Whether the bit pattern encodes a zero.
pub fn f64_is_zero_x(x: u64) -> (r: bool)
    ensures
        r == f64_is_zero(x),
{
    x & 0x7FFF_FFFF_FFFF_FFFF == 0
}

/// Whether the bit pattern encodes a NaN.
pub fn f64_is_nan_x(x: u64) -> (r: bool)
    ensures
        r == f64_is_nan(x),
{
    x & 0x7FF0_0000_0000_0000 == 0x7FF0_0000_0000_0000 && x & 0x000F_FFFF_FFFF_FFFF != 0
}

/// Whether the bit pattern encodes a value strictly below zero.
pub fn f64_is_neg_x(x: u64) -> (r: bool)
    ensures
        r == f64_is_neg(x),
{
    x & 0x8000_0000_0000_0000 != 0 && !f64_is_zero_x(x) && !f64_is_nan_x(x)
}

/// Whether the bit pattern encodes a value strictly above zero.
pub fn f64_is_pos_x(x: u64) -> (r: bool)
    ensures
        r == f64_is_pos(x),
{
    x & 0x8000_0000_0000_0000 == 0 && !f64_is_zero_x(x) && !f64_is_nan_x(x)
}

/// Relies on rustc_apfloat::ieee::Double addition: IEEE-754 double addition
/// on bit patterns, rounding to nearest even as the hardware operation does.
#[verifier::external_body]
pub fn f64_add(a: u64, b: u64) -> (r: u64)
    ensures
        r == add_bits(a, b),
{
    let x = rustc_apfloat::ieee::Double::from_bits(a as u128);
    let y = rustc_apfloat::ieee::Double::from_bits(b as u128);
    (x + y).value.to_bits() as u64
}

/// Relies on rustc_apfloat::ieee::Double subtraction: IEEE-754 double
/// subtraction on bit patterns, rounding to nearest even.
#[verifier::external_body]
pub fn f64_sub(a: u64, b: u64) -> (r: u64)
    ensures
        r == sub_bits(a, b),
{
    let x = rustc_apfloat::ieee::Double::from_bits(a as u128);
    let y = rustc_apfloat::ieee::Double::from_bits(b as u128);
    (x - y).value.to_bits() as u64
}

/// Relies on rustc_apfloat::ieee::Double multiplication: IEEE-754 double
/// multiplication on bit patterns, rounding to nearest even.
#[verifier::external_body]
pub fn f64_mul(a: u64, b: u64) -> (r: u64)
    ensures
        r == mul_bits(a, b),
{
    let x = rustc_apfloat::ieee::Double::from_bits(a as u128);
    let y = rustc_apfloat::ieee::Double::from_bits(b as u128);
    (x * y).value.to_bits() as u64
}

/// Relies on rustc_apfloat::ieee::Double division: IEEE-754 double division
/// on bit patterns, rounding to nearest even; division by zero yields the
/// IEEE infinity or NaN, it does not fail.
#[verifier::external_body]
pub fn f64_div(a: u64, b: u64) -> (r: u64)
    ensures
        r == div_bits(a, b),
{
    let x = rustc_apfloat::ieee::Double::from_bits(a as u128);
    let y = rustc_apfloat::ieee::Double::from_bits(b as u128);
    (x / y).value.to_bits() as u64
}

/// Relies on rustc_apfloat::ieee::Double::from_str: correctly rounded decimal
/// to double conversion, on decimal literals the same value std's float
/// parsing gives; malformed text comes back as a parse error. The length
/// bound keeps the distance between two characters within the exponent
/// arithmetic of the hexadecimal path, which would otherwise fail on texts
/// of two gibibytes and more.
#[verifier::external_body]
pub fn f64_parse(s: &str) -> (r: Option<u64>)
    requires
        s@.len() < 0x0400_0000,
    ensures
        r == number_bits(s@),
{
    match s.parse::<rustc_apfloat::ieee::Double>() {
        Ok(d) => Some(d.to_bits() as u64),
        Err(_) => None,
    }
}

/// Relies on rustc_apfloat::ieee::Double's Display: a decimal rendering of
/// the double, with up to seventeen significant digits.
#[verifier::external_body]
pub fn f64_text(x: u64) -> (r: String)
    ensures
        r@ == number_text(x),
{
    format!("{}", rustc_apfloat::ieee::Double::from_bits(x as u128))
}

/// Relies on rustc_apfloat::ieee::Double's Display with an explicit
/// precision: the rendering with k significant digits, rounded half up; a
/// handful of digits, an optional point, sign and exponent keep the text
/// far below a hundred characters.
#[verifier::external_body]
pub fn f64_text_prec(x: u64, k: usize) -> (r: String)
    requires
        1 <= k <= 17,
    ensures
        r@ == number_text_prec(x, k as nat),
        r@.len() < 100,
{
    format!("{:.*}", k, rustc_apfloat::ieee::Double::from_bits(x as u128))
}

/// Relies on rustc_apfloat::ieee::Double::from_u128: correctly rounded
/// integer to double conversion.
#[verifier::external_body]
pub fn f64_of_usize(n: usize) -> (r: u64)
    ensures
        r == uint_bits(n as nat),
{
    rustc_apfloat::ieee::Double::from_u128(n as u128).value.to_bits() as u64
}

/// Relies on time::OffsetDateTime::now_utc for the current moment and on
/// rustc_apfloat for the division into days: the OA-date day count of now,
/// of which nothing can be promised.
#[verifier::external_body]
pub fn today_bits() -> u64 {
    let base = match time::Date::from_calendar_date(1899, time::Month::December, 30) {
        Ok(d) => time::PrimitiveDateTime::new(d, time::Time::MIDNIGHT),
        Err(_) => return 0,
    };
    let now = time::OffsetDateTime::now_utc();
    let ms = (time::PrimitiveDateTime::new(now.date(), now.time()) - base).whole_milliseconds();
    let num = rustc_apfloat::ieee::Double::from_i128(ms).value;
    let den = rustc_apfloat::ieee::Double::from_u128(86_400_000).value;
    (num / den).value.to_bits() as u64
}

/// Relies on rustc_apfloat::ieee::Double::to_i128 to truncate the OA-date to
/// whole days, and on time's calendar arithmetic and formatting for the
/// year/month/day text. The day count is held inside the span the calendar
/// and the duration arithmetic accept, so a date out of range renders empty
/// instead of failing.
#[verifier::external_body]
pub fn f64_oadate_text(x: u64) -> (r: String)
    ensures
        r@ == oadate_text(x),
{
    let days = rustc_apfloat::ieee::Double::from_bits(x as u128).to_i128(64).value as i64;
    let date = match time::Date::from_calendar_date(1899, time::Month::December, 30) {
        Ok(b) if -4_000_000 <= days && days <= 4_000_000 => b.checked_add(
            time::Duration::days(days),
        ),
        _ => None,
    };
    let fmt = time::format_description::parse("[year]/[month]/[day]");
    match (date, fmt) {
        (Some(d), Ok(f)) => d.format(&f).unwrap_or_default(),
        _ => String::new(),
    }
}

} // verus!
