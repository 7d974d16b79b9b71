//! Double-precision values, held as their IEEE 754 bit patterns.
//!
//! The interpreter never computes on floating point itself: a float value is
//! a `u64` bit pattern, and every operation on one goes through a software
//! implementation of IEEE 754 arithmetic (the `rustc_apfloat` crate), behind
//! the trusted wrappers below. What each operation returns is named by an
//! uninterpreted function of the bits alone, so contracts downstream can say
//! exactly which operation produced a value without restating IEEE 754.

use vstd::prelude::*;
use rustc_apfloat::Float;

verus! {

/// The bit pattern that `rustc_apfloat`'s decimal parser gives to a string,
/// or None where the string is not a number it accepts.
pub uninterp spec fn float_from_dec(s: Seq<char>) -> Option<u64>;

/// The decimal text that `rustc_apfloat`'s formatter prints for a bit pattern.
pub uninterp spec fn float_dec_of(bits: u64) -> Seq<char>;

/// The IEEE 754 sum of two doubles, rounded to nearest, ties to even.
pub uninterp spec fn float_add_bits(a: u64, b: u64) -> u64;

/// The IEEE 754 difference of two doubles.
pub uninterp spec fn float_sub_bits(a: u64, b: u64) -> u64;

/// The IEEE 754 product of two doubles.
pub uninterp spec fn float_mul_bits(a: u64, b: u64) -> u64;

/// The IEEE 754 quotient of two doubles.
pub uninterp spec fn float_div_bits(a: u64, b: u64) -> u64;

/// The double nearest to an integer.
pub uninterp spec fn float_of_int(v: i64) -> u64;

/// The IEEE 754 ordering of two doubles: Some(-1), Some(0) or Some(1), and
/// None where either operand is NaN.
pub uninterp spec fn float_cmp_bits(a: u64, b: u64) -> Option<i8>;

/// Every bit of a double but its sign: a value whose other bits are all
/// clear is a zero of one sign or the other.
pub const F64_MAGNITUDE_MASK: u64 = 0x7fff_ffff_ffff_ffff;

/// The bit pattern of f64::EPSILON, the tolerance of the `==`/`!=` condition
/// operators on numeric operands.
pub const F64_EPSILON_BITS: u64 = 0x3cb0_0000_0000_0000;

/// Whether a bit pattern is +0.0 or -0.0; equivalent to `== 0.0` on doubles.
pub open spec fn spec_float_is_zero(bits: u64) -> bool {
    bits == 0 || bits == 0x8000_0000_0000_0000u64
}

pub fn float_is_zero(bits: u64) -> (r: bool)
    ensures
        r == spec_float_is_zero(bits),
{
    bits == 0 || bits == 0x8000_0000_0000_0000u64
}

/// The absolute value of a double: the sign bit cleared.
pub open spec fn spec_float_abs(bits: u64) -> u64 {
    bits & F64_MAGNITUDE_MASK
}

pub fn float_abs(bits: u64) -> (r: u64)
    ensures
        r == spec_float_abs(bits),
{
    bits & F64_MAGNITUDE_MASK
}

/// Relies on rustc_apfloat's `Double` `FromStr`: correctly rounded decimal
/// (or hexadecimal) parsing of a 64-bit IEEE 754 value, `inf`/`NaN` forms
/// included, an error on any other text.
#[verifier::external_body]
pub fn float_parse(s: &[char]) -> (r: Option<u64>)
    ensures
        r == float_from_dec(s@),
{
    let text: String = s.iter().collect();
    match text.parse::<rustc_apfloat::ieee::Double>() {
        Ok(d) => Some(rustc_apfloat::Float::to_bits(d) as u64),
        Err(_) => None,
    }
}

/// Relies on rustc_apfloat's `Display` for `Double`: a decimal rendering of
/// the value, a function of the bits alone.
#[verifier::external_body]
pub fn float_display(bits: u64) -> (r: Vec<char>)
    ensures
        r@ == float_dec_of(bits),
{
    let d = <rustc_apfloat::ieee::Double as rustc_apfloat::Float>::from_bits(bits as u128);
    let text = format!("{}", d);
    text.chars().collect()
}

/// Relies on rustc_apfloat's `add_r`: IEEE 754 addition, round to nearest.
#[verifier::external_body]
pub fn float_add(a: u64, b: u64) -> (r: u64)
    ensures
        r == float_add_bits(a, b),
{
    let x = rustc_apfloat::ieee::Double::from_bits(a as u128);
    let y = rustc_apfloat::ieee::Double::from_bits(b as u128);
    (x + y).value.to_bits() as u64
}

/// Relies on rustc_apfloat's `sub_r`: IEEE 754 subtraction, round to nearest.
#[verifier::external_body]
pub fn float_sub(a: u64, b: u64) -> (r: u64)
    ensures
        r == float_sub_bits(a, b),
{
    let x = rustc_apfloat::ieee::Double::from_bits(a as u128);
    let y = rustc_apfloat::ieee::Double::from_bits(b as u128);
    (x - y).value.to_bits() as u64
}

/// Relies on rustc_apfloat's `mul_r`: IEEE 754 multiplication, round to nearest.
#[verifier::external_body]
pub fn float_mul(a: u64, b: u64) -> (r: u64)
    ensures
        r == float_mul_bits(a, b),
{
    let x = rustc_apfloat::ieee::Double::from_bits(a as u128);
    let y = rustc_apfloat::ieee::Double::from_bits(b as u128);
    (x * y).value.to_bits() as u64
}

/// Relies on rustc_apfloat's `div_r`: IEEE 754 division, round to nearest.
#[verifier::external_body]
pub fn float_div(a: u64, b: u64) -> (r: u64)
    ensures
        r == float_div_bits(a, b),
{
    let x = rustc_apfloat::ieee::Double::from_bits(a as u128);
    let y = rustc_apfloat::ieee::Double::from_bits(b as u128);
    (x / y).value.to_bits() as u64
}

/// Relies on rustc_apfloat's `from_i128`: the double nearest to an integer.
#[verifier::external_body]
pub fn float_from_int(v: i64) -> (r: u64)
    ensures
        r == float_of_int(v),
{
    rustc_apfloat::ieee::Double::from_i128(v as i128).value.to_bits() as u64
}

/// Relies on rustc_apfloat's `PartialOrd` for `Double`: the IEEE 754 ordering,
/// None where either operand is NaN.
#[verifier::external_body]
pub fn float_cmp(a: u64, b: u64) -> (r: Option<i8>)
    ensures
        r == float_cmp_bits(a, b),
{
    let x = rustc_apfloat::ieee::Double::from_bits(a as u128);
    let y = rustc_apfloat::ieee::Double::from_bits(b as u128);
    match x.partial_cmp(&y) {
        Some(core::cmp::Ordering::Less) => Some(-1),
        Some(core::cmp::Ordering::Equal) => Some(0),
        Some(core::cmp::Ordering::Greater) => Some(1),
        None => None,
    }
}

/// Whether `a == b` holds under the interpreter's tolerant numeric equality:
/// |a - b| < f64::EPSILON.
pub open spec fn spec_float_almost_eq(a: u64, b: u64) -> bool {
    float_cmp_bits(spec_float_abs(float_sub_bits(a, b)), F64_EPSILON_BITS) == Some(-1i8)
}

pub fn float_almost_eq(a: u64, b: u64) -> (r: bool)
    ensures
        r == spec_float_almost_eq(a, b),
{
    let d = float_abs(float_sub(a, b));
    match float_cmp(d, F64_EPSILON_BITS) {
        Some(c) => c == -1,
        None => false,
    }
}

} // verus!
