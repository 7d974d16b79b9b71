//! Random values, through the `rand` crate.
//!
//! Nothing is stated of a random outcome beyond its range; everything that
//! consumes one takes it as an argument and is verified for every value.

use vstd::prelude::*;
use rand::Rng;

use crate::errors::InterpError;
use crate::float::{float_add, float_mul, float_sub};

verus! {

/// Relies on rand's `gen_range` over a non-empty half-open i32 range: the
/// result lies in [lo, hi). The range being non-empty, the call cannot panic.
#[verifier::external_body]
fn rand_range_i32(lo: i32, hi: i32) -> (r: i32)
    requires
        lo < hi,
    ensures
        lo <= r < hi,
{
    rand::thread_rng().gen_range(lo..hi)
}

/// Relies on rand's `gen` for u64; nothing is stated of the outcome.
#[verifier::external_body]
fn rand_u64() -> u64 {
    rand::thread_rng().gen()
}

/// A uniformly random integer in [min, max), as the `get_random_num` command
/// returns for integer bounds.
pub fn get_random_num(min: i32, max: i32) -> (r: i32)
    requires
        min < max,
    ensures
        min <= r < max,
{
    rand_range_i32(min, max)
}

/// A random double between the two bounds, as the `get_random_num` command
/// returns for float bounds: min + u * (max - min) with u drawn from [1, 2)
/// minus one. Rounding decides the exact value, so nothing more is claimed.
pub fn get_random_float(min_bits: u64, max_bits: u64) -> u64 {
    let x = rand_u64();
    // 52 random mantissa bits under the exponent of 1.0 give a value in [1, 2)
    let u_bits: u64 = 0x3ff0_0000_0000_0000u64 | (x >> 12);
    let frac = float_sub(u_bits, 0x3ff0_0000_0000_0000u64);
    float_add(min_bits, float_mul(frac, float_sub(max_bits, min_bits)))
}

/// A random letter: uppercase for mode 1, lowercase otherwise.
pub fn get_random_char(mode: i32) -> (r: Result<char, InterpError>)
    ensures
        r is Ok,
        mode == 1 ==> 65 <= (r->Ok_0 as int) <= 90,
        mode != 1 ==> 97 <= (r->Ok_0 as int) <= 122,
{
    let base: u8 = if mode == 1 {
        65
    } else {
        97
    };
    let offset = rand_range_i32(0, 26);
    let code: u8 = base + (offset as u8);
    Ok(code as char)
}

} // verus!
