//! Arithmetic on variables: `add`, `sub`, `mul`, `div`.
//!
//! The target variable is looked up in priority order; an int target promotes
//! to float when the operand is a float. Integer arithmetic wraps on
//! overflow rather than fail; `div` rejects an integer or float zero operand
//! before touching the store, so a failed division leaves every variable
//! unchanged.

use vstd::prelude::*;

use crate::errors::{emodel, ErrSpec, InterpError};
use crate::float::{
    float_add, float_add_bits, float_div, float_div_bits, float_from_int, float_is_zero, float_mul,
    float_mul_bits, float_of_int, float_sub, float_sub_bits, spec_float_is_zero,
};
use crate::interp::vars_model_eq;
use crate::parse::spec_dict_update;
use crate::store::{spec_table_lookup, Variables};
use crate::value::{vmodel, ParsedValue, ValSpec};
use vstd::wrapping::i32_specs;

verus! {

/// Truncated division of magnitudes, the sign rule of Rust's integer `/`,
/// wrapped into i32 range (so MIN / -1 gives MIN).
pub open spec fn spec_div_i32(a: int, b: int) -> int
    recommends
        b != 0,
{
    let q = (if a < 0 {
        -a
    } else {
        a
    }) / (if b < 0 {
        -b
    } else {
        b
    });
    let signed = if (a < 0) == (b < 0) {
        q
    } else {
        -q
    };
    if signed > i32::MAX {
        signed - 0x1_0000_0000
    } else {
        signed
    }
}

/// Divides two non-zero-divisor i32 values with wrapping, matching
/// `i32::wrapping_div`.
fn div_i32_wrapping(a: i32, b: i32) -> (r: i32)
    requires
        b != 0,
    ensures
        r as int == spec_div_i32(a as int, b as int),
{
    let neg = (a < 0) != (b < 0);
    let ua: u64 = if a < 0 {
        (-(a as i64)) as u64
    } else {
        a as u64
    };
    let ub: u64 = if b < 0 {
        (-(b as i64)) as u64
    } else {
        b as u64
    };
    let q = ua / ub;
    if neg {
        if q == 0x8000_0000 {
            i32::MIN
        } else {
            -((q as i64) as i32)
        }
    } else {
        if q == 0x8000_0000 {
            i32::MIN
        } else {
            q as i32
        }
    }
}

/// What one arithmetic command does to the store, per operation, target kind
/// and operand kind. `op` is 0 add, 1 sub, 2 mul, 3 div.
pub open spec fn spec_arith_int_int(op: int, a: int, b: int) -> int {
    if op == 0 {
        i32_specs::wrapping_add(a as i32, b as i32) as int
    } else if op == 1 {
        i32_specs::wrapping_sub(a as i32, b as i32) as int
    } else if op == 2 {
        i32_specs::wrapping_mul(a as i32, b as i32) as int
    } else {
        spec_div_i32(a, b)
    }
}

/// The float result of an operation on two bit patterns.
pub open spec fn spec_arith_float(op: int, a: u64, b: u64) -> u64 {
    if op == 0 {
        float_add_bits(a, b)
    } else if op == 1 {
        float_sub_bits(a, b)
    } else if op == 2 {
        float_mul_bits(a, b)
    } else {
        float_div_bits(a, b)
    }
}

fn arith_int_int(op: u8, a: i32, b: i32) -> (r: i32)
    requires
        op < 4,
        op == 3 ==> b != 0,
    ensures
        r as int == spec_arith_int_int(op as int, a as int, b as int),
{
    if op == 0 {
        a.wrapping_add(b)
    } else if op == 1 {
        a.wrapping_sub(b)
    } else if op == 2 {
        a.wrapping_mul(b)
    } else {
        div_i32_wrapping(a, b)
    }
}

fn arith_float(op: u8, a: u64, b: u64) -> (r: u64)
    requires
        op < 4,
    ensures
        r == spec_arith_float(op as int, a, b),
{
    if op == 0 {
        float_add(a, b)
    } else if op == 1 {
        float_sub(a, b)
    } else if op == 2 {
        float_mul(a, b)
    } else {
        float_div(a, b)
    }
}

/// Performs `add`/`sub`/`mul`/`div` of an operand value into a variable.
///
/// The contract walks the same cases the code does: a zero `div` operand
/// fails first and changes nothing; an int or float operand meets an int or
/// float target (an int target promotes to float under a float operand) or,
/// for `add`, appends its rendering to a string target; a string operand
/// only concatenates under `add`; any
/// other pairing, an unknown operation, or an unbound target fails and
/// changes nothing.
#[verifier::rlimit(30)]
pub fn perform_arithmetic(vars: &mut Variables, operation: &str, var_name: &str, value: ParsedValue) -> (r:
    Result<(), InterpError>)
    requires
        old(vars).wf(),
    ensures
        final(vars).wf(),
        final(vars).arrays() == old(vars).arrays(),
        final(vars).dicts() == old(vars).dicts(),
        r is Err ==> vars_model_eq(*final(vars), *old(vars)) && spec_arith_outcome(
            *old(vars),
            operation@,
            var_name@,
            vmodel(value),
        ) == Err::<ValSpec, ErrSpec>(emodel(r->Err_0)),
        r is Ok ==> ({
            let out = spec_arith_outcome(*old(vars), operation@, var_name@, vmodel(value));
            &&& out is Ok
            &&& match out->Ok_0 {
                ValSpec::Int(v) => {
                    &&& final(vars).ints() == spec_dict_update(
                        old(vars).ints(),
                        var_name@,
                        ValSpec::Int(v),
                    )
                    &&& final(vars).floats() == old(vars).floats()
                    &&& final(vars).strings() == old(vars).strings()
                },
                ValSpec::Float(b) => {
                    &&& final(vars).floats() == spec_dict_update(
                        old(vars).floats(),
                        var_name@,
                        ValSpec::Float(b),
                    )
                    &&& final(vars).ints() == old(vars).ints()
                    &&& final(vars).strings() == old(vars).strings()
                },
                ValSpec::Str(s) => {
                    &&& final(vars).strings() == spec_dict_update(
                        old(vars).strings(),
                        var_name@,
                        ValSpec::Str(s),
                    )
                    &&& final(vars).ints() == old(vars).ints()
                    &&& final(vars).floats() == old(vars).floats()
                },
                _ => false,
            }
        }),
{
    let op: u8 = if crate::text::str_eq(operation, "add") {
        0
    } else if crate::text::str_eq(operation, "sub") {
        1
    } else if crate::text::str_eq(operation, "mul") {
        2
    } else if crate::text::str_eq(operation, "div") {
        3
    } else {
        return Err(InterpError::UnknownCommand(operation.to_owned()));
    };
    match value {
        ParsedValue::Int(iv) => {
            if op == 3 && iv == 0 {
                return Err(InterpError::DivisionByZero);
            }
            if let Some(cur) = vars.get_int_data(var_name) {
                let newv = arith_int_int(op, cur, iv);
                vars.add_data_to_int(var_name.to_owned(), newv);
                return Ok(());
            }
            if let Some(cur) = vars.get_float_data(var_name) {
                let operand = float_from_int(iv as i64);
                let newv = arith_float(op, cur, operand);
                vars.add_data_to_float(var_name.to_owned(), newv);
                return Ok(());
            }
            if op == 0 {
                if let Some(cur) = vars.get_string_data(var_name) {
                    let digits = crate::numtext::int_to_chars(iv);
                    let tail = crate::text::string_of(digits.as_slice());
                    let newv = crate::text::string_concat(cur.as_str(), tail.as_str());
                    vars.add_data_to_string(var_name.to_owned(), newv);
                    return Ok(());
                }
            }
            Err(InterpError::TypeMismatch(var_name.to_owned()))
        },
        ParsedValue::Float(fv) => {
            if op == 3 && float_is_zero(fv) {
                return Err(InterpError::DivisionByZero);
            }
            if let Some(cur) = vars.get_int_data(var_name) {
                let lhs = float_from_int(cur as i64);
                let newv = arith_float(op, lhs, fv);
                vars.add_data_to_float(var_name.to_owned(), newv);
                return Ok(());
            }
            if let Some(cur) = vars.get_float_data(var_name) {
                let newv = arith_float(op, cur, fv);
                vars.add_data_to_float(var_name.to_owned(), newv);
                return Ok(());
            }
            if op == 0 {
                if let Some(cur) = vars.get_string_data(var_name) {
                    let rendered = crate::float::float_display(fv);
                    let tail = crate::text::string_of(rendered.as_slice());
                    let newv = crate::text::string_concat(cur.as_str(), tail.as_str());
                    vars.add_data_to_string(var_name.to_owned(), newv);
                    return Ok(());
                }
            }
            Err(InterpError::TypeMismatch(var_name.to_owned()))
        },
        ParsedValue::Str(sv) => {
            if op == 0 {
                if let Some(cur) = vars.get_string_data(var_name) {
                    let newv = crate::text::string_concat(cur.as_str(), sv.as_str());
                    vars.add_data_to_string(var_name.to_owned(), newv);
                    return Ok(());
                }
                return Err(InterpError::TypeMismatch(var_name.to_owned()));
            }
            Err(InterpError::TypeMismatch(var_name.to_owned()))
        },
        _ => Err(InterpError::TypeMismatch(var_name.to_owned())),
    }
}

/// The outcome of an arithmetic command: the value that will be stored (its
/// kind names the table), or the error.
pub open spec fn spec_arith_outcome(
    vars: Variables,
    operation: Seq<char>,
    name: Seq<char>,
    v: ValSpec,
) -> Result<ValSpec, ErrSpec> {
    let op: int = if operation == ("add")@ {
        0
    } else if operation == ("sub")@ {
        1
    } else if operation == ("mul")@ {
        2
    } else if operation == ("div")@ {
        3
    } else {
        4
    };
    if op == 4 {
        Err(ErrSpec::UnknownCommand(operation))
    } else {
        match v {
            ValSpec::Int(iv) => if op == 3 && iv == 0 {
                Err(ErrSpec::DivisionByZero)
            } else {
                match spec_table_lookup(vars.ints(), name) {
                    Some(ValSpec::Int(cur)) => Ok(ValSpec::Int(spec_arith_int_int(op, cur, iv))),
                    _ => match spec_table_lookup(vars.floats(), name) {
                        Some(ValSpec::Float(cur)) => Ok(
                            ValSpec::Float(spec_arith_float(op, cur, float_of_int(iv as i64))),
                        ),
                        _ => if op == 0 {
                            match spec_table_lookup(vars.strings(), name) {
                                Some(ValSpec::Str(cur)) => Ok(
                                    ValSpec::Str(cur + crate::numtext::int_text(iv)),
                                ),
                                _ => Err(ErrSpec::TypeMismatch(name)),
                            }
                        } else {
                            Err(ErrSpec::TypeMismatch(name))
                        },
                    },
                }
            },
            ValSpec::Float(fv) => if op == 3 && spec_float_is_zero(fv) {
                Err(ErrSpec::DivisionByZero)
            } else {
                match spec_table_lookup(vars.ints(), name) {
                    Some(ValSpec::Int(cur)) => Ok(
                        ValSpec::Float(spec_arith_float(op, float_of_int(cur as i64), fv)),
                    ),
                    _ => match spec_table_lookup(vars.floats(), name) {
                        Some(ValSpec::Float(cur)) => Ok(ValSpec::Float(spec_arith_float(op, cur, fv))),
                        _ => if op == 0 {
                            match spec_table_lookup(vars.strings(), name) {
                                Some(ValSpec::Str(cur)) => Ok(
                                    ValSpec::Str(cur + crate::float::float_dec_of(fv)),
                                ),
                                _ => Err(ErrSpec::TypeMismatch(name)),
                            }
                        } else {
                            Err(ErrSpec::TypeMismatch(name))
                        },
                    },
                }
            },
            ValSpec::Str(sv) => if op == 0 {
                match spec_table_lookup(vars.strings(), name) {
                    Some(ValSpec::Str(cur)) => Ok(ValSpec::Str(cur + sv)),
                    _ => Err(ErrSpec::TypeMismatch(name)),
                }
            } else {
                Err(ErrSpec::TypeMismatch(name))
            },
            _ => Err(ErrSpec::TypeMismatch(name)),
        }
    }
}

} // verus!
