//! Decisions the wrapper makes around the engine's script entry points.
//!
//! Evaluating a script, checking its syntax, and the fallible coercions all
//! follow one native calling convention: the call returns a result and may
//! populate an exception out-parameter, and a null result is the sentinel
//! that says "check the exception". The native calls themselves cannot be
//! made from here; the driver makes them and hands each outcome to one of
//! these functions, which turn the convention into a `Result` the same way
//! for every caller.

use vstd::prelude::*;

use crate::jsc::value::nan_bits;
use crate::jsc::{JSException, JSValue};

verus! {

/// Decides the outcome of a script evaluation.
///
/// The native evaluation call returns a value or the null sentinel; on the
/// sentinel the exception out-parameter holds the thrown value. Returns
/// `Ok` with the result exactly when the call returned one, else `Err`
/// wrapping the thrown value.
pub fn evaluate_outcome(result: Option<JSValue>, exception: JSValue) -> (r: Result<
    JSValue,
    JSException,
>)
    ensures
        result matches Some(v) ==> (r matches Ok(rv) && rv@ == v@),
        result is None ==> (r matches Err(e) && e.value@ == exception@),
{
    match result {
        Some(v) => Ok(v),
        None => Err(JSException { value: exception }),
    }
}

/// Decides the outcome of a syntax check.
///
/// The native check returns whether the script parsed; on failure the
/// exception out-parameter holds the parse error. Returns `Ok` exactly
/// when the script parsed, else `Err` wrapping the parse error.
pub fn syntax_outcome(passed: bool, exception: JSValue) -> (r: Result<(), JSException>)
    ensures
        passed ==> r is Ok,
        !passed ==> (r matches Err(e) && e.value@ == exception@),
{
    if passed {
        Ok(())
    } else {
        Err(JSException { value: exception })
    }
}

/// Decides the outcome of a number coercion.
///
/// The native coercion signals failure by returning NaN *and* populating
/// the exception out-parameter; a NaN with no exception is a genuine NaN
/// result, since coercing an actual NaN number succeeds. Returns the bit
/// pattern unchanged on success.
pub fn number_outcome(bits: u64, exception: Option<JSValue>) -> (r: Result<u64, JSException>)
    ensures
        r matches Err(e) <==> (nan_bits(bits) && exception is Some),
        r matches Err(e) ==> (exception matches Some(x) && e.value@ == x@),
        r matches Ok(b) ==> b == bits,
{
    if crate::jsc::value::bits_is_nan(bits) {
        match exception {
            Some(x) => Err(JSException { value: x }),
            None => Ok(bits),
        }
    } else {
        Ok(bits)
    }
}

/// Clamps a one-based starting line number: values below one become one.
///
/// The line number is used only when reporting exceptions.
pub fn starting_line_clamped(starting_line_number: i32) -> (r: i32)
    ensures
        r == if starting_line_number < 1 {
            1i32
        } else {
            starting_line_number
        },
{
    if starting_line_number < 1 {
        1
    } else {
        starting_line_number
    }
}

/// Clamps a serialization indent to at most ten spaces.
pub fn indent_clamped(indent: u32) -> (r: u32)
    ensures
        r == if indent > 10 {
            10u32
        } else {
            indent
        },
{
    if indent > 10 {
        10
    } else {
        indent
    }
}

} // verus!
