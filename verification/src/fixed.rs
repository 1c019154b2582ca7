//! Fixed-point arithmetic: multiplication and division that scale by
//! `SCALE`, with truncation toward zero, exactly as the specs state them.

use vstd::prelude::*;

use crate::{EvalError, GAIN_LIMIT, PEAK_LIMIT, SAMPLE_LIMIT, SCALE, VAL_LIMIT};

verus! {

/// Magnitude of an integer.
pub open spec fn mag(a: int) -> int {
    if a < 0 {
        -a
    } else {
        a
    }
}

/// Fixed-point product of `a` and `b`: (a * b) / SCALE, rounded toward zero.
pub open spec fn fmul(a: int, b: int) -> int {
    if (a < 0) == (b < 0) {
        (mag(a) * mag(b)) / (SCALE as int)
    } else {
        -((mag(a) * mag(b)) / (SCALE as int))
    }
}

/// Division rounded toward zero, for a positive divisor.
pub open spec fn tdiv(a: int, b: int) -> int {
    if a >= 0 {
        a / b
    } else {
        -((-a) / b)
    }
}

/// Fixed-point quotient of `a` by `b`: (a * SCALE) / b, rounded toward zero.
pub open spec fn fdiv(a: int, b: int) -> int {
    if (a < 0) == (b < 0) {
        (mag(a) * (SCALE as int)) / mag(b)
    } else {
        -((mag(a) * (SCALE as int)) / mag(b))
    }
}

/// Exec magnitude as a `u64`, total on the ranges this library uses.
pub fn mag_u64(a: i64) -> (m: u64)
    requires
        -PEAK_LIMIT <= a <= PEAK_LIMIT,
    ensures
        m == mag(a as int),
{
    if a < 0 {
        (-a) as u64
    } else {
        a as u64
    }
}

/// Reapply a sign to a magnitude.
fn apply_sign(m: u64, negative: bool) -> (r: i64)
    requires
        m <= PEAK_LIMIT,
    ensures
        r == if negative {
            -(m as int)
        } else {
            m as int
        },
{
    if negative {
        -(m as i64)
    } else {
        m as i64
    }
}

/// Fixed-point multiplication for expression evaluation: fails when the
/// result leaves the representable range.
pub fn mul_fixed(a: i64, b: i64) -> (r: Result<i64, EvalError>)
    requires
        -VAL_LIMIT <= a <= VAL_LIMIT,
        -VAL_LIMIT <= b <= VAL_LIMIT,
    ensures
        match r {
            Ok(v) => v == fmul(a as int, b as int) && -VAL_LIMIT <= v <= VAL_LIMIT,
            Err(e) => e == EvalError::NonFinite && mag(fmul(a as int, b as int)) > VAL_LIMIT,
        },
{
    let ma: u64 = mag_u64(a);
    let mb: u64 = mag_u64(b);
    assert(ma * mb <= 16_000_000_000_000_000_000u64) by (nonlinear_arith)
        requires
            ma <= 4_000_000_000u64,
            mb <= 4_000_000_000u64,
    ;
    let prod: u64 = ma * mb;
    let q: u64 = prod / 1_000_000u64;
    if q > VAL_LIMIT as u64 {
        Err(EvalError::NonFinite)
    } else {
        Ok(apply_sign(q, (a < 0) != (b < 0)))
    }
}

/// Fixed-point division for expression evaluation: fails when the result
/// leaves the representable range.  The divisor must not be zero; the
/// evaluator tests that before calling.
pub fn div_fixed(a: i64, b: i64) -> (r: Result<i64, EvalError>)
    requires
        -VAL_LIMIT <= a <= VAL_LIMIT,
        -VAL_LIMIT <= b <= VAL_LIMIT,
        b != 0,
    ensures
        match r {
            Ok(v) => v == fdiv(a as int, b as int) && -VAL_LIMIT <= v <= VAL_LIMIT,
            Err(e) => e == EvalError::NonFinite && mag(fdiv(a as int, b as int)) > VAL_LIMIT,
        },
{
    let ma: u64 = mag_u64(a);
    let mb: u64 = mag_u64(b);
    assert(ma * 1_000_000u64 <= 4_000_000_000_000_000u64) by (nonlinear_arith)
        requires
            ma <= 4_000_000_000u64,
    ;
    let scaled: u64 = ma * 1_000_000u64;
    let q: u64 = scaled / mb;
    if q > VAL_LIMIT as u64 {
        Err(EvalError::NonFinite)
    } else {
        Ok(apply_sign(q, (a < 0) != (b < 0)))
    }
}

/// Checked fixed-point addition for expression evaluation.
pub fn add_fixed(a: i64, b: i64) -> (r: Result<i64, EvalError>)
    requires
        -VAL_LIMIT <= a <= VAL_LIMIT,
        -VAL_LIMIT <= b <= VAL_LIMIT,
    ensures
        match r {
            Ok(v) => v == a + b && -VAL_LIMIT <= v <= VAL_LIMIT,
            Err(e) => e == EvalError::NonFinite && mag(a + b) > VAL_LIMIT,
        },
{
    let s: i64 = a + b;
    if s > VAL_LIMIT || s < -VAL_LIMIT {
        Err(EvalError::NonFinite)
    } else {
        Ok(s)
    }
}

/// Checked fixed-point subtraction for expression evaluation.
pub fn sub_fixed(a: i64, b: i64) -> (r: Result<i64, EvalError>)
    requires
        -VAL_LIMIT <= a <= VAL_LIMIT,
        -VAL_LIMIT <= b <= VAL_LIMIT,
    ensures
        match r {
            Ok(v) => v == a - b && -VAL_LIMIT <= v <= VAL_LIMIT,
            Err(e) => e == EvalError::NonFinite && mag(a - b) > VAL_LIMIT,
        },
{
    let s: i64 = a - b;
    if s > VAL_LIMIT || s < -VAL_LIMIT {
        Err(EvalError::NonFinite)
    } else {
        Ok(s)
    }
}

/// Total fixed-point multiplication of a sample by a gain: never fails on
/// its stated domain.
pub fn mul_gain(a: i64, g: i64) -> (r: i64)
    requires
        -SAMPLE_LIMIT <= a <= SAMPLE_LIMIT,
        0 <= g <= GAIN_LIMIT,
    ensures
        r == fmul(a as int, g as int),
        -PEAK_LIMIT <= r <= PEAK_LIMIT,
{
    let ma: u64 = mag_u64(a);
    let mg: u64 = g as u64;
    assert(ma * mg <= 4_000_000_000_000_000_000u64) by (nonlinear_arith)
        requires
            ma <= 4_000_000_000u64,
            mg <= 1_000_000_000u64,
    ;
    let prod: u64 = ma * mg;
    let q: u64 = prod / 1_000_000u64;
    assert(q <= 4_000_000_000_000u64) by (nonlinear_arith)
        requires
            prod <= 4_000_000_000_000_000_000u64,
            q == prod / 1_000_000u64,
    ;
    apply_sign(q, a < 0)
}

} // verus!
