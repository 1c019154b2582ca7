//! Evaluation of a compiled expression at one input value, in fixed point.
//!
//! Every arithmetic step is range-checked: a result outside
//! `[-VAL_LIMIT, VAL_LIMIT]` is the fixed-point analogue of an infinite or
//! NaN value and turns the whole evaluation into a `NonFinite` error.  A
//! Chebyshev polynomial of negative order is a `Domain` error.

use vstd::prelude::*;

use crate::expr::Expr;
use crate::fixed::{add_fixed, div_fixed, fdiv, fmul, mul_fixed, sub_fixed};
use crate::{EvalError, PI_FP, SCALE, VAL_LIMIT};

verus! {

/// Outcome of evaluating an expression at one point.
pub enum SpecVal {
    Num(int),
    Domain,
    NonFinite,
}

/// Keep a value only when it is representable.
pub open spec fn chk(v: int) -> SpecVal {
    if -VAL_LIMIT <= v <= VAL_LIMIT {
        SpecVal::Num(v)
    } else {
        SpecVal::NonFinite
    }
}

/// The fixed-point power x^k: SCALE at k == 0, then one range-checked
/// fixed-point multiplication per step.
pub open spec fn spec_pow(x: int, k: nat) -> SpecVal
    decreases k,
{
    if k == 0 {
        SpecVal::Num(SCALE as int)
    } else {
        match spec_pow(x, (k - 1) as nat) {
            SpecVal::Num(p) => chk(fmul(p, x)),
            e => e,
        }
    }
}

/// The fixed-point Chebyshev polynomial of order n at x, by the
/// recurrence T0 = 1, T1 = x, Tn = 2 x T(n-1) - T(n-2), each step
/// range-checked.
pub open spec fn spec_cheb(x: int, n: nat) -> SpecVal
    decreases n,
{
    if n == 0 {
        SpecVal::Num(SCALE as int)
    } else if n == 1 {
        SpecVal::Num(x)
    } else {
        match chk(2 * x) {
            SpecVal::Num(dx) => match spec_cheb(x, (n - 1) as nat) {
                SpecVal::Num(a) => match spec_cheb(x, (n - 2) as nat) {
                    SpecVal::Num(b) => match chk(fmul(dx, a)) {
                        SpecVal::Num(m) => chk(m - b),
                        e => e,
                    },
                    e => e,
                },
                e => e,
            },
            e => e,
        }
    }
}

/// The value of an expression at the input sample x.
pub open spec fn spec_eval(e: Expr, x: int) -> SpecVal
    decreases e,
{
    match e {
        Expr::Const(c) => chk(c as int),
        Expr::Var => chk(x),
        Expr::Pi => SpecVal::Num(PI_FP as int),
        Expr::Neg(e1) => match spec_eval(*e1, x) {
            SpecVal::Num(v) => chk(-v),
            e2 => e2,
        },
        Expr::Add(a, b) => match spec_eval(*a, x) {
            SpecVal::Num(va) => match spec_eval(*b, x) {
                SpecVal::Num(vb) => chk(va + vb),
                e2 => e2,
            },
            e2 => e2,
        },
        Expr::Sub(a, b) => match spec_eval(*a, x) {
            SpecVal::Num(va) => match spec_eval(*b, x) {
                SpecVal::Num(vb) => chk(va - vb),
                e2 => e2,
            },
            e2 => e2,
        },
        Expr::Mul(a, b) => match spec_eval(*a, x) {
            SpecVal::Num(va) => match spec_eval(*b, x) {
                SpecVal::Num(vb) => chk(fmul(va, vb)),
                e2 => e2,
            },
            e2 => e2,
        },
        Expr::Div(a, b) => match spec_eval(*a, x) {
            SpecVal::Num(va) => match spec_eval(*b, x) {
                SpecVal::Num(vb) => if vb == 0 {
                    SpecVal::NonFinite
                } else {
                    chk(fdiv(va, vb))
                },
                e2 => e2,
            },
            e2 => e2,
        },
        Expr::Pow(e1, k) => match spec_eval(*e1, x) {
            SpecVal::Num(v) => spec_pow(v, k as nat),
            e2 => e2,
        },
        Expr::Cheb(e1, n) => match spec_eval(*e1, x) {
            SpecVal::Num(v) => if n < 0 {
                SpecVal::Domain
            } else {
                spec_cheb(v, n as nat)
            },
            e2 => e2,
        },
    }
}

/// Once a power step leaves the range, every later step stays out.
proof fn lemma_pow_err(x: int, i: nat, k: nat)
    requires
        spec_pow(x, i) == SpecVal::NonFinite,
        i <= k,
    ensures
        spec_pow(x, k) == SpecVal::NonFinite,
    decreases k - i,
{
    if k > i {
        lemma_pow_err(x, i, (k - 1) as nat);
    }
}

/// Once a Chebyshev step leaves the range, every later step stays out.
proof fn lemma_cheb_err(x: int, i: nat, n: nat)
    requires
        spec_cheb(x, i) == SpecVal::NonFinite,
        i <= n,
    ensures
        spec_cheb(x, n) == SpecVal::NonFinite,
    decreases n - i,
{
    if n > i {
        lemma_cheb_err(x, i, (n - 1) as nat);
        assert(n >= 2);
    }
}

/// Fixed-point power by repeated multiplication.
#[verifier::loop_isolation(false)]
fn pow_exec(x: i64, k: u32) -> (r: Result<i64, EvalError>)
    requires
        -VAL_LIMIT <= x <= VAL_LIMIT,
    ensures
        match r {
            Ok(v) => spec_pow(x as int, k as nat) == SpecVal::Num(v as int) && -VAL_LIMIT <= v
                <= VAL_LIMIT,
            Err(e) => e == EvalError::NonFinite && spec_pow(x as int, k as nat)
                == SpecVal::NonFinite,
        },
{
    let mut acc: i64 = SCALE;
    let mut i: u32 = 0;
    while i < k
        invariant
            0 <= i <= k,
            spec_pow(x as int, i as nat) == SpecVal::Num(acc as int),
            -VAL_LIMIT <= acc <= VAL_LIMIT,
        decreases k - i,
    {
        match mul_fixed(acc, x) {
            Ok(v) => {
                acc = v;
                i = i + 1;
            },
            Err(e) => {
                proof {
                    lemma_pow_err(x as int, (i + 1) as nat, k as nat);
                }
                return Err(e);
            },
        }
    }
    Ok(acc)
}

/// Fixed-point Chebyshev polynomial by the iterated recurrence.
#[verifier::loop_isolation(false)]
fn cheb_exec(x: i64, n: i64) -> (r: Result<i64, EvalError>)
    requires
        -VAL_LIMIT <= x <= VAL_LIMIT,
        n >= 0,
    ensures
        match r {
            Ok(v) => spec_cheb(x as int, n as nat) == SpecVal::Num(v as int) && -VAL_LIMIT <= v
                <= VAL_LIMIT,
            Err(e) => e == EvalError::NonFinite && spec_cheb(x as int, n as nat)
                == SpecVal::NonFinite,
        },
{
    if n == 0 {
        return Ok(SCALE);
    }
    if n == 1 {
        return Ok(x);
    }
    let dx: i64 = match add_fixed(x, x) {
        Ok(v) => v,
        Err(e) => {
            return Err(e);
        },
    };
    let mut prev: i64 = SCALE;
    let mut cur: i64 = x;
    let mut i: i64 = 1;
    while i < n
        invariant
            1 <= i <= n,
            spec_cheb(x as int, (i - 1) as nat) == SpecVal::Num(prev as int),
            spec_cheb(x as int, i as nat) == SpecVal::Num(cur as int),
            -VAL_LIMIT <= prev <= VAL_LIMIT,
            -VAL_LIMIT <= cur <= VAL_LIMIT,
            chk(2 * (x as int)) == SpecVal::Num(dx as int),
        decreases n - i,
    {
        let m: i64 = match mul_fixed(dx, cur) {
            Ok(v) => v,
            Err(e) => {
                proof {
                    lemma_cheb_err(x as int, (i + 1) as nat, n as nat);
                }
                return Err(e);
            },
        };
        let nxt: i64 = match sub_fixed(m, prev) {
            Ok(v) => v,
            Err(e) => {
                proof {
                    lemma_cheb_err(x as int, (i + 1) as nat, n as nat);
                }
                return Err(e);
            },
        };
        prev = cur;
        cur = nxt;
        i = i + 1;
    }
    Ok(cur)
}

/// Evaluate an expression at the input sample x.  `spec_eval` states the
/// result exactly, error cases included.
pub fn eval_expr(e: &Expr, x: i64) -> (r: Result<i64, EvalError>)
    requires
        -SCALE <= x <= SCALE,
    ensures
        match r {
            Ok(v) => spec_eval(*e, x as int) == SpecVal::Num(v as int) && -VAL_LIMIT <= v
                <= VAL_LIMIT,
            Err(EvalError::Domain) => spec_eval(*e, x as int) == SpecVal::Domain,
            Err(EvalError::NonFinite) => spec_eval(*e, x as int) == SpecVal::NonFinite,
        },
    decreases *e,
{
    match e {
        Expr::Const(c) => {
            if -VAL_LIMIT <= *c && *c <= VAL_LIMIT {
                Ok(*c)
            } else {
                Err(EvalError::NonFinite)
            }
        },
        Expr::Var => Ok(x),
        Expr::Pi => Ok(PI_FP),
        Expr::Neg(e1) => {
            match eval_expr(e1, x) {
                Ok(v) => Ok(-v),
                Err(err) => Err(err),
            }
        },
        Expr::Add(a, b) => {
            let va: i64 = match eval_expr(a, x) {
                Ok(v) => v,
                Err(err) => {
                    return Err(err);
                },
            };
            let vb: i64 = match eval_expr(b, x) {
                Ok(v) => v,
                Err(err) => {
                    return Err(err);
                },
            };
            add_fixed(va, vb)
        },
        Expr::Sub(a, b) => {
            let va: i64 = match eval_expr(a, x) {
                Ok(v) => v,
                Err(err) => {
                    return Err(err);
                },
            };
            let vb: i64 = match eval_expr(b, x) {
                Ok(v) => v,
                Err(err) => {
                    return Err(err);
                },
            };
            sub_fixed(va, vb)
        },
        Expr::Mul(a, b) => {
            let va: i64 = match eval_expr(a, x) {
                Ok(v) => v,
                Err(err) => {
                    return Err(err);
                },
            };
            let vb: i64 = match eval_expr(b, x) {
                Ok(v) => v,
                Err(err) => {
                    return Err(err);
                },
            };
            mul_fixed(va, vb)
        },
        Expr::Div(a, b) => {
            let va: i64 = match eval_expr(a, x) {
                Ok(v) => v,
                Err(err) => {
                    return Err(err);
                },
            };
            let vb: i64 = match eval_expr(b, x) {
                Ok(v) => v,
                Err(err) => {
                    return Err(err);
                },
            };
            if vb == 0 {
                Err(EvalError::NonFinite)
            } else {
                div_fixed(va, vb)
            }
        },
        Expr::Pow(e1, k) => {
            let v: i64 = match eval_expr(e1, x) {
                Ok(v) => v,
                Err(err) => {
                    return Err(err);
                },
            };
            pow_exec(v, *k)
        },
        Expr::Cheb(e1, n) => {
            let v: i64 = match eval_expr(e1, x) {
                Ok(v) => v,
                Err(err) => {
                    return Err(err);
                },
            };
            if *n < 0 {
                Err(EvalError::Domain)
            } else {
                cheb_exec(v, *n)
            }
        },
    }
}

} // verus!
