//! Compiling expressions and building, normalizing and reading tables.

use mathshaper::expr::compile;
use mathshaper::shaper::Shaper;
use mathshaper::{CompileError, EvalError, ShaperError, DEFAULT_SIZE, SCALE};

/// All entries of a shaper, for comparisons.
fn entries(s: &Shaper) -> Vec<i64> {
    let mut out = Vec::new();
    let mut i = 0;
    while i < s.len() {
        out.push(s.entry(i));
        i += 1;
    }
    out
}

#[test]
fn compile_accepts_the_vocabulary() {
    assert!(compile("x").is_ok());
    assert!(compile("PI").is_ok());
    assert!(compile("Cheb(x, 3)").is_ok());
    assert!(compile("4 * x^3 - 3*x").is_ok());
    assert!(compile("(x + 1) / 2").is_ok());
    assert!(compile("--x").is_ok());
    assert!(compile("0.5").is_ok());
}

#[test]
fn compile_rejects_unknown_symbols() {
    assert_eq!(compile("foo").unwrap_err(), CompileError::UnknownSymbol);
    assert_eq!(compile("x + sin(x)").unwrap_err(), CompileError::UnknownSymbol);
    assert_eq!(compile("pi").unwrap_err(), CompileError::UnknownSymbol);
}

#[test]
fn compile_rejects_malformed_text() {
    assert_eq!(compile("1 +").unwrap_err(), CompileError::Syntax);
    assert_eq!(compile("(x").unwrap_err(), CompileError::Syntax);
    assert_eq!(compile(".5").unwrap_err(), CompileError::Syntax);
    assert_eq!(compile("1.").unwrap_err(), CompileError::Syntax);
    assert_eq!(compile("0.1234567").unwrap_err(), CompileError::Syntax);
    assert_eq!(compile("9999999").unwrap_err(), CompileError::Syntax);
    assert_eq!(compile("x x").unwrap_err(), CompileError::Syntax);
    assert_eq!(compile("x ^ x").unwrap_err(), CompileError::Syntax);
    assert_eq!(compile("").unwrap_err(), CompileError::Syntax);
}

#[test]
fn default_table_is_the_identity_curve() {
    let s = Shaper::default();
    assert_eq!(s.len(), DEFAULT_SIZE);
    assert_eq!(s.entry(0), -SCALE);
    assert_eq!(s.entry(DEFAULT_SIZE - 1), SCALE);
    // The grid values themselves come back from `value`.
    for i in [0usize, 1, 255, 511] {
        assert_eq!(s.entry(i), s.value(i));
    }
}

#[test]
fn prompt_keeps_size_and_fills_constant() {
    let mut s = Shaper::identity(5);
    s.prompt("0.5").unwrap();
    assert_eq!(entries(&s), vec![500_000; 5]);
}

#[test]
fn prompt_builds_identity_from_x() {
    let mut s = Shaper::identity(33);
    s.prompt("x").unwrap();
    for i in 0..33 {
        assert_eq!(s.entry(i), s.value(i));
    }
}

#[test]
fn prompt_squares_on_grid_points() {
    // Five points: -1, -0.5, 0, 0.5, 1.
    let mut s = Shaper::identity(5);
    s.prompt("x * x").unwrap();
    assert_eq!(entries(&s), vec![SCALE, 250_000, 0, 250_000, SCALE]);
}

#[test]
fn prompt_divides_by_literal() {
    let mut s = Shaper::identity(5);
    s.prompt("x / 2").unwrap();
    assert_eq!(entries(&s), vec![-500_000, -250_000, 0, 250_000, 500_000]);
}

#[test]
fn prompt_chebyshev_second_order() {
    // T2(x) = 2 x^2 - 1.
    let mut s = Shaper::identity(5);
    s.prompt("Cheb(x, 2)").unwrap();
    assert_eq!(entries(&s), vec![SCALE, -500_000, -SCALE, -500_000, SCALE]);
}

#[test]
fn domain_error_leaves_table_unchanged() {
    let mut s = Shaper::identity(9);
    s.prompt("x / 2").unwrap();
    let before = entries(&s);
    let err = s.prompt("Cheb(x, -1)").unwrap_err();
    assert_eq!(err, ShaperError::Eval(EvalError::Domain));
    assert_eq!(entries(&s), before);
}

#[test]
fn nonfinite_errors_leave_table_unchanged() {
    let mut s = Shaper::identity(5);
    let before = entries(&s);
    // Division by zero anywhere on the grid.
    assert_eq!(
        s.prompt("1 / 0").unwrap_err(),
        ShaperError::Eval(EvalError::NonFinite)
    );
    // The grid holds x = 0, where 1/x blows up.
    assert_eq!(
        s.prompt("1 / x").unwrap_err(),
        ShaperError::Eval(EvalError::NonFinite)
    );
    // A product beyond the representable range.
    assert_eq!(
        s.prompt("2000 * 2000").unwrap_err(),
        ShaperError::Eval(EvalError::NonFinite)
    );
    assert_eq!(entries(&s), before);
}

#[test]
fn compile_errors_leave_table_unchanged() {
    let mut s = Shaper::identity(5);
    let before = entries(&s);
    assert_eq!(
        s.prompt("x +").unwrap_err(),
        ShaperError::Compile(CompileError::Syntax)
    );
    assert_eq!(
        s.prompt("y").unwrap_err(),
        ShaperError::Compile(CompileError::UnknownSymbol)
    );
    assert_eq!(entries(&s), before);
}

#[test]
fn new_reports_errors_like_prompt() {
    assert!(Shaper::new("x").is_ok());
    assert_eq!(
        Shaper::new("y").unwrap_err(),
        ShaperError::Compile(CompileError::UnknownSymbol)
    );
    assert_eq!(
        Shaper::new("Cheb(x, -2)").unwrap_err(),
        ShaperError::Eval(EvalError::Domain)
    );
}

#[test]
fn pi_is_available_as_a_constant() {
    let mut s = Shaper::identity(3);
    s.prompt("PI").unwrap();
    assert_eq!(entries(&s), vec![3_141_593; 3]);
}

#[test]
fn normalize_scales_peak_to_one() {
    let mut s = Shaper::identity(5);
    s.prompt("x / 2").unwrap();
    s.normalize();
    // The peak 0.5 is scaled up to exactly 1.0.
    assert_eq!(entries(&s), vec![-SCALE, -500_000, 0, 500_000, SCALE]);
    let peak = entries(&s).iter().map(|v| v.abs()).max().unwrap();
    assert_eq!(peak, SCALE);
}

#[test]
fn normalize_twice_equals_once() {
    let mut s = Shaper::identity(9);
    s.prompt("x * x - 0.25").unwrap();
    s.normalize();
    let once = entries(&s);
    s.normalize();
    assert_eq!(entries(&s), once);
}

#[test]
fn normalize_of_all_zero_is_a_no_op() {
    let mut s = Shaper::identity(5);
    s.prompt("0").unwrap();
    s.normalize();
    assert_eq!(entries(&s), vec![0; 5]);
}
