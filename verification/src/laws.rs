//! Laws of the shaping engine: properties that relate several operations,
//! stated and proved over the same spec functions the operations'
//! contracts use.

use vstd::prelude::*;

use vstd::arithmetic::div_mod::{
    lemma_div_is_ordered, lemma_div_multiples_vanish, lemma_div_pos_is_pos,
    lemma_fundamental_div_mod, lemma_fundamental_div_mod_converse_div,
    lemma_fundamental_div_mod_converse_mod, lemma_mod_division_less_than_divisor,
};

use crate::expr::Expr;
use crate::fixed::{fdiv, mag, tdiv};
use crate::shaper::{
    clamp_spec, good_point, lemma_max_mag_bounds, lemma_max_mag_witness, max_mag, point_val,
    table_eval, value_at_spec,
};
use crate::{MAX_SIZE, SCALE, TABLE_LIMIT, TWO_SCALE};

verus! {

/// Boundary exactness: looking a table up at -1.0 gives its first entry
/// and at 1.0 its last entry, exactly.
pub proof fn lemma_boundary_exact(t: Seq<i64>)
    requires
        2 <= t.len(),
    ensures
        table_eval(t, -(SCALE as int)) == t[0],
        table_eval(t, SCALE as int) == t[t.len() - 1],
{
    let d = t.len() - 1;
    let tt = TWO_SCALE as int;
    // At -1.0 the offset is zero, so index and fraction are zero.
    assert(0int * d == 0) by (nonlinear_arith);
    assert(0int / tt == 0);
    assert(0int % tt == 0);
    assert((t[1] - t[0]) * 0int == 0) by (nonlinear_arith);
    assert(tdiv(0int, tt) == 0);
    // At 1.0 the offset is the full width, so the index is the last one.
    assert((tt * d) / tt == d) by {
        lemma_div_multiples_vanish(d, tt);
    }
    assert((SCALE + SCALE) * d == tt * d) by (nonlinear_arith)
        requires
            tt == (SCALE as int) + (SCALE as int),
    ;
}

/// Clamping: any input above 1.0 is shaped like 1.0, and any input below
/// -1.0 like -1.0.
pub proof fn lemma_clamping(t: Seq<i64>, x: int)
    requires
        2 <= t.len(),
    ensures
        x > SCALE as int ==> table_eval(t, clamp_spec(x)) == table_eval(
            t,
            clamp_spec(SCALE as int),
        ),
        x < -(SCALE as int) ==> table_eval(t, clamp_spec(x)) == table_eval(
            t,
            clamp_spec(-(SCALE as int)),
        ),
{
}

/// A table whose spacing is exact: the grid width 2.0 is a whole multiple
/// of the entry count less one.
pub open spec fn exact_grid(size: int) -> bool {
    2 <= size <= MAX_SIZE && (TWO_SCALE as int) % (size - 1) == 0
}

/// On an exact grid, a grid value is the start plus a whole number of
/// steps.
proof fn lemma_grid_value(i: int, size: int)
    requires
        exact_grid(size),
        0 <= i < size,
    ensures
        value_at_spec(i, size) == -(SCALE as int) + ((TWO_SCALE as int) / (size - 1)) * i,
{
    let d = size - 1;
    let tt = TWO_SCALE as int;
    let step = tt / d;
    lemma_fundamental_div_mod(tt, d);
    assert(tt == d * step);
    assert(tt * i == d * (step * i)) by (nonlinear_arith)
        requires
            tt == d * step,
    ;
    lemma_div_multiples_vanish(step * i, d);
    assert((tt * i) / d == step * i);
}

/// Identity round-trip: a table that holds its own grid values maps every
/// input in [-1, 1] back to itself exactly, on an exact grid.  On a grid
/// whose spacing does not divide the width the grid values themselves are
/// rounded; `lemma_identity_round_trip_rounded` bounds that case.
pub proof fn lemma_identity_round_trip(t: Seq<i64>, x: int)
    requires
        exact_grid(t.len() as int),
        forall|i: int| 0 <= i < t.len() ==> #[trigger] t[i] as int == value_at_spec(
            i,
            t.len() as int,
        ),
        -(SCALE as int) <= x <= SCALE as int,
    ensures
        table_eval(t, x) == x,
{
    let size = t.len() as int;
    let d = size - 1;
    let tt = TWO_SCALE as int;
    let step = tt / d;
    lemma_fundamental_div_mod(tt, d);
    assert(tt == d * step);
    assert(step >= 1) by (nonlinear_arith)
        requires
            tt == d * step,
            1 <= d,
            d < tt,
    ;
    let w = x + SCALE as int;
    let u = w * d;
    // Split the offset into whole steps and a remainder.
    let j = w / step;
    let r0 = w % step;
    lemma_fundamental_div_mod(w, step);
    assert(w == step * j + r0);
    assert(0 <= r0 < step);
    assert(j >= 0) by (nonlinear_arith)
        requires
            w == step * j + r0,
            0 <= r0 < step,
            w >= 0,
            step >= 1,
    ;
    // In u-space the same split reads u == j * width + r0 * d.
    assert(u == j * tt + r0 * d) by (nonlinear_arith)
        requires
            u == w * d,
            w == step * j + r0,
            tt == d * step,
    ;
    assert(0 <= r0 * d < tt) by (nonlinear_arith)
        requires
            0 <= r0 < step,
            1 <= d,
            tt == d * step,
    ;
    lemma_fundamental_div_mod_converse_div(u, tt, j, r0 * d);
    lemma_fundamental_div_mod_converse_mod(u, tt, j, r0 * d);
    assert(u / tt == j);
    assert(u % tt == r0 * d);
    if j >= d {
        // Only the right edge reaches the last index.
        assert(w >= step * d) by (nonlinear_arith)
            requires
                w == step * j + r0,
                j >= d,
                r0 >= 0,
                step >= 1,
        ;
        assert(step * d == tt) by (nonlinear_arith)
            requires
                tt == d * step,
        ;
        assert(w == tt);
        assert(r0 == 0 && j == d) by (nonlinear_arith)
            requires
                w == tt,
                tt == step * d,
                w == step * j + r0,
                0 <= r0 < step,
                step >= 1,
                d >= 1,
                j >= d,
        ;
        assert(t[d] as int == value_at_spec(d, size));
        lemma_grid_value(d, size);
        assert(step * d == d * step) by (nonlinear_arith);
        assert(table_eval(t, x) == -(SCALE as int) + step * d);
        assert(x == -(SCALE as int) + tt);
    } else {
        assert(t[j] as int == value_at_spec(j, size));
        assert(t[j + 1] as int == value_at_spec(j + 1, size));
        lemma_grid_value(j, size);
        lemma_grid_value(j + 1, size);
        let y1 = t[j] as int;
        let y2 = t[j + 1] as int;
        assert(y2 - y1 == step) by (nonlinear_arith)
            requires
                y1 == -(SCALE as int) + step * j,
                y2 == -(SCALE as int) + step * (j + 1),
        ;
        let frac = r0 * d;
        assert(step * frac == tt * r0) by (nonlinear_arith)
            requires
                frac == r0 * d,
                tt == d * step,
        ;
        assert((tt * r0) / tt == r0) by {
            lemma_div_multiples_vanish(r0, tt);
        }
        assert(step * frac >= 0) by (nonlinear_arith)
            requires
                step >= 1,
                frac >= 0,
        ;
        assert(tdiv(step * frac, tt) == r0);
        assert(table_eval(t, x) == y1 + r0);
        assert(x == -(SCALE as int) + step * j + r0);
    }
}

/// Identity round-trip on any grid: a table that holds its own grid
/// values maps every input in [-1, 1] to itself up to the grid's
/// rounding, which floors, and by less than three millionths.
pub proof fn lemma_identity_round_trip_rounded(t: Seq<i64>, x: int)
    requires
        2 <= t.len() <= MAX_SIZE,
        forall|i: int| 0 <= i < t.len() ==> #[trigger] t[i] as int == value_at_spec(
            i,
            t.len() as int,
        ),
        -(SCALE as int) <= x <= SCALE as int,
    ensures
        x - 3 <= table_eval(t, x) <= x,
{
    let size = t.len() as int;
    let d = size - 1;
    let tt = TWO_SCALE as int;
    let s = SCALE as int;
    let w = x + s;
    let u = w * d;
    let idx = u / tt;
    let frac = u % tt;
    assert(u >= 0) by (nonlinear_arith)
        requires
            u == w * d,
            w >= 0,
            d >= 1,
    ;
    assert(u <= tt * d) by (nonlinear_arith)
        requires
            u == w * d,
            w <= tt,
            d >= 1,
    ;
    lemma_fundamental_div_mod(u, tt);
    lemma_mod_division_less_than_divisor(u, tt);
    lemma_div_pos_is_pos(u, tt);
    if idx >= d {
        assert(tt * idx >= tt * d) by (nonlinear_arith)
            requires
                idx >= d,
                tt > 0,
        ;
        assert(u == tt * d && frac == 0 && idx == d) by (nonlinear_arith)
            requires
                u == tt * idx + frac,
                0 <= frac < tt,
                tt * idx >= tt * d,
                u <= tt * d,
                tt > 0,
                idx >= d,
        ;
        assert(w == tt) by (nonlinear_arith)
            requires
                u == w * d,
                u == tt * d,
                d >= 1,
        ;
        assert(t[d] as int == value_at_spec(d, size));
        assert((tt * d) / d == tt) by {
            lemma_div_multiples_vanish(tt, d);
            assert(tt * d == d * tt) by (nonlinear_arith);
        }
        assert(table_eval(t, x) == -s + tt);
    } else {
        assert(t[idx] as int == value_at_spec(idx, size));
        assert(t[idx + 1] as int == value_at_spec(idx + 1, size));
        let a1 = tt * idx;
        let a2 = tt * (idx + 1);
        assert(a2 == a1 + tt) by (nonlinear_arith)
            requires
                a1 == tt * idx,
                a2 == tt * (idx + 1),
        ;
        assert(a1 >= 0) by (nonlinear_arith)
            requires
                a1 == tt * idx,
                idx >= 0,
                tt > 0,
        ;
        let q1 = a1 / d;
        let r1 = a1 % d;
        let q2 = a2 / d;
        let r2 = a2 % d;
        lemma_fundamental_div_mod(a1, d);
        lemma_mod_division_less_than_divisor(a1, d);
        lemma_fundamental_div_mod(a2, d);
        lemma_mod_division_less_than_divisor(a2, d);
        lemma_div_is_ordered(a1, a2, d);
        let delta = q2 - q1;
        assert(d * delta == tt + r1 - r2) by (nonlinear_arith)
            requires
                a2 == d * q2 + r2,
                a1 == d * q1 + r1,
                a2 == a1 + tt,
                delta == q2 - q1,
        ;
        let df = delta * frac;
        assert(df >= 0) by (nonlinear_arith)
            requires
                df == delta * frac,
                delta >= 0,
                frac >= 0,
        ;
        let q3 = df / tt;
        let r3 = df % tt;
        lemma_fundamental_div_mod(df, tt);
        lemma_mod_division_less_than_divisor(df, tt);
        assert(table_eval(t, x) == -s + q1 + q3);
        assert(d * w == a1 + frac) by (nonlinear_arith)
            requires
                u == w * d,
                u == tt * idx + frac,
                a1 == tt * idx,
        ;
        let ee = q1 + q3 - w;
        // Spell out d * tt * ee piece by piece, over product terms the
        // linear solver can then combine.
        assert(d * (tt * ee) == tt * (d * q1) + d * (tt * q3) - tt * (d * w)) by (nonlinear_arith)
            requires
                ee == q1 + q3 - w,
        ;
        assert(tt * (d * q1) == tt * a1 - tt * r1) by (nonlinear_arith)
            requires
                d * q1 == a1 - r1,
        ;
        assert(d * (tt * q3) == d * df - d * r3) by (nonlinear_arith)
            requires
                tt * q3 == df - r3,
        ;
        assert(tt * (d * w) == tt * a1 + tt * frac) by (nonlinear_arith)
            requires
                d * w == a1 + frac,
        ;
        assert(d * df == tt * frac + (r1 - r2) * frac) by (nonlinear_arith)
            requires
                df == delta * frac,
                d * delta == tt + r1 - r2,
        ;
        assert(d * (tt * ee) == -(tt * r1) + (r1 - r2) * frac - d * r3);
        // The rounding only ever floors: the result never exceeds x.
        assert((r1 - r2) * frac <= r1 * frac) by (nonlinear_arith)
            requires
                r2 >= 0,
                frac >= 0,
        ;
        assert(r1 * frac <= tt * r1) by (nonlinear_arith)
            requires
                0 <= frac <= tt,
                r1 >= 0,
        ;
        assert(d * r3 >= 0) by (nonlinear_arith)
            requires
                d >= 1,
                r3 >= 0,
        ;
        assert(d * (tt * ee) <= 0);
        assert(ee <= 0) by (nonlinear_arith)
            requires
                d * (tt * ee) <= 0,
                d >= 1,
                tt >= 1,
        ;
        // And it floors by less than three units.
        assert(tt * r1 <= tt * d - tt) by (nonlinear_arith)
            requires
                r1 <= d - 1,
                tt > 0,
        ;
        assert((r1 - r2) * frac >= -(r2 * frac)) by (nonlinear_arith)
            requires
                r1 >= 0,
                frac >= 0,
        ;
        assert(r2 * frac <= tt * d - tt) by (nonlinear_arith)
            requires
                0 <= r2 <= d - 1,
                0 <= frac <= tt,
                tt > 0,
        ;
        assert(d * r3 <= tt * d) by (nonlinear_arith)
            requires
                d >= 1,
                0 <= r3 <= tt,
        ;
        assert(d * (tt * ee) >= -3 * (tt * d) + 2 * tt);
        assert(ee >= -3) by (nonlinear_arith)
            requires
                d * (tt * ee) >= -3 * (tt * d) + 2 * tt,
                d >= 1,
                tt >= 1,
        ;
    }
}

/// A table built from the bare input expression holds exactly the grid
/// values: every grid point evaluates, and to itself.  Together with
/// `lemma_identity_round_trip` this closes the round trip for the
/// expression that names the input alone.
pub proof fn lemma_var_builds_identity(size: int, i: int)
    requires
        2 <= size <= MAX_SIZE,
        0 <= i < size,
    ensures
        good_point(Expr::Var, size, i),
        point_val(Expr::Var, size, i) == value_at_spec(i, size),
{
    let d = size - 1;
    let tt = TWO_SCALE as int;
    assert(0 <= tt * i) by (nonlinear_arith)
        requires
            0 <= i,
            tt > 0,
    ;
    assert(tt * i <= tt * d) by (nonlinear_arith)
        requires
            i <= d,
            tt > 0,
    ;
    lemma_div_is_ordered(tt * i, tt * d, tt);
    lemma_div_multiples_vanish(d, tt);
    assert((tt * i) / d >= 0) by (nonlinear_arith)
        requires
            tt * i >= 0,
            d >= 1,
    ;
    assert((tt * i) / d <= ((tt * d) / d)) by {
        lemma_div_is_ordered(tt * i, tt * d, d);
    }
    assert((tt * d) / d == tt) by {
        lemma_div_multiples_vanish(tt, d);
        assert(tt * d == d * tt) by (nonlinear_arith);
    }
}

/// The table after peak normalization: untouched when all-zero, otherwise
/// every entry divided by the largest magnitude.
pub open spec fn normalized(t: Seq<i64>) -> Seq<i64> {
    if max_mag(t) == 0 {
        t
    } else {
        Seq::new(t.len(), |i: int| fdiv(t[i] as int, max_mag(t)) as i64)
    }
}

/// Dividing an entry by a bound at least as large leaves at most 1.0, and
/// dividing the largest entry by itself gives exactly 1.0.
proof fn lemma_fdiv_norm(v: int, m: int)
    requires
        0 < m <= TABLE_LIMIT as int,
        mag(v) <= m,
    ensures
        mag(fdiv(v, m)) <= SCALE as int,
        -(SCALE as int) <= fdiv(v, m) <= SCALE as int,
        mag(v) == m ==> mag(fdiv(v, m)) == SCALE as int,
{
    let s = SCALE as int;
    assert((mag(v) * s) / m <= s) by (nonlinear_arith)
        requires
            0 <= mag(v) <= m,
            0 < m,
            s > 0,
    ;
    assert((mag(v) * s) / m >= 0) by (nonlinear_arith)
        requires
            mag(v) >= 0,
            s > 0,
            m > 0,
    ;
    if mag(v) == m {
        assert((m * s) / m == s) by {
            lemma_div_multiples_vanish(s, m);
        }
    }
}

/// Normalization invariant: after normalizing a table that is not
/// all-zero, the largest entry magnitude is exactly 1.0.
pub proof fn lemma_normalize_peak(t: Seq<i64>)
    requires
        t.len() > 0,
        forall|i: int| 0 <= i < t.len() ==> -TABLE_LIMIT <= #[trigger] t[i] <= TABLE_LIMIT,
        max_mag(t) != 0,
    ensures
        max_mag(normalized(t)) == SCALE as int,
{
    let m = max_mag(t);
    let u = normalized(t);
    lemma_max_mag_bounds(t);
    assert(m <= TABLE_LIMIT as int) by {
        lemma_max_mag_witness(t);
    }
    assert(forall|i: int| 0 <= i < u.len() ==> mag(#[trigger] u[i] as int) <= SCALE as int) by {
        assert forall|i: int| 0 <= i < u.len() implies mag(#[trigger] u[i] as int)
            <= SCALE as int by {
            lemma_fdiv_norm(t[i] as int, m);
        }
    }
    lemma_max_mag_le(u, SCALE as int);
    lemma_max_mag_witness(t);
    let i0 = choose|i: int| 0 <= i < t.len() && mag(#[trigger] t[i] as int) == m;
    lemma_fdiv_norm(t[i0] as int, m);
    lemma_max_mag_bounds(u);
    assert(mag(u[i0] as int) == SCALE as int);
}

/// When every entry's magnitude is at most a bound, so is the largest.
proof fn lemma_max_mag_le(t: Seq<i64>, b: int)
    requires
        0 <= b,
        forall|i: int| 0 <= i < t.len() ==> mag(#[trigger] t[i] as int) <= b,
    ensures
        max_mag(t) <= b,
    decreases t.len(),
{
    if t.len() > 0 {
        assert(forall|i: int| 0 <= i < t.len() - 1 ==> t.drop_last()[i] == t[i]);
        lemma_max_mag_le(t.drop_last(), b);
        assert(t.last() == t[t.len() - 1]);
    }
}

/// Normalization idempotence: normalizing an already normalized table
/// changes nothing, so normalizing twice equals normalizing once.
pub proof fn lemma_normalize_idempotent(t: Seq<i64>)
    requires
        forall|i: int| 0 <= i < t.len() ==> -TABLE_LIMIT <= #[trigger] t[i] <= TABLE_LIMIT,
    ensures
        normalized(normalized(t)) == normalized(t),
{
    let m = max_mag(t);
    if m == 0 || t.len() == 0 {
        if t.len() == 0 {
            lemma_max_mag_le(normalized(t), 0);
            lemma_max_mag_bounds(normalized(t));
        }
    } else {
        let u = normalized(t);
        lemma_normalize_peak(t);
        assert(max_mag(u) == SCALE as int);
        let s = SCALE as int;
        assert forall|i: int| 0 <= i < u.len() implies #[trigger] fdiv(u[i] as int, s)
            == u[i] as int by {
            lemma_max_mag_bounds(u);
            assert(mag(u[i] as int) <= s);
            assert((mag(u[i] as int) * s) / s == mag(u[i] as int)) by {
                lemma_div_multiples_vanish(mag(u[i] as int), s);
                assert(mag(u[i] as int) * s == s * mag(u[i] as int)) by (nonlinear_arith);
            }
        }
        assert(normalized(u) =~= u);
    }
}

} // verus!
