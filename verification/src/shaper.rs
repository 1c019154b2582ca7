//! The shaping table and the operations around it: building a table from a
//! compiled expression, peak normalization, the interpolated per-sample
//! lookup, and the per-block processor.

use vstd::prelude::*;
use vstd::string::StringSliceAdditionalSpecFns;

use crate::eval::{eval_expr, spec_eval, SpecVal};
use crate::expr::{compile, spec_compile, CompileOut, Expr};
use crate::fixed::{fdiv, fmul, mag, mag_u64, mul_gain, tdiv};
use crate::{
    CompileError, EvalError, ShaperError, DEFAULT_SIZE, GAIN_LIMIT, MAX_SIZE, PEAK_LIMIT,
    SAMPLE_LIMIT, SCALE, TABLE_LIMIT, TWO_SCALE,
};

verus! {

/// The input value that table index `i` stands for: the `i`-th of `size`
/// points spread evenly over [-1, 1].
pub open spec fn value_at_spec(i: int, size: int) -> int
    recommends
        2 <= size,
        0 <= i < size,
{
    -(SCALE as int) + (TWO_SCALE as int) * i / (size - 1)
}

/// Clamp an input sample to [-1, 1]: the policy for out-of-range inputs.
pub open spec fn clamp_spec(x: int) -> int {
    if x < -(SCALE as int) {
        -(SCALE as int)
    } else if x > SCALE as int {
        SCALE as int
    } else {
        x
    }
}

/// The interpolated lookup: find the nearest lower table index for `x`
/// (already clamped), then interpolate linearly toward the next entry; the
/// last entry is returned directly.
pub open spec fn table_eval(t: Seq<i64>, x: int) -> int
    recommends
        2 <= t.len(),
        -(SCALE as int) <= x <= SCALE as int,
{
    let d = t.len() - 1;
    let u = (x + SCALE) * d;
    let idx = u / (TWO_SCALE as int);
    if idx >= d {
        t[d as int] as int
    } else {
        let frac = u % (TWO_SCALE as int);
        let y1 = t[idx] as int;
        let y2 = t[idx + 1] as int;
        y1 + tdiv((y2 - y1) * frac, TWO_SCALE as int)
    }
}

/// Whether evaluating `e` at grid point `i` yields a value a table may
/// hold.
pub open spec fn good_point(e: Expr, size: int, i: int) -> bool {
    match spec_eval(e, value_at_spec(i, size)) {
        SpecVal::Num(v) => -TABLE_LIMIT <= v <= TABLE_LIMIT,
        _ => false,
    }
}

/// The value a good grid point contributes to the table.
pub open spec fn point_val(e: Expr, size: int, i: int) -> int {
    match spec_eval(e, value_at_spec(i, size)) {
        SpecVal::Num(v) => v,
        _ => 0,
    }
}

/// The error a bad grid point raises: a domain error is reported as such;
/// everything else, a non-finite value included, is `NonFinite`.
pub open spec fn point_err(e: Expr, size: int, i: int) -> EvalError {
    match spec_eval(e, value_at_spec(i, size)) {
        SpecVal::Domain => EvalError::Domain,
        _ => EvalError::NonFinite,
    }
}

/// Largest magnitude of any entry of a table.
pub open spec fn max_mag(t: Seq<i64>) -> int
    decreases t.len(),
{
    if t.len() == 0 {
        0
    } else {
        let m = max_mag(t.drop_last());
        let v = mag(t.last() as int);
        if v > m {
            v
        } else {
            m
        }
    }
}

/// Largest pre-gained value of a block; the starting sentinel is the
/// lowest value the processor can produce, so an empty block reports it.
pub open spec fn block_max(s: Seq<i64>, g: int) -> int
    decreases s.len(),
{
    if s.len() == 0 {
        -(PEAK_LIMIT as int)
    } else {
        let m = block_max(s.drop_last(), g);
        let v = fmul(s.last() as int, g);
        if v > m {
            v
        } else {
            m
        }
    }
}

/// Smallest pre-gained value of a block.
pub open spec fn block_min(s: Seq<i64>, g: int) -> int
    decreases s.len(),
{
    if s.len() == 0 {
        PEAK_LIMIT as int
    } else {
        let m = block_min(s.drop_last(), g);
        let v = fmul(s.last() as int, g);
        if v < m {
            v
        } else {
            m
        }
    }
}

/// What the block processor leaves at each sample position: pre-gain,
/// clamped interpolated lookup, post-gain.
pub open spec fn shaped_sample(t: Seq<i64>, s: int, pre: int, post: int) -> int {
    fmul(table_eval(t, clamp_spec(fmul(s, pre))), post)
}

/// The input value behind table index `i`.
pub fn value_at(i: usize, size: usize) -> (v: i64)
    requires
        2 <= size <= MAX_SIZE,
        i < size,
    ensures
        v == value_at_spec(i as int, size as int),
        -SCALE <= v <= SCALE,
{
    let d: u64 = (size - 1) as u64;
    let num: u64 = (TWO_SCALE as u64) * (i as u64);
    assert((TWO_SCALE as u64) * (i as u64) <= 2_000_000u64 * 65_535u64) by (nonlinear_arith)
        requires
            i as u64 <= 65_535u64,
    ;
    let q: u64 = num / d;
    assert(num / d <= TWO_SCALE as u64) by (nonlinear_arith)
        requires
            num <= (TWO_SCALE as u64) * d,
            d >= 1,
    ;
    assert(num <= (TWO_SCALE as u64) * d) by (nonlinear_arith)
        requires
            num == (TWO_SCALE as u64) * (i as u64),
            i as u64 <= d,
    ;
    -SCALE + (q as i64)
}

/// Build a table of `size` entries by evaluating `e` at every grid point,
/// left to right.  On the first bad point the build stops with that
/// point's error.
pub fn build_table(e: &Expr, size: usize) -> (r: Result<Vec<i64>, EvalError>)
    requires
        2 <= size <= MAX_SIZE,
    ensures
        match r {
            Ok(t) => t@.len() == size && forall|i: int|
                #![trigger t@[i]]
                #![trigger good_point(*e, size as int, i)]
                0 <= i < size ==> good_point(*e, size as int, i) && t@[i] as int == point_val(
                    *e,
                    size as int,
                    i,
                ),
            Err(er) => exists|i: int|
                0 <= i < size && !good_point(*e, size as int, i) && er == point_err(
                    *e,
                    size as int,
                    i,
                ) && (forall|j: int| 0 <= j < i ==> good_point(*e, size as int, j)),
        },
{
    let mut out: Vec<i64> = Vec::new();
    let mut i: usize = 0;
    while i < size
        invariant
            0 <= i <= size,
            2 <= size <= MAX_SIZE,
            out@.len() == i,
            forall|j: int|
                0 <= j < i ==> good_point(*e, size as int, j) && out@[j] as int == point_val(
                    *e,
                    size as int,
                    j,
                ),
        decreases size - i,
    {
        let x: i64 = value_at(i, size);
        match eval_expr(e, x) {
            Ok(v) => {
                if v < -TABLE_LIMIT || v > TABLE_LIMIT {
                    proof {
                        assert(!good_point(*e, size as int, i as int));
                        assert(point_err(*e, size as int, i as int) == EvalError::NonFinite);
                    }
                    return Err(EvalError::NonFinite);
                }
                out.push(v);
            },
            Err(er) => {
                proof {
                    assert(!good_point(*e, size as int, i as int));
                    assert(er == point_err(*e, size as int, i as int));
                }
                return Err(er);
            },
        }
        i = i + 1;
    }
    Ok(out)
}

/// What a rebuild request leaves behind.  On success the table keeps its
/// length and holds the compiled expression's value at every grid point;
/// on failure it is exactly the previous table, and the error is the one
/// the text earned: `Syntax` or `UnknownSymbol` from the compiler, else
/// the first bad grid point's evaluation error.
pub open spec fn prompt_outcome(
    before: Seq<i64>,
    after: Seq<i64>,
    bytes: Seq<u8>,
    r: Result<(), ShaperError>,
) -> bool {
    &&& after.len() == before.len()
    &&& match spec_compile(bytes) {
        CompileOut::Done(e) => match r {
            Ok(()) => forall|i: int|
                #![trigger after[i]]
                #![trigger good_point(e, after.len() as int, i)]
                0 <= i < after.len() ==> good_point(e, after.len() as int, i) && after[i] as int
                    == point_val(e, after.len() as int, i),
            Err(ShaperError::Eval(er)) => after == before && exists|i: int|
                0 <= i < after.len() && !good_point(e, after.len() as int, i) && er == point_err(
                    e,
                    after.len() as int,
                    i,
                ) && (forall|j: int| 0 <= j < i ==> good_point(e, after.len() as int, j)),
            Err(ShaperError::Compile(_)) => false,
        },
        CompileOut::Syntax => r == Err::<(), ShaperError>(
            ShaperError::Compile(CompileError::Syntax),
        ) && after == before,
        CompileOut::Unknown => r == Err::<(), ShaperError>(
            ShaperError::Compile(CompileError::UnknownSymbol),
        ) && after == before,
    }
}

/// The waveshaper: a fixed-length table of transfer-function samples over
/// [-1, 1], rebuilt from expression text on demand.
#[derive(Debug)]
pub struct Shaper {
    table: Vec<i64>,
}

impl Clone for Shaper {
    /// An entry-for-entry copy; the handoff clones the initial table into
    /// its slots.
    fn clone(&self) -> (s: Self)
        ensures
            s@ == self@,
    {
        proof {
            use_type_invariant(&*self);
        }
        let mut t: Vec<i64> = Vec::new();
        let mut i: usize = 0;
        let n: usize = self.table.len();
        while i < n
            invariant
                0 <= i <= n,
                n == self.table@.len(),
                t@.len() == i,
                self.wf(),
                forall|j: int| 0 <= j < i ==> t@[j] == self.table@[j],
            decreases n - i,
        {
            t.push(self.table[i]);
            i = i + 1;
        }
        proof {
            assert(t@ =~= self.table@);
        }
        Shaper { table: t }
    }
}

impl View for Shaper {
    type V = Seq<i64>;

    closed spec fn view(&self) -> Seq<i64> {
        self.table@
    }
}

impl Shaper {
    /// Every table has at least two entries, a bounded length, and entries
    /// the audio path can take.
    #[verifier::type_invariant]
    spec fn wf(self) -> bool {
        2 <= self.table@.len() <= MAX_SIZE && forall|i: int|
            0 <= i < self.table@.len() ==> -TABLE_LIMIT <= #[trigger] self.table@[i]
                <= TABLE_LIMIT
    }

    /// The identity transfer curve: entry `i` holds the input value it
    /// stands for.
    pub fn identity(size: usize) -> (s: Shaper)
        requires
            2 <= size <= MAX_SIZE,
        ensures
            s@.len() == size,
            forall|i: int| 0 <= i < size ==> s@[i] as int == value_at_spec(i, size as int),
    {
        let mut t: Vec<i64> = Vec::new();
        let mut i: usize = 0;
        while i < size
            invariant
                0 <= i <= size,
                2 <= size <= MAX_SIZE,
                t@.len() == i,
                forall|j: int|
                    0 <= j < i ==> #[trigger] t@[j] as int == value_at_spec(j, size as int)
                        && -SCALE <= t@[j] <= SCALE,
            decreases size - i,
        {
            let ghost t0 = t@;
            let v: i64 = value_at(i, size);
            t.push(v);
            proof {
                assert(t@ == t0.push(v));
                assert(forall|j: int| 0 <= j < t0.len() ==> t@[j] == t0[j]);
                assert(t@[i as int] == v);
            }
            i = i + 1;
        }
        Shaper { table: t }
    }

    /// Number of table entries.
    pub fn len(&self) -> (n: usize)
        ensures
            n == self@.len(),
            2 <= n <= MAX_SIZE,
    {
        proof {
            use_type_invariant(&*self);
        }
        self.table.len()
    }

    /// One table entry.
    pub fn entry(&self, i: usize) -> (v: i64)
        requires
            i < self@.len(),
        ensures
            v == self@[i as int],
            -TABLE_LIMIT <= v <= TABLE_LIMIT,
    {
        proof {
            use_type_invariant(&*self);
        }
        self.table[i]
    }

    /// The input value that table index `i` stands for.
    pub fn value(&self, i: usize) -> (v: i64)
        requires
            i < self@.len(),
        ensures
            v == value_at_spec(i as int, self@.len() as int),
    {
        proof {
            use_type_invariant(&*self);
        }
        value_at(i, self.table.len())
    }

    /// Map one input sample through the table: clamp to [-1, 1], find the
    /// nearest lower index, interpolate linearly.  Total: no allocation
    /// and no fallible path.
    pub fn process(&self, x: i64) -> (r: i64)
        ensures
            r == table_eval(self@, clamp_spec(x as int)),
            -TABLE_LIMIT <= r <= TABLE_LIMIT,
    {
        proof {
            use_type_invariant(&*self);
        }
        let xc: i64 = if x < -SCALE {
            -SCALE
        } else if x > SCALE {
            SCALE
        } else {
            x
        };
        let size: usize = self.table.len();
        let d: u64 = (size - 1) as u64;
        let t_off: u64 = (xc + SCALE) as u64;
        assert(t_off * d <= 2_000_000u64 * 65_535u64) by (nonlinear_arith)
            requires
                t_off <= 2_000_000u64,
                d <= 65_535u64,
        ;
        let u: u64 = t_off * d;
        let idx64: u64 = u / 2_000_000u64;
        assert(u / 2_000_000u64 <= d) by (nonlinear_arith)
            requires
                u == t_off * d,
                t_off <= 2_000_000u64,
        ;
        let idx: usize = idx64 as usize;
        if idx >= size - 1 {
            self.table[size - 1]
        } else {
            let frac: u64 = u % 2_000_000u64;
            let y1: i64 = self.table[idx];
            let y2: i64 = self.table[idx + 1];
            let delta: i64 = y2 - y1;
            let neg: bool = delta < 0;
            let md: u64 = if neg {
                (-delta) as u64
            } else {
                delta as u64
            };
            assert(md * frac <= 2_000_000_000u64 * 2_000_000u64) by (nonlinear_arith)
                requires
                    md <= 2_000_000_000u64,
                    frac <= 2_000_000u64,
            ;
            let prod: u64 = md * frac;
            let q: u64 = prod / 2_000_000u64;
            assert(prod / 2_000_000u64 <= md) by (nonlinear_arith)
                requires
                    prod == md * frac,
                    frac <= 2_000_000u64,
            ;
            let qi: i64 = if neg {
                -(q as i64)
            } else {
                q as i64
            };
            proof {
                let dd: int = (y2 - y1) as int;
                let ff: int = frac as int;
                if neg {
                    assert(md * frac == (-dd) * ff) by (nonlinear_arith)
                        requires
                            md == -dd,
                            ff == frac,
                    ;
                    assert(dd * ff <= 0) by (nonlinear_arith)
                        requires
                            dd < 0,
                            ff >= 0,
                    ;
                    assert((-(dd * ff)) == (-dd) * ff) by (nonlinear_arith);
                } else {
                    assert(md * frac == dd * ff) by (nonlinear_arith)
                        requires
                            md == dd,
                            ff == frac,
                    ;
                    assert(dd * ff >= 0) by (nonlinear_arith)
                        requires
                            dd >= 0,
                            ff >= 0,
                    ;
                }
            }
            y1 + qi
        }
    }

    /// Peak-normalize the table in place: divide every entry by the
    /// largest magnitude.  An all-zero table is left alone, so the
    /// operation never divides by zero.
    #[verifier::loop_isolation(false)]
    pub fn normalize(&mut self)
        ensures
            final(self)@.len() == old(self)@.len(),
            max_mag(old(self)@) == 0 ==> final(self)@ == old(self)@,
            max_mag(old(self)@) > 0 ==> forall|i: int|
                0 <= i < final(self)@.len() ==> #[trigger] final(self)@[i] as int == fdiv(
                    old(self)@[i] as int,
                    max_mag(old(self)@),
                ),
    {
        proof {
            use_type_invariant(&*self);
        }
        let n: usize = self.table.len();
        let mut m: u64 = 0;
        let mut i: usize = 0;
        while i < n
            invariant
                0 <= i <= n,
                m == max_mag(self.table@.subrange(0, i as int)),
                m <= TABLE_LIMIT,
            decreases n - i,
        {
            let v: i64 = self.table[i];
            let a: u64 = mag_u64(v);
            proof {
                assert(self.table@.subrange(0, (i + 1) as int).drop_last() =~= self.table@.subrange(
                    0,
                    i as int,
                ));
                assert(self.table@.subrange(0, (i + 1) as int).last() == v);
            }
            if a > m {
                m = a;
            }
            i = i + 1;
        }
        proof {
            assert(self.table@.subrange(0, n as int) =~= self.table@);
        }
        if m == 0 {
            return ;
        }
        let mut t: Vec<i64> = Vec::new();
        let mut i2: usize = 0;
        while i2 < n
            invariant
                0 <= i2 <= n,
                m == max_mag(self.table@),
                1 <= m <= TABLE_LIMIT,
                t@.len() == i2,
                forall|j: int|
                    0 <= j < i2 ==> #[trigger] t@[j] as int == fdiv(
                        self.table@[j] as int,
                        m as int,
                    ) && -SCALE <= t@[j] <= SCALE,
            decreases n - i2,
        {
            let v: i64 = self.table[i2];
            let a: u64 = mag_u64(v);
            proof {
                lemma_max_mag_bounds(self.table@);
            }
            let scaled: u64 = a * 1_000_000;
            let q: u64 = scaled / m;
            assert(scaled / m <= 1_000_000u64) by (nonlinear_arith)
                requires
                    scaled == a * 1_000_000u64,
                    a <= m,
                    m >= 1u64,
            ;
            let nv: i64 = if v < 0 {
                -(q as i64)
            } else {
                q as i64
            };
            t.push(nv);
            i2 = i2 + 1;
        }
        self.table = t;
    }

    /// Rebuild the table, at its current size, from an expression text:
    /// compile, evaluate at every grid point, and replace the table.  On
    /// any failure the previous table stays exactly as it was, and the
    /// error says what went wrong: a compile error for text the grammar or
    /// the vocabulary rejects, the first bad point's evaluation error
    /// otherwise.  `prompt_outcome` states all of it.
    #[verifier::rlimit(60)]
    pub fn prompt(&mut self, text: &str) -> (r: Result<(), ShaperError>)
        ensures
            prompt_outcome(old(self)@, final(self)@, text.spec_bytes(), r),
    {
        proof {
            use_type_invariant(&*self);
        }
        let e: Expr = match compile(text) {
            Ok(e) => e,
            Err(ce) => {
                proof {
                    assert(self@ == old(self)@);
                }
                return Err(ShaperError::Compile(ce));
            },
        };
        let size: usize = self.table.len();
        match build_table(&e, size) {
            Ok(t) => {
                proof {
                    assert(forall|i: int|
                        #![trigger t@[i]]
                        #![trigger good_point(e, t@.len() as int, i)]
                        0 <= i < t@.len() ==> good_point(e, t@.len() as int, i) && t@[i] as int
                            == point_val(e, t@.len() as int, i));
                    assert(forall|i: int|
                        0 <= i < t@.len() ==> -TABLE_LIMIT <= #[trigger] t@[i] <= TABLE_LIMIT);
                }
                self.table = t;
                proof {
                    assert(self@.len() == old(self)@.len());
                    assert(forall|i: int|
                        #![trigger self@[i]]
                        #![trigger good_point(e, self@.len() as int, i)]
                        0 <= i < self@.len() ==> good_point(e, self@.len() as int, i)
                            && self@[i] as int == point_val(e, self@.len() as int, i));
                }
                Ok(())
            },
            Err(er) => {
                proof {
                    assert(self@ == old(self)@);
                }
                Err(ShaperError::Eval(er))
            },
        }
    }

    /// Build a shaper of the default size from an expression text.
    pub fn new(text: &str) -> (r: Result<Shaper, ShaperError>)
        ensures
            match r {
                Ok(s) => s@.len() == DEFAULT_SIZE && match spec_compile(text.spec_bytes()) {
                    CompileOut::Done(e) => forall|i: int|
                        #![trigger s@[i]]
                        #![trigger good_point(e, s@.len() as int, i)]
                        0 <= i < s@.len() ==> good_point(e, s@.len() as int, i) && s@[i] as int
                            == point_val(e, s@.len() as int, i),
                    _ => false,
                },
                Err(err) => match spec_compile(text.spec_bytes()) {
                    CompileOut::Done(e) => match err {
                        ShaperError::Eval(er) => exists|i: int|
                            0 <= i < DEFAULT_SIZE && !good_point(e, DEFAULT_SIZE as int, i) && er
                                == point_err(e, DEFAULT_SIZE as int, i) && (forall|j: int|
                                0 <= j < i ==> good_point(e, DEFAULT_SIZE as int, j)),
                        ShaperError::Compile(_) => false,
                    },
                    CompileOut::Syntax => err == ShaperError::Compile(CompileError::Syntax),
                    CompileOut::Unknown => err == ShaperError::Compile(
                        CompileError::UnknownSymbol,
                    ),
                },
            },
    {
        let mut s: Shaper = Shaper::identity(DEFAULT_SIZE);
        match s.prompt(text) {
            Ok(()) => Ok(s),
            Err(err) => Err(err),
        }
    }

    /// One audio block: apply the pre-gain to every sample, record the
    /// block extrema of the pre-gained values, map each through the table,
    /// and apply the post-gain.  Returns (largest, smallest) pre-gained
    /// value seen; an empty block returns the idle sentinels
    /// (-PEAK_LIMIT, PEAK_LIMIT).
    #[verifier::loop_isolation(false)]
    pub fn process_block(&self, samples: &mut Vec<i64>, pre_gain: i64, post_gain: i64) -> (extrema:
        (i64, i64))
        requires
            0 <= pre_gain <= GAIN_LIMIT,
            0 <= post_gain <= GAIN_LIMIT,
            forall|i: int|
                0 <= i < old(samples)@.len() ==> -SAMPLE_LIMIT <= #[trigger] old(samples)@[i]
                    <= SAMPLE_LIMIT,
        ensures
            2 <= self@.len(),
            final(samples)@.len() == old(samples)@.len(),
            forall|i: int|
                0 <= i < final(samples)@.len() ==> #[trigger] final(samples)@[i] as int
                    == shaped_sample(
                    self@,
                    old(samples)@[i] as int,
                    pre_gain as int,
                    post_gain as int,
                ),
            extrema.0 as int == block_max(old(samples)@, pre_gain as int),
            extrema.1 as int == block_min(old(samples)@, pre_gain as int),
            -PEAK_LIMIT <= extrema.0 <= PEAK_LIMIT,
            -PEAK_LIMIT <= extrema.1 <= PEAK_LIMIT,
    {
        proof {
            use_type_invariant(&*self);
        }
        let n: usize = samples.len();
        let mut bmax: i64 = -PEAK_LIMIT;
        let mut bmin: i64 = PEAK_LIMIT;
        let mut i: usize = 0;
        while i < n
            invariant
                0 <= i <= n,
                samples@.len() == n,
                forall|j: int| i <= j < n ==> #[trigger] samples@[j] == old(samples)@[j],
                forall|j: int|
                    0 <= j < i ==> #[trigger] samples@[j] as int == shaped_sample(
                        self@,
                        old(samples)@[j] as int,
                        pre_gain as int,
                        post_gain as int,
                    ),
                bmax as int == block_max(old(samples)@.subrange(0, i as int), pre_gain as int),
                bmin as int == block_min(old(samples)@.subrange(0, i as int), pre_gain as int),
                -PEAK_LIMIT <= bmax <= PEAK_LIMIT,
                -PEAK_LIMIT <= bmin <= PEAK_LIMIT,
            decreases n - i,
        {
            let s0: i64 = samples[i];
            let pre_v: i64 = mul_gain(s0, pre_gain);
            proof {
                assert(old(samples)@.subrange(0, (i + 1) as int).drop_last()
                    =~= old(samples)@.subrange(0, i as int));
                assert(old(samples)@.subrange(0, (i + 1) as int).last() == old(samples)@[i as int]);
            }
            if pre_v > bmax {
                bmax = pre_v;
            }
            if pre_v < bmin {
                bmin = pre_v;
            }
            let shaped: i64 = self.process(pre_v);
            let out: i64 = mul_gain(shaped, post_gain);
            samples.set(i, out);
            i = i + 1;
        }
        proof {
            assert(old(samples)@.subrange(0, n as int) =~= old(samples)@);
        }
        (bmax, bmin)
    }
}

impl Default for Shaper {
    /// The initial table before any prompt: the identity curve at the
    /// default size, filled deterministically before the first block.
    fn default() -> (s: Self)
        ensures
            s@.len() == DEFAULT_SIZE,
            forall|i: int|
                0 <= i < s@.len() ==> #[trigger] s@[i] as int == value_at_spec(
                    i,
                    DEFAULT_SIZE as int,
                ),
    {
        Shaper::identity(DEFAULT_SIZE)
    }
}

/// No entry of a table is larger in magnitude than `max_mag`, and
/// `max_mag` is never negative.
pub proof fn lemma_max_mag_bounds(t: Seq<i64>)
    ensures
        0 <= max_mag(t),
        forall|i: int| 0 <= i < t.len() ==> mag(#[trigger] t[i] as int) <= max_mag(t),
    decreases t.len(),
{
    if t.len() > 0 {
        lemma_max_mag_bounds(t.drop_last());
        assert(forall|i: int| 0 <= i < t.len() - 1 ==> t.drop_last()[i] == t[i]);
    }
}

/// A non-empty table has an entry whose magnitude is `max_mag`.
pub proof fn lemma_max_mag_witness(t: Seq<i64>)
    requires
        t.len() > 0,
    ensures
        exists|i: int| 0 <= i < t.len() && mag(#[trigger] t[i] as int) == max_mag(t),
    decreases t.len(),
{
    if t.len() == 1 {
        assert(t.drop_last().len() == 0);
        assert(max_mag(t.drop_last()) == 0);
        assert(t.last() == t[0]);
        assert(mag(t[0] as int) == max_mag(t));
    } else {
        let d = t.drop_last();
        lemma_max_mag_witness(d);
        if mag(t.last() as int) > max_mag(d) {
            assert(mag(t[t.len() - 1] as int) == max_mag(t));
        } else {
            let i = choose|i: int| 0 <= i < d.len() && mag(#[trigger] d[i] as int) == max_mag(d);
            assert(t[i] == d[i]);
            assert(mag(t[i] as int) == max_mag(t));
        }
    }
}

} // verus!
