//! The expression language: a closed grammar over the vocabulary of the
//! shaping engine.
//!
//! ```text
//! expr    := term (('+' | '-') term)*
//! term    := unary (('*' | '/') unary)*
//! unary   := '-' unary | power
//! power   := primary ('^' integer)?
//! primary := number | 'x' | 'PI' | '(' expr ')'
//!          | 'Cheb' '(' expr ',' ['-'] integer ')'
//! ```
//!
//! Numbers are decimal literals with at most six fractional digits and are
//! read as fixed-point values (`SCALE` units per 1.0).  The only variable
//! is the input sample `x`; the named constant `PI` and the Chebyshev
//! polynomial `Cheb` complete the vocabulary.  Any other identifier is an
//! unknown symbol; any other shape of text is a syntax error.

use vstd::prelude::*;
use vstd::string::StringSliceAdditionalSpecFns;

use crate::{CompileError, SCALE, VAL_LIMIT};

verus! {

/// A lexical token of the expression language.
#[derive(Clone, Copy, Debug)]
pub enum Token {
    /// A number literal, already scaled to fixed point.
    Num(i64),
    /// The input variable `x`.
    VarX,
    /// The named constant `PI`.
    Pi,
    /// The Chebyshev polynomial function name.
    Cheb,
    Plus,
    Minus,
    Star,
    Slash,
    Caret,
    LParen,
    RParen,
    Comma,
}

/// A compiled expression: the syntax tree the table builder evaluates.
#[derive(Debug)]
pub enum Expr {
    /// A fixed-point literal.
    Const(i64),
    /// The input sample `x`.
    Var,
    /// The constant pi.
    Pi,
    Neg(Box<Expr>),
    Add(Box<Expr>, Box<Expr>),
    Sub(Box<Expr>, Box<Expr>),
    Mul(Box<Expr>, Box<Expr>),
    Div(Box<Expr>, Box<Expr>),
    /// A base raised to a non-negative integer exponent.
    Pow(Box<Expr>, u32),
    /// The Chebyshev polynomial of the given order, applied to the value
    /// of the subexpression.  A negative order is a domain error at
    /// evaluation time.
    Cheb(Box<Expr>, i64),
}

/// Outcome of tokenizing a byte string.
pub enum TokensOut {
    Toks(Seq<Token>),
    Syntax,
    Unknown,
}

pub open spec fn is_digit(c: u8) -> bool {
    48 <= c <= 57
}

pub open spec fn is_alpha(c: u8) -> bool {
    (65 <= c <= 90) || (97 <= c <= 122)
}

pub open spec fn is_space(c: u8) -> bool {
    c == 32 || c == 9 || c == 10 || c == 13
}

/// First position at or after `i` that does not hold a digit.
pub open spec fn digits_end(s: Seq<u8>, i: int) -> int
    decreases s.len() - i when 0 <= i <= s.len()
{
    if i < s.len() && is_digit(s[i]) {
        digits_end(s, i + 1)
    } else {
        i
    }
}

/// First position at or after `i` that does not hold a letter.
pub open spec fn alpha_end(s: Seq<u8>, i: int) -> int
    decreases s.len() - i when 0 <= i <= s.len()
{
    if i < s.len() && is_alpha(s[i]) {
        alpha_end(s, i + 1)
    } else {
        i
    }
}

/// Value of the decimal digits in `s[i..j]`.
pub open spec fn digits_val(s: Seq<u8>, i: int, j: int) -> int
    decreases j - i when i <= j
{
    if i < j {
        digits_val(s, i, j - 1) * 10 + (s[j - 1] - 48)
    } else {
        0
    }
}

/// The factor that turns `count` fractional digits into millionths.
pub open spec fn frac_scale(count: int) -> int {
    if count == 1 {
        100_000
    } else if count == 2 {
        10_000
    } else if count == 3 {
        1_000
    } else if count == 4 {
        100
    } else if count == 5 {
        10
    } else if count == 6 {
        1
    } else {
        0
    }
}

/// The largest value `count` decimal digits can take; used to bound the
/// fractional part while it is scanned.
pub open spec fn digit_count_bound(count: int) -> int {
    if count <= 0 {
        0
    } else if count == 1 {
        9
    } else if count == 2 {
        99
    } else if count == 3 {
        999
    } else if count == 4 {
        9_999
    } else if count == 5 {
        99_999
    } else {
        999_999
    }
}

/// Result of scanning a number literal.
pub struct NumScan {
    pub ok: bool,
    pub value: int,
    pub end: int,
}

/// Scan a number literal starting at the digit at `i`: digits, optionally
/// followed by a point and one to six fractional digits.  `ok` is false
/// when the fractional part is malformed or the value does not fit.
pub open spec fn scan_number(s: Seq<u8>, i: int) -> NumScan {
    let j = digits_end(s, i);
    let int_val = digits_val(s, i, j);
    if j < s.len() && s[j] == 46 {
        let k = digits_end(s, j + 1);
        let count = k - (j + 1);
        if count < 1 || count > 6 {
            NumScan { ok: false, value: 0, end: k }
        } else {
            let v = int_val * (SCALE as int) + digits_val(s, j + 1, k) * frac_scale(count);
            NumScan { ok: 0 <= v <= VAL_LIMIT, value: v, end: k }
        }
    } else {
        let v = int_val * (SCALE as int);
        NumScan { ok: 0 <= v <= VAL_LIMIT, value: v, end: j }
    }
}

/// Clamp a scan end so that the tokenizer always advances; the scans above
/// do advance, so the clamp never changes a reachable value.
pub open spec fn advance_to(s: Seq<u8>, lo: int, p: int) -> int {
    if p <= lo {
        lo + 1
    } else if p > s.len() {
        s.len() as int
    } else {
        p
    }
}

/// Put one token in front of a tokenizer outcome.
pub open spec fn with_token(t: Token, rest: TokensOut) -> TokensOut {
    match rest {
        TokensOut::Toks(ts) => TokensOut::Toks(seq![t] + ts),
        TokensOut::Syntax => TokensOut::Syntax,
        TokensOut::Unknown => TokensOut::Unknown,
    }
}

/// The tokens of the byte string `s` from position `i` on.
pub open spec fn spec_tokens_from(s: Seq<u8>, i: int) -> TokensOut
    decreases s.len() - i when 0 <= i <= s.len()
{
    if i >= s.len() {
        TokensOut::Toks(Seq::empty())
    } else {
        let c = s[i];
        if is_space(c) {
            spec_tokens_from(s, i + 1)
        } else if is_digit(c) {
            let sc = scan_number(s, i);
            if !sc.ok {
                TokensOut::Syntax
            } else {
                with_token(
                    Token::Num(sc.value as i64),
                    spec_tokens_from(s, advance_to(s, i, sc.end)),
                )
            }
        } else if is_alpha(c) {
            let j = alpha_end(s, i);
            let word = s.subrange(i, j);
            let rest = spec_tokens_from(s, advance_to(s, i, j));
            if word == seq![120u8] {
                with_token(Token::VarX, rest)
            } else if word == seq![80u8, 73u8] {
                with_token(Token::Pi, rest)
            } else if word == seq![67u8, 104u8, 101u8, 98u8] {
                with_token(Token::Cheb, rest)
            } else {
                TokensOut::Unknown
            }
        } else if c == 43 {
            with_token(Token::Plus, spec_tokens_from(s, i + 1))
        } else if c == 45 {
            with_token(Token::Minus, spec_tokens_from(s, i + 1))
        } else if c == 42 {
            with_token(Token::Star, spec_tokens_from(s, i + 1))
        } else if c == 47 {
            with_token(Token::Slash, spec_tokens_from(s, i + 1))
        } else if c == 94 {
            with_token(Token::Caret, spec_tokens_from(s, i + 1))
        } else if c == 40 {
            with_token(Token::LParen, spec_tokens_from(s, i + 1))
        } else if c == 41 {
            with_token(Token::RParen, spec_tokens_from(s, i + 1))
        } else if c == 44 {
            with_token(Token::Comma, spec_tokens_from(s, i + 1))
        } else {
            TokensOut::Syntax
        }
    }
}

/// A digit run ends exactly where the digits stop.
proof fn lemma_digits_end_is(s: Seq<u8>, i: int, j: int)
    requires
        0 <= i <= j <= s.len(),
        forall|k: int| i <= k < j ==> is_digit(s[k]),
        j == s.len() || !is_digit(s[j]),
    ensures
        digits_end(s, i) == j,
    decreases j - i,
{
    if i < j {
        lemma_digits_end_is(s, i + 1, j);
    }
}

/// A letter run ends exactly where the letters stop.
proof fn lemma_alpha_end_is(s: Seq<u8>, i: int, j: int)
    requires
        0 <= i <= j <= s.len(),
        forall|k: int| i <= k < j ==> is_alpha(s[k]),
        j == s.len() || !is_alpha(s[j]),
    ensures
        alpha_end(s, i) == j,
    decreases j - i,
{
    if i < j {
        lemma_alpha_end_is(s, i + 1, j);
    }
}

/// The value of a digit run is never negative.
proof fn lemma_digits_val_nonneg(s: Seq<u8>, i: int, j: int)
    requires
        i <= j,
        forall|k: int| i <= k < j ==> is_digit(s[k]),
    ensures
        0 <= digits_val(s, i, j),
    decreases j - i,
{
    if i < j {
        lemma_digits_val_nonneg(s, i, j - 1);
    }
}

/// Extending a digit run never shrinks its value.
proof fn lemma_digits_val_mono(s: Seq<u8>, i: int, j: int, m: int)
    requires
        i <= j <= m,
        forall|k: int| i <= k < m ==> is_digit(s[k]),
    ensures
        digits_val(s, i, j) <= digits_val(s, i, m),
    decreases m - j,
{
    lemma_digits_val_nonneg(s, i, j);
    if j < m {
        lemma_digits_val_mono(s, i, j, m - 1);
        lemma_digits_val_nonneg(s, i, m - 1);
    }
}

/// Scan the number literal that starts with the digit at `i`.
#[verifier::loop_isolation(false)]
fn scan_number_exec(s: &[u8], i: usize) -> (r: Option<(i64, usize)>)
    requires
        i < s@.len(),
        is_digit(s@[i as int]),
    ensures
        match r {
            Some(pair) => scan_number(s@, i as int) == (NumScan {
                ok: true,
                value: pair.0 as int,
                end: pair.1 as int,
            }) && i < pair.1 <= s@.len() && 0 <= pair.0 <= VAL_LIMIT,
            None => !scan_number(s@, i as int).ok,
        },
{
    let len: usize = s.len();
    let mut j: usize = i;
    let mut val: u64 = 0;
    // The integer part: stop early once the value alone is out of range,
    // which pins the scan outcome without reading the remaining digits.
    while j < len && s[j] >= 48 && s[j] <= 57
        invariant
            i <= j <= len,
            len == s@.len(),
            forall|k: int| i <= k < j ==> is_digit(s@[k]),
            val == digits_val(s@, i as int, j as int),
            val <= 4000,
        decreases len - j,
    {
        let d: u64 = (s[j] - 48) as u64;
        val = val * 10 + d;
        j = j + 1;
        if val > 4000 {
            proof {
                let de: int = digits_end(s@, i as int);
                lemma_digits_end_bounds(s@, i as int);
                lemma_digits_end_run(s@, i as int);
                digits_end_in_run(s@, i as int, j as int);
                lemma_digits_val_mono(s@, i as int, j as int, de);
                if de < s@.len() && s@[de] == 46 {
                    let fs: int = de + 1;
                    let ke: int = digits_end(s@, fs);
                    lemma_digits_end_bounds(s@, fs);
                    lemma_digits_end_run(s@, fs);
                    lemma_digits_val_nonneg(s@, fs, ke);
                    assert(digits_val(s@, fs, ke) * frac_scale(ke - fs) >= 0) by (nonlinear_arith)
                        requires
                            digits_val(s@, fs, ke) >= 0,
                            frac_scale(ke - fs) >= 0,
                    ;
                }
                assert(!scan_number(s@, i as int).ok);
            }
            return None;
        }
    }
    proof {
        lemma_digits_end_is(s@, i as int, j as int);
        lemma_digits_val_nonneg(s@, i as int, j as int);
    }
    if j < len && s[j] == 46 {
        let frac_start: usize = j + 1;
        let mut k: usize = frac_start;
        let mut frac: u64 = 0;
        while k < len && s[k] >= 48 && s[k] <= 57
            invariant
                frac_start <= k <= len,
                len == s@.len(),
                k - frac_start <= 6,
                forall|m: int| frac_start <= m < k ==> is_digit(s@[m]),
                frac == digits_val(s@, frac_start as int, k as int),
                frac <= digit_count_bound(k - frac_start),
            decreases len - k,
        {
            if k - frac_start == 6 {
                proof {
                    digits_end_in_run(s@, frac_start as int, (k + 1) as int);
                    assert(digits_end(s@, frac_start as int) >= k + 1);
                    assert(scan_number(s@, i as int).ok == false);
                }
                return None;
            }
            let d: u64 = (s[k] - 48) as u64;
            frac = frac * 10 + d;
            k = k + 1;
        }
        proof {
            lemma_digits_end_is(s@, frac_start as int, k as int);
            lemma_digits_val_nonneg(s@, frac_start as int, k as int);
        }
        let count: usize = k - frac_start;
        if count < 1 {
            return None;
        }
        let mult: u64 = if count == 1 {
            100_000
        } else if count == 2 {
            10_000
        } else if count == 3 {
            1_000
        } else if count == 4 {
            100
        } else if count == 5 {
            10
        } else {
            1
        };
        assert(mult == frac_scale(count as int));
        assert(frac * mult <= 99_999_900_000u64) by (nonlinear_arith)
            requires
                frac <= 999_999u64,
                mult <= 100_000u64,
        ;
        let v: u64 = val * 1_000_000 + frac * mult;
        if v > VAL_LIMIT as u64 {
            return None;
        }
        Some((v as i64, k))
    } else {
        let v: u64 = val * 1_000_000;
        if v > VAL_LIMIT as u64 {
            return None;
        }
        Some((v as i64, j))
    }
}

/// Inside a digit run, the run's end lies at or past every scanned digit.
proof fn digits_end_in_run(s: Seq<u8>, i: int, j: int)
    requires
        0 <= i <= j <= s.len(),
        forall|k: int| i <= k < j ==> is_digit(s[k]),
    ensures
        digits_end(s, i) >= j,
        digits_end(s, i) <= s.len(),
    decreases j - i,
{
    lemma_digits_end_bounds(s, i);
    if i < j {
        digits_end_in_run(s, i + 1, j);
    }
}

/// The end of a digit run lies between its start and the end of the text.
proof fn lemma_digits_end_bounds(s: Seq<u8>, i: int)
    requires
        0 <= i <= s.len(),
    ensures
        i <= digits_end(s, i) <= s.len(),
    decreases s.len() - i,
{
    if i < s.len() && is_digit(s[i]) {
        lemma_digits_end_bounds(s, i + 1);
    }
}

/// Everything before the end of a digit run is a digit.
proof fn lemma_digits_end_run(s: Seq<u8>, i: int)
    requires
        0 <= i <= s.len(),
    ensures
        forall|k: int| i <= k < digits_end(s, i) ==> is_digit(s[k]),
    decreases s.len() - i,
{
    if i < s.len() && is_digit(s[i]) {
        lemma_digits_end_run(s, i + 1);
        lemma_digits_end_bounds(s, i + 1);
    }
}

/// Append one token to the tokens already produced.
pub open spec fn tokens_seen(done: Seq<Token>, rest: TokensOut) -> TokensOut {
    match rest {
        TokensOut::Toks(ts) => TokensOut::Toks(done + ts),
        TokensOut::Syntax => TokensOut::Syntax,
        TokensOut::Unknown => TokensOut::Unknown,
    }
}

proof fn lemma_tokens_seen_step(done: Seq<Token>, t: Token, rest: TokensOut)
    ensures
        tokens_seen(done, with_token(t, rest)) == tokens_seen(done.push(t), rest),
{
    match rest {
        TokensOut::Toks(ts) => {
            assert(done + (seq![t] + ts) =~= done.push(t) + ts);
        },
        _ => {},
    }
}

/// Split a byte string into the tokens of the expression language.
#[verifier::loop_isolation(false)]
pub fn tokenize(s: &[u8]) -> (r: Result<Vec<Token>, CompileError>)
    ensures
        match r {
            Ok(ts) => spec_tokens_from(s@, 0) == TokensOut::Toks(ts@),
            Err(CompileError::Syntax) => spec_tokens_from(s@, 0) == TokensOut::Syntax,
            Err(CompileError::UnknownSymbol) => spec_tokens_from(s@, 0) == TokensOut::Unknown,
        },
{
    let len: usize = s.len();
    let mut i: usize = 0;
    let mut out: Vec<Token> = Vec::new();
    while i < len
        invariant
            0 <= i <= len,
            spec_tokens_from(s@, 0) == tokens_seen(out@, spec_tokens_from(s@, i as int)),
        decreases len - i,
    {
        let c: u8 = s[i];
        if c == 32 || c == 9 || c == 10 || c == 13 {
            i = i + 1;
        } else if c >= 48 && c <= 57 {
            match scan_number_exec(s, i) {
                Some((v, end)) => {
                    proof {
                        lemma_tokens_seen_step(
                            out@,
                            Token::Num(v),
                            spec_tokens_from(s@, end as int),
                        );
                    }
                    out.push(Token::Num(v));
                    i = end;
                },
                None => {
                    return Err(CompileError::Syntax);
                },
            }
        } else if (c >= 65 && c <= 90) || (c >= 97 && c <= 122) {
            let mut j: usize = i + 1;
            while j < len && ((s[j] >= 65 && s[j] <= 90) || (s[j] >= 97 && s[j] <= 122))
                invariant
                    i < j <= len,
                    forall|k: int| i <= k < j ==> is_alpha(s@[k]),
                decreases len - j,
            {
                j = j + 1;
            }
            proof {
                lemma_alpha_end_is(s@, i as int, j as int);
            }
            let word_len: usize = j - i;
            let tok: Token = if word_len == 1 && s[i] == 120 {
                proof {
                    assert(s@.subrange(i as int, j as int) =~= seq![120u8]);
                }
                Token::VarX
            } else if word_len == 2 && s[i] == 80 && s[i + 1] == 73 {
                proof {
                    assert(s@.subrange(i as int, j as int) =~= seq![80u8, 73u8]);
                }
                Token::Pi
            } else if word_len == 4 && s[i] == 67 && s[i + 1] == 104 && s[i + 2] == 101 && s[i
                + 3] == 98 {
                proof {
                    assert(s@.subrange(i as int, j as int) =~= seq![67u8, 104u8, 101u8, 98u8]);
                }
                Token::Cheb
            } else {
                proof {
                    let w = s@.subrange(i as int, j as int);
                    let kx: Seq<u8> = seq![120u8];
                    let kp: Seq<u8> = seq![80u8, 73u8];
                    let kc: Seq<u8> = seq![67u8, 104u8, 101u8, 98u8];
                    assert(w.len() == j - i);
                    assert(kx.len() == 1 && kx[0] == 120u8);
                    assert(kp.len() == 2 && kp[0] == 80u8 && kp[1] == 73u8);
                    assert(kc.len() == 4 && kc[0] == 67u8 && kc[1] == 104u8 && kc[2] == 101u8
                        && kc[3] == 98u8);
                    assert(w[0] == s@[i as int]);
                    if w.len() == 2 {
                        assert(w[1] == s@[i + 1]);
                    }
                    if w.len() == 4 {
                        assert(w[1] == s@[i + 1] && w[2] == s@[i + 2] && w[3] == s@[i + 3]);
                    }
                    assert(w != kx && w != kp && w != kc);
                }
                return Err(CompileError::UnknownSymbol);
            };
            proof {
                lemma_tokens_seen_step(out@, tok, spec_tokens_from(s@, j as int));
            }
            out.push(tok);
            i = j;
        } else if c == 43 || c == 45 || c == 42 || c == 47 || c == 94 || c == 40 || c == 41 || c
            == 44 {
            let tok: Token = if c == 43 {
                Token::Plus
            } else if c == 45 {
                Token::Minus
            } else if c == 42 {
                Token::Star
            } else if c == 47 {
                Token::Slash
            } else if c == 94 {
                Token::Caret
            } else if c == 40 {
                Token::LParen
            } else if c == 41 {
                Token::RParen
            } else {
                Token::Comma
            };
            proof {
                lemma_tokens_seen_step(out@, tok, spec_tokens_from(s@, (i + 1) as int));
            }
            out.push(tok);
            i = i + 1;
        } else {
            return Err(CompileError::Syntax);
        }
    }
    proof {
        assert(out@ + Seq::<Token>::empty() =~= out@);
    }
    Ok(out)
}

/// Outcome of a parse step: the expression read and the position after it,
/// or failure.
pub enum ParseOut {
    Parsed(Expr, int),
    Fail,
}

/// Clamp a parse position so that the grammar functions always advance;
/// every parse step does advance, so the clamp never changes a reachable
/// value.
pub open spec fn padvance(t: Seq<Token>, lo: int, p: int) -> int {
    if lo + 1 > t.len() {
        t.len() as int
    } else if p <= lo {
        lo + 1
    } else if p > t.len() {
        t.len() as int
    } else {
        p
    }
}

/// A number token that stands for a whole number within range.
pub open spec fn spec_int_token(v: i64) -> bool {
    0 <= v <= VAL_LIMIT && (v as int) % (SCALE as int) == 0
}

/// `primary := number | 'x' | 'PI' | '(' expr ')'`
/// `          | 'Cheb' '(' expr ',' ['-'] integer ')'`
pub open spec fn sp_primary(t: Seq<Token>, pos: int) -> ParseOut
    decreases t.len() - pos, 0int
        when 0 <= pos <= t.len()
{
    if pos >= t.len() {
        ParseOut::Fail
    } else {
        match t[pos] {
            Token::Num(v) => ParseOut::Parsed(Expr::Const(v), pos + 1),
            Token::VarX => ParseOut::Parsed(Expr::Var, pos + 1),
            Token::Pi => ParseOut::Parsed(Expr::Pi, pos + 1),
            Token::LParen => match sp_expr(t, pos + 1) {
                ParseOut::Parsed(e, p) => if p < t.len() && t[p] is RParen {
                    ParseOut::Parsed(e, p + 1)
                } else {
                    ParseOut::Fail
                },
                ParseOut::Fail => ParseOut::Fail,
            },
            Token::Cheb => if pos + 1 < t.len() && t[pos + 1] is LParen {
                match sp_expr(t, pos + 2) {
                    ParseOut::Parsed(e, p) => if p < t.len() && t[p] is Comma {
                        sp_cheb_order(t, p + 1, e)
                    } else {
                        ParseOut::Fail
                    },
                    ParseOut::Fail => ParseOut::Fail,
                }
            } else {
                ParseOut::Fail
            },
            _ => ParseOut::Fail,
        }
    }
}

/// The tail of a Chebyshev call: an optionally negated whole number and
/// the closing parenthesis.
pub open spec fn sp_cheb_order(t: Seq<Token>, pos: int, e: Expr) -> ParseOut {
    let neg = pos < t.len() && t[pos] is Minus;
    let q = if neg {
        pos + 1
    } else {
        pos
    };
    if q < t.len() {
        match t[q] {
            Token::Num(v) => if spec_int_token(v) && q + 1 < t.len() && t[q + 1] is RParen {
                let o = (v as int) / (SCALE as int);
                ParseOut::Parsed(
                    Expr::Cheb(
                        Box::new(e),
                        if neg {
                            (-o) as i64
                        } else {
                            o as i64
                        },
                    ),
                    q + 2,
                )
            } else {
                ParseOut::Fail
            },
            _ => ParseOut::Fail,
        }
    } else {
        ParseOut::Fail
    }
}

/// `power := primary ('^' integer)?`
pub open spec fn sp_pow(t: Seq<Token>, pos: int) -> ParseOut
    decreases t.len() - pos, 1int
        when 0 <= pos <= t.len()
{
    match sp_primary(t, pos) {
        ParseOut::Parsed(e, p) => if p < t.len() && t[p] is Caret {
            if p + 1 < t.len() {
                match t[p + 1] {
                    Token::Num(v) => if spec_int_token(v) {
                        ParseOut::Parsed(
                            Expr::Pow(Box::new(e), ((v as int) / (SCALE as int)) as u32),
                            p + 2,
                        )
                    } else {
                        ParseOut::Fail
                    },
                    _ => ParseOut::Fail,
                }
            } else {
                ParseOut::Fail
            }
        } else {
            ParseOut::Parsed(e, p)
        },
        ParseOut::Fail => ParseOut::Fail,
    }
}

/// `unary := '-' unary | power`
pub open spec fn sp_unary(t: Seq<Token>, pos: int) -> ParseOut
    decreases t.len() - pos, 2int
        when 0 <= pos <= t.len()
{
    if pos < t.len() && t[pos] is Minus {
        match sp_unary(t, pos + 1) {
            ParseOut::Parsed(e, p) => ParseOut::Parsed(Expr::Neg(Box::new(e)), p),
            ParseOut::Fail => ParseOut::Fail,
        }
    } else {
        sp_pow(t, pos)
    }
}

/// The multiplicative operators behind the first factor of a term.
pub open spec fn sp_term_more(t: Seq<Token>, pos: int, acc: Expr) -> ParseOut
    decreases t.len() - pos, 3int
        when 0 <= pos <= t.len()
{
    if pos < t.len() && (t[pos] is Star || t[pos] is Slash) {
        let star = t[pos] is Star;
        match sp_unary(t, pos + 1) {
            ParseOut::Parsed(e2, p2) => sp_term_more(
                t,
                padvance(t, pos, p2),
                if star {
                    Expr::Mul(Box::new(acc), Box::new(e2))
                } else {
                    Expr::Div(Box::new(acc), Box::new(e2))
                },
            ),
            ParseOut::Fail => ParseOut::Fail,
        }
    } else {
        ParseOut::Parsed(acc, pos)
    }
}

/// `term := unary (('*' | '/') unary)*`
pub open spec fn sp_term(t: Seq<Token>, pos: int) -> ParseOut
    decreases t.len() - pos, 4int
        when 0 <= pos <= t.len()
{
    match sp_unary(t, pos) {
        ParseOut::Parsed(e, p) => sp_term_more(t, padvance(t, pos, p), e),
        ParseOut::Fail => ParseOut::Fail,
    }
}

/// The additive operators behind the first term of an expression.
pub open spec fn sp_expr_more(t: Seq<Token>, pos: int, acc: Expr) -> ParseOut
    decreases t.len() - pos, 5int
        when 0 <= pos <= t.len()
{
    if pos < t.len() && (t[pos] is Plus || t[pos] is Minus) {
        let plus = t[pos] is Plus;
        match sp_term(t, pos + 1) {
            ParseOut::Parsed(e2, p2) => sp_expr_more(
                t,
                padvance(t, pos, p2),
                if plus {
                    Expr::Add(Box::new(acc), Box::new(e2))
                } else {
                    Expr::Sub(Box::new(acc), Box::new(e2))
                },
            ),
            ParseOut::Fail => ParseOut::Fail,
        }
    } else {
        ParseOut::Parsed(acc, pos)
    }
}

/// `expr := term (('+' | '-') term)*`
pub open spec fn sp_expr(t: Seq<Token>, pos: int) -> ParseOut
    decreases t.len() - pos, 6int
        when 0 <= pos <= t.len()
{
    match sp_term(t, pos) {
        ParseOut::Parsed(e, p) => sp_expr_more(t, padvance(t, pos, p), e),
        ParseOut::Fail => ParseOut::Fail,
    }
}

fn p_primary(t: &Vec<Token>, pos: usize) -> (r: Option<(Expr, usize)>)
    requires
        pos <= t@.len(),
    ensures
        match r {
            Some(ep) => sp_primary(t@, pos as int) == ParseOut::Parsed(ep.0, ep.1 as int) && pos
                < ep.1 <= t@.len(),
            None => sp_primary(t@, pos as int) == ParseOut::Fail,
        },
    decreases t@.len() - pos, 0int,
{
    if pos >= t.len() {
        return None;
    }
    match t[pos] {
        Token::Num(v) => Some((Expr::Const(v), pos + 1)),
        Token::VarX => Some((Expr::Var, pos + 1)),
        Token::Pi => Some((Expr::Pi, pos + 1)),
        Token::LParen => {
            match p_expr(t, pos + 1) {
                Some((e, p)) => {
                    if p < t.len() {
                        match t[p] {
                            Token::RParen => Some((e, p + 1)),
                            _ => None,
                        }
                    } else {
                        None
                    }
                },
                None => None,
            }
        },
        Token::Cheb => {
            if pos + 1 < t.len() {
                match t[pos + 1] {
                    Token::LParen => {
                        match p_expr(t, pos + 2) {
                            Some((e, p)) => {
                                if p < t.len() {
                                    match t[p] {
                                        Token::Comma => p_cheb_order(t, p + 1, e),
                                        _ => None,
                                    }
                                } else {
                                    None
                                }
                            },
                            None => None,
                        }
                    },
                    _ => None,
                }
            } else {
                None
            }
        },
        _ => None,
    }
}

fn p_cheb_order(t: &Vec<Token>, pos: usize, e: Expr) -> (r: Option<(Expr, usize)>)
    requires
        pos <= t@.len(),
    ensures
        match r {
            Some(ep) => sp_cheb_order(t@, pos as int, e) == ParseOut::Parsed(ep.0, ep.1 as int)
                && pos < ep.1 <= t@.len(),
            None => sp_cheb_order(t@, pos as int, e) == ParseOut::Fail,
        },
{
    let mut neg: bool = false;
    let mut q: usize = pos;
    if pos < t.len() {
        match t[pos] {
            Token::Minus => {
                neg = true;
                q = pos + 1;
            },
            _ => {},
        }
    }
    if q < t.len() {
        match t[q] {
            Token::Num(v) => {
                if v >= 0 && v <= VAL_LIMIT && (v as u64) % 1_000_000u64 == 0 && q + 1 < t.len() {
                    match t[q + 1] {
                        Token::RParen => {
                            let o: i64 = ((v as u64) / 1_000_000u64) as i64;
                            let ord: i64 = if neg {
                                -o
                            } else {
                                o
                            };
                            Some((Expr::Cheb(Box::new(e), ord), q + 2))
                        },
                        _ => None,
                    }
                } else {
                    None
                }
            },
            _ => None,
        }
    } else {
        None
    }
}

fn p_pow(t: &Vec<Token>, pos: usize) -> (r: Option<(Expr, usize)>)
    requires
        pos <= t@.len(),
    ensures
        match r {
            Some(ep) => sp_pow(t@, pos as int) == ParseOut::Parsed(ep.0, ep.1 as int) && pos
                < ep.1 <= t@.len(),
            None => sp_pow(t@, pos as int) == ParseOut::Fail,
        },
    decreases t@.len() - pos, 1int,
{
    match p_primary(t, pos) {
        Some((e, p)) => {
            if p < t.len() {
                match t[p] {
                    Token::Caret => {
                        if p + 1 < t.len() {
                            match t[p + 1] {
                                Token::Num(v) => {
                                    if v >= 0 && v <= VAL_LIMIT && (v as u64) % 1_000_000u64
                                        == 0 {
                                        let k: u32 = ((v as u64) / 1_000_000u64) as u32;
                                        Some((Expr::Pow(Box::new(e), k), p + 2))
                                    } else {
                                        None
                                    }
                                },
                                _ => None,
                            }
                        } else {
                            None
                        }
                    },
                    _ => Some((e, p)),
                }
            } else {
                Some((e, p))
            }
        },
        None => None,
    }
}

fn p_unary(t: &Vec<Token>, pos: usize) -> (r: Option<(Expr, usize)>)
    requires
        pos <= t@.len(),
    ensures
        match r {
            Some(ep) => sp_unary(t@, pos as int) == ParseOut::Parsed(ep.0, ep.1 as int) && pos
                < ep.1 <= t@.len(),
            None => sp_unary(t@, pos as int) == ParseOut::Fail,
        },
    decreases t@.len() - pos, 2int,
{
    if pos < t.len() {
        match t[pos] {
            Token::Minus => {
                match p_unary(t, pos + 1) {
                    Some((e, p)) => Some((Expr::Neg(Box::new(e)), p)),
                    None => None,
                }
            },
            _ => p_pow(t, pos),
        }
    } else {
        p_pow(t, pos)
    }
}

fn p_term_more(t: &Vec<Token>, pos: usize, acc: Expr) -> (r: Option<(Expr, usize)>)
    requires
        pos <= t@.len(),
    ensures
        match r {
            Some(ep) => sp_term_more(t@, pos as int, acc) == ParseOut::Parsed(ep.0, ep.1 as int)
                && pos <= ep.1 <= t@.len(),
            None => sp_term_more(t@, pos as int, acc) == ParseOut::Fail,
        },
    decreases t@.len() - pos, 3int,
{
    if pos < t.len() {
        let star: bool = match t[pos] {
            Token::Star => true,
            _ => false,
        };
        let slash: bool = match t[pos] {
            Token::Slash => true,
            _ => false,
        };
        if star || slash {
            match p_unary(t, pos + 1) {
                Some((e2, p2)) => {
                    let acc2: Expr = if star {
                        Expr::Mul(Box::new(acc), Box::new(e2))
                    } else {
                        Expr::Div(Box::new(acc), Box::new(e2))
                    };
                    p_term_more(t, p2, acc2)
                },
                None => None,
            }
        } else {
            Some((acc, pos))
        }
    } else {
        Some((acc, pos))
    }
}

fn p_term(t: &Vec<Token>, pos: usize) -> (r: Option<(Expr, usize)>)
    requires
        pos <= t@.len(),
    ensures
        match r {
            Some(ep) => sp_term(t@, pos as int) == ParseOut::Parsed(ep.0, ep.1 as int) && pos
                < ep.1 <= t@.len(),
            None => sp_term(t@, pos as int) == ParseOut::Fail,
        },
    decreases t@.len() - pos, 4int,
{
    match p_unary(t, pos) {
        Some((e, p)) => p_term_more(t, p, e),
        None => None,
    }
}

fn p_expr_more(t: &Vec<Token>, pos: usize, acc: Expr) -> (r: Option<(Expr, usize)>)
    requires
        pos <= t@.len(),
    ensures
        match r {
            Some(ep) => sp_expr_more(t@, pos as int, acc) == ParseOut::Parsed(ep.0, ep.1 as int)
                && pos <= ep.1 <= t@.len(),
            None => sp_expr_more(t@, pos as int, acc) == ParseOut::Fail,
        },
    decreases t@.len() - pos, 5int,
{
    if pos < t.len() {
        let plus: bool = match t[pos] {
            Token::Plus => true,
            _ => false,
        };
        let minus: bool = match t[pos] {
            Token::Minus => true,
            _ => false,
        };
        if plus || minus {
            match p_term(t, pos + 1) {
                Some((e2, p2)) => {
                    let acc2: Expr = if plus {
                        Expr::Add(Box::new(acc), Box::new(e2))
                    } else {
                        Expr::Sub(Box::new(acc), Box::new(e2))
                    };
                    p_expr_more(t, p2, acc2)
                },
                None => None,
            }
        } else {
            Some((acc, pos))
        }
    } else {
        Some((acc, pos))
    }
}

fn p_expr(t: &Vec<Token>, pos: usize) -> (r: Option<(Expr, usize)>)
    requires
        pos <= t@.len(),
    ensures
        match r {
            Some(ep) => sp_expr(t@, pos as int) == ParseOut::Parsed(ep.0, ep.1 as int) && pos
                < ep.1 <= t@.len(),
            None => sp_expr(t@, pos as int) == ParseOut::Fail,
        },
    decreases t@.len() - pos, 6int,
{
    match p_term(t, pos) {
        Some((e, p)) => p_expr_more(t, p, e),
        None => None,
    }
}

/// Outcome of compiling an expression text.
pub enum CompileOut {
    Done(Expr),
    Syntax,
    Unknown,
}

/// The expression that a byte string compiles to, or the reason it is
/// rejected: tokens that do not form exactly one expression are a syntax
/// error; an identifier outside the vocabulary is an unknown symbol.
pub open spec fn spec_compile(s: Seq<u8>) -> CompileOut {
    match spec_tokens_from(s, 0) {
        TokensOut::Toks(ts) => match sp_expr(ts, 0) {
            ParseOut::Parsed(e, p) => if p == ts.len() {
                CompileOut::Done(e)
            } else {
                CompileOut::Syntax
            },
            ParseOut::Fail => CompileOut::Syntax,
        },
        TokensOut::Syntax => CompileOut::Syntax,
        TokensOut::Unknown => CompileOut::Unknown,
    }
}

/// Parse an expression text into a syntax tree.  Pure: the result is a
/// function of the text alone, and `spec_compile` states it exactly.
pub fn compile(text: &str) -> (r: Result<Expr, CompileError>)
    ensures
        match r {
            Ok(e) => spec_compile(text.spec_bytes()) == CompileOut::Done(e),
            Err(CompileError::Syntax) => spec_compile(text.spec_bytes()) == CompileOut::Syntax,
            Err(CompileError::UnknownSymbol) => spec_compile(text.spec_bytes())
                == CompileOut::Unknown,
        },
{
    let bytes: &[u8] = text.as_bytes();
    let toks: Vec<Token> = match tokenize(bytes) {
        Ok(ts) => ts,
        Err(e) => {
            return Err(e);
        },
    };
    match p_expr(&toks, 0) {
        Some((e, p)) => {
            if p == toks.len() {
                Ok(e)
            } else {
                Err(CompileError::Syntax)
            }
        },
        None => Err(CompileError::Syntax),
    }
}

} // verus!
