//! Constant-fold optimizer.
//!
//! Scans text for self-contained numeric/bitwise/logical expression spans,
//! evaluates each span with 64-bit wrapping semantics, and replaces the span
//! with its decimal value.  Spans that fail to tokenize or evaluate (for
//! example a division by zero) are left verbatim; the pass as a whole never
//! fails.

use vstd::prelude::*;
use crate::text::{
    is_digit_char, spec_skip_ws, spec_digit_end, spec_trim, lemma_digit_end, is_digit, skip_whitespace, digit_end, trim, copy_range,
    str_chars, chars_string,
};

verus! {

/// One token of a candidate constant expression.
#[derive(Debug, Clone, Copy, PartialEq, Eq, Structural)]
pub enum ExprToken {
    Number(i64),
    Plus,
    Minus,
    Multiply,
    Divide,
    Modulo,
    BitAnd,
    BitOr,
    BitXor,
    LeftShift,
    RightShift,
    And,
    Or,
    Xor,
    LParen,
    RParen,
}

/// Why a candidate span could not be folded.  These never escape the pass:
/// a span whose evaluation fails is emitted unchanged.
#[derive(Debug, Clone, Copy, PartialEq, Eq, Structural)]
pub enum FoldError {
    InvalidNumber,
    UnsupportedComparison,
    UnexpectedCharacter,
    NotConstant,
    UnexpectedEnd,
    MissingParen,
    UnexpectedToken,
    DivisionByZero,
    ModuloByZero,
    InvalidOperator,
}

// ---------------------------------------------------------------------------
// Signed 64-bit arithmetic helpers

pub open spec fn abs_int(a: int) -> int {
    if a < 0 {
        -a
    } else {
        a
    }
}

/// Division truncating toward zero, as Rust's `/` computes it on signed
/// integers.
pub open spec fn trunc_div(a: int, b: int) -> int {
    let q = abs_int(a) / abs_int(b);
    if (a < 0) != (b < 0) {
        -q
    } else {
        q
    }
}

/// Remainder paired with `trunc_div`: it has the sign of the dividend.
pub open spec fn trunc_rem(a: int, b: int) -> int {
    a - b * trunc_div(a, b)
}

pub open spec fn spec_wrapping_div_i64(a: i64, b: i64) -> i64 {
    if a == i64::MIN && b == -1 {
        i64::MIN
    } else {
        trunc_div(a as int, b as int) as i64
    }
}

pub open spec fn spec_wrapping_rem_i64(a: i64, b: i64) -> i64 {
    if a == i64::MIN && b == -1 {
        0
    } else {
        trunc_rem(a as int, b as int) as i64
    }
}

/// Relies on `i64::wrapping_div`: truncating division, except that
/// `i64::MIN / -1` wraps to `i64::MIN`; it panics only on a zero divisor,
/// which the precondition rules out.
pub assume_specification[ i64::wrapping_div ](a: i64, b: i64) -> (r: i64)
    requires
        b != 0,
    ensures
        r == spec_wrapping_div_i64(a, b),
;

/// Relies on `i64::wrapping_rem`: remainder of truncating division, except
/// that `i64::MIN % -1` yields 0; it panics only on a zero divisor, which
/// the precondition rules out.
pub assume_specification[ i64::wrapping_rem ](a: i64, b: i64) -> (r: i64)
    requires
        b != 0,
    ensures
        r == spec_wrapping_rem_i64(a, b),
;

// ---------------------------------------------------------------------------
// Operator evaluation

/// The value of `left op right`, with wrapping semantics for the arithmetic
/// operators, shift amounts taken modulo 64, and 0/1 results for the logical
/// operators.  Division and modulo by zero are the two evaluation errors.
pub open spec fn spec_apply(left: i64, op: ExprToken, right: i64) -> Result<i64, FoldError> {
    match op {
        ExprToken::Plus => Ok(vstd::wrapping::i64_specs::wrapping_add(left, right)),
        ExprToken::Minus => Ok(vstd::wrapping::i64_specs::wrapping_sub(left, right)),
        ExprToken::Multiply => Ok(vstd::wrapping::i64_specs::wrapping_mul(left, right)),
        ExprToken::Divide => if right == 0 {
            Err(FoldError::DivisionByZero)
        } else {
            Ok(spec_wrapping_div_i64(left, right))
        },
        ExprToken::Modulo => if right == 0 {
            Err(FoldError::ModuloByZero)
        } else {
            Ok(spec_wrapping_rem_i64(left, right))
        },
        ExprToken::BitAnd => Ok(left & right),
        ExprToken::BitOr => Ok(left | right),
        ExprToken::BitXor => Ok(left ^ right),
        ExprToken::LeftShift => Ok(vstd::wrapping::i64_specs::wrapping_shl(left, right as u32)),
        ExprToken::RightShift => Ok(vstd::wrapping::i64_specs::wrapping_shr(left, right as u32)),
        ExprToken::And => Ok(if left != 0 && right != 0 { 1i64 } else { 0i64 }),
        ExprToken::Or => Ok(if left != 0 || right != 0 { 1i64 } else { 0i64 }),
        ExprToken::Xor => Ok(if (left != 0) != (right != 0) { 1i64 } else { 0i64 }),
        _ => Err(FoldError::InvalidOperator),
    }
}

pub fn apply_operator(left: i64, op: ExprToken, right: i64) -> (r: Result<i64, FoldError>)
    ensures
        r == spec_apply(left, op, right),
{
    match op {
        ExprToken::Plus => Ok(left.wrapping_add(right)),
        ExprToken::Minus => Ok(left.wrapping_sub(right)),
        ExprToken::Multiply => Ok(left.wrapping_mul(right)),
        ExprToken::Divide => if right == 0 {
            Err(FoldError::DivisionByZero)
        } else {
            Ok(left.wrapping_div(right))
        },
        ExprToken::Modulo => if right == 0 {
            Err(FoldError::ModuloByZero)
        } else {
            Ok(left.wrapping_rem(right))
        },
        ExprToken::BitAnd => Ok(left & right),
        ExprToken::BitOr => Ok(left | right),
        ExprToken::BitXor => Ok(left ^ right),
        ExprToken::LeftShift => Ok(left.wrapping_shl(right as u32)),
        ExprToken::RightShift => Ok(left.wrapping_shr(right as u32)),
        ExprToken::And => Ok(if left != 0 && right != 0 { 1i64 } else { 0i64 }),
        ExprToken::Or => Ok(if left != 0 || right != 0 { 1i64 } else { 0i64 }),
        ExprToken::Xor => Ok(if (left != 0) != (right != 0) { 1i64 } else { 0i64 }),
        ExprToken::Number(_) => Err(FoldError::InvalidOperator),
        ExprToken::LParen => Err(FoldError::InvalidOperator),
        ExprToken::RParen => Err(FoldError::InvalidOperator),
    }
}

/// Operator precedence, low to high: logical or < logical xor < logical and
/// < bitwise or < bitwise xor < bitwise and < shifts < additive <
/// multiplicative.  Non-operators rank 0.
pub open spec fn spec_precedence(token: ExprToken) -> u8 {
    match token {
        ExprToken::Or => 1u8,
        ExprToken::Xor => 2u8,
        ExprToken::And => 3u8,
        ExprToken::BitOr => 4u8,
        ExprToken::BitXor => 5u8,
        ExprToken::BitAnd => 6u8,
        ExprToken::LeftShift => 9u8,
        ExprToken::RightShift => 9u8,
        ExprToken::Plus => 10u8,
        ExprToken::Minus => 10u8,
        ExprToken::Multiply => 11u8,
        ExprToken::Divide => 11u8,
        ExprToken::Modulo => 11u8,
        _ => 0u8,
    }
}

pub fn precedence(token: &ExprToken) -> (r: u8)
    ensures
        r == spec_precedence(*token),
{
    match token {
        ExprToken::Or => 1u8,
        ExprToken::Xor => 2u8,
        ExprToken::And => 3u8,
        ExprToken::BitOr => 4u8,
        ExprToken::BitXor => 5u8,
        ExprToken::BitAnd => 6u8,
        ExprToken::LeftShift => 9u8,
        ExprToken::RightShift => 9u8,
        ExprToken::Plus => 10u8,
        ExprToken::Minus => 10u8,
        ExprToken::Multiply => 11u8,
        ExprToken::Divide => 11u8,
        ExprToken::Modulo => 11u8,
        ExprToken::Number(_) => 0u8,
        ExprToken::LParen => 0u8,
        ExprToken::RParen => 0u8,
    }
}

// ---------------------------------------------------------------------------
// Decimal numerals

pub open spec fn digit_val(c: char) -> int {
    (c as u32) - 48
}

/// Value of the decimal digit run `s[i..j]` (most significant digit first).
pub open spec fn dec_value(s: Seq<char>, i: int, j: int) -> int
    decreases j - i,
{
    if j <= i {
        0
    } else {
        dec_value(s, i, j - 1) * 10 + digit_val(s[j - 1])
    }
}

pub proof fn lemma_dec_value_nonneg(s: Seq<char>, i: int, j: int)
    requires
        forall|k: int| i <= k < j ==> is_digit_char(s[k]),
    ensures
        dec_value(s, i, j) >= 0,
    decreases j - i,
{
    if j > i {
        lemma_dec_value_nonneg(s, i, j - 1);
    }
}

/// A digit run's value only grows as the run extends to the right.
pub proof fn lemma_dec_value_mono(s: Seq<char>, i: int, k: int, j: int)
    requires
        i <= k <= j,
        forall|m: int| i <= m < j ==> is_digit_char(s[m]),
    ensures
        dec_value(s, i, j) >= dec_value(s, i, k),
    decreases j - k,
{
    if j > k {
        lemma_dec_value_mono(s, i, k, j - 1);
        lemma_dec_value_nonneg(s, i, j - 1);
    }
}

/// Parse the digit run `v[i..j]` as long as its value stays within `bound`;
/// `None` exactly when the value exceeds the bound.
pub(crate) fn parse_digits_bounded(v: &Vec<char>, i: usize, j: usize, bound: u64) -> (r: Option<u64>)
    requires
        i <= j <= v@.len(),
        forall|k: int| i <= k < j ==> is_digit_char(v@[k]),
        bound >= 9,
    ensures
        match r {
            Some(val) => val as int == dec_value(v@, i as int, j as int) && val <= bound,
            None => dec_value(v@, i as int, j as int) > bound,
        },
{
    let mut acc: u64 = 0;
    let mut k: usize = i;
    while k < j
        invariant
            i <= k <= j <= v@.len(),
            forall|m: int| i <= m < j ==> is_digit_char(v@[m]),
            bound >= 9,
            acc as int == dec_value(v@, i as int, k as int),
            acc <= bound,
        decreases j - k,
    {
        let c = v[k];
        assert(is_digit_char(c));
        let d: u64 = (c as u32) as u64 - 48;
        assert(d <= 9);
        if acc > (bound - d) / 10 {
            proof {
                let b = (bound - d) as int;
                assert(b / 10 * 10 + b % 10 == b);
                assert(acc as int * 10 + d > bound);
                assert(dec_value(v@, i as int, k + 1 as int) > bound);
                lemma_dec_value_mono(v@, i as int, k + 1, j as int);
            }
            return None;
        }
        proof {
            let b = (bound - d) as int;
            assert(b / 10 * 10 + b % 10 == b);
            assert(acc as int * 10 + d <= bound);
        }
        acc = acc * 10 + d;
        k = k + 1;
    }
    Some(acc)
}

/// The decimal digits of `n` (no sign, no leading zeros except for 0 itself).
pub open spec fn dec_digits_of(n: int) -> Seq<char>
    decreases n,
{
    if n < 10 {
        seq![digit_char_of(n)]
    } else {
        dec_digits_of(n / 10).push(digit_char_of(n % 10))
    }
}

pub open spec fn digit_char_of(d: int) -> char {
    if d == 0 {
        '0'
    } else if d == 1 {
        '1'
    } else if d == 2 {
        '2'
    } else if d == 3 {
        '3'
    } else if d == 4 {
        '4'
    } else if d == 5 {
        '5'
    } else if d == 6 {
        '6'
    } else if d == 7 {
        '7'
    } else if d == 8 {
        '8'
    } else {
        '9'
    }
}

/// The canonical decimal rendering of a signed 64-bit value.
pub open spec fn spec_i64_string(v: int) -> Seq<char> {
    if v < 0 {
        seq!['-'] + dec_digits_of(-v)
    } else {
        dec_digits_of(v)
    }
}

fn digit_char(d: u64) -> (c: char)
    requires
        d < 10,
    ensures
        c == digit_char_of(d as int),
{
    if d == 0 {
        '0'
    } else if d == 1 {
        '1'
    } else if d == 2 {
        '2'
    } else if d == 3 {
        '3'
    } else if d == 4 {
        '4'
    } else if d == 5 {
        '5'
    } else if d == 6 {
        '6'
    } else if d == 7 {
        '7'
    } else if d == 8 {
        '8'
    } else {
        '9'
    }
}

fn push_dec_u64(m: u64, out: &mut Vec<char>)
    ensures
        final(out)@ == old(out)@ + dec_digits_of(m as int),
    decreases m,
{
    if m < 10 {
        out.push(digit_char(m));
    } else {
        push_dec_u64(m / 10, out);
        out.push(digit_char(m % 10));
    }
}

/// The decimal rendering of `v`, as `i64::to_string` would produce it.
pub fn i64_chars(v: i64) -> (r: Vec<char>)
    ensures
        r@ == spec_i64_string(v as int),
{
    let mut out: Vec<char> = Vec::new();
    if v >= 0 {
        push_dec_u64(v as u64, &mut out);
    } else {
        out.push('-');
        let m: u64 = if v == i64::MIN {
            9223372036854775808u64
        } else {
            (-v) as u64
        };
        assert(m as int == -(v as int));
        push_dec_u64(m, &mut out);
    }
    out
}

// ---------------------------------------------------------------------------
// Tokenizer

/// After these tokens a `-` begins a negative literal rather than a binary
/// minus: at the start, after an opening parenthesis, or after any
/// operator — everywhere except after a number or a closing parenthesis.
pub open spec fn allows_negative(acc: Seq<ExprToken>) -> bool {
    acc.len() == 0 || match acc.last() {
        ExprToken::Number(_) => false,
        ExprToken::RParen => false,
        _ => true,
    }
}

/// Tokenizer state machine from position `i` with tokens `acc` already read.
pub open spec fn spec_tok(s: Seq<char>, i: int, acc: Seq<ExprToken>) -> Result<
    Seq<ExprToken>,
    FoldError,
>
    decreases s.len() - i,
{
    if i < 0 || i >= s.len() {
        Ok(acc)
    } else {
        let c = s[i];
        if c == ' ' || c == '\t' {
            spec_tok(s, i + 1, acc)
        } else if is_digit_char(c) {
            let j = spec_digit_end(s, i);
            if j <= i || j > s.len() {
                Err(FoldError::InvalidNumber)
            } else if dec_value(s, i, j) > i64::MAX {
                Err(FoldError::InvalidNumber)
            } else {
                spec_tok(s, j, acc.push(ExprToken::Number(dec_value(s, i, j) as i64)))
            }
        } else if c == '+' {
            spec_tok(s, i + 1, acc.push(ExprToken::Plus))
        } else if c == '-' {
            if allows_negative(acc) {
                let j = spec_digit_end(s, i + 1);
                if j <= i + 1 || j > s.len() {
                    Err(FoldError::InvalidNumber)
                } else if dec_value(s, i + 1, j) > 0x8000_0000_0000_0000 {
                    Err(FoldError::InvalidNumber)
                } else {
                    spec_tok(s, j, acc.push(ExprToken::Number((-dec_value(s, i + 1, j)) as i64)))
                }
            } else {
                spec_tok(s, i + 1, acc.push(ExprToken::Minus))
            }
        } else if c == '*' {
            spec_tok(s, i + 1, acc.push(ExprToken::Multiply))
        } else if c == '/' {
            spec_tok(s, i + 1, acc.push(ExprToken::Divide))
        } else if c == '%' {
            spec_tok(s, i + 1, acc.push(ExprToken::Modulo))
        } else if c == '&' {
            if i + 1 < s.len() && s[i + 1] == '&' {
                spec_tok(s, i + 2, acc.push(ExprToken::And))
            } else {
                spec_tok(s, i + 1, acc.push(ExprToken::BitAnd))
            }
        } else if c == '|' {
            if i + 1 < s.len() && s[i + 1] == '|' {
                spec_tok(s, i + 2, acc.push(ExprToken::Or))
            } else {
                spec_tok(s, i + 1, acc.push(ExprToken::BitOr))
            }
        } else if c == '^' {
            if i + 1 < s.len() && s[i + 1] == '^' {
                spec_tok(s, i + 2, acc.push(ExprToken::Xor))
            } else {
                spec_tok(s, i + 1, acc.push(ExprToken::BitXor))
            }
        } else if c == '<' {
            if i + 1 < s.len() && s[i + 1] == '<' {
                spec_tok(s, i + 2, acc.push(ExprToken::LeftShift))
            } else {
                Err(FoldError::UnsupportedComparison)
            }
        } else if c == '>' {
            if i + 1 < s.len() && s[i + 1] == '>' {
                spec_tok(s, i + 2, acc.push(ExprToken::RightShift))
            } else {
                Err(FoldError::UnsupportedComparison)
            }
        } else if c == '(' {
            spec_tok(s, i + 1, acc.push(ExprToken::LParen))
        } else if c == ')' {
            spec_tok(s, i + 1, acc.push(ExprToken::RParen))
        } else {
            Err(FoldError::UnexpectedCharacter)
        }
    }
}

/// Tokens of a candidate span: the span is trimmed, then scanned left to
/// right.
pub open spec fn spec_tokenize(s: Seq<char>) -> Result<Seq<ExprToken>, FoldError> {
    spec_tok(spec_trim(s), 0, Seq::empty())
}

pub open spec fn tok_result_matches(
    r: Result<Vec<ExprToken>, FoldError>,
    m: Result<Seq<ExprToken>, FoldError>,
) -> bool {
    match r {
        Ok(ts) => m is Ok && m->Ok_0 == ts@,
        Err(e) => m == Err::<Seq<ExprToken>, FoldError>(e),
    }
}

proof fn lemma_digit_end_advances(s: Seq<char>, i: int)
    requires
        0 <= i < s.len(),
        is_digit_char(s[i]),
    ensures
        spec_digit_end(s, i) > i,
        spec_digit_end(s, i) <= s.len(),
        forall|k: int| i <= k < spec_digit_end(s, i) ==> is_digit_char(s[k]),
{
    lemma_digit_end(s, i + 1);
    assert(spec_digit_end(s, i) == spec_digit_end(s, i + 1));
}

pub fn tokenize(v: &Vec<char>) -> (r: Result<Vec<ExprToken>, FoldError>)
    ensures
        tok_result_matches(r, spec_tokenize(v@)),
{
    let t = trim(v);
    let tlen: usize = t.len();
    let mut tokens: Vec<ExprToken> = Vec::new();
    let mut i: usize = 0;
    while i < tlen
        invariant
            0 <= i <= tlen,
            tlen == t@.len(),
            t@ == spec_trim(v@),
            spec_tok(t@, 0, Seq::empty()) == spec_tok(t@, i as int, tokens@),
        decreases tlen - i,
    {
        let ghost pre = tokens@;
        let c = t[i];
        if c == ' ' || c == '\t' {
            i = i + 1;
        } else if is_digit(c) {
            proof {
                lemma_digit_end_advances(t@, i as int);
            }
            let j = digit_end(&t, i);
            match parse_digits_bounded(&t, i, j, 0x7fff_ffff_ffff_ffffu64) {
                Some(val) => {
                    tokens.push(ExprToken::Number(val as i64));
                    i = j;
                },
                None => {
                    return Err(FoldError::InvalidNumber);
                },
            }
        } else if c == '+' {
            tokens.push(ExprToken::Plus);
            i = i + 1;
        } else if c == '-' {
            let neg = tokens.len() == 0 || match tokens[tokens.len() - 1] {
                ExprToken::Number(_) => false,
                ExprToken::RParen => false,
                _ => true,
            };
            assert(neg == allows_negative(tokens@));
            if neg {
                if i + 1 < tlen && is_digit(t[i + 1]) {
                    proof {
                        lemma_digit_end_advances(t@, i + 1);
                    }
                    let j = digit_end(&t, i + 1);
                    match parse_digits_bounded(&t, i + 1, j, 0x8000_0000_0000_0000u64) {
                        Some(val) => {
                            let n: i64 = if val == 0x8000_0000_0000_0000u64 {
                                i64::MIN
                            } else {
                                -(val as i64)
                            };
                            assert(n as int == -dec_value(t@, i + 1, j as int));
                            tokens.push(ExprToken::Number(n));
                            i = j;
                        },
                        None => {
                            return Err(FoldError::InvalidNumber);
                        },
                    }
                } else {
                    assert(spec_digit_end(t@, i + 1) == i + 1);
                    return Err(FoldError::InvalidNumber);
                }
            } else {
                tokens.push(ExprToken::Minus);
                i = i + 1;
            }
        } else if c == '*' {
            tokens.push(ExprToken::Multiply);
            i = i + 1;
        } else if c == '/' {
            tokens.push(ExprToken::Divide);
            i = i + 1;
        } else if c == '%' {
            tokens.push(ExprToken::Modulo);
            i = i + 1;
        } else if c == '&' {
            if i + 1 < tlen && t[i + 1] == '&' {
                tokens.push(ExprToken::And);
                i = i + 2;
            } else {
                tokens.push(ExprToken::BitAnd);
                i = i + 1;
            }
        } else if c == '|' {
            if i + 1 < tlen && t[i + 1] == '|' {
                tokens.push(ExprToken::Or);
                i = i + 2;
            } else {
                tokens.push(ExprToken::BitOr);
                i = i + 1;
            }
        } else if c == '^' {
            if i + 1 < tlen && t[i + 1] == '^' {
                tokens.push(ExprToken::Xor);
                i = i + 2;
            } else {
                tokens.push(ExprToken::BitXor);
                i = i + 1;
            }
        } else if c == '<' {
            if i + 1 < tlen && t[i + 1] == '<' {
                tokens.push(ExprToken::LeftShift);
                i = i + 2;
            } else {
                return Err(FoldError::UnsupportedComparison);
            }
        } else if c == '>' {
            if i + 1 < tlen && t[i + 1] == '>' {
                tokens.push(ExprToken::RightShift);
                i = i + 2;
            } else {
                return Err(FoldError::UnsupportedComparison);
            }
        } else if c == '(' {
            tokens.push(ExprToken::LParen);
            i = i + 1;
        } else if c == ')' {
            tokens.push(ExprToken::RParen);
            i = i + 1;
        } else {
            return Err(FoldError::UnexpectedCharacter);
        }
    }
    Ok(tokens)
}

// ---------------------------------------------------------------------------
// Precedence-climbing parser and evaluator
//
// The three spec functions below mirror the parser exactly; each returns the
// evaluated value together with the position just past what it consumed.
// The `np <= pos` branches are unreachable (the parser always advances, see
// `lemma_primary_advances` and friends) but make termination evident.

pub open spec fn spec_parse_primary(tokens: Seq<ExprToken>, pos: int) -> Result<
    (i64, int),
    FoldError,
>
    decreases tokens.len() - pos, 0int,
{
    if pos < 0 || pos >= tokens.len() {
        Err(FoldError::UnexpectedEnd)
    } else {
        match tokens[pos] {
            ExprToken::Number(n) => Ok((n, pos + 1)),
            ExprToken::LParen => match spec_parse_binary(tokens, pos + 1, 0u8) {
                Ok((v, np)) => if np >= tokens.len() || !(tokens[np] is RParen) {
                    Err(FoldError::MissingParen)
                } else {
                    Ok((v, np + 1))
                },
                Err(e) => Err(e),
            },
            ExprToken::Minus => match spec_parse_primary(tokens, pos + 1) {
                Ok((v, np)) => Ok((vstd::wrapping::i64_specs::wrapping_sub(0, v), np)),
                Err(e) => Err(e),
            },
            _ => Err(FoldError::UnexpectedToken),
        }
    }
}

pub open spec fn spec_binary_loop(
    tokens: Seq<ExprToken>,
    left: i64,
    pos: int,
    min_prec: u8,
) -> Result<(i64, int), FoldError>
    decreases tokens.len() - pos, 1int,
{
    if pos < 0 || pos >= tokens.len() {
        Ok((left, pos))
    } else {
        let op = tokens[pos];
        let prec = spec_precedence(op);
        if prec < min_prec {
            Ok((left, pos))
        } else if op is RParen {
            Ok((left, pos))
        } else {
            match spec_parse_binary(tokens, pos + 1, (prec + 1) as u8) {
                Ok((right, np)) => if np <= pos || np > tokens.len() {
                    Err(FoldError::UnexpectedToken)
                } else {
                    match spec_apply(left, op, right) {
                        Ok(newleft) => spec_binary_loop(tokens, newleft, np, min_prec),
                        Err(e) => Err(e),
                    }
                },
                Err(e) => Err(e),
            }
        }
    }
}

pub open spec fn spec_parse_binary(tokens: Seq<ExprToken>, pos: int, min_prec: u8) -> Result<
    (i64, int),
    FoldError,
>
    decreases tokens.len() - pos, 2int,
{
    match spec_parse_primary(tokens, pos) {
        Ok((left, np)) => if np <= pos || np > tokens.len() {
            Err(FoldError::UnexpectedToken)
        } else {
            spec_binary_loop(tokens, left, np, min_prec)
        },
        Err(e) => Err(e),
    }
}

/// A whole-expression parse starts at the lowest precedence.
pub open spec fn spec_parse_expression(tokens: Seq<ExprToken>, pos: int) -> Result<
    (i64, int),
    FoldError,
>  {
    spec_parse_binary(tokens, pos, 0u8)
}

proof fn lemma_primary_advances(tokens: Seq<ExprToken>, pos: int)
    ensures
        spec_parse_primary(tokens, pos) matches Ok((_, np)) ==> pos < np <= tokens.len(),
    decreases tokens.len() - pos, 0int,
{
    if 0 <= pos < tokens.len() {
        match tokens[pos] {
            ExprToken::LParen => lemma_binary_advances(tokens, pos + 1, 0u8),
            ExprToken::Minus => lemma_primary_advances(tokens, pos + 1),
            _ => (),
        }
    }
}

proof fn lemma_binary_loop_advances(tokens: Seq<ExprToken>, left: i64, pos: int, min_prec: u8)
    ensures
        spec_binary_loop(tokens, left, pos, min_prec) matches Ok((_, np)) ==> pos <= np
            <= tokens.len() || np == pos,
    decreases tokens.len() - pos, 1int,
{
    if 0 <= pos < tokens.len() {
        let op = tokens[pos];
        let prec = spec_precedence(op);
        if prec >= min_prec && !(op is RParen) {
            lemma_binary_advances(tokens, pos + 1, (prec + 1) as u8);
            match spec_parse_binary(tokens, pos + 1, (prec + 1) as u8) {
                Ok((right, np)) => if pos < np <= tokens.len() {
                    match spec_apply(left, op, right) {
                        Ok(newleft) => lemma_binary_loop_advances(tokens, newleft, np, min_prec),
                        Err(_) => (),
                    }
                },
                Err(_) => (),
            }
        }
    }
}

proof fn lemma_binary_advances(tokens: Seq<ExprToken>, pos: int, min_prec: u8)
    ensures
        spec_parse_binary(tokens, pos, min_prec) matches Ok((_, np)) ==> pos < np <= tokens.len(),
    decreases tokens.len() - pos, 2int,
{
    lemma_primary_advances(tokens, pos);
    match spec_parse_primary(tokens, pos) {
        Ok((left, np)) => if pos < np <= tokens.len() {
            lemma_binary_loop_advances(tokens, left, np, min_prec);
        },
        Err(_) => (),
    }
}

pub open spec fn parse_res_matches(
    r: Result<(i64, usize), FoldError>,
    m: Result<(i64, int), FoldError>,
) -> bool {
    match r {
        Ok((v, np)) => m == Ok::<(i64, int), FoldError>((v, np as int)),
        Err(e) => m == Err::<(i64, int), FoldError>(e),
    }
}

pub fn parse_primary(tokens: &Vec<ExprToken>, pos: usize) -> (r: Result<(i64, usize), FoldError>)
    ensures
        parse_res_matches(r, spec_parse_primary(tokens@, pos as int)),
        r matches Ok((_, np)) ==> pos < np <= tokens@.len(),
    decreases tokens@.len() - pos, 0int,
{
    if pos >= tokens.len() {
        return Err(FoldError::UnexpectedEnd);
    }
    match tokens[pos] {
        ExprToken::Number(n) => Ok((n, pos + 1)),
        ExprToken::LParen => {
            match parse_binary_expression(tokens, pos + 1, 0u8) {
                Ok((v, np)) => {
                    if np >= tokens.len() {
                        Err(FoldError::MissingParen)
                    } else {
                        match tokens[np] {
                            ExprToken::RParen => Ok((v, np + 1)),
                            _ => Err(FoldError::MissingParen),
                        }
                    }
                },
                Err(e) => Err(e),
            }
        },
        ExprToken::Minus => {
            match parse_primary(tokens, pos + 1) {
                Ok((v, np)) => Ok((0i64.wrapping_sub(v), np)),
                Err(e) => Err(e),
            }
        },
        _ => Err(FoldError::UnexpectedToken),
    }
}

pub fn parse_binary_expression(tokens: &Vec<ExprToken>, pos: usize, min_prec: u8) -> (r: Result<
    (i64, usize),
    FoldError,
>)
    ensures
        parse_res_matches(r, spec_parse_binary(tokens@, pos as int, min_prec)),
        r matches Ok((_, np)) ==> pos < np <= tokens@.len(),
    decreases tokens@.len() - pos, 2int,
{
    let tlen: usize = tokens.len();
    let (mut left, mut cur) = match parse_primary(tokens, pos) {
        Ok(x) => x,
        Err(e) => {
            return Err(e);
        },
    };
    while cur < tlen
        invariant
            tlen == tokens@.len(),
            pos < cur <= tlen,
            spec_parse_binary(tokens@, pos as int, min_prec) == spec_binary_loop(
                tokens@,
                left,
                cur as int,
                min_prec,
            ),
        ensures
            pos < cur <= tlen,
            spec_parse_binary(tokens@, pos as int, min_prec) == Ok::<(i64, int), FoldError>(
                (left, cur as int),
            ),
        decreases tlen - cur,
    {
        let op = tokens[cur];
        let prec = precedence(&op);
        assert(prec <= 11);
        if prec < min_prec {
            break ;
        }
        if let ExprToken::RParen = op {
            break ;
        }
        let (right, np) = match parse_binary_expression(tokens, cur + 1, prec + 1) {
            Ok(x) => x,
            Err(e) => {
                return Err(e);
            },
        };
        left = match apply_operator(left, op, right) {
            Ok(v) => v,
            Err(e) => {
                return Err(e);
            },
        };
        cur = np;
    }
    Ok((left, cur))
}

pub fn parse_expression(tokens: &Vec<ExprToken>, pos: usize) -> (r: Result<(i64, usize), FoldError>)
    ensures
        parse_res_matches(r, spec_parse_expression(tokens@, pos as int)),
{
    parse_binary_expression(tokens, pos, 0u8)
}

/// The constant-expression check: non-empty, and every token drawn from
/// the recognized set — which is every `ExprToken` variant, so only
/// emptiness can fail.
pub fn is_constant_expression(tokens: &Vec<ExprToken>) -> (r: bool)
    ensures
        r == (tokens@.len() != 0),
{
    tokens.len() != 0
}

/// Value of one candidate span: tokenize, check, parse; the position the
/// parse stopped at is ignored.
pub open spec fn spec_evaluate(s: Seq<char>) -> Result<i64, FoldError> {
    match spec_tokenize(s) {
        Ok(tokens) => if tokens.len() == 0 {
            Err(FoldError::NotConstant)
        } else {
            match spec_parse_expression(tokens, 0) {
                Ok((v, _)) => Ok(v),
                Err(e) => Err(e),
            }
        },
        Err(e) => Err(e),
    }
}

pub fn evaluate_expression(v: &Vec<char>) -> (r: Result<i64, FoldError>)
    ensures
        r == spec_evaluate(v@),
{
    let tokens = match tokenize(v) {
        Ok(ts) => ts,
        Err(e) => {
            return Err(e);
        },
    };
    if !is_constant_expression(&tokens) {
        return Err(FoldError::NotConstant);
    }
    match parse_expression(&tokens, 0) {
        Ok((val, _)) => Ok(val),
        Err(e) => Err(e),
    }
}

// ---------------------------------------------------------------------------
// Foldable-span search

/// Span scan state machine: from position `i` with the given parenthesis
/// depth and flags, the final `(position, depth, has_operator,
/// last_was_number)` when a stop character or the end is reached.
pub open spec fn spec_scan(s: Seq<char>, i: int, depth: int, has_op: bool, last_num: bool) -> (
    int,
    int,
    bool,
    bool,
)
    decreases s.len() - i,
{
    if i < 0 || i >= s.len() {
        (i, depth, has_op, last_num)
    } else {
        let c = s[i];
        if is_digit_char(c) {
            spec_scan(s, i + 1, depth, has_op, true)
        } else if c == '+' || c == '*' || c == '/' || c == '%' || c == '&' || c == '|' || c == '^'
            || c == '-' {
            spec_scan(s, i + 1, depth, true, false)
        } else if c == '<' || c == '>' {
            if i + 1 < s.len() && s[i + 1] == c {
                spec_scan(s, i + 2, depth, true, false)
            } else {
                (i, depth, has_op, last_num)
            }
        } else if c == '(' {
            spec_scan(s, i + 1, depth + 1, has_op, false)
        } else if c == ')' {
            if depth > 0 {
                spec_scan(s, i + 1, depth - 1, has_op, true)
            } else {
                (i, depth, has_op, last_num)
            }
        } else if c == ' ' || c == '\t' {
            spec_scan(s, i + 1, depth, has_op, last_num)
        } else {
            (i, depth, has_op, last_num)
        }
    }
}

proof fn lemma_scan_bounds(s: Seq<char>, i: int, depth: int, has_op: bool, last_num: bool)
    requires
        0 <= i <= s.len(),
    ensures
        i <= spec_scan(s, i, depth, has_op, last_num).0 <= s.len(),
    decreases s.len() - i,
{
    if 0 <= i < s.len() {
        let c = s[i];
        if is_digit_char(c) {
            lemma_scan_bounds(s, i + 1, depth, has_op, true);
        } else if c == '+' || c == '*' || c == '/' || c == '%' || c == '&' || c == '|' || c == '^'
            || c == '-' {
            lemma_scan_bounds(s, i + 1, depth, true, false);
        } else if c == '<' || c == '>' {
            if i + 1 < s.len() && s[i + 1] == c {
                lemma_scan_bounds(s, i + 2, depth, true, false);
            }
        } else if c == '(' {
            lemma_scan_bounds(s, i + 1, depth + 1, has_op, false);
        } else if c == ')' {
            if depth > 0 {
                lemma_scan_bounds(s, i + 1, depth - 1, has_op, true);
            }
        } else if c == ' ' || c == '\t' {
            lemma_scan_bounds(s, i + 1, depth, has_op, last_num);
        }
    }
}

/// The maximal foldable span starting at or just after `start`: whitespace
/// is skipped, the span must open with a digit, `(` or `-`, must contain an
/// operator, and must stop either after a numeric value or at parenthesis
/// depth zero.
pub open spec fn spec_find_foldable(s: Seq<char>, start: int) -> Option<(int, int)> {
    if start < 0 || start >= s.len() {
        None
    } else {
        let a = spec_skip_ws(s, start);
        if a >= s.len() {
            None
        } else if !(is_digit_char(s[a]) || s[a] == '(' || s[a] == '-') {
            None
        } else {
            let st = spec_scan(s, a, 0, false, false);
            if st.2 && (st.3 || st.1 == 0) && st.0 > a {
                Some((a, st.0))
            } else {
                None
            }
        }
    }
}

pub fn find_foldable_expression(v: &Vec<char>, start: usize) -> (r: Option<(usize, usize)>)
    requires
        start <= v@.len(),
    ensures
        match r {
            Some((a, b)) => spec_find_foldable(v@, start as int) == Some((a as int, b as int))
                && start <= a < b <= v@.len(),
            None => spec_find_foldable(v@, start as int) is None,
        },
{
    let vlen: usize = v.len();
    if start >= vlen {
        return None;
    }
    let a = skip_whitespace(v, start);
    if a >= vlen {
        return None;
    }
    let c0 = v[a];
    if !(is_digit(c0) || c0 == '(' || c0 == '-') {
        return None;
    }
    let mut i: usize = a;
    let mut depth: usize = 0;
    let mut has_op: bool = false;
    let mut last_num: bool = false;
    while i < vlen
        invariant
            a <= i <= vlen,
            depth <= i - a,
            vlen == v@.len(),
            spec_scan(v@, a as int, 0, false, false) == spec_scan(
                v@,
                i as int,
                depth as int,
                has_op,
                last_num,
            ),
        ensures
            a <= i <= vlen,
            spec_scan(v@, a as int, 0, false, false) == (i as int, depth as int, has_op, last_num),
        decreases vlen - i,
    {
        let c = v[i];
        if is_digit(c) {
            last_num = true;
            i = i + 1;
        } else if c == '+' || c == '*' || c == '/' || c == '%' || c == '&' || c == '|' || c == '^'
            || c == '-' {
            has_op = true;
            last_num = false;
            i = i + 1;
        } else if c == '<' || c == '>' {
            if i + 1 < vlen && v[i + 1] == c {
                has_op = true;
                last_num = false;
                i = i + 2;
            } else {
                break ;
            }
        } else if c == '(' {
            depth = depth + 1;
            last_num = false;
            i = i + 1;
        } else if c == ')' {
            if depth > 0 {
                depth = depth - 1;
                last_num = true;
                i = i + 1;
            } else {
                break ;
            }
        } else if c == ' ' || c == '\t' {
            i = i + 1;
        } else {
            break ;
        }
    }
    if has_op && (last_num || depth == 0) && i > a {
        Some((a, i))
    } else {
        None
    }
}

// ---------------------------------------------------------------------------
// The folding pass

/// The folded text from position `i` on: each foldable span that evaluates
/// is replaced by its decimal value; spans that fail to evaluate, and text
/// between spans, are emitted unchanged.
pub open spec fn spec_fold_from(s: Seq<char>, i: int) -> Seq<char>
    decreases s.len() - i,
{
    if i < 0 || i >= s.len() {
        Seq::empty()
    } else {
        match spec_find_foldable(s, i) {
            Some((a, b)) => if i <= a && a < b && b <= s.len() {
                let folded = match spec_evaluate(s.subrange(a, b)) {
                    Ok(val) => spec_i64_string(val as int),
                    Err(_) => s.subrange(a, b),
                };
                s.subrange(i, a) + folded + spec_fold_from(s, b)
            } else {
                seq![s[i]] + spec_fold_from(s, i + 1)
            },
            None => seq![s[i]] + spec_fold_from(s, i + 1),
        }
    }
}

/// The whole text, constant-folded.
pub open spec fn spec_constant_fold(s: Seq<char>) -> Seq<char> {
    spec_fold_from(s, 0)
}

/// Fold every foldable constant expression in `code`.  The pass never
/// fails: spans that cannot be evaluated are left verbatim.
pub fn constant_fold(code: &str) -> (r: Result<String, FoldError>)
    ensures
        r matches Ok(out) && out@ == spec_constant_fold(code@),
{
    let v = str_chars(code);
    let vlen: usize = v.len();
    let mut out: Vec<char> = Vec::new();
    let mut i: usize = 0;
    while i < vlen
        invariant
            0 <= i <= vlen,
            vlen == v@.len(),
            v@ == code@,
            spec_fold_from(v@, 0) == out@ + spec_fold_from(v@, i as int),
        decreases vlen - i,
    {
        let ghost out0 = out@;
        match find_foldable_expression(&v, i) {
            Some((a, b)) => {
                let mut prefix = copy_range(&v, i, a);
                out.append(&mut prefix);
                let expr = copy_range(&v, a, b);
                match evaluate_expression(&expr) {
                    Ok(val) => {
                        let mut lit = i64_chars(val);
                        out.append(&mut lit);
                    },
                    Err(_) => {
                        let mut verbatim = copy_range(&v, a, b);
                        out.append(&mut verbatim);
                    },
                }
                proof {
                    let folded = match spec_evaluate(v@.subrange(a as int, b as int)) {
                        Ok(val) => spec_i64_string(val as int),
                        Err(_) => v@.subrange(a as int, b as int),
                    };
                    assert(out@ =~= out0 + (v@.subrange(i as int, a as int) + folded));
                    assert(spec_fold_from(v@, i as int) == v@.subrange(i as int, a as int) + folded
                        + spec_fold_from(v@, b as int));
                    assert(out0 + spec_fold_from(v@, i as int) =~= out@ + spec_fold_from(
                        v@,
                        b as int,
                    ));
                }
                i = b;
            },
            None => {
                out.push(v[i]);
                proof {
                    assert(out@ =~= out0 + seq![v@[i as int]]);
                    assert(out0 + spec_fold_from(v@, i as int) =~= out@ + spec_fold_from(
                        v@,
                        i + 1,
                    ));
                }
                i = i + 1;
            },
        }
    }
    Ok(chars_string(&out))
}

/// The optimizer pass: currently constant folding alone.
pub fn optimize(code: &str) -> (r: Result<String, FoldError>)
    ensures
        r matches Ok(out) && out@ == spec_constant_fold(code@),
{
    constant_fold(code)
}

} // verus!
