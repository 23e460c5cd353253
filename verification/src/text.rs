//! Character classification and small text primitives shared by the three
//! preprocessor passes.
//!
//! The passes work on `Vec<char>` so that every position is one Unicode
//! scalar value; the public entry points convert from and to `String`.

use vstd::prelude::*;

verus! {

// ---------------------------------------------------------------------------
// Character classes
//
// The scanners accept ASCII characters by explicit ranges, which the
// specifications below spell out.  For characters outside ASCII the classes
// defer to the standard library's Unicode tables, named by the three
// uninterpreted functions.

pub uninterp spec fn unicode_space(c: char) -> bool;

pub uninterp spec fn unicode_alpha(c: char) -> bool;

pub uninterp spec fn unicode_alnum(c: char) -> bool;

/// Whitespace: the six ASCII whitespace characters, or, beyond ASCII,
/// whatever the standard library's `char::is_whitespace` accepts.
pub open spec fn is_space_char(c: char) -> bool {
    if (c as u32) < 128 {
        c == ' ' || c == '\t' || c == '\n' || c == '\r' || c == '\u{b}' || c == '\u{c}'
    } else {
        unicode_space(c)
    }
}

/// Alphabetic: ASCII letters, or, beyond ASCII, whatever the standard
/// library's `char::is_alphabetic` accepts.
pub open spec fn is_alpha_char(c: char) -> bool {
    if (c as u32) < 128 {
        ('a' <= c && c <= 'z') || ('A' <= c && c <= 'Z')
    } else {
        unicode_alpha(c)
    }
}

/// Alphanumeric: ASCII letters and digits, or, beyond ASCII, whatever the
/// standard library's `char::is_alphanumeric` accepts.
pub open spec fn is_alnum_char(c: char) -> bool {
    if (c as u32) < 128 {
        ('a' <= c && c <= 'z') || ('A' <= c && c <= 'Z') || ('0' <= c && c <= '9')
    } else {
        unicode_alnum(c)
    }
}

/// A character that may continue an identifier: alphanumeric or underscore.
pub open spec fn is_word_char(c: char) -> bool {
    is_alnum_char(c) || c == '_'
}

/// An ASCII decimal digit.
pub open spec fn is_digit_char(c: char) -> bool {
    '0' <= c && c <= '9'
}

/// Relies on `char::is_whitespace` for characters outside ASCII.
#[verifier::external_body]
fn wide_is_space(c: char) -> (r: bool)
    ensures
        r == unicode_space(c),
{
    c.is_whitespace()
}

/// Relies on `char::is_alphabetic` for characters outside ASCII.
#[verifier::external_body]
fn wide_is_alpha(c: char) -> (r: bool)
    ensures
        r == unicode_alpha(c),
{
    c.is_alphabetic()
}

/// Relies on `char::is_alphanumeric` for characters outside ASCII.
#[verifier::external_body]
fn wide_is_alnum(c: char) -> (r: bool)
    ensures
        r == unicode_alnum(c),
{
    c.is_alphanumeric()
}

pub fn is_space(c: char) -> (r: bool)
    ensures
        r == is_space_char(c),
{
    if (c as u32) < 128 {
        c == ' ' || c == '\t' || c == '\n' || c == '\r' || c == '\u{b}' || c == '\u{c}'
    } else {
        wide_is_space(c)
    }
}

pub fn is_alpha(c: char) -> (r: bool)
    ensures
        r == is_alpha_char(c),
{
    if (c as u32) < 128 {
        ('a' <= c && c <= 'z') || ('A' <= c && c <= 'Z')
    } else {
        wide_is_alpha(c)
    }
}

pub fn is_alnum(c: char) -> (r: bool)
    ensures
        r == is_alnum_char(c),
{
    if (c as u32) < 128 {
        ('a' <= c && c <= 'z') || ('A' <= c && c <= 'Z') || ('0' <= c && c <= '9')
    } else {
        wide_is_alnum(c)
    }
}

pub fn is_word(c: char) -> (r: bool)
    ensures
        r == is_word_char(c),
{
    is_alnum(c) || c == '_'
}

pub fn is_digit(c: char) -> (r: bool)
    ensures
        r == is_digit_char(c),
{
    '0' <= c && c <= '9'
}

// ---------------------------------------------------------------------------
// Conversions between `String` and `Vec<char>`

/// Relies on `str::chars` and collecting into a `Vec`: the vector holds
/// exactly the string's characters in order, which is the string's view.
#[verifier::external_body]
pub fn str_chars(s: &str) -> (r: Vec<char>)
    ensures
        r@ == s@,
{
    s.chars().collect()
}

/// Relies on collecting characters into a `String`: the string's view is
/// exactly the sequence of collected characters.
#[verifier::external_body]
pub fn chars_string(v: &Vec<char>) -> (r: String)
    ensures
        r@ == v@,
{
    v.iter().collect()
}

// ---------------------------------------------------------------------------
// Scanning primitives over character sequences

/// First position at or after `i` whose character is not whitespace.
pub open spec fn spec_skip_ws(s: Seq<char>, i: int) -> int
    decreases s.len() - i,
{
    if 0 <= i < s.len() && is_space_char(s[i]) {
        spec_skip_ws(s, i + 1)
    } else {
        i
    }
}

pub proof fn lemma_skip_ws(s: Seq<char>, i: int)
    requires
        0 <= i <= s.len(),
    ensures
        i <= spec_skip_ws(s, i) <= s.len(),
        spec_skip_ws(s, i) < s.len() ==> !is_space_char(s[spec_skip_ws(s, i)]),
        forall|k: int| i <= k < spec_skip_ws(s, i) ==> is_space_char(s[k]),
    decreases s.len() - i,
{
    if 0 <= i < s.len() && is_space_char(s[i]) {
        lemma_skip_ws(s, i + 1);
    }
}

pub fn skip_whitespace(v: &Vec<char>, i: usize) -> (r: usize)
    requires
        i <= v@.len(),
    ensures
        r == spec_skip_ws(v@, i as int),
        i <= r <= v@.len(),
{
    let mut j: usize = i;
    while j < v.len() && is_space(v[j])
        invariant
            i <= j <= v@.len(),
            spec_skip_ws(v@, i as int) == spec_skip_ws(v@, j as int),
        decreases v@.len() - j,
    {
        j = j + 1;
    }
    j
}

/// First position at or after `i` whose character cannot continue an
/// identifier (alphanumeric or underscore).
pub open spec fn spec_word_end(s: Seq<char>, i: int) -> int
    decreases s.len() - i,
{
    if 0 <= i < s.len() && is_word_char(s[i]) {
        spec_word_end(s, i + 1)
    } else {
        i
    }
}

pub fn word_end(v: &Vec<char>, i: usize) -> (r: usize)
    requires
        i <= v@.len(),
    ensures
        r == spec_word_end(v@, i as int),
        i <= r <= v@.len(),
{
    let mut j: usize = i;
    while j < v.len() && is_word(v[j])
        invariant
            i <= j <= v@.len(),
            spec_word_end(v@, i as int) == spec_word_end(v@, j as int),
        decreases v@.len() - j,
    {
        j = j + 1;
    }
    j
}

/// First position at or after `i` whose character is not an ASCII digit.
pub open spec fn spec_digit_end(s: Seq<char>, i: int) -> int
    decreases s.len() - i,
{
    if 0 <= i < s.len() && is_digit_char(s[i]) {
        spec_digit_end(s, i + 1)
    } else {
        i
    }
}

pub proof fn lemma_digit_end(s: Seq<char>, i: int)
    requires
        0 <= i <= s.len(),
    ensures
        i <= spec_digit_end(s, i) <= s.len(),
        spec_digit_end(s, i) < s.len() ==> !is_digit_char(s[spec_digit_end(s, i)]),
        forall|k: int| i <= k < spec_digit_end(s, i) ==> is_digit_char(s[k]),
    decreases s.len() - i,
{
    if 0 <= i < s.len() && is_digit_char(s[i]) {
        lemma_digit_end(s, i + 1);
    }
}

pub fn digit_end(v: &Vec<char>, i: usize) -> (r: usize)
    requires
        i <= v@.len(),
    ensures
        r == spec_digit_end(v@, i as int),
        i <= r <= v@.len(),
{
    let mut j: usize = i;
    while j < v.len() && is_digit(v[j])
        invariant
            i <= j <= v@.len(),
            spec_digit_end(v@, i as int) == spec_digit_end(v@, j as int),
        decreases v@.len() - j,
    {
        j = j + 1;
    }
    j
}

/// Last position at or before `j` such that every character from there up to
/// `j` is whitespace; used to trim from the right.
pub open spec fn spec_rskip_ws(s: Seq<char>, j: int) -> int
    decreases j,
{
    if 0 < j <= s.len() && is_space_char(s[j - 1]) {
        spec_rskip_ws(s, j - 1)
    } else {
        j
    }
}

pub proof fn lemma_rskip_ws(s: Seq<char>, j: int)
    requires
        0 <= j <= s.len(),
    ensures
        0 <= spec_rskip_ws(s, j) <= j,
        spec_rskip_ws(s, j) > 0 ==> !is_space_char(s[spec_rskip_ws(s, j) - 1]),
        forall|k: int| spec_rskip_ws(s, j) <= k < j ==> is_space_char(s[k]),
    decreases j,
{
    if 0 < j <= s.len() && is_space_char(s[j - 1]) {
        lemma_rskip_ws(s, j - 1);
    }
}

/// The sequence with leading and trailing whitespace removed.
pub open spec fn spec_trim(s: Seq<char>) -> Seq<char> {
    let a = spec_skip_ws(s, 0);
    if a == s.len() {
        Seq::empty()
    } else {
        s.subrange(a, spec_rskip_ws(s, s.len() as int))
    }
}

pub proof fn lemma_trim_bounds(s: Seq<char>)
    ensures
        spec_skip_ws(s, 0) < s.len() ==> spec_skip_ws(s, 0) < spec_rskip_ws(
            s,
            s.len() as int,
        ) <= s.len(),
{
    lemma_skip_ws(s, 0);
    lemma_rskip_ws(s, s.len() as int);
    let a = spec_skip_ws(s, 0);
    let b = spec_rskip_ws(s, s.len() as int);
    if a < s.len() && b <= a {
        assert(is_space_char(s[a]));  // from the right-trim lemma, since b <= a < len
        assert(!is_space_char(s[a]));
    }
}

/// Copy of `v[lo..hi]` as a fresh vector.
pub fn copy_range(v: &Vec<char>, lo: usize, hi: usize) -> (r: Vec<char>)
    requires
        lo <= hi <= v@.len(),
    ensures
        r@ == v@.subrange(lo as int, hi as int),
{
    let mut r: Vec<char> = Vec::new();
    let mut k: usize = lo;
    while k < hi
        invariant
            lo <= k <= hi <= v@.len(),
            r@ == v@.subrange(lo as int, k as int),
        decreases hi - k,
    {
        r.push(v[k]);
        assert(r@ == v@.subrange(lo as int, k + 1 as int));
        k = k + 1;
    }
    r
}

/// Trimmed copy of a vector of characters.
pub fn trim(v: &Vec<char>) -> (r: Vec<char>)
    ensures
        r@ == spec_trim(v@),
{
    proof {
        lemma_trim_bounds(v@);
    }
    let a = skip_whitespace(v, 0);
    if a == v.len() {
        let r: Vec<char> = Vec::new();
        r
    } else {
        let mut b: usize = v.len();
        while b > 0 && is_space(v[b - 1])
            invariant
                0 <= b <= v@.len(),
                spec_rskip_ws(v@, v@.len() as int) == spec_rskip_ws(v@, b as int),
            decreases b,
        {
            b = b - 1;
        }
        assert(b == spec_rskip_ws(v@, v@.len() as int));
        copy_range(v, a, b)
    }
}

/// True when `pat` occurs in `s` starting at position `i`.
pub open spec fn matches_at(s: Seq<char>, i: int, pat: Seq<char>) -> bool {
    0 <= i && i + pat.len() <= s.len() && s.subrange(i, i + pat.len()) == pat
}

/// Whether the characters of `pat` occur in `v` starting at position `i`.
pub fn check_match_at(v: &Vec<char>, i: usize, pat: &Vec<char>) -> (r: bool)
    requires
        i <= v@.len(),
    ensures
        r == matches_at(v@, i as int, pat@),
{
    let vlen: usize = v.len();
    let plen: usize = pat.len();
    if plen > vlen - i {
        assert(!matches_at(v@, i as int, pat@));
        return false;
    }
    let mut k: usize = 0;
    while k < plen
        invariant
            0 <= k <= plen,
            plen == pat@.len(),
            vlen == v@.len(),
            i + plen <= vlen,
            forall|m: int| 0 <= m < k ==> v@[i + m] == pat@[m],
        decreases plen - k,
    {
        let idx: usize = i + k;
        if v[idx] != pat[k] {
            assert(v@.subrange(i as int, i + pat@.len())[k as int] != pat@[k as int]);
            return false;
        }
        k = k + 1;
    }
    assert(v@.subrange(i as int, i + pat@.len()) =~= pat@);
    true
}

} // verus!
