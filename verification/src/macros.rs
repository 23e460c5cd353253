//! Textual macro engine.
//!
//! A definition has the shape `define! name(p1, p2) { body }`; an invocation
//! has the shape `name(a1, a2)! { body }` or `name! { body }`.  Definitions
//! are removed from the text and collected; invocations are replaced by the
//! definition's body with each parameter name substituted textually by the
//! bound argument and the placeholder `%0` substituted by the invocation's
//! brace-delimited body.  Substituted results are re-expanded, so a macro
//! may expand into further macro calls; an explicit depth ceiling turns the
//! otherwise unbounded recursion into an error.

use vstd::prelude::*;
use crate::text::{
    is_alpha_char, is_word_char, spec_skip_ws, spec_word_end, spec_trim,
    is_alpha, is_word,
    skip_whitespace, word_end, trim, copy_range, matches_at, check_match_at, str_chars,
    chars_string,
};

verus! {

/// How far macro expansion may recurse through substituted bodies before
/// the pass gives up.  A macro that keeps expanding into further macro
/// calls past this depth is reported as an error rather than looping.
pub const MACRO_EXPANSION_DEPTH: u64 = 64;

// ---------------------------------------------------------------------------
// Errors

/// Spec-level image of a macro error; names are character sequences.
pub enum MacroErrorV {
    MissingName,
    ExpectedDefinitionBody(Seq<char>),
    UnexpectedParameterCharacter(char),
    DuplicateParameter(Seq<char>),
    UnexpectedEndOfParameters,
    UnmatchedBraces,
    UnmatchedParentheses,
    ExpectedCallBody(Seq<char>),
    UndefinedMacro(Seq<char>),
    MissingArguments(Seq<char>, int),
    WrongArgumentCount(Seq<char>, int, int),
    ExpansionDepthExceeded,
}

/// A failure of the macro pass.  Unlike the fold pass these are fatal: the
/// first error aborts the whole pass.
#[derive(Debug, Clone, PartialEq, Eq)]
pub enum MacroError {
    /// `define!` not followed by an identifier.
    MissingName,
    /// No `{` after the named definition's header.
    ExpectedDefinitionBody(String),
    /// A character in a parameter list that is not an identifier character,
    /// a comma or a closing parenthesis.
    UnexpectedParameterCharacter(char),
    /// A parameter name declared twice in one list.
    DuplicateParameter(String),
    /// The text ended inside a parameter list.
    UnexpectedEndOfParameters,
    /// The text ended before a brace-delimited body was closed.
    UnmatchedBraces,
    /// The text ended before a parenthesized argument list was closed.
    UnmatchedParentheses,
    /// No `{` after `name!` in a macro call.
    ExpectedCallBody(String),
    /// A call to a name that no definition introduced.
    UndefinedMacro(String),
    /// A macro with parameters was invoked without an argument list.
    MissingArguments(String, usize),
    /// A macro was invoked with the wrong number of arguments:
    /// name, expected count, provided count.
    WrongArgumentCount(String, usize, usize),
    /// Substituted bodies kept containing macro calls past the expansion
    /// depth ceiling.
    ExpansionDepthExceeded,
}

impl View for MacroError {
    type V = MacroErrorV;

    open spec fn view(&self) -> MacroErrorV {
        match self {
            MacroError::MissingName => MacroErrorV::MissingName,
            MacroError::ExpectedDefinitionBody(n) => MacroErrorV::ExpectedDefinitionBody(n@),
            MacroError::UnexpectedParameterCharacter(c) => MacroErrorV::UnexpectedParameterCharacter(
                *c,
            ),
            MacroError::DuplicateParameter(n) => MacroErrorV::DuplicateParameter(n@),
            MacroError::UnexpectedEndOfParameters => MacroErrorV::UnexpectedEndOfParameters,
            MacroError::UnmatchedBraces => MacroErrorV::UnmatchedBraces,
            MacroError::UnmatchedParentheses => MacroErrorV::UnmatchedParentheses,
            MacroError::ExpectedCallBody(n) => MacroErrorV::ExpectedCallBody(n@),
            MacroError::UndefinedMacro(n) => MacroErrorV::UndefinedMacro(n@),
            MacroError::MissingArguments(n, k) => MacroErrorV::MissingArguments(n@, *k as int),
            MacroError::WrongArgumentCount(n, k, m) => MacroErrorV::WrongArgumentCount(
                n@,
                *k as int,
                *m as int,
            ),
            MacroError::ExpansionDepthExceeded => MacroErrorV::ExpansionDepthExceeded,
        }
    }
}

// ---------------------------------------------------------------------------
// Definitions and the definition table

/// Spec-level image of a macro definition.
pub struct MacroDefView {
    pub name: Seq<char>,
    pub params: Seq<Seq<char>>,
    pub body: Seq<char>,
}

/// One macro definition: its name, its parameter names in declaration
/// order, and its raw body template.
#[derive(Debug)]
pub struct MacroDefinition {
    pub name: String,
    pub params: Vec<String>,
    pub body: String,
}

impl View for MacroDefinition {
    type V = MacroDefView;

    open spec fn view(&self) -> MacroDefView {
        MacroDefView {
            name: self.name@,
            params: self.params@.map_values(|p: String| p@),
            body: self.body@,
        }
    }
}

impl Clone for MacroDefinition {
    fn clone(&self) -> (r: Self)
        ensures
            r@ == self@,
    {
        let mut params: Vec<String> = Vec::new();
        let mut k: usize = 0;
        while k < self.params.len()
            invariant
                0 <= k <= self.params@.len(),
                params@.len() == k,
                forall|j: int| 0 <= j < k ==> params@[j]@ == self.params@[j]@,
            decreases self.params@.len() - k,
        {
            params.push(self.params[k].clone());
            k = k + 1;
        }
        let r = MacroDefinition { name: self.name.clone(), params, body: self.body.clone() };
        proof {
            assert(r@.params =~~= self@.params);
        }
        r
    }
}

/// The table of macro definitions collected by one extraction pass.  A
/// later definition of the same name shadows an earlier one.
#[derive(Debug)]
pub struct MacroTable {
    defs: Vec<MacroDefinition>,
}

impl View for MacroTable {
    type V = Seq<MacroDefView>;

    closed spec fn view(&self) -> Seq<MacroDefView> {
        self.defs@.map_values(|d: MacroDefinition| d@)
    }
}

/// The definition bound to `name`: the latest one, or `None`.
pub open spec fn spec_lookup(defs: Seq<MacroDefView>, name: Seq<char>) -> Option<MacroDefView>
    decreases defs.len(),
{
    if defs.len() == 0 {
        None
    } else if defs.last().name == name {
        Some(defs.last())
    } else {
        spec_lookup(defs.drop_last(), name)
    }
}

impl MacroTable {
    pub fn new() -> (r: Self)
        ensures
            r@ == Seq::<MacroDefView>::empty(),
    {
        let r = MacroTable { defs: Vec::new() };
        proof {
            assert(r@ =~= Seq::<MacroDefView>::empty());
        }
        r
    }

    pub fn insert(&mut self, def: MacroDefinition)
        ensures
            final(self)@ == old(self)@.push(def@),
    {
        self.defs.push(def);
        proof {
            assert(self@ =~= old(self)@.push(self.defs@.last()@));
        }
    }

    pub fn len(&self) -> (r: usize)
        ensures
            r == self@.len(),
    {
        self.defs.len()
    }

    /// Index of the latest definition named by `name`, scanning from the
    /// end so that later definitions win.
    fn lookup_index(&self, name: &Vec<char>) -> (r: Option<usize>)
        ensures
            match r {
                Some(k) => k < self@.len() && spec_lookup(self@, name@) == Some(self@[k as int]),
                None => spec_lookup(self@, name@) is None,
            },
    {
        let n = self.defs.len();
        let mut k: usize = n;
        proof {
            assert(self@.subrange(0, n as int) =~= self@);
        }
        while k > 0
            invariant
                0 <= k <= n,
                n == self@.len(),
                spec_lookup(self@, name@) == spec_lookup(self@.subrange(0, k as int), name@),
            decreases k,
        {
            let cand = str_chars(self.defs[k - 1].name.as_str());
            let hit = crate::text::check_match_at(&cand, 0, name) && cand.len() == name.len();
            assert(hit == (cand@ == name@)) by {
                if cand@.len() == name@.len() {
                    assert(cand@.subrange(0, name@.len() as int) =~= cand@);
                }
            }
            if hit {
                proof {
                    let pre = self@.subrange(0, k as int);
                    assert(pre.last() == self@[k - 1]);
                    assert(self@[k - 1].name == name@);
                }
                return Some(k - 1);
            }
            proof {
                let pre = self@.subrange(0, k as int);
                assert(pre.last().name != name@);
                assert(pre.drop_last() =~= self@.subrange(0, k - 1 as int));
            }
            k = k - 1;
        }
        proof {
            assert(self@.subrange(0, 0) =~= Seq::<MacroDefView>::empty());
        }
        None
    }

    /// The latest definition named by `name`, if any.
    pub fn lookup(&self, name: &Vec<char>) -> (r: Option<&MacroDefinition>)
        ensures
            match r {
                Some(d) => spec_lookup(self@, name@) == Some(d@),
                None => spec_lookup(self@, name@) is None,
            },
    {
        match self.lookup_index(name) {
            Some(k) => Some(&self.defs[k]),
            None => None,
        }
    }
}

// ---------------------------------------------------------------------------
// Textual replacement
//
// `spec_replace` is `str::replace`: every non-overlapping occurrence of the
// pattern, found left to right, is replaced.  An empty pattern matches at
// every character boundary, including both ends.

pub open spec fn spec_interleave(s: Seq<char>, to: Seq<char>) -> Seq<char>
    decreases s.len(),
{
    if s.len() == 0 {
        to
    } else {
        to + seq![s[0]] + spec_interleave(s.skip(1), to)
    }
}

/// `spec_interleave` without its leading copy of `to`.
pub open spec fn spec_interleave_tail(s: Seq<char>, to: Seq<char>) -> Seq<char>
    decreases s.len(),
{
    if s.len() == 0 {
        Seq::empty()
    } else {
        seq![s[0]] + to + spec_interleave_tail(s.skip(1), to)
    }
}

proof fn lemma_interleave_split(s: Seq<char>, to: Seq<char>)
    ensures
        spec_interleave(s, to) == to + spec_interleave_tail(s, to),
    decreases s.len(),
{
    if s.len() == 0 {
        assert(to + Seq::<char>::empty() =~= to);
    } else {
        lemma_interleave_split(s.skip(1), to);
        assert(to + seq![s[0]] + (to + spec_interleave_tail(s.skip(1), to)) =~= to + (seq![s[0]]
            + to + spec_interleave_tail(s.skip(1), to)));
    }
}

pub open spec fn spec_replace(s: Seq<char>, pat: Seq<char>, to: Seq<char>) -> Seq<char>
    decreases s.len(),
{
    if pat.len() == 0 {
        spec_interleave(s, to)
    } else if s.len() == 0 {
        s
    } else if matches_at(s, 0, pat) {
        to + spec_replace(s.skip(pat.len() as int), pat, to)
    } else {
        seq![s[0]] + spec_replace(s.skip(1), pat, to)
    }
}

proof fn lemma_matches_at_skip(s: Seq<char>, i: int, pat: Seq<char>)
    requires
        0 <= i <= s.len(),
    ensures
        matches_at(s, i, pat) == matches_at(s.skip(i), 0, pat),
{
    if i + pat.len() <= s.len() {
        assert(s.skip(i).subrange(0, pat.len() as int) =~= s.subrange(i, i + pat.len()));
    }
}

/// Replace every occurrence of `pat` in `v` by `to`, left to right and
/// without overlap.
pub fn replace_all(v: &Vec<char>, pat: &Vec<char>, to: &Vec<char>) -> (r: Vec<char>)
    ensures
        r@ == spec_replace(v@, pat@, to@),
{
    let vlen: usize = v.len();
    let plen: usize = pat.len();
    let mut out: Vec<char> = Vec::new();
    if plen == 0 {
        let mut i: usize = 0;
        let mut first = copy_range(to, 0, to.len());
        out.append(&mut first);
        proof {
            assert(to@.subrange(0, to@.len() as int) =~= to@);
            lemma_interleave_split(v@, to@);
            assert(v@.skip(0) =~= v@);
        }
        while i < vlen
            invariant
                0 <= i <= vlen,
                vlen == v@.len(),
                spec_interleave(v@, to@) == out@ + spec_interleave_tail(v@.skip(i as int), to@),
            decreases vlen - i,
        {
            let ghost pre = out@;
            out.push(v[i]);
            let mut piece = copy_range(to, 0, to.len());
            out.append(&mut piece);
            proof {
                assert(to@.subrange(0, to@.len() as int) =~= to@);
                let rest = v@.skip(i as int);
                assert(rest.len() > 0);
                assert(spec_interleave_tail(rest, to@) == seq![rest[0]] + to@
                    + spec_interleave_tail(rest.skip(1), to@));
                assert(rest[0] == v@[i as int]);
                assert(rest.skip(1) =~= v@.skip(i + 1));
                assert(out@ =~= pre + (seq![v@[i as int]] + to@));
                assert(out@ + spec_interleave_tail(v@.skip(i + 1), to@) =~= pre
                    + spec_interleave_tail(v@.skip(i as int), to@));
            }
            i = i + 1;
        }
        proof {
            assert(v@.skip(vlen as int) =~= Seq::<char>::empty());
            assert(out@ + Seq::<char>::empty() =~= out@);
        }
        return out;
    }
    let mut i: usize = 0;
    proof {
        assert(v@.skip(0) =~= v@);
    }
    while i < vlen
        invariant
            0 <= i <= vlen,
            vlen == v@.len(),
            plen == pat@.len(),
            plen > 0,
            spec_replace(v@, pat@, to@) == out@ + spec_replace(v@.skip(i as int), pat@, to@),
        decreases vlen - i,
    {
        let ghost pre = out@;
        proof {
            lemma_matches_at_skip(v@, i as int, pat@);
        }
        if check_match_at(v, i, pat) {
            let mut piece = copy_range(to, 0, to.len());
            out.append(&mut piece);
            proof {
                assert(to@.subrange(0, to@.len() as int) =~= to@);
                let rest = v@.skip(i as int);
                assert(rest.len() > 0);
                assert(spec_replace(rest, pat@, to@) == to@ + spec_replace(
                    rest.skip(plen as int),
                    pat@,
                    to@,
                ));
                assert(rest.skip(plen as int) =~= v@.skip(i + plen));
                assert(out@ + spec_replace(v@.skip(i + plen), pat@, to@) =~= pre + spec_replace(
                    v@.skip(i as int),
                    pat@,
                    to@,
                ));
            }
            i = i + plen;
        } else {
            out.push(v[i]);
            proof {
                let rest = v@.skip(i as int);
                assert(rest.len() > 0);
                assert(spec_replace(rest, pat@, to@) == seq![rest[0]] + spec_replace(
                    rest.skip(1),
                    pat@,
                    to@,
                ));
                assert(rest[0] == v@[i as int]);
                assert(rest.skip(1) =~= v@.skip(i + 1));
                assert(out@ + spec_replace(v@.skip(i + 1), pat@, to@) =~= pre + spec_replace(
                    v@.skip(i as int),
                    pat@,
                    to@,
                ));
            }
            i = i + 1;
        }
    }
    proof {
        assert(v@.skip(vlen as int) =~= Seq::<char>::empty());
    }
    out
}

// ---------------------------------------------------------------------------
// Balanced-delimiter extraction

/// Position of the `}` that brings the brace depth `depth` back to zero,
/// scanning from `i`; `None` when the text ends first.
pub open spec fn spec_close_brace(s: Seq<char>, i: int, depth: int) -> Option<int>
    decreases s.len() - i,
{
    if i < 0 || i >= s.len() {
        None
    } else if s[i] == '{' {
        spec_close_brace(s, i + 1, depth + 1)
    } else if s[i] == '}' {
        if depth == 1 {
            Some(i)
        } else {
            spec_close_brace(s, i + 1, depth - 1)
        }
    } else {
        spec_close_brace(s, i + 1, depth)
    }
}

pub proof fn lemma_close_brace_bounds(s: Seq<char>, i: int, depth: int)
    requires
        0 <= i,
    ensures
        spec_close_brace(s, i, depth) matches Some(j) ==> i <= j < s.len(),
    decreases s.len() - i,
{
    if 0 <= i < s.len() {
        if s[i] == '{' {
            lemma_close_brace_bounds(s, i + 1, depth + 1);
        } else if s[i] == '}' {
            if depth != 1 {
                lemma_close_brace_bounds(s, i + 1, depth - 1);
            }
        } else {
            lemma_close_brace_bounds(s, i + 1, depth);
        }
    }
}

/// Content between position `pos` (just inside an already-consumed `{`) and
/// its matching `}`, and the position just past that `}`.
pub fn extract_balanced_braces(v: &Vec<char>, pos: usize) -> (r: Result<
    (Vec<char>, usize),
    MacroError,
>)
    requires
        pos <= v@.len(),
    ensures
        match r {
            Ok((body, np)) => spec_close_brace(v@, pos as int, 1) == Some((np - 1) as int) && body@
                == v@.subrange(pos as int, np - 1) && pos < np <= v@.len(),
            Err(e) => spec_close_brace(v@, pos as int, 1) is None && e@
                == MacroErrorV::UnmatchedBraces,
        },
{
    let vlen: usize = v.len();
    let mut i: usize = pos;
    let mut depth: u128 = 1;
    while i < vlen
        invariant
            pos <= i <= vlen,
            vlen == v@.len(),
            1 <= depth <= 1 + (i - pos),
            spec_close_brace(v@, pos as int, 1) == spec_close_brace(v@, i as int, depth as int),
        decreases vlen - i,
    {
        let c = v[i];
        if c == '{' {
            depth = depth + 1;
        } else if c == '}' {
            if depth == 1 {
                let body = copy_range(v, pos, i);
                return Ok((body, i + 1));
            }
            depth = depth - 1;
        }
        i = i + 1;
    }
    Err(MacroError::UnmatchedBraces)
}

/// Position of the `)` that brings the parenthesis depth `depth` back to
/// zero, scanning from `i`; `None` when the text ends first.
pub open spec fn spec_close_paren(s: Seq<char>, i: int, depth: int) -> Option<int>
    decreases s.len() - i,
{
    if i < 0 || i >= s.len() {
        None
    } else if s[i] == '(' {
        spec_close_paren(s, i + 1, depth + 1)
    } else if s[i] == ')' {
        if depth == 1 {
            Some(i)
        } else {
            spec_close_paren(s, i + 1, depth - 1)
        }
    } else {
        spec_close_paren(s, i + 1, depth)
    }
}

pub proof fn lemma_close_paren_bounds(s: Seq<char>, i: int, depth: int)
    requires
        0 <= i,
    ensures
        spec_close_paren(s, i, depth) matches Some(j) ==> i <= j < s.len(),
    decreases s.len() - i,
{
    if 0 <= i < s.len() {
        if s[i] == '(' {
            lemma_close_paren_bounds(s, i + 1, depth + 1);
        } else if s[i] == ')' {
            if depth != 1 {
                lemma_close_paren_bounds(s, i + 1, depth - 1);
            }
        } else {
            lemma_close_paren_bounds(s, i + 1, depth);
        }
    }
}

/// Raw argument text between position `pos` (just inside an already-consumed
/// `(`) and its matching `)`, and the position just past that `)`.
pub fn extract_arguments(v: &Vec<char>, pos: usize) -> (r: Result<(Vec<char>, usize), MacroError>)
    requires
        pos <= v@.len(),
    ensures
        match r {
            Ok((args, np)) => spec_close_paren(v@, pos as int, 1) == Some((np - 1) as int) && args@
                == v@.subrange(pos as int, np - 1) && pos < np <= v@.len(),
            Err(e) => spec_close_paren(v@, pos as int, 1) is None && e@
                == MacroErrorV::UnmatchedParentheses,
        },
{
    let vlen: usize = v.len();
    let mut i: usize = pos;
    let mut depth: u128 = 1;
    while i < vlen
        invariant
            pos <= i <= vlen,
            vlen == v@.len(),
            1 <= depth <= 1 + (i - pos),
            spec_close_paren(v@, pos as int, 1) == spec_close_paren(v@, i as int, depth as int),
        decreases vlen - i,
    {
        let c = v[i];
        if c == '(' {
            depth = depth + 1;
        } else if c == ')' {
            if depth == 1 {
                let args = copy_range(v, pos, i);
                return Ok((args, i + 1));
            }
            depth = depth - 1;
        }
        i = i + 1;
    }
    Err(MacroError::UnmatchedParentheses)
}

/// The identifier (alphanumerics and underscores) starting at `pos`, and
/// the position just past it.  An empty result means no identifier starts
/// there.
pub fn extract_identifier(v: &Vec<char>, pos: usize) -> (r: (Vec<char>, usize))
    requires
        pos <= v@.len(),
    ensures
        r.1 == spec_word_end(v@, pos as int),
        pos <= r.1 <= v@.len(),
        r.0@ == v@.subrange(pos as int, r.1 as int),
{
    let e = word_end(v, pos);
    (copy_range(v, pos, e), e)
}

// ---------------------------------------------------------------------------
// Parameter lists
//
// Whitespace inside the list is skipped before every character is
// considered, so a parameter name accumulated here never contains
// whitespace; a comma or the closing parenthesis finishes the name, and any
// other non-identifier character is a hard error.  Parameter names are
// unique: declaring a name twice is a hard error too.

pub open spec fn spec_params(
    s: Seq<char>,
    i: int,
    current: Seq<char>,
    acc: Seq<Seq<char>>,
) -> Result<(Seq<Seq<char>>, int), MacroErrorV>
    decreases s.len() - i,
{
    let j = spec_skip_ws(s, i);
    if j < i || j >= s.len() {
        Err(MacroErrorV::UnexpectedEndOfParameters)
    } else {
        let c = s[j];
        if c == ')' {
            if current.len() > 0 {
                if acc.contains(current) {
                    Err(MacroErrorV::DuplicateParameter(current))
                } else {
                    Ok((acc.push(current), j + 1))
                }
            } else {
                Ok((acc, j + 1))
            }
        } else if c == ',' {
            if current.len() > 0 {
                if acc.contains(current) {
                    Err(MacroErrorV::DuplicateParameter(current))
                } else {
                    spec_params(s, j + 1, Seq::empty(), acc.push(current))
                }
            } else {
                spec_params(s, j + 1, current, acc)
            }
        } else if is_word_char(c) {
            spec_params(s, j + 1, current.push(c), acc)
        } else {
            Err(MacroErrorV::UnexpectedParameterCharacter(c))
        }
    }
}

pub open spec fn params_view(ps: Seq<String>) -> Seq<Seq<char>> {
    ps.map_values(|p: String| p@)
}

/// Whether `current` already stands among the collected parameter names.
fn contains_param(acc: &Vec<String>, current: &Vec<char>) -> (r: bool)
    ensures
        r == params_view(acc@).contains(current@),
{
    let n = acc.len();
    let mut found = false;
    let mut k: usize = 0;
    while k < n
        invariant
            0 <= k <= n,
            n == acc@.len(),
            found == exists|j: int| 0 <= j < k && acc@[j]@ == current@,
        decreases n - k,
    {
        if !found {
            let entry = str_chars(acc[k].as_str());
            if crate::imports::chars_eq(&entry, current) {
                found = true;
            }
        }
        k = k + 1;
    }
    proof {
        let pv = params_view(acc@);
        if found {
            let j = choose|j: int| 0 <= j < acc@.len() && acc@[j]@ == current@;
            assert(pv[j] == current@);
            assert(pv.contains(current@));
        } else if pv.contains(current@) {
            let j = choose|j: int| 0 <= j < pv.len() && pv[j] == current@;
            assert(acc@[j]@ == current@);
        }
    }
    found
}

/// Parameter names between `pos` (just inside an already-consumed `(`) and
/// the closing `)`, and the position just past the `)`.
pub fn extract_parameters(v: &Vec<char>, pos: usize) -> (r: Result<(Vec<String>, usize), MacroError>)
    requires
        pos <= v@.len(),
    ensures
        match r {
            Ok((ps, np)) => spec_params(v@, pos as int, Seq::empty(), Seq::empty()) == Ok::<
                _,
                MacroErrorV,
            >((params_view(ps@), np as int)) && pos < np <= v@.len(),
            Err(e) => spec_params(v@, pos as int, Seq::empty(), Seq::empty()) == Err::<
                (Seq<Seq<char>>, int),
                _,
            >(e@),
        },
{
    let vlen: usize = v.len();
    let mut i: usize = pos;
    let mut current: Vec<char> = Vec::new();
    let mut acc: Vec<String> = Vec::new();
    proof {
        assert(current@ =~= Seq::<char>::empty());
        assert(params_view(acc@) =~= Seq::<Seq<char>>::empty());
    }
    loop
        invariant
            pos <= i <= vlen,
            vlen == v@.len(),
            spec_params(v@, pos as int, Seq::empty(), Seq::empty()) == spec_params(
                v@,
                i as int,
                current@,
                params_view(acc@),
            ),
        decreases vlen - i,
    {
        let j = skip_whitespace(v, i);
        if j >= vlen {
            return Err(MacroError::UnexpectedEndOfParameters);
        }
        let c = v[j];
        if c == ')' {
            if current.len() > 0 {
                if contains_param(&acc, &current) {
                    return Err(MacroError::DuplicateParameter(chars_string(&current)));
                }
                let ghost pre = acc@;
                acc.push(chars_string(&current));
                proof {
                    assert(params_view(acc@) =~= params_view(pre).push(current@));
                }
            }
            return Ok((acc, j + 1));
        } else if c == ',' {
            if current.len() > 0 {
                if contains_param(&acc, &current) {
                    return Err(MacroError::DuplicateParameter(chars_string(&current)));
                }
                let ghost pre = acc@;
                acc.push(chars_string(&current));
                proof {
                    assert(params_view(acc@) =~= params_view(pre).push(current@));
                }
                current = Vec::new();
            }
            i = j + 1;
        } else if is_word(c) {
            current.push(c);
            i = j + 1;
        } else {
            return Err(MacroError::UnexpectedParameterCharacter(c));
        }
    }
}

// ---------------------------------------------------------------------------
// Argument values
//
// Arguments are split on commas at nesting depth zero, where parentheses,
// braces and brackets all deepen the nesting; each value is trimmed.  A
// value that is empty after trimming is kept when a comma produced it but
// dropped at the end of the list.

pub open spec fn spec_arg_values(
    s: Seq<char>,
    i: int,
    depth: int,
    current: Seq<char>,
    acc: Seq<Seq<char>>,
) -> Seq<Seq<char>>
    decreases s.len() - i,
{
    if i < 0 || i >= s.len() {
        if spec_trim(current).len() > 0 {
            acc.push(spec_trim(current))
        } else {
            acc
        }
    } else {
        let c = s[i];
        if c == '(' || c == '{' || c == '[' {
            spec_arg_values(s, i + 1, depth + 1, current.push(c), acc)
        } else if c == ')' || c == '}' || c == ']' {
            spec_arg_values(s, i + 1, depth - 1, current.push(c), acc)
        } else if c == ',' && depth == 0 {
            spec_arg_values(s, i + 1, depth, Seq::empty(), acc.push(spec_trim(current)))
        } else {
            spec_arg_values(s, i + 1, depth, current.push(c), acc)
        }
    }
}

/// The comma-separated argument values of one raw argument text.
pub open spec fn spec_argument_values(s: Seq<char>) -> Seq<Seq<char>> {
    spec_arg_values(s, 0, 0, Seq::empty(), Seq::empty())
}

/// Split raw argument text into trimmed values on top-level commas.
pub fn parse_argument_values(args: &Vec<char>) -> (r: Vec<String>)
    ensures
        params_view(r@) == spec_argument_values(args@),
{
    let alen: usize = args.len();
    let mut i: usize = 0;
    let mut depth: i128 = 0;
    let mut current: Vec<char> = Vec::new();
    let mut acc: Vec<String> = Vec::new();
    proof {
        assert(current@ =~= Seq::<char>::empty());
        assert(params_view(acc@) =~= Seq::<Seq<char>>::empty());
    }
    while i < alen
        invariant
            0 <= i <= alen,
            alen == args@.len(),
            -(i as int) <= depth <= i as int,
            spec_argument_values(args@) == spec_arg_values(
                args@,
                i as int,
                depth as int,
                current@,
                params_view(acc@),
            ),
        decreases alen - i,
    {
        let c = args[i];
        if c == '(' || c == '{' || c == '[' {
            depth = depth + 1;
            current.push(c);
        } else if c == ')' || c == '}' || c == ']' {
            depth = depth - 1;
            current.push(c);
        } else if c == ',' && depth == 0 {
            let ghost pre = acc@;
            let t = trim(&current);
            acc.push(chars_string(&t));
            proof {
                assert(params_view(acc@) =~= params_view(pre).push(spec_trim(current@)));
            }
            current = Vec::new();
        } else {
            current.push(c);
        }
        i = i + 1;
    }
    let t = trim(&current);
    if t.len() > 0 {
        let ghost pre = acc@;
        acc.push(chars_string(&t));
        proof {
            assert(params_view(acc@) =~= params_view(pre).push(spec_trim(current@)));
        }
    }
    acc
}

// ---------------------------------------------------------------------------
// Substitution

/// The body after substituting, in declaration order, each parameter name
/// by its trimmed argument value: plain textual replacement, with no regard
/// for token boundaries.
pub open spec fn spec_subst_params(
    cur: Seq<char>,
    params: Seq<Seq<char>>,
    vals: Seq<Seq<char>>,
    k: int,
) -> Seq<char>
    decreases params.len() - k,
{
    if k < 0 || k >= params.len() {
        cur
    } else {
        spec_subst_params(spec_replace(cur, params[k], spec_trim(vals[k])), params, vals, k + 1)
    }
}

pub open spec fn opt_chars(args: Option<&str>) -> Option<Seq<char>> {
    match args {
        Some(a) => Some(a@),
        None => None,
    }
}

/// The expansion of one invocation of `def`: the declared parameters bound
/// positionally to the argument values, then the placeholder `%0` replaced
/// by the trimmed invocation body.  The argument count must equal the
/// parameter count exactly — a macro without parameters accepts only an
/// empty argument list, or none at all.
pub open spec fn spec_substitute(
    def: MacroDefView,
    args: Option<Seq<char>>,
    body: Seq<char>,
) -> Result<Seq<char>, MacroErrorV> {
    match args {
        None => if def.params.len() > 0 {
            Err(MacroErrorV::MissingArguments(def.name, def.params.len() as int))
        } else {
            Ok(spec_replace(def.body, seq!['%', '0'], spec_trim(body)))
        },
        Some(a) => {
            let vals = spec_argument_values(a);
            if vals.len() != def.params.len() {
                Err(
                    MacroErrorV::WrongArgumentCount(
                        def.name,
                        def.params.len() as int,
                        vals.len() as int,
                    ),
                )
            } else {
                Ok(
                    spec_replace(
                        spec_subst_params(def.body, def.params, vals, 0),
                        seq!['%', '0'],
                        spec_trim(body),
                    ),
                )
            }
        },
    }
}

/// Substitute one invocation of `macro_def`: arguments bound positionally
/// to parameters, then `%0` replaced by the trimmed invocation body.
pub fn substitute_macro(macro_def: &MacroDefinition, args: Option<&str>, body: &str) -> (r: Result<
    String,
    MacroError,
>)
    ensures
        match r {
            Ok(out) => spec_substitute(macro_def@, opt_chars(args), body@) == Ok::<_, MacroErrorV>(
                out@,
            ),
            Err(e) => spec_substitute(macro_def@, opt_chars(args), body@) == Err::<Seq<char>, _>(
                e@,
            ),
        },
{
    let mut cur: Vec<char> = str_chars(macro_def.body.as_str());
    let nparams: usize = macro_def.params.len();
    if args.is_some() || nparams > 0 {
        let vals: Vec<String> = match args {
            Some(a) => parse_argument_values(&str_chars(a)),
            None => {
                return Err(
                    MacroError::MissingArguments(macro_def.name.clone(), nparams),
                );
            },
        };
        if vals.len() != nparams {
            return Err(
                MacroError::WrongArgumentCount(macro_def.name.clone(), nparams, vals.len()),
            );
        }
        let ghost pview = macro_def@.params;
        let ghost vview = params_view(vals@);
        let mut k: usize = 0;
        while k < nparams
            invariant
                0 <= k <= nparams,
                nparams == pview.len(),
                nparams == macro_def.params@.len(),
                nparams == vals@.len(),
                pview == macro_def@.params,
                vview == params_view(vals@),
                spec_subst_params(macro_def@.body, pview, vview, 0) == spec_subst_params(
                    cur@,
                    pview,
                    vview,
                    k as int,
                ),
            decreases nparams - k,
        {
            let pat = str_chars(macro_def.params[k].as_str());
            let val = str_chars(vals[k].as_str());
            let tval = trim(&val);
            cur = replace_all(&cur, &pat, &tval);
            proof {
                assert(spec_trim(vview[k as int]) =~= tval@);
            }
            k = k + 1;
        }
    }
    let mut pat0: Vec<char> = Vec::new();
    pat0.push('%');
    pat0.push('0');
    proof {
        assert(pat0@ =~= seq!['%', '0']);
    }
    let body_chars = str_chars(body);
    let tbody = trim(&body_chars);
    let out = replace_all(&cur, &pat0, &tbody);
    Ok(chars_string(&out))
}

// ---------------------------------------------------------------------------
// Definition extraction

/// The keyword that opens a macro definition.
pub open spec fn define_kw() -> Seq<char> {
    seq!['d', 'e', 'f', 'i', 'n', 'e', '!']
}

/// Definition-extraction state machine from position `i`, with `out` the
/// text kept so far and `defs` the definitions collected so far.  Wherever
/// the keyword occurs — even inside a longer word — the definition that
/// follows is parsed, removed from the text and recorded; every other
/// character is kept.  The `MissingName` results on malformed positions
/// (falsified bounds) are unreachable and only make termination evident.
pub open spec fn spec_extract_defs(
    s: Seq<char>,
    i: int,
    out: Seq<char>,
    defs: Seq<MacroDefView>,
) -> Result<(Seq<char>, Seq<MacroDefView>), MacroErrorV>
    decreases s.len() - i,
{
    if i < 0 || i >= s.len() {
        Ok((out, defs))
    } else if matches_at(s, i, define_kw()) {
        let p1 = spec_skip_ws(s, i + 7);
        let ne = spec_word_end(s, p1);
        if !(i + 7 <= p1 && p1 <= ne && ne <= s.len()) {
            Err(MacroErrorV::MissingName)
        } else if ne == p1 {
            Err(MacroErrorV::MissingName)
        } else {
            let name = s.subrange(p1, ne);
            let p2 = spec_skip_ws(s, ne);
            let pr = if p2 < s.len() && s[p2] == '(' {
                spec_params(s, p2 + 1, Seq::empty(), Seq::empty())
            } else {
                Ok((Seq::empty(), p2))
            };
            match pr {
                Err(e) => Err(e),
                Ok((params, after)) => {
                    let p3 = spec_skip_ws(s, after);
                    if !(i < after && after <= s.len()) {
                        Err(MacroErrorV::MissingName)
                    } else if p3 >= s.len() || s[p3] != '{' {
                        Err(MacroErrorV::ExpectedDefinitionBody(name))
                    } else {
                        match spec_close_brace(s, p3 + 1, 1) {
                            None => Err(MacroErrorV::UnmatchedBraces),
                            Some(jb) => if !(i < jb && p3 < jb && jb < s.len()) {
                                Err(MacroErrorV::UnmatchedBraces)
                            } else {
                                let body = spec_trim(s.subrange(p3 + 1, jb));
                                spec_extract_defs(
                                    s,
                                    jb + 1,
                                    out,
                                    defs.push(MacroDefView { name, params, body }),
                                )
                            },
                        }
                    }
                },
            }
        }
    } else {
        spec_extract_defs(s, i + 1, out.push(s[i]), defs)
    }
}

/// Remove every `define! name(params) { body }` from `code` and collect
/// the definitions; a later definition of a name shadows an earlier one.
pub fn extract_macro_definitions(code: &str) -> (r: Result<(String, MacroTable), MacroError>)
    ensures
        match r {
            Ok((rest, table)) => spec_extract_defs(code@, 0, Seq::empty(), Seq::empty()) == Ok::<
                _,
                MacroErrorV,
            >((rest@, table@)),
            Err(e) => spec_extract_defs(code@, 0, Seq::empty(), Seq::empty()) == Err::<
                (Seq<char>, Seq<MacroDefView>),
                _,
            >(e@),
        },
{
    let v = str_chars(code);
    let vlen: usize = v.len();
    let mut kw: Vec<char> = Vec::new();
    kw.push('d');
    kw.push('e');
    kw.push('f');
    kw.push('i');
    kw.push('n');
    kw.push('e');
    kw.push('!');
    proof {
        assert(kw@ =~= define_kw());
    }
    let mut out: Vec<char> = Vec::new();
    let mut table = MacroTable::new();
    let mut i: usize = 0;
    while i < vlen
        invariant
            0 <= i <= vlen,
            vlen == v@.len(),
            v@ == code@,
            kw@ == define_kw(),
            spec_extract_defs(v@, 0, Seq::empty(), Seq::empty()) == spec_extract_defs(
                v@,
                i as int,
                out@,
                table@,
            ),
        decreases vlen - i,
    {
        if check_match_at(&v, i, &kw) {
            assert(i + 7 <= vlen);
            let p1 = skip_whitespace(&v, i + 7);
            let (name_chars, ne) = extract_identifier(&v, p1);
            if ne == p1 {
                return Err(MacroError::MissingName);
            }
            let p2 = skip_whitespace(&v, ne);
            let (params, after) = if p2 < vlen && v[p2] == '(' {
                match extract_parameters(&v, p2 + 1) {
                    Ok(x) => x,
                    Err(e) => {
                        return Err(e);
                    },
                }
            } else {
                (Vec::new(), p2)
            };
            proof {
                assert(params_view(Seq::<String>::empty()) =~= Seq::<Seq<char>>::empty());
            }
            let p3 = skip_whitespace(&v, after);
            if p3 >= vlen {
                return Err(MacroError::ExpectedDefinitionBody(chars_string(&name_chars)));
            }
            if v[p3] != '{' {
                return Err(MacroError::ExpectedDefinitionBody(chars_string(&name_chars)));
            }
            match extract_balanced_braces(&v, p3 + 1) {
                Err(e) => {
                    return Err(e);
                },
                Ok((body_raw, np)) => {
                    let body = trim(&body_raw);
                    let def = MacroDefinition {
                        name: chars_string(&name_chars),
                        params,
                        body: chars_string(&body),
                    };
                    proof {
                        let jb = np - 1;
                        assert(def@.name =~= v@.subrange(p1 as int, ne as int));
                        assert(def@.body =~= spec_trim(v@.subrange(p3 + 1, jb)));
                    }
                    table.insert(def);
                    i = np;
                },
            }
        } else {
            out.push(v[i]);
            i = i + 1;
        }
    }
    Ok((chars_string(&out), table))
}

// ---------------------------------------------------------------------------
// Expansion

/// Expansion state machine from position `i` with output `out`.  An
/// identifier followed by an optional parenthesized argument list and `!`
/// with a brace-delimited body is an invocation: it must name a definition,
/// its substitution is recursively expanded (spending one unit of `fuel`),
/// and the result is appended.  An identifier not followed by `!` passes
/// through unchanged, whitespace included; an argument list after it is
/// still expanded recursively (at the same depth).  The `MissingName`
/// results on falsified bounds are unreachable and only make termination
/// evident.
pub open spec fn spec_expand_from(
    s: Seq<char>,
    i: int,
    out: Seq<char>,
    defs: Seq<MacroDefView>,
    fuel: nat,
) -> Result<Seq<char>, MacroErrorV>
    decreases fuel, s.len() - i, 0int,
{
    if i < 0 || i >= s.len() {
        Ok(out)
    } else {
        let c = s[i];
        if is_alpha_char(c) || c == '_' {
            let we = spec_word_end(s, i + 1);
            if !(i < we && we <= s.len()) {
                Err(MacroErrorV::MissingName)
            } else {
                let name = s.subrange(i, we);
                let p = spec_skip_ws(s, we);
                let argres: Result<(Option<Seq<char>>, int), MacroErrorV> = if p < s.len() && s[p]
                    == '(' {
                    match spec_close_paren(s, p + 1, 1) {
                        None => Err(MacroErrorV::UnmatchedParentheses),
                        Some(j) => Ok((Some(s.subrange(p + 1, j)), j + 1)),
                    }
                } else {
                    Ok((None, p))
                };
                match argres {
                    Err(e) => Err(e),
                    Ok((args, ae)) => {
                        let q = spec_skip_ws(s, ae);
                        if q < s.len() && s[q] == '!' {
                            let rr = spec_skip_ws(s, q + 1);
                            if rr >= s.len() || s[rr] != '{' {
                                Err(MacroErrorV::ExpectedCallBody(name))
                            } else {
                                match spec_close_brace(s, rr + 1, 1) {
                                    None => Err(MacroErrorV::UnmatchedBraces),
                                    Some(jb) => if !(i < jb + 1 && jb < s.len()) {
                                        Err(MacroErrorV::UnmatchedBraces)
                                    } else {
                                        let body = s.subrange(rr + 1, jb);
                                        match spec_lookup(defs, name) {
                                            None => Err(MacroErrorV::UndefinedMacro(name)),
                                            Some(def) => match spec_substitute(def, args, body) {
                                                Err(e) => Err(e),
                                                Ok(subst) => if fuel == 0 {
                                                    Err(MacroErrorV::ExpansionDepthExceeded)
                                                } else {
                                                    match spec_expand(
                                                        subst,
                                                        defs,
                                                        (fuel - 1) as nat,
                                                    ) {
                                                        Err(e) => Err(e),
                                                        Ok(expanded) => spec_expand_from(
                                                            s,
                                                            jb + 1,
                                                            out + expanded,
                                                            defs,
                                                            fuel,
                                                        ),
                                                    }
                                                },
                                            },
                                        }
                                    },
                                }
                            }
                        } else {
                            match args {
                                None => if i < q && q <= s.len() {
                                    spec_expand_from(s, q, out + s.subrange(i, q), defs, fuel)
                                } else {
                                    Err(MacroErrorV::MissingName)
                                },
                                Some(a) => if a.len() < s.len() - i && i < q && q <= s.len() && i
                                    <= p && p < ae && ae <= q {
                                    match spec_expand(a, defs, fuel) {
                                        Err(e) => Err(e),
                                        Ok(ea) => spec_expand_from(
                                            s,
                                            q,
                                            out + s.subrange(i, p) + seq!['('] + ea + seq![')']
                                                + s.subrange(ae, q),
                                            defs,
                                            fuel,
                                        ),
                                    }
                                } else {
                                    Err(MacroErrorV::MissingName)
                                },
                            }
                        }
                    },
                }
            }
        } else {
            spec_expand_from(s, i + 1, out.push(c), defs, fuel)
        }
    }
}

/// The expansion of a whole text at the given remaining depth.
pub open spec fn spec_expand(s: Seq<char>, defs: Seq<MacroDefView>, fuel: nat) -> Result<
    Seq<char>,
    MacroErrorV,
>
    decreases fuel, s.len(), 1int,
{
    spec_expand_from(s, 0, Seq::empty(), defs, fuel)
}

fn expand_chars(v: &Vec<char>, table: &MacroTable, fuel: u64) -> (r: Result<Vec<char>, MacroError>)
    ensures
        match r {
            Ok(out) => spec_expand(v@, table@, fuel as nat) == Ok::<_, MacroErrorV>(out@),
            Err(e) => spec_expand(v@, table@, fuel as nat) == Err::<Seq<char>, _>(e@),
        },
    decreases fuel, v@.len(), 1int,
{
    let vlen: usize = v.len();
    let mut out: Vec<char> = Vec::new();
    let mut i: usize = 0;
    while i < vlen
        invariant
            0 <= i <= vlen,
            vlen == v@.len(),
            spec_expand(v@, table@, fuel as nat) == spec_expand_from(
                v@,
                i as int,
                out@,
                table@,
                fuel as nat,
            ),
        decreases vlen - i,
    {
        let ghost out0 = out@;
        let c = v[i];
        if is_alpha(c) || c == '_' {
            let (name_chars, we) = extract_identifier(&v, i + 1);
            let ghost name = v@.subrange(i as int, we as int);
            let p = skip_whitespace(v, we);
            let (args, ae): (Option<Vec<char>>, usize) = if p < vlen && v[p] == '(' {
                match extract_arguments(v, p + 1) {
                    Ok((a, np)) => (Some(a), np),
                    Err(e) => {
                        return Err(e);
                    },
                }
            } else {
                (None, p)
            };
            let q = skip_whitespace(v, ae);
            if q < vlen && v[q] == '!' {
                let rr = skip_whitespace(v, q + 1);
                if rr >= vlen {
                    return Err(MacroError::ExpectedCallBody(chars_string_range(v, i, we)));
                }
                if v[rr] != '{' {
                    return Err(MacroError::ExpectedCallBody(chars_string_range(v, i, we)));
                }
                match extract_balanced_braces(v, rr + 1) {
                    Err(e) => {
                        return Err(e);
                    },
                    Ok((body_chars, np)) => {
                        let ghost jb = np - 1;
                        let mut full_name: Vec<char> = Vec::new();
                        full_name.push(c);
                        let mut nc = name_chars;
                        full_name.append(&mut nc);
                        proof {
                            assert(full_name@ =~= name);
                        }
                        match table.lookup(&full_name) {
                            None => {
                                return Err(
                                    MacroError::UndefinedMacro(chars_string(&full_name)),
                                );
                            },
                            Some(def) => {
                                let args_str: Option<String> = match &args {
                                    Some(a) => Some(chars_string(a)),
                                    None => None,
                                };
                                let body_str = chars_string(&body_chars);
                                let subst = match &args_str {
                                    Some(astr) => substitute_macro(
                                        def,
                                        Some(astr.as_str()),
                                        body_str.as_str(),
                                    ),
                                    None => substitute_macro(def, None, body_str.as_str()),
                                };
                                match subst {
                                    Err(e) => {
                                        return Err(e);
                                    },
                                    Ok(substituted) => {
                                        if fuel == 0 {
                                            return Err(MacroError::ExpansionDepthExceeded);
                                        }
                                        let subst_chars = str_chars(substituted.as_str());
                                        match expand_chars(&subst_chars, table, fuel - 1) {
                                            Err(e) => {
                                                return Err(e);
                                            },
                                            Ok(mut expanded) => {
                                                out.append(&mut expanded);
                                                i = np;
                                            },
                                        }
                                    },
                                }
                            },
                        }
                    },
                }
            } else {
                match args {
                    None => {
                        let mut piece = copy_range(v, i, q);
                        out.append(&mut piece);
                        proof {
                            assert(out@ =~= out0 + v@.subrange(i as int, q as int));
                        }
                        i = q;
                    },
                    Some(a) => {
                        proof {
                            lemma_close_paren_bounds(v@, p + 1, 1);
                            assert(a@.len() < v@.len() - i);
                        }
                        match expand_chars(&a, table, fuel) {
                            Err(e) => {
                                return Err(e);
                            },
                            Ok(mut ea) => {
                                let mut piece = copy_range(v, i, p);
                                out.append(&mut piece);
                                out.push('(');
                                out.append(&mut ea);
                                out.push(')');
                                let mut tail = copy_range(v, ae, q);
                                out.append(&mut tail);
                                proof {
                                    assert(out@ =~= out0 + v@.subrange(i as int, p as int)
                                        + seq!['('] + spec_expand(
                                        a@,
                                        table@,
                                        fuel as nat,
                                    )->Ok_0 + seq![')'] + v@.subrange(ae as int, q as int));
                                }
                                i = q;
                            },
                        }
                    },
                }
            }
        } else {
            out.push(c);
            i = i + 1;
        }
    }
    Ok(out)
}

/// `chars_string` over a range, for error messages.
fn chars_string_range(v: &Vec<char>, lo: usize, hi: usize) -> (r: String)
    requires
        lo <= hi <= v@.len(),
    ensures
        r@ == v@.subrange(lo as int, hi as int),
{
    let piece = copy_range(v, lo, hi);
    chars_string(&piece)
}

/// Expand every macro invocation in `code` against the definitions in
/// `macros`, to the default depth ceiling.
pub fn expand_macros(code: &str, macros: &MacroTable) -> (r: Result<String, MacroError>)
    ensures
        match r {
            Ok(out) => spec_expand(code@, macros@, MACRO_EXPANSION_DEPTH as nat) == Ok::<
                _,
                MacroErrorV,
            >(out@),
            Err(e) => spec_expand(code@, macros@, MACRO_EXPANSION_DEPTH as nat) == Err::<
                Seq<char>,
                _,
            >(e@),
        },
{
    let v = str_chars(code);
    match expand_chars(&v, macros, MACRO_EXPANSION_DEPTH) {
        Ok(out) => Ok(chars_string(&out)),
        Err(e) => Err(e),
    }
}

/// The whole macro pass: extract the definitions, then expand what remains.
pub open spec fn spec_process_macros(s: Seq<char>) -> Result<Seq<char>, MacroErrorV> {
    match spec_extract_defs(s, 0, Seq::empty(), Seq::empty()) {
        Ok((rest, defs)) => spec_expand(rest, defs, MACRO_EXPANSION_DEPTH as nat),
        Err(e) => Err(e),
    }
}

/// Process macro definitions and expansions: definitions are removed from
/// the text and the remaining text is fully expanded against them.
pub fn process_macros(code: &str) -> (r: Result<String, MacroError>)
    ensures
        match r {
            Ok(out) => spec_process_macros(code@) == Ok::<_, MacroErrorV>(out@),
            Err(e) => spec_process_macros(code@) == Err::<Seq<char>, _>(e@),
        },
{
    let (rest, table) = match extract_macro_definitions(code) {
        Ok(x) => x,
        Err(e) => {
            return Err(e);
        },
    };
    expand_macros(rest.as_str(), &table)
}

} // verus!
