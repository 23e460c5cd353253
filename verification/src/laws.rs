//! Laws of the preprocessor, stated and proved over the passes' own
//! specifications.

use vstd::prelude::*;
use crate::text::{is_space_char, is_digit_char, is_word_char, is_alpha_char, spec_skip_ws};
use crate::optimize::{
    spec_scan, spec_find_foldable, spec_fold_from, spec_constant_fold, spec_evaluate, dec_value,
    dec_digits_of, digit_char_of, digit_val, spec_i64_string,
};
use crate::macros::{
    MacroDefView, MacroErrorV, spec_substitute, spec_argument_values, spec_lookup, spec_expand,
    spec_expand_from, spec_close_brace, spec_params, spec_extract_defs,
};
use crate::imports::{
    FileMapV, ResolutionV, ImportErrorV, spec_resolve, spec_resolve_from, spec_find_import,
    spec_assoc, spec_join, spec_with_gpc_ext,
};
use crate::text::spec_word_end;

verus! {

// ---------------------------------------------------------------------------
// Macro arity

/// Law: a macro declared with N parameters expands exactly when it is
/// invoked with an argument list carrying exactly N values — or, for N
/// zero, with no list at all.  An absent list on a parameterized macro,
/// or any other value count, fails with the corresponding arity error.
pub proof fn lemma_macro_arity(def: MacroDefView, args: Option<Seq<char>>, body: Seq<char>)
    ensures
        spec_substitute(def, args, body) is Ok <==> (match args {
            None => def.params.len() == 0,
            Some(a) => spec_argument_values(a).len() == def.params.len(),
        }),
        args is None && def.params.len() > 0 ==> spec_substitute(def, args, body) == Err::<
            Seq<char>,
            _,
        >(MacroErrorV::MissingArguments(def.name, def.params.len() as int)),
        (args matches Some(a) && spec_argument_values(a).len() != def.params.len())
            ==> spec_substitute(def, args, body) == Err::<Seq<char>, _>(
            MacroErrorV::WrongArgumentCount(
                def.name,
                def.params.len() as int,
                spec_argument_values(args->Some_0).len() as int,
            ),
        ),
{
}

proof fn lemma_params_distinct(s: Seq<char>, i: int, current: Seq<char>, acc: Seq<Seq<char>>)
    requires
        distinct_chain(acc),
    ensures
        spec_params(s, i, current, acc) matches Ok((ps, _)) ==> distinct_chain(ps),
    decreases s.len() - i,
{
    let j = crate::text::spec_skip_ws(s, i);
    if j < i || j >= s.len() {
    } else {
        let c = s[j];
        if c == ')' {
            if current.len() > 0 && !acc.contains(current) {
                lemma_distinct_push(acc, current);
            }
        } else if c == ',' {
            if current.len() > 0 {
                if !acc.contains(current) {
                    lemma_distinct_push(acc, current);
                    lemma_params_distinct(s, j + 1, Seq::empty(), acc.push(current));
                }
            } else {
                lemma_params_distinct(s, j + 1, current, acc);
            }
        } else if crate::text::is_word_char(c) {
            lemma_params_distinct(s, j + 1, current.push(c), acc);
        }
    }
}

proof fn lemma_distinct_push(acc: Seq<Seq<char>>, x: Seq<char>)
    requires
        distinct_chain(acc),
        !acc.contains(x),
    ensures
        distinct_chain(acc.push(x)),
{
    let pushed = acc.push(x);
    assert forall|a: int, b: int| 0 <= a < b < pushed.len() implies pushed[a] != pushed[b] by {
        if b == acc.len() as int {
            assert(pushed[a] == acc[a]);
            assert(acc.contains(acc[a]));
        }
    }
}

/// Every stored definition declares pairwise distinct parameter names.
pub open spec fn all_params_distinct(defs: Seq<MacroDefView>) -> bool {
    forall|k: int| 0 <= k < defs.len() ==> distinct_chain(#[trigger] defs[k].params)
}

proof fn lemma_extract_defs_params_distinct(
    s: Seq<char>,
    i: int,
    out: Seq<char>,
    defs: Seq<MacroDefView>,
)
    requires
        all_params_distinct(defs),
    ensures
        spec_extract_defs(s, i, out, defs) matches Ok((_, defs2)) ==> all_params_distinct(defs2),
    decreases s.len() - i,
{
    if i < 0 || i >= s.len() {
    } else if crate::text::matches_at(s, i, crate::macros::define_kw()) {
        let p1 = crate::text::spec_skip_ws(s, i + 7);
        let ne = crate::text::spec_word_end(s, p1);
        if i + 7 <= p1 && p1 <= ne && ne <= s.len() && ne != p1 {
            let name = s.subrange(p1, ne);
            let p2 = crate::text::spec_skip_ws(s, ne);
            let pr = if p2 < s.len() && s[p2] == '(' {
                spec_params(s, p2 + 1, Seq::empty(), Seq::empty())
            } else {
                Ok((Seq::empty(), p2))
            };
            if p2 < s.len() && s[p2] == '(' {
                lemma_params_distinct(s, p2 + 1, Seq::empty(), Seq::empty());
            }
            match pr {
                Err(_) => {},
                Ok((params, after)) => {
                    assert(distinct_chain(params));
                    let p3 = crate::text::spec_skip_ws(s, after);
                    if i < after && after <= s.len() && p3 < s.len() && s[p3] == '{' {
                        match spec_close_brace(s, p3 + 1, 1) {
                            None => {},
                            Some(jb) => {
                                if i < jb && p3 < jb && jb < s.len() {
                                    let body = crate::text::spec_trim(s.subrange(p3 + 1, jb));
                                    let def = MacroDefView { name, params, body };
                                    assert(all_params_distinct(defs.push(def))) by {
                                        assert forall|k: int|
                                            0 <= k < defs.push(def).len() implies distinct_chain(
                                            #[trigger] defs.push(def)[k].params,
                                        ) by {
                                            if k < defs.len() {
                                                assert(defs.push(def)[k] == defs[k]);
                                            }
                                        }
                                    }
                                    lemma_extract_defs_params_distinct(
                                        s,
                                        jb + 1,
                                        out,
                                        defs.push(def),
                                    );
                                }
                            },
                        }
                    }
                },
            }
        }
    } else {
        lemma_extract_defs_params_distinct(s, i + 1, out.push(s[i]), defs);
    }
}

/// Law: every macro definition the extraction pass collects declares
/// pairwise distinct parameter names — a repeated name is rejected during
/// extraction, so no stored definition carries a duplicate.
pub proof fn lemma_extracted_parameters_distinct(s: Seq<char>)
    ensures
        spec_extract_defs(s, 0, Seq::empty(), Seq::empty()) matches Ok((_, defs))
            ==> all_params_distinct(defs),
{
    assert(all_params_distinct(Seq::<MacroDefView>::empty()));
    lemma_extract_defs_params_distinct(s, 0, Seq::empty(), Seq::empty());
}

// ---------------------------------------------------------------------------
// Cycle detection

/// Law: when the first import statement of a text resolves to a canonical
/// path that is already on the import chain, resolution fails with a
/// circular-import error naming that path, rather than inlining the file
/// again.  (That resolution terminates on *every* input, cyclic import
/// graphs included, is checked by the resolver's decreasing measure: the
/// files not yet on the chain.)
pub proof fn lemma_cycle_detected(
    s: Seq<char>,
    base: Seq<char>,
    fs: FileMapV,
    visited: Seq<Seq<char>>,
    m: int,
    path: Seq<char>,
    e: int,
    canon: Seq<char>,
)
    requires
        spec_find_import(s, 0) == Some((m, path, e)),
        0 <= m < e <= s.len(),
        spec_assoc(fs.aliases, spec_join(base, spec_with_gpc_ext(path))) == Some(Some(canon)),
        visited.contains(canon),
    ensures
        spec_resolve(s, base, fs, visited) == ResolutionV::Fail(ImportErrorV::Circular(canon)),
{
    assert(s.len() > 0);
}

/// Pairwise-distinct canonical paths.
pub open spec fn distinct_chain(v: Seq<Seq<char>>) -> bool {
    forall|a: int, b: int| 0 <= a < b < v.len() ==> v[a] != v[b]
}

/// `longer` extends `shorter` without touching it.
pub open spec fn chain_extends(longer: Seq<Seq<char>>, shorter: Seq<Seq<char>>) -> bool {
    shorter.len() <= longer.len() && forall|j: int|
        0 <= j < shorter.len() ==> longer[j] == shorter[j]
}

proof fn lemma_resolve_from_distinct(
    s: Seq<char>,
    i: int,
    out: Seq<char>,
    base: Seq<char>,
    fs: FileMapV,
    visited: Seq<Seq<char>>,
)
    requires
        distinct_chain(visited),
    ensures
        spec_resolve_from(s, i, out, base, fs, visited) matches ResolutionV::Done(_, v2)
            ==> distinct_chain(v2) && chain_extends(v2, visited),
    decreases crate::imports::resolve_measure(fs, visited), s.len() - i, 0int,
{
    if i < 0 || i > s.len() {
    } else {
        match spec_find_import(s, i) {
            None => {},
            Some((m, path, e)) => {
                if i <= m && m < e && e <= s.len() {
                    let out1 = out + s.subrange(i, m);
                    let full = spec_join(base, spec_with_gpc_ext(path));
                    match spec_assoc(fs.aliases, full) {
                        None => {},
                        Some(None) => {},
                        Some(Some(canon)) => {
                            if !visited.contains(canon) {
                                match spec_assoc(fs.files, canon) {
                                    None => {},
                                    Some(crate::imports::FileEntryV::Unreadable) => {},
                                    Some(crate::imports::FileEntryV::Text(content)) => {
                                        match crate::imports::spec_parent_dir(canon) {
                                            None => {},
                                            Some(parent) => {
                                                let visited1 = visited.push(canon);
                                                assert(distinct_chain(visited1)) by {
                                                    assert forall|a: int, b: int|
                                                        0 <= a < b < visited1.len() implies visited1[a]
                                                        != visited1[b] by {
                                                        if b == visited.len() as int {
                                                            assert(visited[a] == visited1[a]);
                                                            assert(!visited.contains(canon));
                                                            assert(visited.contains(visited[a]));
                                                        }
                                                    }
                                                }
                                                if crate::imports::resolve_measure(fs, visited1)
                                                    < crate::imports::resolve_measure(
                                                    fs,
                                                    visited,
                                                ) {
                                                    lemma_resolve_distinct(
                                                        content,
                                                        parent,
                                                        fs,
                                                        visited1,
                                                    );
                                                    match spec_resolve(
                                                        content,
                                                        parent,
                                                        fs,
                                                        visited1,
                                                    ) {
                                                        ResolutionV::Needs(_) => {},
                                                        ResolutionV::Fail(_) => {},
                                                        ResolutionV::Done(inlined, visited2) => {
                                                            if crate::imports::resolve_measure(
                                                                fs,
                                                                visited2,
                                                            ) < crate::imports::resolve_measure(
                                                                fs,
                                                                visited,
                                                            ) {
                                                                lemma_resolve_from_distinct(
                                                                    s,
                                                                    e,
                                                                    out1 + inlined + seq!['\n'],
                                                                    base,
                                                                    fs,
                                                                    visited2,
                                                                );
                                                            }
                                                        },
                                                    }
                                                }
                                            },
                                        }
                                    },
                                }
                            }
                        },
                    }
                }
            },
        }
    }
}

proof fn lemma_resolve_distinct(s: Seq<char>, base: Seq<char>, fs: FileMapV, visited: Seq<Seq<char>>)
    requires
        distinct_chain(visited),
    ensures
        spec_resolve(s, base, fs, visited) matches ResolutionV::Done(_, v2) ==> distinct_chain(v2)
            && chain_extends(v2, visited),
    decreases crate::imports::resolve_measure(fs, visited), s.len(), 1int,
{
    lemma_resolve_from_distinct(s, 0, Seq::empty(), base, fs, visited);
}

/// Law (cycle detection, global form): a resolution that completes never
/// inlines the same canonical file twice — the import chain it returns
/// extends the one it was given and holds no duplicate path.  Together
/// with `lemma_cycle_detected` this is the pass's cycle discipline: a path
/// already on the chain is reported, never re-entered.
pub proof fn lemma_resolution_chain_free_of_duplicates(
    s: Seq<char>,
    base: Seq<char>,
    fs: FileMapV,
    visited: Seq<Seq<char>>,
)
    requires
        distinct_chain(visited),
    ensures
        spec_resolve(s, base, fs, visited) matches ResolutionV::Done(_, v2) ==> distinct_chain(v2)
            && chain_extends(v2, visited),
{
    lemma_resolve_distinct(s, base, fs, visited);
}

// ---------------------------------------------------------------------------
// Stability of folded output
//
// One piece of the optimizer's idempotence: the decimal rendering it
// writes for a folded span contains no operator, so a later run finds no
// foldable span in it and leaves it unchanged.

proof fn lemma_scan_digits(s: Seq<char>, i: int, ho: bool, ln: bool)
    requires
        0 <= i <= s.len(),
        forall|k: int| i <= k < s.len() ==> is_digit_char(s[k]),
    ensures
        spec_scan(s, i, 0, ho, ln) == (
            s.len() as int,
            0int,
            ho,
            if i < s.len() {
                true
            } else {
                ln
            },
        ),
    decreases s.len() - i,
{
    if i < s.len() {
        lemma_scan_digits(s, i + 1, ho, true);
    }
}

proof fn lemma_find_foldable_digits(s: Seq<char>, i: int)
    requires
        0 <= i < s.len(),
        forall|k: int| 0 <= k < s.len() ==> is_digit_char(s[k]),
    ensures
        spec_find_foldable(s, i) is None,
{
    assert(!is_space_char(s[i]));
    assert(spec_skip_ws(s, i) == i);
    lemma_scan_digits(s, i, false, false);
}

proof fn lemma_fold_from_digits(s: Seq<char>, i: int)
    requires
        0 <= i <= s.len(),
        forall|k: int| 0 <= k < s.len() ==> is_digit_char(s[k]),
    ensures
        spec_fold_from(s, i) == s.skip(i),
    decreases s.len() - i,
{
    if i >= s.len() {
        assert(s.skip(i) =~= Seq::<char>::empty());
    } else {
        lemma_find_foldable_digits(s, i);
        lemma_fold_from_digits(s, i + 1);
        assert(seq![s[i]] + s.skip(i + 1) =~= s.skip(i));
    }
}

/// Law (a piece of fold idempotence): text consisting solely of decimal
/// digits holds no foldable span, so folding leaves it exactly as it
/// stands.
pub proof fn lemma_fold_digit_text_stable(s: Seq<char>)
    requires
        forall|k: int| 0 <= k < s.len() ==> is_digit_char(s[k]),
    ensures
        spec_constant_fold(s) == s,
{
    lemma_fold_from_digits(s, 0);
    assert(s.skip(0) =~= s);
}

proof fn lemma_dec_digits_wf(n: int)
    requires
        n >= 0,
    ensures
        dec_digits_of(n).len() >= 1,
        forall|k: int| 0 <= k < dec_digits_of(n).len() ==> is_digit_char(#[trigger] dec_digits_of(
            n,
        )[k]),
    decreases n,
{
    if n >= 10 {
        lemma_dec_digits_wf(n / 10);
    }
}

proof fn lemma_dec_value_congruence(s1: Seq<char>, i1: int, s2: Seq<char>, i2: int, len: int)
    requires
        0 <= len,
        0 <= i1 && i1 + len <= s1.len(),
        0 <= i2 && i2 + len <= s2.len(),
        forall|k: int| 0 <= k < len ==> #[trigger] s1[i1 + k] == s2[i2 + k],
    ensures
        dec_value(s1, i1, i1 + len) == dec_value(s2, i2, i2 + len),
    decreases len,
{
    if len > 0 {
        lemma_dec_value_congruence(s1, i1, s2, i2, len - 1);
    }
}

proof fn lemma_dec_value_of_digits(n: int)
    requires
        n >= 0,
    ensures
        dec_value(dec_digits_of(n), 0, dec_digits_of(n).len() as int) == n,
    decreases n,
{
    let s = dec_digits_of(n);
    lemma_dec_digits_wf(n);
    if n < 10 {
        assert(dec_value(s, 0, 1) == dec_value(s, 0, 0) * 10 + digit_val(s[0]));
        assert(digit_val(digit_char_of(n)) == n);
    } else {
        let p = dec_digits_of(n / 10);
        lemma_dec_value_of_digits(n / 10);
        assert(s == p.push(digit_char_of(n % 10)));
        assert(dec_value(s, 0, s.len() as int) == dec_value(s, 0, s.len() - 1) * 10 + digit_val(
            s[s.len() - 1],
        ));
        lemma_dec_value_congruence(s, 0, p, 0, p.len() as int);
        assert(digit_val(digit_char_of(n % 10)) == n % 10);
    }
}

proof fn lemma_digit_end_all(s: Seq<char>, i: int)
    requires
        0 <= i <= s.len(),
        forall|k: int| i <= k < s.len() ==> is_digit_char(s[k]),
    ensures
        crate::text::spec_digit_end(s, i) == s.len(),
    decreases s.len() - i,
{
    if i < s.len() {
        lemma_digit_end_all(s, i + 1);
    }
}

/// Law (a piece of fold idempotence): the decimal rendering the optimizer
/// writes in place of a folded span is stable — running the fold over it
/// yields it back exactly, for every signed 64-bit value.  A nonnegative
/// rendering holds no foldable span at all; a negative rendering is itself
/// a foldable span that evaluates to the same value it renders.
pub proof fn lemma_folded_literal_stable(v: i64)
    ensures
        spec_constant_fold(spec_i64_string(v as int)) == spec_i64_string(v as int),
{
    if v >= 0 {
        lemma_dec_digits_wf(v as int);
        lemma_fold_digit_text_stable(spec_i64_string(v as int));
    } else {
        let n = -(v as int);
        let d = dec_digits_of(n);
        lemma_dec_digits_wf(n);
        let s = spec_i64_string(v as int);
        assert(s == seq!['-'] + d);
        assert(s.len() == 1 + d.len());
        assert(s[0] == '-');
        assert forall|k: int| 1 <= k < s.len() implies is_digit_char(s[k]) by {
            assert(s[k] == d[k - 1]);
        }
        // the whole rendering is one foldable span
        assert(!is_space_char(s[0]));
        assert(spec_skip_ws(s, 0) == 0);
        lemma_scan_digits(s, 1, true, false);
        assert(spec_scan(s, 0, 0, false, false) == spec_scan(s, 1, 0, true, false));
        assert(spec_find_foldable(s, 0) == Some((0int, s.len() as int)));
        // the span tokenizes to the single literal `v`
        assert(!is_space_char(s[s.len() - 1]));
        assert(crate::text::spec_trim(s) =~= s) by {
            assert(crate::text::spec_rskip_ws(s, s.len() as int) == s.len());
            assert(s.subrange(0, s.len() as int) =~= s);
        }
        lemma_digit_end_all(s, 1);
        lemma_dec_value_congruence(s, 1, d, 0, d.len() as int);
        lemma_dec_value_of_digits(n);
        assert(dec_value(s, 1, s.len() as int) == n);
        assert(n <= 0x8000_0000_0000_0000);
        let tokens = seq![crate::optimize::ExprToken::Number(v)];
        assert(crate::optimize::allows_negative(Seq::empty()));
        assert(crate::optimize::spec_tok(s, 0, Seq::empty()) == crate::optimize::spec_tok(
            s,
            s.len() as int,
            Seq::empty().push(crate::optimize::ExprToken::Number((-dec_value(
                s,
                1,
                s.len() as int,
            )) as i64)),
        ));
        assert(Seq::empty().push(crate::optimize::ExprToken::Number((-n) as i64)) =~= tokens);
        assert(crate::optimize::spec_tokenize(s) == Ok::<_, crate::optimize::FoldError>(tokens));
        // the literal parses and evaluates to `v`
        assert(crate::optimize::spec_parse_primary(tokens, 0) == Ok::<
            _,
            crate::optimize::FoldError,
        >((v, 1int)));
        assert(crate::optimize::spec_binary_loop(tokens, v, 1, 0u8) == Ok::<
            _,
            crate::optimize::FoldError,
        >((v, 1int)));
        assert(spec_evaluate(s) == Ok::<_, crate::optimize::FoldError>(v));
        // so the fold writes the same rendering back
        assert(s.subrange(0, s.len() as int) =~= s);
        assert(spec_fold_from(s, s.len() as int) == Seq::<char>::empty());
        assert(s.subrange(0, 0) + spec_i64_string(v as int) + spec_fold_from(s, s.len() as int)
            =~= s);
        assert(spec_fold_from(s, 0) == s);
    }
}

// ---------------------------------------------------------------------------
// Recursive macro expansion

proof fn lemma_word_end_range(s: Seq<char>, a: int, b: int)
    requires
        0 <= a <= b < s.len(),
        forall|k: int| a <= k < b ==> is_word_char(s[k]),
        !is_word_char(s[b]),
    ensures
        spec_word_end(s, a) == b,
    decreases b - a,
{
    if a < b {
        lemma_word_end_range(s, a + 1, b);
    }
}

proof fn lemma_close_brace_flat(s: Seq<char>, a: int, b: int)
    requires
        0 <= a <= b < s.len(),
        forall|k: int| a <= k < b ==> s[k] != '{' && s[k] != '}',
        s[b] == '}',
    ensures
        spec_close_brace(s, a, 1) == Some(b),
    decreases b - a,
{
    if a < b {
        lemma_close_brace_flat(s, a + 1, b);
    }
}

/// Law (recursive macro expansion): a whole text that is one invocation
/// `name!{body}` of a defined macro — the name well-formed, the body free
/// of braces — expands to exactly the *full recursive expansion* of the
/// substituted body, one expansion depth down: macro calls that the body
/// substitutes in are themselves expanded before the pass returns.
pub proof fn lemma_recursive_expansion(
    s: Seq<char>,
    name: Seq<char>,
    body: Seq<char>,
    defs: Seq<MacroDefView>,
    def: MacroDefView,
    subst: Seq<char>,
    fuel: nat,
)
    requires
        s == name + seq!['!', '{'] + body + seq!['}'],
        name.len() > 0,
        is_alpha_char(name[0]) || name[0] == '_',
        forall|k: int| 0 <= k < name.len() ==> is_word_char(#[trigger] name[k]),
        forall|k: int| 0 <= k < body.len() ==> body[k] != '{' && body[k] != '}',
        spec_lookup(defs, name) == Some(def),
        spec_substitute(def, None, body) == Ok::<_, MacroErrorV>(subst),
        fuel > 0,
    ensures
        spec_expand(s, defs, fuel) == spec_expand(subst, defs, (fuel - 1) as nat),
{
    let nl = name.len() as int;
    let bl = body.len() as int;
    assert(s.len() == nl + 3 + bl);
    assert forall|k: int| 0 <= k < nl implies s[k] == name[k] by {}
    assert(s[nl] == '!');
    assert(s[nl + 1] == '{');
    assert forall|k: int| nl + 2 <= k < nl + 2 + bl implies s[k] == body[k - nl - 2] by {}
    assert(s[nl + 2 + bl] == '}');

    // the scanner reads the name, then `!`, then the brace-delimited body
    assert(is_alpha_char(s[0]) || s[0] == '_');
    lemma_word_end_range(s, 1, nl);
    assert(spec_word_end(s, 1) == nl);
    assert(s.subrange(0, nl) =~= name);
    assert(!is_space_char(s[nl]));
    assert(spec_skip_ws(s, nl) == nl);
    assert(s[nl] != '(');
    assert(spec_skip_ws(s, nl + 1) == nl + 1);
    lemma_close_brace_flat(s, nl + 2, nl + 2 + bl);
    assert(spec_close_brace(s, nl + 2, 1) == Some(nl + 2 + bl));
    assert(s.subrange(nl + 2, nl + 2 + bl) =~= body);

    // expansion substitutes, recurses at one depth less, and nothing
    // follows the invocation
    let inner = spec_expand(subst, defs, (fuel - 1) as nat);
    match inner {
        Ok(expanded) => {
            assert(spec_expand_from(s, nl + 3 + bl, Seq::empty() + expanded, defs, fuel) == Ok::<
                _,
                MacroErrorV,
            >(Seq::empty() + expanded));
            assert(Seq::empty() + expanded =~= expanded);
            assert(spec_expand(s, defs, fuel) == Ok::<_, MacroErrorV>(expanded));
        },
        Err(e) => {
            assert(spec_expand(s, defs, fuel) == Err::<Seq<char>, _>(e));
        },
    }
}

} // verus!
