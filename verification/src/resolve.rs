//! Keyword-form (`use path::to::module;`) import handling: mapping import
//! paths to file paths, and extracting the statements from source text.
//!
//! A path prefixed `local::` resolves relative to the project root, with
//! `::` turned into `/` and the extension set to `.gpc`.  Any other path is
//! a library reference: the configured library directory (absolute as
//! given, otherwise relative to the project root) is joined with the
//! converted path and the fixed `gpc/lib.gpc` entry-file convention; with
//! no library directory configured it falls back to project-root-relative
//! resolution.

use vstd::prelude::*;
use crate::text::{
    spec_skip_ws, skip_whitespace, copy_range, matches_at,
    check_match_at, str_chars, chars_string,
};
use crate::imports::{
    spec_join, join_path, spec_rfind_slash, spec_find_char, find_char, spec_assoc, FileMapV,
};
use crate::macros::{spec_replace, replace_all};

verus! {

// ---------------------------------------------------------------------------
// Path mapping

/// Import-path notation turned into file-system notation: every `::`
/// becomes `/`.
pub open spec fn spec_convert_import_path(p: Seq<char>) -> Seq<char> {
    spec_replace(p, seq![':', ':'], seq!['/'])
}

/// Converts import path notation (`a::b::c`) to a file system path
/// (`a/b/c`).
pub fn convert_import_path_to_file_path(import_path: &str) -> (r: String)
    ensures
        r@ == spec_convert_import_path(import_path@),
{
    let v = str_chars(import_path);
    let mut pat: Vec<char> = Vec::new();
    pat.push(':');
    pat.push(':');
    let mut to: Vec<char> = Vec::new();
    to.push('/');
    proof {
        assert(pat@ =~= seq![':', ':']);
        assert(to@ =~= seq!['/']);
    }
    let out = replace_all(&v, &pat, &to);
    chars_string(&out)
}

/// Index of the last `.` strictly before position `j`.
pub open spec fn spec_rfind_dot(s: Seq<char>, j: int) -> Option<int>
    decreases j,
{
    if j <= 0 || j > s.len() {
        None
    } else if s[j - 1] == '.' {
        Some(j - 1)
    } else {
        spec_rfind_dot(s, j - 1)
    }
}

/// The path with its extension set to `gpc`, as `Path::with_extension`
/// sets it: trailing slashes are ignored as path normalization ignores
/// them, a `.` in the final component (not at its start) begins the old
/// extension, which is cut off, and `.gpc` is appended.  A path of only
/// slashes, or an empty one, has no final component and stands unchanged.
pub open spec fn spec_with_extension_gpc(p: Seq<char>) -> Seq<char> {
    let t = crate::pkg::spec_strip_slashes(p);
    if t.len() == 0 {
        p
    } else {
        let segstart: int = match spec_rfind_slash(t, t.len() as int) {
            None => 0,
            Some(k) => k + 1,
        };
        let stem: Seq<char> = match spec_rfind_dot(t, t.len() as int) {
            Some(d) => if d > segstart {
                t.subrange(0, d)
            } else {
                t
            },
            None => t,
        };
        stem + seq!['.', 'g', 'p', 'c']
    }
}

fn with_extension_gpc(v: &Vec<char>) -> (r: Vec<char>)
    ensures
        r@ == spec_with_extension_gpc(v@),
{
    let mut b: usize = v.len();
    proof {
        assert(v@.subrange(0, v@.len() as int) =~= v@);
    }
    while b > 0 && v[b - 1] == '/'
        invariant
            0 <= b <= v@.len(),
            crate::pkg::spec_strip_slashes(v@) == crate::pkg::spec_strip_slashes(
                v@.subrange(0, b as int),
            ),
        decreases b,
    {
        proof {
            assert(v@.subrange(0, b as int).drop_last() =~= v@.subrange(0, b - 1));
        }
        b = b - 1;
    }
    proof {
        assert(crate::pkg::spec_strip_slashes(v@.subrange(0, b as int)) =~= v@.subrange(
            0,
            b as int,
        ));
    }
    if b == 0 {
        let r = copy_range(v, 0, v.len());
        proof {
            assert(r@ =~= v@);
        }
        return r;
    }
    let t = copy_range(v, 0, b);
    let v = &t;
    let n = v.len();
    // last slash
    let mut j: usize = n;
    while j > 0
        invariant
            0 <= j <= n,
            n == v@.len(),
            spec_rfind_slash(v@, n as int) == spec_rfind_slash(v@, j as int),
        ensures
            0 <= j <= n,
            spec_rfind_slash(v@, n as int) == spec_rfind_slash(v@, j as int),
            j == 0 || v@[j - 1] == '/',
        decreases j,
    {
        if v[j - 1] == '/' {
            break ;
        }
        j = j - 1;
    }
    let segstart: usize = if j == 0 {
        proof {
            assert(spec_rfind_slash(v@, 0) is None);
        }
        0
    } else {
        j
    };
    // last dot
    let mut k: usize = n;
    while k > 0
        invariant
            0 <= k <= n,
            n == v@.len(),
            spec_rfind_dot(v@, n as int) == spec_rfind_dot(v@, k as int),
        ensures
            0 <= k <= n,
            spec_rfind_dot(v@, n as int) == spec_rfind_dot(v@, k as int),
            k == 0 || v@[k - 1] == '.',
        decreases k,
    {
        if v[k - 1] == '.' {
            break ;
        }
        k = k - 1;
    }
    let mut stem: Vec<char> = if k > 0 && k - 1 > segstart {
        copy_range(v, 0, k - 1)
    } else {
        proof {
            if k == 0 {
                assert(spec_rfind_dot(v@, 0) is None);
            }
        }
        copy_range(v, 0, n)
    };
    proof {
        assert(v@.subrange(0, v@.len() as int) =~= v@);
    }
    let mut ext: Vec<char> = Vec::new();
    ext.push('.');
    ext.push('g');
    ext.push('p');
    ext.push('c');
    proof {
        assert(ext@ =~= seq!['.', 'g', 'p', 'c']);
    }
    stem.append(&mut ext);
    stem
}

pub open spec fn local_prefix() -> Seq<char> {
    seq!['l', 'o', 'c', 'a', 'l', ':', ':']
}

pub open spec fn opt_str_view(o: Option<&str>) -> Option<Seq<char>> {
    match o {
        Some(s) => Some(s@),
        None => None,
    }
}

/// Where a keyword-form import path points on disk.  `local::` paths live
/// under the project root with the `.gpc` extension; library paths live
/// under the library directory with the `gpc/lib.gpc` entry-file
/// convention, falling back to the project root when no library directory
/// is configured.
pub open spec fn spec_resolve_import_file_path(
    p: Seq<char>,
    project: Seq<char>,
    lib: Option<Seq<char>>,
) -> Seq<char> {
    if matches_at(p, 0, local_prefix()) {
        spec_with_extension_gpc(spec_join(project, spec_convert_import_path(p.skip(7))))
    } else {
        let conv = spec_convert_import_path(p);
        match lib {
            Some(l) => {
                let lib_path: Seq<char> = if l.len() > 0 && l[0] == '/' {
                    l
                } else {
                    spec_join(project, l)
                };
                spec_join(
                    spec_join(lib_path, conv),
                    seq!['g', 'p', 'c', '/', 'l', 'i', 'b', '.', 'g', 'p', 'c'],
                )
            },
            None => spec_with_extension_gpc(spec_join(project, conv)),
        }
    }
}

/// Resolves an import path to the file path it names on disk.
pub fn resolve_import_file_path(import_path: &str, project_path: &str, lib_dir: Option<&str>) -> (r:
    String)
    ensures
        r@ == spec_resolve_import_file_path(import_path@, project_path@, opt_str_view(lib_dir)),
{
    let p = str_chars(import_path);
    let project = str_chars(project_path);
    let mut lp: Vec<char> = Vec::new();
    lp.push('l');
    lp.push('o');
    lp.push('c');
    lp.push('a');
    lp.push('l');
    lp.push(':');
    lp.push(':');
    proof {
        assert(lp@ =~= local_prefix());
    }
    let mut sep: Vec<char> = Vec::new();
    sep.push(':');
    sep.push(':');
    let mut slash: Vec<char> = Vec::new();
    slash.push('/');
    proof {
        assert(sep@ =~= seq![':', ':']);
        assert(slash@ =~= seq!['/']);
    }
    if check_match_at(&p, 0, &lp) {
        let local = copy_range(&p, 7, p.len());
        proof {
            assert(local@ =~= p@.skip(7));
        }
        let conv = replace_all(&local, &sep, &slash);
        let joined = join_path(&project, &conv);
        let out = with_extension_gpc(&joined);
        chars_string(&out)
    } else {
        let conv = replace_all(&p, &sep, &slash);
        match lib_dir {
            Some(lib) => {
                let l = str_chars(lib);
                let lib_path = if l.len() > 0 && l[0] == '/' {
                    l
                } else {
                    join_path(&project, &l)
                };
                let mut entry: Vec<char> = Vec::new();
                entry.push('g');
                entry.push('p');
                entry.push('c');
                entry.push('/');
                entry.push('l');
                entry.push('i');
                entry.push('b');
                entry.push('.');
                entry.push('g');
                entry.push('p');
                entry.push('c');
                proof {
                    assert(entry@ =~= seq!['g', 'p', 'c', '/', 'l', 'i', 'b', '.', 'g', 'p', 'c']);
                }
                let out = join_path(&join_path(&lib_path, &conv), &entry);
                chars_string(&out)
            },
            None => {
                let joined = join_path(&project, &conv);
                let out = with_extension_gpc(&joined);
                chars_string(&out)
            },
        }
    }
}

// ---------------------------------------------------------------------------
// Statement extraction
//
// The recognized statement is the word `use`, at least one whitespace
// character, then the captured path: everything up to the next `;`, which
// must be non-empty.  When only whitespace stands before the `;`, the
// capture still takes the last whitespace character, provided at least one
// other whitespace character separates it from the keyword.

pub open spec fn use_kw() -> Seq<char> {
    seq!['u', 's', 'e']
}

/// The keyword-form import statement starting exactly at `j`, if any: the
/// captured path and the end of the consumed span.
pub open spec fn spec_use_match(s: Seq<char>, j: int) -> Option<(Seq<char>, int)> {
    if !matches_at(s, j, use_kw()) {
        None
    } else {
        let k = spec_skip_ws(s, j + 3);
        if k <= j + 3 || k > s.len() {
            None
        } else if k < s.len() && s[k] != ';' {
            match spec_find_char(s, k, ';') {
                None => None,
                Some(e) => Some((s.subrange(k, e), e + 1)),
            }
        } else if k < s.len() && s[k] == ';' && k - (j + 3) >= 2 {
            Some((s.subrange(k - 1, k), k + 1))
        } else {
            None
        }
    }
}

/// The first keyword-form import statement at or after `i`.
pub open spec fn spec_find_use(s: Seq<char>, i: int) -> Option<(int, Seq<char>, int)>
    decreases s.len() - i,
{
    if i < 0 || i >= s.len() {
        None
    } else {
        match spec_use_match(s, i) {
            Some((p, e)) => Some((i, p, e)),
            None => spec_find_use(s, i + 1),
        }
    }
}

/// The captured paths of all keyword-form import statements, left to
/// right and without overlap.
pub open spec fn spec_extract_imports(s: Seq<char>, i: int) -> Seq<Seq<char>>
    decreases s.len() - i,
{
    match spec_find_use(s, i) {
        None => Seq::empty(),
        Some((m, p, e)) => if i <= m && m < e && e <= s.len() {
            seq![p] + spec_extract_imports(s, e)
        } else {
            Seq::empty()
        },
    }
}

fn use_match(v: &Vec<char>, j: usize, kw: &Vec<char>) -> (r: Option<(Vec<char>, usize)>)
    requires
        j <= v@.len(),
        kw@ == use_kw(),
    ensures
        match r {
            Some((p, e)) => spec_use_match(v@, j as int) == Some((p@, e as int)) && j < e
                <= v@.len(),
            None => spec_use_match(v@, j as int) is None,
        },
{
    if !check_match_at(v, j, kw) {
        return None;
    }
    let vlen: usize = v.len();
    proof {
        assert(use_kw().len() == 3);
        assert(j + 3 <= vlen);
    }
    let k = skip_whitespace(v, j + 3);
    if k <= j + 3 {
        return None;
    }
    if k < vlen && v[k] != ';' {
        match find_char(v, k, ';') {
            None => None,
            Some(e) => Some((copy_range(v, k, e), e + 1)),
        }
    } else if k < vlen && k - (j + 3) >= 2 {
        Some((copy_range(v, k - 1, k), k + 1))
    } else {
        None
    }
}

fn find_use(v: &Vec<char>, i: usize, kw: &Vec<char>) -> (r: Option<(usize, Vec<char>, usize)>)
    requires
        i <= v@.len(),
        kw@ == use_kw(),
    ensures
        match r {
            Some((m, p, e)) => spec_find_use(v@, i as int) == Some((m as int, p@, e as int)) && i
                <= m < e <= v@.len(),
            None => spec_find_use(v@, i as int) is None,
        },
{
    let mut j: usize = i;
    while j < v.len()
        invariant
            i <= j <= v@.len(),
            kw@ == use_kw(),
            spec_find_use(v@, i as int) == spec_find_use(v@, j as int),
        decreases v@.len() - j,
    {
        match use_match(v, j, kw) {
            Some((p, e)) => {
                return Some((j, p, e));
            },
            None => {},
        }
        j = j + 1;
    }
    None
}

/// Extracts all keyword-form import statements from the given content.
pub fn extract_imports(content: &str) -> (r: Vec<String>)
    ensures
        crate::macros::params_view(r@) == spec_extract_imports(content@, 0),
{
    let v = str_chars(content);
    let mut kw: Vec<char> = Vec::new();
    kw.push('u');
    kw.push('s');
    kw.push('e');
    proof {
        assert(kw@ =~= use_kw());
    }
    let mut out: Vec<String> = Vec::new();
    let mut i: usize = 0;
    proof {
        assert(crate::macros::params_view(out@) =~= Seq::<Seq<char>>::empty());
    }
    while i < v.len()
        invariant
            0 <= i <= v@.len(),
            v@ == content@,
            kw@ == use_kw(),
            spec_extract_imports(content@, 0) == crate::macros::params_view(out@)
                + spec_extract_imports(v@, i as int),
        decreases v@.len() - i,
    {
        let ghost pre = out@;
        match find_use(&v, i, &kw) {
            None => {
                proof {
                    assert(crate::macros::params_view(out@) + spec_extract_imports(v@, i as int)
                        =~= crate::macros::params_view(out@));
                }
                return out;
            },
            Some((_, p, e)) => {
                out.push(chars_string(&p));
                proof {
                    assert(crate::macros::params_view(out@) =~= crate::macros::params_view(pre)
                        + seq![p@]);
                    assert(crate::macros::params_view(pre) + (seq![p@] + spec_extract_imports(
                        v@,
                        e as int,
                    )) =~= crate::macros::params_view(out@) + spec_extract_imports(v@, e as int));
                }
                i = e;
            },
        }
    }
    proof {
        assert(spec_extract_imports(v@, i as int) =~= Seq::<Seq<char>>::empty());
        assert(crate::macros::params_view(out@) + spec_extract_imports(v@, i as int)
            =~= crate::macros::params_view(out@));
    }
    out
}

// ---------------------------------------------------------------------------
// Recursive keyword-form resolution
//
// Unlike the directive form, this form accumulates errors: an import that
// cannot be resolved or read sets an error flag and scanning continues; a
// circular import additionally substitutes a visible placeholder comment.
// Each inlined file's statement text `use <path>;` is replaced — every
// occurrence of it — by the recursively resolved content; a statement whose
// written form differs (say, by extra whitespace) is left standing.  The
// whole build fails afterwards when the flag is set.

pub enum KeywordOutcomeV {
    Done(Seq<char>, bool, Seq<Seq<char>>),
    Needs(Seq<char>),
}

/// Outcome of one keyword-form resolver run: the rewritten text together
/// with the error flag, or a path the caller must load into the map first.
#[derive(Debug)]
pub enum KeywordOutcome {
    Done(String),
    Needs(String),
}

/// The statement text whose occurrences are replaced: `use <path>;`.
pub open spec fn spec_use_stmt(path: Seq<char>) -> Seq<char> {
    seq!['u', 's', 'e', ' '] + path + seq![';']
}

/// The comment substituted for a circular import.
pub open spec fn spec_placeholder(path: Seq<char>) -> Seq<char> {
    "// Circular import skipped: "@ + path
}

/// One step per extracted import path: resolve it to a file path, look the
/// file up, inline its recursively resolved content (or record an error),
/// and go on with the next path.  The measure-guard `Needs` branches are
/// unreachable and only make termination evident.
pub open spec fn spec_kw_loop(
    imports: Seq<Seq<char>>,
    k: int,
    processed: Seq<char>,
    project: Seq<char>,
    lib: Option<Seq<char>>,
    fs: FileMapV,
    visited: Seq<Seq<char>>,
    errs: bool,
) -> KeywordOutcomeV
    decreases
            crate::imports::resolve_measure(fs, visited),
            imports.len() - k,
            0int,
{
    if k < 0 || k >= imports.len() {
        KeywordOutcomeV::Done(processed, errs, visited)
    } else {
        let path = imports[k];
        let file = spec_resolve_import_file_path(path, project, lib);
        match spec_assoc(fs.aliases, file) {
            None => KeywordOutcomeV::Needs(file),
            Some(None) => spec_kw_loop(imports, k + 1, processed, project, lib, fs, visited, true),
            Some(Some(canon)) => if visited.contains(canon) {
                spec_kw_loop(
                    imports,
                    k + 1,
                    spec_replace(processed, spec_use_stmt(path), spec_placeholder(path)),
                    project,
                    lib,
                    fs,
                    visited,
                    true,
                )
            } else {
                match spec_assoc(fs.files, canon) {
                    None => KeywordOutcomeV::Needs(canon),
                    Some(crate::imports::FileEntryV::Unreadable) => {
                        let visited1 = visited.push(canon);
                        if !(crate::imports::resolve_measure(fs, visited1)
                            < crate::imports::resolve_measure(fs, visited)) {
                            KeywordOutcomeV::Needs(canon)
                        } else {
                            spec_kw_loop(
                                imports,
                                k + 1,
                                processed,
                                project,
                                lib,
                                fs,
                                visited1,
                                true,
                            )
                        }
                    },
                    Some(crate::imports::FileEntryV::Text(child)) => {
                        let visited1 = visited.push(canon);
                        if !(crate::imports::resolve_measure(fs, visited1)
                            < crate::imports::resolve_measure(fs, visited)) {
                            KeywordOutcomeV::Needs(canon)
                        } else {
                            match spec_keyword_resolve(child, project, lib, fs, visited1, errs) {
                                KeywordOutcomeV::Needs(p) => KeywordOutcomeV::Needs(p),
                                KeywordOutcomeV::Done(inlined, errs2, visited2) => if !(
                                crate::imports::resolve_measure(fs, visited2)
                                    < crate::imports::resolve_measure(fs, visited)) {
                                    KeywordOutcomeV::Needs(canon)
                                } else {
                                    spec_kw_loop(
                                        imports,
                                        k + 1,
                                        spec_replace(processed, spec_use_stmt(path), inlined),
                                        project,
                                        lib,
                                        fs,
                                        visited2,
                                        errs2,
                                    )
                                },
                            }
                        }
                    },
                }
            },
        }
    }
}

/// Keyword-form resolution of a whole text: every extracted `use` path is
/// processed in order against the current state of the map and chain.
pub open spec fn spec_keyword_resolve(
    content: Seq<char>,
    project: Seq<char>,
    lib: Option<Seq<char>>,
    fs: FileMapV,
    visited: Seq<Seq<char>>,
    errs: bool,
) -> KeywordOutcomeV
    decreases
            crate::imports::resolve_measure(fs, visited),
            spec_extract_imports(content, 0).len() + 1,
            1int,
{
    spec_kw_loop(
        spec_extract_imports(content, 0),
        0,
        content,
        project,
        lib,
        fs,
        visited,
        errs,
    )
}

/// Resolve every keyword-form import in `content` against `fs`, rewriting
/// statements in place, accumulating failures in `has_errors`, and
/// recording the import chain in `visited`.
pub fn process_imports_recursively(
    content: &str,
    project_path: &str,
    lib_dir: Option<&str>,
    fs: &crate::imports::FileMap,
    visited: &mut Vec<String>,
    has_errors: &mut bool,
) -> (r: KeywordOutcome)
    ensures
        ({
            let m = spec_keyword_resolve(
                content@,
                project_path@,
                opt_str_view(lib_dir),
                fs@,
                crate::imports::visited_view(old(visited)@),
                *old(has_errors),
            );
            match r {
                KeywordOutcome::Done(out) => m == KeywordOutcomeV::Done(
                    out@,
                    *final(has_errors),
                    crate::imports::visited_view(final(visited)@),
                ),
                KeywordOutcome::Needs(p) => m == KeywordOutcomeV::Needs(p@),
            }
        }),
        old(visited)@.len() <= final(visited)@.len(),
        forall|j: int| 0 <= j < old(visited)@.len() ==> final(visited)@[j] == old(visited)@[j],
    decreases
            crate::imports::resolve_measure(
                fs@,
                crate::imports::visited_view(visited@),
            ),
            spec_extract_imports(content@, 0).len() + 1,
            1int,
{
    broadcast use vstd::seq_lib::seq_to_set_is_finite;

    let imports = extract_imports(content);
    let nimports: usize = imports.len();
    let mut processed: Vec<char> = str_chars(content);
    let mut k: usize = 0;
    let ghost vset0 = crate::imports::visited_view(visited@);
    let ghost iview = crate::macros::params_view(imports@);
    while k < nimports
        invariant
            0 <= k <= nimports,
            nimports == imports@.len(),
            iview == crate::macros::params_view(imports@),
            iview == spec_extract_imports(content@, 0),
            vset0 == crate::imports::visited_view(old(visited)@),
            old(visited)@.len() <= visited@.len(),
            forall|j: int| 0 <= j < old(visited)@.len() ==> visited@[j] == old(visited)@[j],
            crate::imports::resolve_measure(fs@, crate::imports::visited_view(visited@))
                <= crate::imports::resolve_measure(fs@, vset0),
            spec_keyword_resolve(
                content@,
                project_path@,
                opt_str_view(lib_dir),
                fs@,
                vset0,
                *old(has_errors),
            ) == spec_kw_loop(
                iview,
                k as int,
                processed@,
                project_path@,
                opt_str_view(lib_dir),
                fs@,
                crate::imports::visited_view(visited@),
                *has_errors,
            ),
        decreases nimports - k,
    {
        let ghost vis0 = crate::imports::visited_view(visited@);
        let path_str = &imports[k];
        proof {
            assert(path_str@ == iview[k as int]);
        }
        let file = resolve_import_file_path(path_str.as_str(), project_path, lib_dir);
        let file_chars = str_chars(file.as_str());
        match fs.canonical_of(&file_chars) {
            None => {
                return KeywordOutcome::Needs(file);
            },
            Some(None) => {
                *has_errors = true;
            },
            Some(Some(canon)) => {
                let canon_chars = str_chars(canon.as_str());
                let mut seen = false;
                let mut t: usize = 0;
                let n = visited.len();
                while t < n
                    invariant
                        0 <= t <= n,
                        n == visited@.len(),
                        seen == exists|j: int| 0 <= j < t && visited@[j]@ == canon_chars@,
                    decreases n - t,
                {
                    if !seen {
                        let entry = str_chars(visited[t].as_str());
                        if crate::imports::chars_eq(&entry, &canon_chars) {
                            seen = true;
                        }
                    }
                    t = t + 1;
                }
                proof {
                    let vv = crate::imports::visited_view(visited@);
                    if seen {
                        let j = choose|j: int|
                            0 <= j < visited@.len() && visited@[j]@ == canon_chars@;
                        assert(vv[j] == canon_chars@);
                        assert(vv.contains(canon_chars@));
                    } else if vv.contains(canon_chars@) {
                        let j = choose|j: int| 0 <= j < vv.len() && vv[j] == canon_chars@;
                        assert(visited@[j]@ == canon_chars@);
                    }
                    assert(seen == vv.contains(canon_chars@));
                }
                if seen {
                    *has_errors = true;
                    let mut stmt = String::from_str("use ");
                    stmt.append(path_str.as_str());
                    stmt.append(";");
                    let mut repl = String::from_str("// Circular import skipped: ");
                    repl.append(path_str.as_str());
                    let stmt_chars = str_chars(stmt.as_str());
                    let repl_chars = str_chars(repl.as_str());
                    proof {
                        reveal_strlit("use ");
                        reveal_strlit(";");
                        assert(stmt_chars@ =~= spec_use_stmt(path_str@));
                        assert(repl_chars@ =~= spec_placeholder(path_str@));
                    }
                    processed = replace_all(&processed, &stmt_chars, &repl_chars);
                } else {
                    match fs.content_of(&canon_chars) {
                        None => {
                            return KeywordOutcome::Needs(canon);
                        },
                        Some(entry) => {
                            let ghost old_vis = visited@;
                            visited.push(canon.clone());
                            proof {
                                let vis1 = crate::imports::visited_view(visited@);
                                assert(vis0 == crate::imports::visited_view(old_vis));
                                assert(vis1 =~= vis0.push(canon_chars@));
                                assert forall|x: Seq<char>|
                                    vis1.to_set().contains(x) == vis0.to_set().insert(
                                        canon_chars@,
                                    ).contains(x) by {
                                    if vis1.contains(x) {
                                        let j = choose|j: int|
                                            0 <= j < vis1.len() && vis1[j] == x;
                                        if j < vis0.len() {
                                            assert(vis0[j] == x);
                                            assert(vis0.contains(x));
                                        }
                                    }
                                    if vis0.contains(x) {
                                        let j = choose|j: int|
                                            0 <= j < vis0.len() && vis0[j] == x;
                                        assert(vis1[j] == x);
                                        assert(vis1.contains(x));
                                    }
                                    if x == canon_chars@ {
                                        assert(vis1[vis0.len() as int] == x);
                                        assert(vis1.contains(x));
                                    }
                                }
                                assert(vis1.to_set() =~= vis0.to_set().insert(canon_chars@));
                                crate::imports::lemma_assoc_in_keys(fs@, canon_chars@);
                                crate::imports::lemma_prefix_subset(
                                    old(visited)@,
                                    old_vis,
                                );
                                crate::imports::lemma_measure_monotone(
                                    fs@,
                                    vset0.to_set(),
                                    vis0.to_set(),
                                );
                                crate::imports::file_key_set(
                                    fs@,
                                ).lemma_set_insert_diff_decreases(vis0.to_set(), canon_chars@);
                            }
                            match entry {
                                crate::imports::FileEntry::Unreadable => {
                                    *has_errors = true;
                                },
                                crate::imports::FileEntry::Text(child) => {
                                    let ghost mid_vis = visited@;
                                    match process_imports_recursively(
                                        child.as_str(),
                                        project_path,
                                        lib_dir,
                                        fs,
                                        visited,
                                        has_errors,
                                    ) {
                                        KeywordOutcome::Needs(p) => {
                                            return KeywordOutcome::Needs(p);
                                        },
                                        KeywordOutcome::Done(inlined) => {
                                            proof {
                                                crate::imports::lemma_prefix_subset(
                                                    mid_vis,
                                                    visited@,
                                                );
                                                crate::imports::lemma_measure_monotone(
                                                    fs@,
                                                    crate::imports::visited_view(
                                                        mid_vis,
                                                    ).to_set(),
                                                    crate::imports::visited_view(
                                                        visited@,
                                                    ).to_set(),
                                                );
                                            }
                                            let mut stmt = String::from_str("use ");
                                            stmt.append(path_str.as_str());
                                            stmt.append(";");
                                            let stmt_chars = str_chars(stmt.as_str());
                                            let repl_chars = str_chars(inlined.as_str());
                                            proof {
                                                reveal_strlit("use ");
                                                reveal_strlit(";");
                                                assert(stmt_chars@ =~= spec_use_stmt(path_str@));
                                            }
                                            processed = replace_all(
                                                &processed,
                                                &stmt_chars,
                                                &repl_chars,
                                            );
                                        },
                                    }
                                },
                            }
                        },
                    }
                }
            },
        }
        k = k + 1;
    }
    KeywordOutcome::Done(chars_string(&processed))
}

} // verus!
