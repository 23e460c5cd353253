//! Import resolution for the directive form `import path;` /
//! `import "path";`.
//!
//! The resolver never touches the file system itself: it works against a
//! [`FileMap`], a table of canonicalized paths, their contents, and the
//! canonicalization results of requested paths.  The caller owns the reads:
//! whenever the resolver reaches a path the map does not answer yet, it
//! stops with [`Resolution::Needs`]; the caller canonicalizes and reads that
//! path, records the outcome in the map, and calls the resolver again with a
//! fresh visited list.
//!
//! Paths are modeled Unix-style: joining appends with `/`, an absolute path
//! on the right replaces the base, and a file's directory is everything
//! before its last `/`.
//!
//! A path is added to the visited list strictly before its content is
//! inlined, so a file that imports itself, directly or transitively, is
//! reported as a circular import rather than recursed into; termination is
//! measured by the file entries not yet visited.

use vstd::prelude::*;
use crate::text::{
    is_space_char, spec_skip_ws, is_space, skip_whitespace, copy_range, matches_at,
    check_match_at, str_chars, chars_string,
};

verus! {

// ---------------------------------------------------------------------------
// Errors and outcomes

pub enum ImportErrorV {
    Unresolved(Seq<char>, Seq<char>),
    Circular(Seq<char>),
    ReadFailed(Seq<char>),
    NoParent(Seq<char>),
}

/// A failure of the import pass.  The directive form is fail-fast: the
/// first failed import aborts the pass.
#[derive(Debug, Clone, PartialEq, Eq)]
pub enum ImportError {
    /// The requested path (as written, and as resolved against the base
    /// directory) could not be canonicalized.
    Unresolved { path: String, resolved: String },
    /// The canonical path was already inlined higher up the import chain.
    Circular { path: String },
    /// The canonical path exists but its content could not be read.
    ReadFailed { path: String },
    /// The canonical path has no containing directory.
    NoParent { path: String },
}

impl View for ImportError {
    type V = ImportErrorV;

    open spec fn view(&self) -> ImportErrorV {
        match self {
            ImportError::Unresolved { path, resolved } => ImportErrorV::Unresolved(
                path@,
                resolved@,
            ),
            ImportError::Circular { path } => ImportErrorV::Circular(path@),
            ImportError::ReadFailed { path } => ImportErrorV::ReadFailed(path@),
            ImportError::NoParent { path } => ImportErrorV::NoParent(path@),
        }
    }
}

pub enum ResolutionV {
    Done(Seq<char>, Seq<Seq<char>>),
    Needs(Seq<char>),
    Fail(ImportErrorV),
}

/// Outcome of one resolver run: the fully inlined text, a path the caller
/// must load into the map first, or a failure.
#[derive(Debug)]
pub enum Resolution {
    Done(String),
    Needs(String),
    Fail(ImportError),
}

// ---------------------------------------------------------------------------
// The file map

pub enum FileEntryV {
    Text(Seq<char>),
    Unreadable,
}

/// Content recorded for a canonical path: its text, or the fact that the
/// read failed.
#[derive(Debug, Clone, PartialEq, Eq)]
pub enum FileEntry {
    Text(String),
    Unreadable,
}

impl View for FileEntry {
    type V = FileEntryV;

    open spec fn view(&self) -> FileEntryV {
        match self {
            FileEntry::Text(s) => FileEntryV::Text(s@),
            FileEntry::Unreadable => FileEntryV::Unreadable,
        }
    }
}

pub struct FileMapV {
    pub aliases: Seq<(Seq<char>, Option<Seq<char>>)>,
    pub files: Seq<(Seq<char>, FileEntryV)>,
}

/// The resolver's picture of the file system: canonicalization results for
/// requested paths, and contents for canonical paths.  The first entry for
/// a key wins.
#[derive(Debug)]
pub struct FileMap {
    aliases: Vec<(String, Option<String>)>,
    files: Vec<(String, FileEntry)>,
}

/// First-match association lookup.
pub open spec fn spec_assoc<V>(entries: Seq<(Seq<char>, V)>, key: Seq<char>) -> Option<V>
    decreases entries.len(),
{
    if entries.len() == 0 {
        None
    } else if entries[0].0 == key {
        Some(entries[0].1)
    } else {
        spec_assoc(entries.drop_first(), key)
    }
}

pub open spec fn aliases_view(entries: Seq<(String, Option<String>)>) -> Seq<
    (Seq<char>, Option<Seq<char>>),
> {
    entries.map_values(
        |e: (String, Option<String>)|
            (
                e.0@,
                match e.1 {
                    Some(c) => Some(c@),
                    None => None,
                },
            ),
    )
}

pub open spec fn files_view(entries: Seq<(String, FileEntry)>) -> Seq<(Seq<char>, FileEntryV)> {
    entries.map_values(|e: (String, FileEntry)| (e.0@, e.1@))
}

impl View for FileMap {
    type V = FileMapV;

    closed spec fn view(&self) -> FileMapV {
        FileMapV { aliases: aliases_view(self.aliases@), files: files_view(self.files@) }
    }
}

/// Whether two character vectors hold the same text.
pub(crate) fn chars_eq(a: &Vec<char>, b: &Vec<char>) -> (r: bool)
    ensures
        r == (a@ == b@),
{
    if a.len() != b.len() {
        return false;
    }
    let r = check_match_at(a, 0, b);
    proof {
        if r {
            assert(a@.subrange(0, b@.len() as int) =~= a@);
        } else {
            assert(a@.subrange(0, b@.len() as int) =~= a@);
        }
    }
    r
}

impl FileMap {
    pub fn new() -> (r: Self)
        ensures
            r@.aliases == Seq::<(Seq<char>, Option<Seq<char>>)>::empty(),
            r@.files == Seq::<(Seq<char>, FileEntryV)>::empty(),
    {
        let r = FileMap { aliases: Vec::new(), files: Vec::new() };
        proof {
            assert(r@.aliases =~= Seq::<(Seq<char>, Option<Seq<char>>)>::empty());
            assert(r@.files =~= Seq::<(Seq<char>, FileEntryV)>::empty());
        }
        r
    }

    /// Record the canonicalization result of a requested path: its
    /// canonical form, or `None` when canonicalization failed.
    pub fn add_alias(&mut self, requested: String, canonical: Option<String>)
        ensures
            final(self)@.aliases == old(self)@.aliases.push(
                (
                    requested@,
                    match canonical {
                        Some(c) => Some(c@),
                        None => None,
                    },
                ),
            ),
            final(self)@.files == old(self)@.files,
    {
        let ghost entry_view: (Seq<char>, Option<Seq<char>>) = (
            requested@,
            match &canonical {
                Some(c) => Some(c@),
                None => None,
            },
        );
        self.aliases.push((requested, canonical));
        proof {
            assert(self@.aliases =~= old(self)@.aliases.push(entry_view));
            assert(self@.files =~= old(self)@.files);
        }
    }

    /// Record the content found at a canonical path.
    pub fn add_file(&mut self, canonical: String, entry: FileEntry)
        ensures
            final(self)@.files == old(self)@.files.push((canonical@, entry@)),
            final(self)@.aliases == old(self)@.aliases,
    {
        let ghost entry_view: (Seq<char>, FileEntryV) = (canonical@, entry@);
        self.files.push((canonical, entry));
        proof {
            assert(self@.files =~= old(self)@.files.push(entry_view));
            assert(self@.aliases =~= old(self)@.aliases);
        }
    }

    pub fn canonical_of(&self, path: &Vec<char>) -> (r: Option<Option<String>>)
        ensures
            match r {
                Some(Some(c)) => spec_assoc(self@.aliases, path@) == Some(Some(c@)),
                Some(None) => spec_assoc(self@.aliases, path@) == Some(
                    None::<Seq<char>>,
                ),
                None => spec_assoc(self@.aliases, path@) is None,
            },
    {
        let n = self.aliases.len();
        let mut k: usize = 0;
        proof {
            assert(self@.aliases.skip(0) =~= self@.aliases);
        }
        while k < n
            invariant
                0 <= k <= n,
                n == self@.aliases.len(),
                self@.aliases == aliases_view(self.aliases@),
                spec_assoc(self@.aliases, path@) == spec_assoc(
                    self@.aliases.skip(k as int),
                    path@,
                ),
            decreases n - k,
        {
            let key = str_chars(self.aliases[k].0.as_str());
            proof {
                assert(self@.aliases.skip(k as int)[0] == self@.aliases[k as int]);
                assert(self@.aliases.skip(k as int).drop_first() =~= self@.aliases.skip(k + 1));
            }
            if chars_eq(&key, path) {
                let r = match &self.aliases[k].1 {
                    Some(c) => Some(Some(c.clone())),
                    None => Some(None),
                };
                return r;
            }
            k = k + 1;
        }
        proof {
            assert(self@.aliases.skip(n as int) =~= Seq::<(Seq<char>, Option<Seq<char>>)>::empty());
        }
        None
    }

    pub fn content_of(&self, canonical: &Vec<char>) -> (r: Option<FileEntry>)
        ensures
            match r {
                Some(e) => spec_assoc(self@.files, canonical@) == Some(e@),
                None => spec_assoc(self@.files, canonical@) is None,
            },
    {
        let n = self.files.len();
        let mut k: usize = 0;
        proof {
            assert(self@.files.skip(0) =~= self@.files);
        }
        while k < n
            invariant
                0 <= k <= n,
                n == self@.files.len(),
                self@.files == files_view(self.files@),
                spec_assoc(self@.files, canonical@) == spec_assoc(
                    self@.files.skip(k as int),
                    canonical@,
                ),
            decreases n - k,
        {
            let key = str_chars(self.files[k].0.as_str());
            proof {
                assert(self@.files.skip(k as int)[0] == self@.files[k as int]);
                assert(self@.files.skip(k as int).drop_first() =~= self@.files.skip(k + 1));
            }
            if chars_eq(&key, canonical) {
                let r = match &self.files[k].1 {
                    FileEntry::Text(s) => FileEntry::Text(s.clone()),
                    FileEntry::Unreadable => FileEntry::Unreadable,
                };
                return Some(r);
            }
            k = k + 1;
        }
        proof {
            assert(self@.files.skip(n as int) =~= Seq::<(Seq<char>, FileEntryV)>::empty());
        }
        None
    }
}

// ---------------------------------------------------------------------------
// Paths

/// Join a relative path onto a base directory; an absolute path replaces
/// the base, as `Path::join` does.
pub open spec fn spec_join(base: Seq<char>, rel: Seq<char>) -> Seq<char> {
    if base.len() == 0 {
        rel
    } else if rel.len() > 0 && rel[0] == '/' {
        rel
    } else if base.last() == '/' {
        base + rel
    } else {
        base + seq!['/'] + rel
    }
}

pub fn join_path(base: &Vec<char>, rel: &Vec<char>) -> (r: Vec<char>)
    ensures
        r@ == spec_join(base@, rel@),
{
    if base.len() == 0 {
        let r = copy_range(rel, 0, rel.len());
        proof {
            assert(rel@.subrange(0, rel@.len() as int) =~= rel@);
        }
        r
    } else if rel.len() > 0 && rel[0] == '/' {
        let r = copy_range(rel, 0, rel.len());
        proof {
            assert(rel@.subrange(0, rel@.len() as int) =~= rel@);
        }
        r
    } else {
        let mut r = copy_range(base, 0, base.len());
        proof {
            assert(base@.subrange(0, base@.len() as int) =~= base@);
        }
        if base[base.len() - 1] != '/' {
            r.push('/');
        }
        let mut tail = copy_range(rel, 0, rel.len());
        proof {
            assert(rel@.subrange(0, rel@.len() as int) =~= rel@);
        }
        r.append(&mut tail);
        proof {
            if base@.last() == '/' {
                assert(r@ =~= base@ + rel@);
            } else {
                assert(r@ =~= base@ + seq!['/'] + rel@);
            }
        }
        r
    }
}

/// Index of the last `/` strictly before position `j`.
pub open spec fn spec_rfind_slash(s: Seq<char>, j: int) -> Option<int>
    decreases j,
{
    if j <= 0 || j > s.len() {
        None
    } else if s[j - 1] == '/' {
        Some(j - 1)
    } else {
        spec_rfind_slash(s, j - 1)
    }
}

/// The containing directory of a path: everything before the last `/`, or
/// `/` itself for a top-level entry; a path without `/` has none.
pub open spec fn spec_parent_dir(s: Seq<char>) -> Option<Seq<char>> {
    match spec_rfind_slash(s, s.len() as int) {
        None => None,
        Some(k) => if k == 0 {
            Some(seq!['/'])
        } else {
            Some(s.subrange(0, k))
        },
    }
}

fn parent_dir(v: &Vec<char>) -> (r: Option<Vec<char>>)
    ensures
        match r {
            Some(p) => spec_parent_dir(v@) == Some(p@),
            None => spec_parent_dir(v@) is None,
        },
{
    let mut j: usize = v.len();
    while j > 0
        invariant
            0 <= j <= v@.len(),
            spec_rfind_slash(v@, v@.len() as int) == spec_rfind_slash(v@, j as int),
        decreases j,
    {
        if v[j - 1] == '/' {
            if j - 1 == 0 {
                let mut root: Vec<char> = Vec::new();
                root.push('/');
                proof {
                    assert(root@ =~= seq!['/']);
                }
                return Some(root);
            }
            return Some(copy_range(v, 0, j - 1));
        }
        j = j - 1;
    }
    None
}

/// The source extension appended to import paths that lack it.
pub open spec fn gpc_ext() -> Seq<char> {
    seq!['.', 'g', 'p', 'c']
}

pub open spec fn has_gpc_ext(p: Seq<char>) -> bool {
    p.len() >= 4 && matches_at(p, p.len() - 4, gpc_ext())
}

/// The path with `.gpc` appended when it does not already end in it.
pub open spec fn spec_with_gpc_ext(p: Seq<char>) -> Seq<char> {
    if has_gpc_ext(p) {
        p
    } else {
        p + gpc_ext()
    }
}

fn with_gpc_ext(p: &Vec<char>) -> (r: Vec<char>)
    ensures
        r@ == spec_with_gpc_ext(p@),
{
    let mut ext: Vec<char> = Vec::new();
    ext.push('.');
    ext.push('g');
    ext.push('p');
    ext.push('c');
    proof {
        assert(ext@ =~= gpc_ext());
    }
    let mut r = copy_range(p, 0, p.len());
    proof {
        assert(p@.subrange(0, p@.len() as int) =~= p@);
    }
    if p.len() >= 4 && check_match_at(p, p.len() - 4, &ext) {
        r
    } else {
        r.append(&mut ext);
        r
    }
}

// ---------------------------------------------------------------------------
// The import statement
//
// The recognized statement is the word `import`, at least one whitespace
// character, then either a quoted path (`"` up to the next `"`, at least
// one character between) or an unquoted run of characters free of
// whitespace and `;`, then optional whitespace and an optional `;`.  The
// quoted form falls back to the unquoted one when no non-empty quoted path
// closes, in which case the quote characters become part of the path.  The
// consumed span ends after the optional semicolon, or after the trailing
// whitespace when no semicolon follows.

pub open spec fn import_kw() -> Seq<char> {
    seq!['i', 'm', 'p', 'o', 'r', 't']
}

/// First position at or after `i` holding character `c`.
pub open spec fn spec_find_char(s: Seq<char>, i: int, c: char) -> Option<int>
    decreases s.len() - i,
{
    if i < 0 || i >= s.len() {
        None
    } else if s[i] == c {
        Some(i)
    } else {
        spec_find_char(s, i + 1, c)
    }
}

/// First position at or after `i` whose character ends an unquoted path:
/// whitespace or `;`.
pub open spec fn spec_path_end(s: Seq<char>, i: int) -> int
    decreases s.len() - i,
{
    if 0 <= i < s.len() && !is_space_char(s[i]) && s[i] != ';' {
        spec_path_end(s, i + 1)
    } else {
        i
    }
}

/// An unquoted path starting at `k`: its text and the end of the consumed
/// span.
pub open spec fn spec_unquoted(s: Seq<char>, k: int) -> Option<(Seq<char>, int)> {
    let e = spec_path_end(s, k);
    if e <= k || e > s.len() {
        None
    } else {
        let t = spec_skip_ws(s, e);
        let end = if t < s.len() && s[t] == ';' {
            t + 1
        } else {
            t
        };
        Some((s.subrange(k, e), end))
    }
}

/// The import statement starting exactly at `j`, if any: the written path
/// and the end of the consumed span.
pub open spec fn spec_import_match(s: Seq<char>, j: int) -> Option<(Seq<char>, int)> {
    if !matches_at(s, j, import_kw()) {
        None
    } else {
        let k = spec_skip_ws(s, j + 6);
        if k == j + 6 || k >= s.len() {
            None
        } else if s[k] == '"' {
            match spec_find_char(s, k + 1, '"') {
                Some(m) => if m >= k + 2 {
                    let t = spec_skip_ws(s, m + 1);
                    let end = if t < s.len() && s[t] == ';' {
                        t + 1
                    } else {
                        t
                    };
                    Some((s.subrange(k + 1, m), end))
                } else {
                    spec_unquoted(s, k)
                },
                None => spec_unquoted(s, k),
            }
        } else {
            spec_unquoted(s, k)
        }
    }
}

/// The first import statement at or after `i`: its start, its path, and
/// the end of its span.
pub open spec fn spec_find_import(s: Seq<char>, i: int) -> Option<(int, Seq<char>, int)>
    decreases s.len() - i,
{
    if i < 0 || i >= s.len() {
        None
    } else {
        match spec_import_match(s, i) {
            Some((p, e)) => Some((i, p, e)),
            None => spec_find_import(s, i + 1),
        }
    }
}

pub(crate) fn find_char(v: &Vec<char>, i: usize, c: char) -> (r: Option<usize>)
    requires
        i <= v@.len(),
    ensures
        match r {
            Some(m) => spec_find_char(v@, i as int, c) == Some(m as int) && i <= m < v@.len(),
            None => spec_find_char(v@, i as int, c) is None,
        },
{
    let mut j: usize = i;
    while j < v.len()
        invariant
            i <= j <= v@.len(),
            spec_find_char(v@, i as int, c) == spec_find_char(v@, j as int, c),
        decreases v@.len() - j,
    {
        if v[j] == c {
            return Some(j);
        }
        j = j + 1;
    }
    None
}

fn path_end(v: &Vec<char>, i: usize) -> (r: usize)
    requires
        i <= v@.len(),
    ensures
        r == spec_path_end(v@, i as int),
        i <= r <= v@.len(),
{
    let mut j: usize = i;
    while j < v.len() && !is_space(v[j]) && v[j] != ';'
        invariant
            i <= j <= v@.len(),
            spec_path_end(v@, i as int) == spec_path_end(v@, j as int),
        decreases v@.len() - j,
    {
        j = j + 1;
    }
    j
}

fn import_match(v: &Vec<char>, j: usize, kw: &Vec<char>) -> (r: Option<(Vec<char>, usize)>)
    requires
        j <= v@.len(),
        kw@ == import_kw(),
    ensures
        match r {
            Some((p, e)) => spec_import_match(v@, j as int) == Some((p@, e as int)) && j < e
                <= v@.len(),
            None => spec_import_match(v@, j as int) is None,
        },
{
    if !check_match_at(v, j, kw) {
        return None;
    }
    let vlen: usize = v.len();
    proof {
        assert(import_kw().len() == 6);
        assert(j + 6 <= vlen);
    }
    let k = skip_whitespace(v, j + 6);
    if k == j + 6 || k >= v.len() {
        return None;
    }
    if v[k] == '"' {
        match find_char(v, k + 1, '"') {
            Some(m) => {
                if m >= k + 2 {
                    let t = skip_whitespace(v, m + 1);
                    let end = if t < v.len() && v[t] == ';' {
                        t + 1
                    } else {
                        t
                    };
                    return Some((copy_range(v, k + 1, m), end));
                }
            },
            None => {},
        }
    }
    // unquoted form
    let e = path_end(v, k);
    if e <= k {
        return None;
    }
    let t = skip_whitespace(v, e);
    let end = if t < v.len() && v[t] == ';' {
        t + 1
    } else {
        t
    };
    Some((copy_range(v, k, e), end))
}

fn find_import(v: &Vec<char>, i: usize, kw: &Vec<char>) -> (r: Option<(usize, Vec<char>, usize)>)
    requires
        i <= v@.len(),
        kw@ == import_kw(),
    ensures
        match r {
            Some((m, p, e)) => spec_find_import(v@, i as int) == Some((m as int, p@, e as int))
                && i <= m < e <= v@.len(),
            None => spec_find_import(v@, i as int) is None,
        },
{
    let mut j: usize = i;
    while j < v.len()
        invariant
            i <= j <= v@.len(),
            kw@ == import_kw(),
            spec_find_import(v@, i as int) == spec_find_import(v@, j as int),
        decreases v@.len() - j,
    {
        match import_match(v, j, kw) {
            Some((p, e)) => {
                return Some((j, p, e));
            },
            None => {},
        }
        j = j + 1;
    }
    None
}

// ---------------------------------------------------------------------------
// The resolver

pub open spec fn visited_view(v: Seq<String>) -> Seq<Seq<char>> {
    v.map_values(|s: String| s@)
}

/// Keys of the recorded file contents.
pub open spec fn file_key_set(fs: FileMapV) -> Set<Seq<char>> {
    fs.files.map_values(|e: (Seq<char>, FileEntryV)| e.0).to_set()
}

/// Termination measure: how many recorded files are not yet on the current
/// import chain.
pub open spec fn resolve_measure(fs: FileMapV, visited: Seq<Seq<char>>) -> nat {
    file_key_set(fs).difference(visited.to_set()).len()
}

pub open spec fn resolve_measure_set(fs: FileMapV, visited: Set<Seq<char>>) -> nat {
    file_key_set(fs).difference(visited).len()
}

/// The resolver from position `i`, with `out` the text already produced.
/// Each import statement found is replaced by the recursively resolved
/// content of its file followed by a newline; scanning resumes after the
/// statement, so already-inlined text is never re-scanned.  The
/// measure-guard branches (`Fail` on a non-decreasing measure) are
/// unreachable — the chain only ever adds a file that was not yet visited —
/// and only make termination evident.
pub open spec fn spec_resolve_from(
    s: Seq<char>,
    i: int,
    out: Seq<char>,
    base: Seq<char>,
    fs: FileMapV,
    visited: Seq<Seq<char>>,
) -> ResolutionV
    decreases resolve_measure(fs, visited), s.len() - i, 0int,
{
    if i < 0 || i > s.len() {
        ResolutionV::Done(out, visited)
    } else {
        match spec_find_import(s, i) {
            None => ResolutionV::Done(out + s.subrange(i, s.len() as int), visited),
            Some((m, path, e)) => if !(i <= m && m < e && e <= s.len()) {
                ResolutionV::Fail(ImportErrorV::NoParent(path))
            } else {
                let out1 = out + s.subrange(i, m);
                let full = spec_join(base, spec_with_gpc_ext(path));
                match spec_assoc(fs.aliases, full) {
                    None => ResolutionV::Needs(full),
                    Some(None) => ResolutionV::Fail(ImportErrorV::Unresolved(path, full)),
                    Some(Some(canon)) => if visited.contains(canon) {
                        ResolutionV::Fail(ImportErrorV::Circular(canon))
                    } else {
                        match spec_assoc(fs.files, canon) {
                            None => ResolutionV::Needs(canon),
                            Some(FileEntryV::Unreadable) => ResolutionV::Fail(
                                ImportErrorV::ReadFailed(canon),
                            ),
                            Some(FileEntryV::Text(content)) => match spec_parent_dir(canon) {
                                None => ResolutionV::Fail(ImportErrorV::NoParent(canon)),
                                Some(parent) => {
                                    let visited1 = visited.push(canon);
                                    if !(resolve_measure(fs, visited1) < resolve_measure(
                                        fs,
                                        visited,
                                    )) {
                                        ResolutionV::Fail(ImportErrorV::Circular(canon))
                                    } else {
                                        match spec_resolve(content, parent, fs, visited1) {
                                            ResolutionV::Needs(p) => ResolutionV::Needs(p),
                                            ResolutionV::Fail(err) => ResolutionV::Fail(err),
                                            ResolutionV::Done(inlined, visited2) => if !(
                                            resolve_measure(fs, visited2) < resolve_measure(
                                                fs,
                                                visited,
                                            )) {
                                                ResolutionV::Fail(ImportErrorV::Circular(canon))
                                            } else {
                                                spec_resolve_from(
                                                    s,
                                                    e,
                                                    out1 + inlined + seq!['\n'],
                                                    base,
                                                    fs,
                                                    visited2,
                                                )
                                            },
                                        }
                                    }
                                },
                            },
                        }
                    },
                }
            },
        }
    }
}

/// Resolution of a whole source text against `fs`, with `visited` the
/// canonical paths already on the import chain.
pub open spec fn spec_resolve(
    s: Seq<char>,
    base: Seq<char>,
    fs: FileMapV,
    visited: Seq<Seq<char>>,
) -> ResolutionV
    decreases resolve_measure(fs, visited), s.len(), 1int,
{
    spec_resolve_from(s, 0, Seq::empty(), base, fs, visited)
}

pub(crate) proof fn lemma_prefix_subset(a: Seq<String>, b: Seq<String>)
    requires
        a.len() <= b.len(),
        forall|j: int| 0 <= j < a.len() ==> b[j] == a[j],
    ensures
        visited_view(a).to_set() <= visited_view(b).to_set(),
{
    let va = visited_view(a);
    let vb = visited_view(b);
    assert forall|x: Seq<char>| va.to_set().contains(x) implies vb.to_set().contains(x) by {
        let j = choose|j: int| 0 <= j < va.len() && va[j] == x;
        assert(vb[j] == x);
        assert(vb.contains(x));
    }
}

pub(crate) proof fn lemma_measure_monotone(fs: FileMapV, a: Set<Seq<char>>, b: Set<Seq<char>>)
    requires
        a <= b,
    ensures
        resolve_measure_set(fs, b) <= resolve_measure_set(fs, a),
{
    broadcast use vstd::seq_lib::seq_to_set_is_finite;
    broadcast use vstd::set::group_set_axioms;

    assert(file_key_set(fs).difference(b) <= file_key_set(fs).difference(a));
    vstd::set_lib::lemma_len_subset(
        file_key_set(fs).difference(b),
        file_key_set(fs).difference(a),
    );
}

pub(crate) proof fn lemma_assoc_in_keys(fs: FileMapV, key: Seq<char>)
    requires
        spec_assoc(fs.files, key) is Some,
    ensures
        file_key_set(fs).contains(key),
{
    lemma_assoc_in_keys_rec(fs.files, key);
    let keys = fs.files.map_values(|e: (Seq<char>, FileEntryV)| e.0);
    assert(keys.to_set().contains(key));
}

proof fn lemma_assoc_in_keys_rec(entries: Seq<(Seq<char>, FileEntryV)>, key: Seq<char>)
    requires
        spec_assoc(entries, key) is Some,
    ensures
        entries.map_values(|e: (Seq<char>, FileEntryV)| e.0).to_set().contains(key),
    decreases entries.len(),
{
    let keys = entries.map_values(|e: (Seq<char>, FileEntryV)| e.0);
    if entries.len() > 0 {
        if entries[0].0 == key {
            assert(keys[0] == key);
            assert(keys.contains(key));
        } else {
            lemma_assoc_in_keys_rec(entries.drop_first(), key);
            let tkeys = entries.drop_first().map_values(|e: (Seq<char>, FileEntryV)| e.0);
            assert(tkeys =~= keys.drop_first());
            let j = choose|j: int| 0 <= j < tkeys.len() && tkeys[j] == key;
            assert(keys[j + 1] == key);
            assert(keys.contains(key));
        }
    }
}

/// Resolve every directive-form import in `code`, inlining file contents
/// from `fs` and recording the import chain in `visited`.
pub fn process_imports(code: &str, base_path: &str, fs: &FileMap, visited: &mut Vec<String>) -> (r:
    Resolution)
    ensures
        ({
            let m = spec_resolve(code@, base_path@, fs@, visited_view(old(visited)@));
            match r {
                Resolution::Done(out) => m == ResolutionV::Done(
                    out@,
                    visited_view(final(visited)@),
                ),
                Resolution::Needs(p) => m == ResolutionV::Needs(p@),
                Resolution::Fail(e) => m == ResolutionV::Fail(e@),
            }
        }),
        old(visited)@.len() <= final(visited)@.len(),
        forall|j: int|
            0 <= j < old(visited)@.len() ==> final(visited)@[j] == old(visited)@[j],
    decreases resolve_measure(fs@, visited_view(visited@)), code@.len(), 1int,
{
    broadcast use vstd::seq_lib::seq_to_set_is_finite;

    let v = str_chars(code);
    let base = str_chars(base_path);
    let mut kw: Vec<char> = Vec::new();
    kw.push('i');
    kw.push('m');
    kw.push('p');
    kw.push('o');
    kw.push('r');
    kw.push('t');
    proof {
        assert(kw@ =~= import_kw());
    }
    let vlen: usize = v.len();
    let mut out: Vec<char> = Vec::new();
    let mut i: usize = 0;
    let ghost vset0 = visited_view(visited@);
    proof {
        assert(out@ + Seq::<char>::empty() =~= out@);
        assert(Seq::<char>::empty() =~= out@);
    }
    while i < vlen
        invariant
            0 <= i <= vlen,
            vlen == v@.len(),
            v@ == code@,
            base@ == base_path@,
            kw@ == import_kw(),
            vset0 == visited_view(old(visited)@),
            old(visited)@.len() <= visited@.len(),
            forall|j: int| 0 <= j < old(visited)@.len() ==> visited@[j] == old(visited)@[j],
            resolve_measure(fs@, visited_view(visited@)) <= resolve_measure(fs@, vset0),
            spec_resolve(code@, base_path@, fs@, vset0) == spec_resolve_from(
                v@,
                i as int,
                out@,
                base@,
                fs@,
                visited_view(visited@),
            ),
        decreases vlen - i,
    {
        let ghost out0 = out@;
        let ghost vis0 = visited_view(visited@);
        match find_import(&v, i, &kw) {
            None => {
                let mut rest = copy_range(&v, i, vlen);
                out.append(&mut rest);
                proof {
                    assert(out@ =~= out0 + v@.subrange(i as int, v@.len() as int));
                }
                return Resolution::Done(chars_string(&out));
            },
            Some((m, path, e)) => {
                let mut prefix = copy_range(&v, i, m);
                out.append(&mut prefix);
                proof {
                    assert(out@ =~= out0 + v@.subrange(i as int, m as int));
                }
                let pext = with_gpc_ext(&path);
                let full = join_path(&base, &pext);
                match fs.canonical_of(&full) {
                    None => {
                        return Resolution::Needs(chars_string(&full));
                    },
                    Some(None) => {
                        return Resolution::Fail(
                            ImportError::Unresolved {
                                path: chars_string(&path),
                                resolved: chars_string(&full),
                            },
                        );
                    },
                    Some(Some(canon)) => {
                        let canon_chars = str_chars(canon.as_str());
                        // is the canonical path already on the chain?
                        let mut seen = false;
                        let mut k: usize = 0;
                        let n = visited.len();
                        while k < n
                            invariant
                                0 <= k <= n,
                                n == visited@.len(),
                                seen == exists|j: int|
                                    0 <= j < k && visited@[j]@ == canon_chars@,
                            decreases n - k,
                        {
                            if !seen {
                                let entry = str_chars(visited[k].as_str());
                                if chars_eq(&entry, &canon_chars) {
                                    seen = true;
                                }
                            }
                            k = k + 1;
                        }
                        proof {
                            let vv = visited_view(visited@);
                            if seen {
                                let j = choose|j: int|
                                    0 <= j < visited@.len() && visited@[j]@ == canon_chars@;
                                assert(vv[j] == canon_chars@);
                                assert(vv.contains(canon_chars@));
                            } else if vv.contains(canon_chars@) {
                                let j = choose|j: int| 0 <= j < vv.len() && vv[j] == canon_chars@;
                                assert(visited@[j]@ == canon_chars@);
                            }
                            assert(seen == vv.contains(canon_chars@));
                        }
                        if seen {
                            return Resolution::Fail(ImportError::Circular { path: canon });
                        }
                        match fs.content_of(&canon_chars) {
                            None => {
                                return Resolution::Needs(canon);
                            },
                            Some(FileEntry::Unreadable) => {
                                return Resolution::Fail(ImportError::ReadFailed { path: canon });
                            },
                            Some(FileEntry::Text(content)) => {
                                match parent_dir(&canon_chars) {
                                    None => {
                                        return Resolution::Fail(
                                            ImportError::NoParent { path: canon },
                                        );
                                    },
                                    Some(parent) => {
                                        let parent_str = chars_string(&parent);
                                        let ghost old_vis = visited@;
                                        visited.push(canon.clone());
                                        let ghost mid_vis = visited@;
                                        proof {
                                            let vis1 = visited_view(visited@);
                                            assert(vis0 == visited_view(old_vis));
                                            assert(vis1 =~= vis0.push(canon_chars@));
                                            assert forall|x: Seq<char>|
                                                vis1.to_set().contains(x)
                                                    == vis0.to_set().insert(
                                                    canon_chars@,
                                                ).contains(x) by {
                                                if vis1.contains(x) {
                                                    let j = choose|j: int|
                                                        0 <= j < vis1.len() && vis1[j] == x;
                                                    if j < vis0.len() {
                                                        assert(vis0[j] == x);
                                                        assert(vis0.contains(x));
                                                    }
                                                }
                                                if vis0.contains(x) {
                                                    let j = choose|j: int|
                                                        0 <= j < vis0.len() && vis0[j] == x;
                                                    assert(vis1[j] == x);
                                                    assert(vis1.contains(x));
                                                }
                                                if x == canon_chars@ {
                                                    assert(vis1[vis0.len() as int] == x);
                                                    assert(vis1.contains(x));
                                                }
                                            }
                                            assert(vis1.to_set() =~= vis0.to_set().insert(
                                                canon_chars@,
                                            ));
                                            lemma_assoc_in_keys(fs@, canon_chars@);
                                            lemma_prefix_subset(old(visited)@, old_vis);
                                            lemma_measure_monotone(
                                                fs@,
                                                vset0.to_set(),
                                                vis0.to_set(),
                                            );
                                            file_key_set(fs@).lemma_set_insert_diff_decreases(
                                                vis0.to_set(),
                                                canon_chars@,
                                            );
                                        }
                                        match process_imports(
                                            content.as_str(),
                                            parent_str.as_str(),
                                            fs,
                                            visited,
                                        ) {
                                            Resolution::Done(inlined) => {
                                                proof {
                                                    let vis2 = visited_view(visited@);
                                                    lemma_prefix_subset(mid_vis, visited@);
                                                    lemma_measure_monotone(
                                                        fs@,
                                                        visited_view(mid_vis).to_set(),
                                                        vis2.to_set(),
                                                    );
                                                }
                                                let mut piece = str_chars(inlined.as_str());
                                                out.append(&mut piece);
                                                out.push('\n');
                                                proof {
                                                    assert(out@ =~= out0 + v@.subrange(
                                                        i as int,
                                                        m as int,
                                                    ) + inlined@ + seq!['\n']);
                                                }
                                                i = e;
                                            },
                                            Resolution::Needs(p) => {
                                                return Resolution::Needs(p);
                                            },
                                            Resolution::Fail(err) => {
                                                return Resolution::Fail(err);
                                            },
                                        }
                                    },
                                }
                            },
                        }
                    },
                }
            },
        }
    }
    proof {
        assert(v@.subrange(vlen as int, v@.len() as int) =~= Seq::<char>::empty());
        assert(out@ + v@.subrange(vlen as int, v@.len() as int) =~= out@);
    }
    Resolution::Done(chars_string(&out))
}

} // verus!
