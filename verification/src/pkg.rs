//! Package-manager helpers that work on plain values: directory layout,
//! package-name validation, GitHub URL handling, and decoding of the file
//! payloads the GitHub contents API returns.

use vstd::prelude::*;
use base64::Engine as _;
use crate::text::{
    matches_at, check_match_at, str_chars, chars_string, copy_range,
};
use crate::imports::{spec_join, join_path, spec_rfind_slash};
use vstd::string::StringExecFns;

verus! {

/// Failures of the package helpers.
#[derive(Debug, Clone, Copy, PartialEq, Eq, Structural)]
pub enum PkgError {
    /// An empty package name.
    EmptyPackageName,
    /// A package name holding `..`, `/` or `\`.
    InvalidPackageNameFormat,
    /// A package directory path without a usable final component.
    InvalidPackageDirectory,
    /// A Git URL without at least an owner and a repository segment.
    InvalidGitUrl,
    /// A GitHub file payload whose encoding is not `base64`.
    UnsupportedEncoding,
    /// A GitHub file payload that is not valid base64.
    Base64DecodeFailed,
    /// Decoded payload bytes that are not valid UTF-8.
    InvalidUtf8,
}

/// A package's `lib.json` manifest.
#[derive(Debug)]
pub struct Lib {
    pub name: String,
    pub url: String,
    pub version: String,
    pub dependencies: Vec<String>,
}

/// One file as the GitHub contents API returns it.
#[derive(Debug)]
pub struct GithubFile {
    pub content: String,
    pub encoding: String,
}

/// Whether `pat` occurs anywhere in `s`.
pub open spec fn contains_seq(s: Seq<char>, pat: Seq<char>) -> bool {
    exists|i: int| 0 <= i && matches_at(s, i, pat)
}

/// Whether `c` occurs in `s`.
pub open spec fn contains_char(s: Seq<char>, c: char) -> bool {
    exists|i: int| 0 <= i < s.len() && s[i] == c
}

// ---------------------------------------------------------------------------
// Directory layout and names

/// Common package management utilities and shared functionality.  The
/// application directory they start from is handed in by the caller.
pub struct PackageManager;

/// Trailing `/` characters removed.
pub open spec fn spec_strip_slashes(s: Seq<char>) -> Seq<char>
    decreases s.len(),
{
    if s.len() > 0 && s.last() == '/' {
        spec_strip_slashes(s.drop_last())
    } else {
        s
    }
}

/// Trailing `/` characters and trailing `.` components removed, as path
/// normalization removes them.
pub open spec fn spec_path_trim(s: Seq<char>) -> Seq<char>
    decreases s.len(),
{
    if s.len() > 0 && s.last() == '/' {
        spec_path_trim(s.drop_last())
    } else if s.len() > 0 && s.last() == '.' && (s.len() == 1 || s[s.len() - 2] == '/') {
        spec_path_trim(s.drop_last())
    } else {
        s
    }
}

/// The final path component: trailing slashes and trailing `.` components
/// are ignored, and a path that is empty after that, or whose final
/// component is `..`, has none.
pub open spec fn spec_file_name(s: Seq<char>) -> Option<Seq<char>> {
    let t = spec_path_trim(s);
    if t.len() == 0 {
        None
    } else {
        let seg = match spec_rfind_slash(t, t.len() as int) {
            None => t,
            Some(k) => t.subrange(k + 1, t.len() as int),
        };
        if seg == seq!['.', '.'] {
            None
        } else {
            Some(seg)
        }
    }
}

/// Which package name, if any, `spec_validate_name` rejects.
pub open spec fn spec_validate_name(n: Seq<char>) -> Result<(), PkgError> {
    if n.len() == 0 {
        Err(PkgError::EmptyPackageName)
    } else if contains_seq(n, seq!['.', '.']) || contains_char(n, '/') || contains_char(n, '\\') {
        Err(PkgError::InvalidPackageNameFormat)
    } else {
        Ok(())
    }
}

impl PackageManager {
    /// The library directory under the application directory:
    /// `<app>/bin/lib`.
    pub fn get_lib_directory(app_dir: &str) -> (r: String)
        ensures
            r@ == spec_join(spec_join(app_dir@, seq!['b', 'i', 'n']), seq!['l', 'i', 'b']),
    {
        let base = str_chars(app_dir);
        let mut bin: Vec<char> = Vec::new();
        bin.push('b');
        bin.push('i');
        bin.push('n');
        let mut lib: Vec<char> = Vec::new();
        lib.push('l');
        lib.push('i');
        lib.push('b');
        proof {
            assert(bin@ =~= seq!['b', 'i', 'n']);
            assert(lib@ =~= seq!['l', 'i', 'b']);
        }
        let joined = join_path(&join_path(&base, &bin), &lib);
        chars_string(&joined)
    }

    /// The directory a package occupies: `<app>/bin/lib/<name>`.
    pub fn get_package_directory(app_dir: &str, package_name: &str) -> (r: String)
        ensures
            r@ == spec_join(
                spec_join(spec_join(app_dir@, seq!['b', 'i', 'n']), seq!['l', 'i', 'b']),
                package_name@,
            ),
    {
        let lib_dir = Self::get_lib_directory(app_dir);
        let joined = join_path(&str_chars(lib_dir.as_str()), &str_chars(package_name));
        chars_string(&joined)
    }

    /// The package name carried by a package directory path: its final
    /// component.
    pub fn get_package_name(package_dir: &str) -> (r: Result<String, PkgError>)
        ensures
            match r {
                Ok(name) => spec_file_name(package_dir@) == Some(name@),
                Err(e) => spec_file_name(package_dir@) is None && e == PkgError::InvalidPackageDirectory,
            },
    {
        let v = str_chars(package_dir);
        let mut b: usize = v.len();
        proof {
            assert(v@.subrange(0, v@.len() as int) =~= v@);
        }
        while b > 0 && (v[b - 1] == '/' || (v[b - 1] == '.' && (b == 1 || v[b - 2] == '/')))
            invariant
                0 <= b <= v@.len(),
                spec_path_trim(v@) == spec_path_trim(v@.subrange(0, b as int)),
            decreases b,
        {
            proof {
                assert(v@.subrange(0, b as int).drop_last() =~= v@.subrange(0, b - 1));
            }
            b = b - 1;
        }
        proof {
            assert(spec_path_trim(v@.subrange(0, b as int)) =~= v@.subrange(0, b as int));
        }
        let t = copy_range(&v, 0, b);
        if t.len() == 0 {
            return Err(PkgError::InvalidPackageDirectory);
        }
        let mut j: usize = t.len();
        while j > 0
            invariant
                0 <= j <= t@.len(),
                spec_rfind_slash(t@, t@.len() as int) == spec_rfind_slash(t@, j as int),
            ensures
                0 <= j <= t@.len(),
                spec_rfind_slash(t@, t@.len() as int) == spec_rfind_slash(t@, j as int),
                j == 0 || t@[j - 1] == '/',
            decreases j,
        {
            if t[j - 1] == '/' {
                break ;
            }
            j = j - 1;
        }
        let seg = if j == 0 {
            proof {
                assert(spec_rfind_slash(t@, 0) is None);
            }
            copy_range(&t, 0, t.len())
        } else {
            copy_range(&t, j, t.len())
        };
        proof {
            if j == 0 {
                assert(seg@ =~= t@);
            }
        }
        let is_dotdot = seg.len() == 2 && seg[0] == '.' && seg[1] == '.';
        proof {
            if is_dotdot {
                assert(seg@ =~= seq!['.', '.']);
            } else {
                assert(seg@ != seq!['.', '.']) by {
                    if seg@ == seq!['.', '.'] {
                        assert(seg@.len() == 2);
                        assert(seg@[0] == '.');
                        assert(seg@[1] == '.');
                    }
                }
            }
        }
        if is_dotdot {
            return Err(PkgError::InvalidPackageDirectory);
        }
        Ok(chars_string(&seg))
    }

    /// A package name is valid when it is non-empty and holds no `..`, `/`
    /// or `\`.
    pub fn validate_package_name(name: &str) -> (r: Result<(), PkgError>)
        ensures
            r == spec_validate_name(name@),
    {
        let v = str_chars(name);
        let n = v.len();
        if n == 0 {
            return Err(PkgError::EmptyPackageName);
        }
        let mut found = false;
        let mut i: usize = 0;
        while i < n
            invariant
                0 <= i <= n,
                n == v@.len(),
                found == (exists|j: int|
                    0 <= j < i && (matches_at(v@, j, seq!['.', '.']) || v@[j] == '/' || v@[j]
                        == '\\')),
            decreases n - i,
        {
            let ghost found0 = found;
            if v[i] == '/' || v[i] == '\\' {
                found = true;
            } else if i + 1 < n && v[i] == '.' && v[i + 1] == '.' {
                found = true;
                proof {
                    assert(v@.subrange(i as int, i + 2) =~= seq!['.', '.']);
                }
            }
            proof {
                if !found {
                    assert(!matches_at(v@, i as int, seq!['.', '.'])) by {
                        if matches_at(v@, i as int, seq!['.', '.']) {
                            assert(v@.subrange(i as int, i + 2)[0] == '.');
                            assert(v@.subrange(i as int, i + 2)[1] == '.');
                        }
                    }
                }
            }
            i = i + 1;
        }
        proof {
            if found {
                let j = choose|j: int|
                    0 <= j < n && (matches_at(v@, j, seq!['.', '.']) || v@[j] == '/' || v@[j]
                        == '\\');
                if matches_at(v@, j, seq!['.', '.']) {
                    assert(contains_seq(v@, seq!['.', '.']));
                } else if v@[j] == '/' {
                    assert(contains_char(v@, '/'));
                } else {
                    assert(contains_char(v@, '\\'));
                }
            } else {
                assert(!contains_seq(v@, seq!['.', '.'])) by {
                    if contains_seq(v@, seq!['.', '.']) {
                        let j = choose|j: int| 0 <= j && matches_at(v@, j, seq!['.', '.']);
                        assert(j < n);
                    }
                }
                assert(!contains_char(v@, '/'));
                assert(!contains_char(v@, '\\'));
            }
        }
        if found {
            Err(PkgError::InvalidPackageNameFormat)
        } else {
            Ok(())
        }
    }
}

// ---------------------------------------------------------------------------
// GitHub URLs

pub open spec fn git_suffix() -> Seq<char> {
    seq!['.', 'g', 'i', 't']
}

/// Trailing repetitions of `.git` removed.
pub open spec fn spec_strip_git_suffix(s: Seq<char>) -> Seq<char>
    decreases s.len(),
{
    if s.len() >= 4 && matches_at(s, s.len() - 4, git_suffix()) {
        spec_strip_git_suffix(s.subrange(0, s.len() - 4))
    } else {
        s
    }
}

/// Owner and repository of a Git URL: the last two `/`-separated segments,
/// after trailing `.git` repetitions and trailing slashes are removed.  A
/// URL without `/` after that has no such pair.
pub open spec fn spec_github_info(url: Seq<char>) -> Result<(Seq<char>, Seq<char>), PkgError> {
    let t = spec_strip_slashes(spec_strip_git_suffix(url));
    match spec_rfind_slash(t, t.len() as int) {
        None => Err(PkgError::InvalidGitUrl),
        Some(last) => {
            let repo = t.subrange(last + 1, t.len() as int);
            let owner = match spec_rfind_slash(t, last) {
                None => t.subrange(0, last),
                Some(prev) => t.subrange(prev + 1, last),
            };
            Ok((owner, repo))
        },
    }
}

/// The GitHub owner and repository a Git URL names.
pub fn extract_github_info(git_url: &str) -> (r: Result<(String, String), PkgError>)
    ensures
        match r {
            Ok((owner, repo)) => spec_github_info(git_url@) == Ok::<_, PkgError>((owner@, repo@)),
            Err(e) => spec_github_info(git_url@) == Err::<(Seq<char>, Seq<char>), _>(e),
        },
{
    let mut gitext: Vec<char> = Vec::new();
    gitext.push('.');
    gitext.push('g');
    gitext.push('i');
    gitext.push('t');
    proof {
        assert(gitext@ =~= git_suffix());
    }
    let raw = str_chars(git_url);
    let mut v = copy_range(&raw, 0, raw.len());
    proof {
        assert(raw@.subrange(0, raw@.len() as int) =~= raw@);
    }
    while v.len() >= 4 && check_match_at(&v, v.len() - 4, &gitext)
        invariant
            gitext@ == git_suffix(),
            spec_strip_git_suffix(raw@) == spec_strip_git_suffix(v@),
        decreases v@.len(),
    {
        let shorter = copy_range(&v, 0, v.len() - 4);
        v = shorter;
    }
    let mut b: usize = v.len();
    proof {
        assert(v@.subrange(0, v@.len() as int) =~= v@);
    }
    while b > 0 && v[b - 1] == '/'
        invariant
            0 <= b <= v@.len(),
            spec_strip_slashes(v@) == spec_strip_slashes(v@.subrange(0, b as int)),
        decreases b,
    {
        proof {
            assert(v@.subrange(0, b as int).drop_last() =~= v@.subrange(0, b - 1));
        }
        b = b - 1;
    }
    proof {
        assert(spec_strip_slashes(v@.subrange(0, b as int)) =~= v@.subrange(0, b as int));
    }
    let t = copy_range(&v, 0, b);
    let ghost tv = t@;
    // find the last slash
    let mut j: usize = t.len();
    while j > 0
        invariant
            0 <= j <= t@.len(),
            spec_rfind_slash(t@, t@.len() as int) == spec_rfind_slash(t@, j as int),
        ensures
            0 <= j <= t@.len(),
            spec_rfind_slash(t@, t@.len() as int) == spec_rfind_slash(t@, j as int),
            j == 0 || t@[j - 1] == '/',
        decreases j,
    {
        if t[j - 1] == '/' {
            break ;
        }
        j = j - 1;
    }
    if j == 0 {
        proof {
            assert(spec_rfind_slash(t@, 0) is None);
        }
        return Err(PkgError::InvalidGitUrl);
    }
    let last = j - 1;
    let repo = copy_range(&t, last + 1, t.len());
    // find the slash before it
    let mut k: usize = last;
    while k > 0
        invariant
            0 <= k <= last,
            last < t@.len(),
            spec_rfind_slash(t@, last as int) == spec_rfind_slash(t@, k as int),
        ensures
            0 <= k <= last,
            spec_rfind_slash(t@, last as int) == spec_rfind_slash(t@, k as int),
            k == 0 || t@[k - 1] == '/',
        decreases k,
    {
        if t[k - 1] == '/' {
            break ;
        }
        k = k - 1;
    }
    let owner = if k == 0 {
        proof {
            assert(spec_rfind_slash(t@, 0) is None);
        }
        copy_range(&t, 0, last)
    } else {
        copy_range(&t, k, last)
    };
    Ok((chars_string(&owner), chars_string(&repo)))
}

/// The GitHub contents-API URL for a repository's `lib.json`, or the fixed
/// placeholder text for a URL without owner and repository.
pub open spec fn spec_api_url(url: Seq<char>) -> Seq<char> {
    match spec_github_info(url) {
        Err(_) => "Invalid Git URL"@,
        Ok((owner, repo)) => "https://api.github.com/repos/"@ + owner + seq!['/'] + repo
            + "/contents/lib.json"@,
    }
}

pub fn api_url(git_url: &str) -> (r: String)
    ensures
        r@ == spec_api_url(git_url@),
{
    match extract_github_info(git_url) {
        Err(_) => String::from_str("Invalid Git URL"),
        Ok((owner, repo)) => {
            let mut out = String::from_str("https://api.github.com/repos/");
            out.append(owner.as_str());
            out.append("/");
            proof {
                reveal_strlit("/");
                assert("/"@ =~= seq!['/']);
            }
            out.append(repo.as_str());
            out.append("/contents/lib.json");
            out
        },
    }
}

// ---------------------------------------------------------------------------
// GitHub file payloads

/// What the base64 crate's standard-alphabet engine decodes a text to; the
/// result depends on the text alone.
pub uninterp spec fn base64_standard_decode(s: Seq<char>) -> Option<Seq<u8>>;

/// Relies on base64's `STANDARD` engine: decoding is a function of the
/// input text alone, failing exactly on texts that are not standard
/// base64.
#[verifier::external_body]
fn b64_decode(s: &str) -> (r: Option<Vec<u8>>)
    ensures
        match r {
            Some(b) => base64_standard_decode(s@) == Some(b@),
            None => base64_standard_decode(s@) is None,
        },
{
    match base64::engine::general_purpose::STANDARD.decode(s) {
        Ok(b) => Some(b),
        Err(_) => None,
    }
}

/// Relies on `String::from_utf8`: it succeeds exactly on valid UTF-8 and
/// yields its decoding.
#[verifier::external_body]
fn utf8_to_string(bytes: Vec<u8>) -> (r: Option<String>)
    ensures
        match r {
            Some(s) => vstd::utf8::valid_utf8(bytes@) && s@ == vstd::utf8::decode_utf8(bytes@),
            None => !vstd::utf8::valid_utf8(bytes@),
        },
{
    match String::from_utf8(bytes) {
        Ok(s) => Some(s),
        Err(_) => None,
    }
}

/// The text with every newline removed, as the GitHub API's wrapped
/// base64 payload requires before decoding.
pub open spec fn spec_strip_newlines(s: Seq<char>) -> Seq<char>
    decreases s.len(),
{
    if s.len() == 0 {
        Seq::empty()
    } else if s[0] == '\n' {
        spec_strip_newlines(s.drop_first())
    } else {
        seq![s[0]] + spec_strip_newlines(s.drop_first())
    }
}

fn strip_newlines(v: &Vec<char>) -> (r: Vec<char>)
    ensures
        r@ == spec_strip_newlines(v@),
{
    let n = v.len();
    let mut out: Vec<char> = Vec::new();
    let mut i: usize = 0;
    proof {
        assert(v@.skip(0) =~= v@);
        assert(Seq::<char>::empty() =~= out@);
    }
    while i < n
        invariant
            0 <= i <= n,
            n == v@.len(),
            spec_strip_newlines(v@) == out@ + spec_strip_newlines(v@.skip(i as int)),
        decreases n - i,
    {
        let ghost pre = out@;
        let c = v[i];
        proof {
            let rest = v@.skip(i as int);
            assert(rest.len() > 0);
            assert(rest[0] == v@[i as int]);
            assert(rest.drop_first() =~= v@.skip(i + 1));
        }
        if c != '\n' {
            out.push(c);
            proof {
                assert(out@ + spec_strip_newlines(v@.skip(i + 1)) =~= pre + (seq![v@[i as int]]
                    + spec_strip_newlines(v@.skip(i + 1))));
            }
        }
        i = i + 1;
    }
    proof {
        assert(v@.skip(n as int) =~= Seq::<char>::empty());
        assert(out@ + Seq::<char>::empty() =~= out@);
    }
    out
}

/// The text carried by a GitHub file payload: only base64 encoding is
/// supported; newlines are stripped, the rest is base64-decoded, and the
/// bytes must be valid UTF-8.
pub open spec fn spec_decode_github(content: Seq<char>, encoding: Seq<char>) -> Result<
    Seq<char>,
    PkgError,
> {
    if encoding != "base64"@ {
        Err(PkgError::UnsupportedEncoding)
    } else {
        match base64_standard_decode(spec_strip_newlines(content)) {
            None => Err(PkgError::Base64DecodeFailed),
            Some(bytes) => if vstd::utf8::valid_utf8(bytes) {
                Ok(vstd::utf8::decode_utf8(bytes))
            } else {
                Err(PkgError::InvalidUtf8)
            },
        }
    }
}

/// Decode a GitHub contents-API file payload into its text.
pub fn decode_github_file_content(github_file: &GithubFile) -> (r: Result<String, PkgError>)
    ensures
        match r {
            Ok(out) => spec_decode_github(github_file.content@, github_file.encoding@) == Ok::<
                _,
                PkgError,
            >(out@),
            Err(e) => spec_decode_github(github_file.content@, github_file.encoding@) == Err::<
                Seq<char>,
                _,
            >(e),
        },
{
    let label = String::from_str("base64");
    if !(github_file.encoding == label) {
        return Err(PkgError::UnsupportedEncoding);
    }
    let content_chars = str_chars(github_file.content.as_str());
    let stripped = strip_newlines(&content_chars);
    let stripped_str = chars_string(&stripped);
    let bytes = match b64_decode(stripped_str.as_str()) {
        Some(b) => b,
        None => {
            return Err(PkgError::Base64DecodeFailed);
        },
    };
    match utf8_to_string(bytes) {
        Some(s) => Ok(s),
        None => Err(PkgError::InvalidUtf8),
    }
}

} // verus!
