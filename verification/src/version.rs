//! Version numbers of the `vMAJOR.MINOR.PATCH` form used by the language
//! server's release tags.

use vstd::prelude::*;
use crate::text::{
    spec_trim, spec_digit_end, lemma_digit_end, trim, str_chars,
    chars_string, copy_range, digit_end,
};
use crate::optimize::{dec_value, parse_digits_bounded};

verus! {

/// Why a version string was rejected: not three dot-separated parts, or a
/// part that is not an unsigned decimal number.
#[derive(Debug, Clone, PartialEq, Eq)]
pub enum VersionError {
    InvalidFormat(String),
    InvalidMajor(String),
    InvalidMinor(String),
    InvalidPatch(String),
}

pub enum VersionErrorV {
    InvalidFormat(Seq<char>),
    InvalidMajor(Seq<char>),
    InvalidMinor(Seq<char>),
    InvalidPatch(Seq<char>),
}

impl View for VersionError {
    type V = VersionErrorV;

    open spec fn view(&self) -> VersionErrorV {
        match self {
            VersionError::InvalidFormat(s) => VersionErrorV::InvalidFormat(s@),
            VersionError::InvalidMajor(s) => VersionErrorV::InvalidMajor(s@),
            VersionError::InvalidMinor(s) => VersionErrorV::InvalidMinor(s@),
            VersionError::InvalidPatch(s) => VersionErrorV::InvalidPatch(s@),
        }
    }
}

/// A `major.minor.patch` version.
#[derive(Debug, Clone, Copy, PartialEq, Eq, Structural)]
pub struct Version {
    pub major: u32,
    pub minor: u32,
    pub patch: u32,
}

/// Leading `v` characters stripped, as `trim_start_matches('v')` strips
/// them: all of them.
pub open spec fn spec_strip_v(s: Seq<char>, i: int) -> int
    decreases s.len() - i,
{
    if 0 <= i < s.len() && s[i] == 'v' {
        spec_strip_v(s, i + 1)
    } else {
        i
    }
}

/// An unsigned decimal number as `u32::from_str` accepts it: an optional
/// `+`, then at least one digit, value within range.
pub open spec fn spec_parse_u32(p: Seq<char>) -> Option<u32> {
    let st: int = if p.len() > 0 && p[0] == '+' {
        1
    } else {
        0
    };
    if p.len() <= st {
        None
    } else if spec_digit_end(p, st) != p.len() {
        None
    } else if dec_value(p, st, p.len() as int) > u32::MAX {
        None
    } else {
        Some(dec_value(p, st, p.len() as int) as u32)
    }
}

/// The version denoted by `s`: whitespace-trimmed, leading `v`s stripped,
/// then exactly three `.`-separated parts, each an unsigned decimal number.
pub open spec fn spec_parse_version(s: Seq<char>) -> Result<Version, VersionErrorV> {
    let t0 = spec_trim(s);
    let t = t0.skip(spec_strip_v(t0, 0));
    match crate::imports::spec_find_char(t, 0, '.') {
        None => Err(VersionErrorV::InvalidFormat(t)),
        Some(d1) => match crate::imports::spec_find_char(t, d1 + 1, '.') {
            None => Err(VersionErrorV::InvalidFormat(t)),
            Some(d2) => if crate::imports::spec_find_char(t, d2 + 1, '.') is Some {
                Err(VersionErrorV::InvalidFormat(t))
            } else {
                let p0 = t.subrange(0, d1);
                let p1 = t.subrange(d1 + 1, d2);
                let p2 = t.subrange(d2 + 1, t.len() as int);
                match spec_parse_u32(p0) {
                    None => Err(VersionErrorV::InvalidMajor(p0)),
                    Some(major) => match spec_parse_u32(p1) {
                        None => Err(VersionErrorV::InvalidMinor(p1)),
                        Some(minor) => match spec_parse_u32(p2) {
                            None => Err(VersionErrorV::InvalidPatch(p2)),
                            Some(patch) => Ok(Version { major, minor, patch }),
                        },
                    },
                }
            },
        },
    }
}

fn parse_u32_part(p: &Vec<char>) -> (r: Option<u32>)
    ensures
        r == spec_parse_u32(p@),
{
    let st: usize = if p.len() > 0 && p[0] == '+' {
        1
    } else {
        0
    };
    if p.len() <= st {
        return None;
    }
    let de = digit_end(p, st);
    if de != p.len() {
        return None;
    }
    proof {
        lemma_digit_end(p@, st as int);
    }
    match parse_digits_bounded(p, st, p.len(), 0xffff_ffffu64) {
        Some(val) => Some(val as u32),
        None => None,
    }
}

impl Version {
    /// Parse `s` as a version: optional leading `v`s (after trimming),
    /// then exactly `major.minor.patch` with unsigned decimal parts.
    pub fn parse(s: &str) -> (r: Result<Version, VersionError>)
        ensures
            match r {
                Ok(ver) => spec_parse_version(s@) == Ok::<_, VersionErrorV>(ver),
                Err(e) => spec_parse_version(s@) == Err::<Version, _>(e@),
            },
    {
        let raw = str_chars(s);
        let trimmed = trim(&raw);
        let mut sv: usize = 0;
        while sv < trimmed.len() && trimmed[sv] == 'v'
            invariant
                0 <= sv <= trimmed@.len(),
                spec_strip_v(trimmed@, 0) == spec_strip_v(trimmed@, sv as int),
            decreases trimmed@.len() - sv,
        {
            sv = sv + 1;
        }
        let t = copy_range(&trimmed, sv, trimmed.len());
        proof {
            assert(t@ =~= spec_trim(s@).skip(spec_strip_v(spec_trim(s@), 0)));
        }
        let d1 = match crate::imports::find_char(&t, 0, '.') {
            Some(d) => d,
            None => {
                return Err(VersionError::InvalidFormat(chars_string(&t)));
            },
        };
        let d2 = match crate::imports::find_char(&t, d1 + 1, '.') {
            Some(d) => d,
            None => {
                return Err(VersionError::InvalidFormat(chars_string(&t)));
            },
        };
        match crate::imports::find_char(&t, d2 + 1, '.') {
            Some(_) => {
                return Err(VersionError::InvalidFormat(chars_string(&t)));
            },
            None => {},
        }
        let p0 = copy_range(&t, 0, d1);
        let p1 = copy_range(&t, d1 + 1, d2);
        let p2 = copy_range(&t, d2 + 1, t.len());
        let major = match parse_u32_part(&p0) {
            Some(v) => v,
            None => {
                return Err(VersionError::InvalidMajor(chars_string(&p0)));
            },
        };
        let minor = match parse_u32_part(&p1) {
            Some(v) => v,
            None => {
                return Err(VersionError::InvalidMinor(chars_string(&p1)));
            },
        };
        let patch = match parse_u32_part(&p2) {
            Some(v) => v,
            None => {
                return Err(VersionError::InvalidPatch(chars_string(&p2)));
            },
        };
        Ok(Version { major, minor, patch })
    }

    /// Lexicographic comparison on (major, minor, patch): true when `self`
    /// is strictly newer than `other`.
    pub fn newer_than(&self, other: &Version) -> (r: bool)
        ensures
            r == spec_version_gt(*self, *other),
    {
        if self.major != other.major {
            self.major > other.major
        } else if self.minor != other.minor {
            self.minor > other.minor
        } else {
            self.patch > other.patch
        }
    }
}

/// Strictly-newer ordering on versions, major first, then minor, then
/// patch.
pub open spec fn spec_version_gt(a: Version, b: Version) -> bool {
    if a.major != b.major {
        a.major > b.major
    } else if a.minor != b.minor {
        a.minor > b.minor
    } else {
        a.patch > b.patch
    }
}

} // verus!
