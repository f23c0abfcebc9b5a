//! Version compatibility between the plugin and its host: the host's
//! declared version and the version the plugin was built for are parsed,
//! and held against each other under the host tool's default reading of a
//! bare version, caret compatibility. A mismatch is advice, never an
//! error; text that is no version at all is.

use vstd::prelude::*;

verus! {

/// What parsing a semantic version from text yields: the numeric triple
/// and the pre-release text, or nothing for text that is no version.
pub uninterp spec fn parsed_version(s: Seq<char>) -> Option<(u64, u64, u64, Seq<char>)>;

/// Relies on `semver::Version::parse`: it reads a strict SemVer version
/// (major, minor and patch numbers with an optional pre-release and build
/// part) from its argument alone, and fails exactly on text that is no
/// such version.
#[verifier::external_body]
fn parse_version_raw(s: &str) -> (r: Option<(u64, u64, u64, String)>)
    ensures
        match r {
            Some(t) => parsed_version(s@) == Some((t.0, t.1, t.2, t.3@)),
            None => parsed_version(s@) is None,
        },
{
    match semver::Version::parse(s) {
        Ok(v) => Some((v.major, v.minor, v.patch, String::from(v.pre.as_str()))),
        Err(_) => None,
    }
}

/// A parsed version, as the plain values the compatibility rule reads:
/// the numeric triple, and whether a pre-release part was present.
#[derive(Clone, Copy, PartialEq, Eq, Structural, Debug)]
pub struct ParsedVersion {
    pub major: u64,
    pub minor: u64,
    pub patch: u64,
    pub prerelease: bool,
}

/// The [`ParsedVersion`] a raw parse result stands for.
pub open spec fn spec_version_view(t: (u64, u64, u64, Seq<char>)) -> ParsedVersion {
    ParsedVersion { major: t.0, minor: t.1, patch: t.2, prerelease: t.3.len() > 0 }
}

/// Parse version text into the plain values the compatibility rule reads.
pub fn parse_version(s: &str) -> (r: Option<ParsedVersion>)
    ensures
        match r {
            Some(v) => parsed_version(s@) matches Some(t) && v == spec_version_view(t),
            None => parsed_version(s@) is None,
        },
{
    match parse_version_raw(s) {
        Some(t) => {
            let pre_empty = t.3.as_str().is_empty();
            Some(ParsedVersion { major: t.0, minor: t.1, patch: t.2, prerelease: !pre_empty })
        }
        None => None,
    }
}

/// Caret compatibility of an actual version `a` with an expected version
/// `e`: the leftmost nonzero part of `e` must agree, the parts after it
/// order the versions upward. A pre-release on either side never counts
/// as compatible.
pub open spec fn spec_caret_compatible(e: ParsedVersion, a: ParsedVersion) -> bool {
    &&& !e.prerelease
    &&& !a.prerelease
    &&& e.major == a.major
    &&& if e.major > 0 {
        (a.minor > e.minor) || (a.minor == e.minor && a.patch >= e.patch)
    } else {
        &&& a.minor == e.minor
        &&& if e.minor > 0 {
            a.patch >= e.patch
        } else {
            a.patch == e.patch
        }
    }
}

/// Decide caret compatibility, exactly as [`spec_caret_compatible`] reads it.
pub fn versions_compatible(expected: &ParsedVersion, actual: &ParsedVersion) -> (b: bool)
    ensures
        b == spec_caret_compatible(*expected, *actual),
{
    if expected.prerelease || actual.prerelease {
        return false;
    }
    if expected.major != actual.major {
        return false;
    }
    if expected.major > 0 {
        actual.minor > expected.minor || (actual.minor == expected.minor && actual.patch
            >= expected.patch)
    } else {
        if actual.minor != expected.minor {
            return false;
        }
        if expected.minor > 0 {
            actual.patch >= expected.patch
        } else {
            actual.patch == expected.patch
        }
    }
}

/// The outcome of holding the host's declared version against the one
/// the plugin expects.
#[derive(Clone, Copy, PartialEq, Eq, Structural, Debug)]
pub enum VersionCompat {
    Compatible,
    Mismatch,
    SuppliedUnparsable,
    ExpectedUnparsable,
}

/// Hold the host's supplied version text against the expected version
/// text. The supplied text is read first; either text failing to parse is
/// its own outcome, and otherwise the caret rule decides between
/// compatible and mismatch.
pub fn check_host_version(expected: &str, supplied: &str) -> (r: VersionCompat)
    ensures
        match (parsed_version(supplied@), parsed_version(expected@)) {
            (Option::None, _) => r is SuppliedUnparsable,
            (Option::Some(_), Option::None) => r is ExpectedUnparsable,
            (Option::Some(a), Option::Some(e)) => if spec_caret_compatible(
                spec_version_view(e),
                spec_version_view(a),
            ) {
                r is Compatible
            } else {
                r is Mismatch
            },
        },
{
    let supplied_v = match parse_version(supplied) {
        Some(v) => v,
        None => {
            return VersionCompat::SuppliedUnparsable;
        }
    };
    let expected_v = match parse_version(expected) {
        Some(v) => v,
        None => {
            return VersionCompat::ExpectedUnparsable;
        }
    };
    if versions_compatible(&expected_v, &supplied_v) {
        VersionCompat::Compatible
    } else {
        VersionCompat::Mismatch
    }
}

} // verus!
