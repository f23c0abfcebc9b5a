//! Version parsing and the caret compatibility advice.

use mdbook_dice::version::{
    check_host_version, parse_version, versions_compatible, ParsedVersion, VersionCompat,
};

fn v(major: u64, minor: u64, patch: u64) -> ParsedVersion {
    ParsedVersion { major, minor, patch, prerelease: false }
}

#[test]
fn parse_version_reads_the_triple() {
    let p = parse_version("0.4.37").unwrap();
    assert_eq!(p, v(0, 4, 37));
    let q = parse_version("1.2.3-alpha.1").unwrap();
    assert_eq!(q.major, 1);
    assert_eq!(q.minor, 2);
    assert_eq!(q.patch, 3);
    assert!(q.prerelease);
}

#[test]
fn parse_version_rejects_non_versions() {
    assert!(parse_version("").is_none());
    assert!(parse_version("not a version").is_none());
    assert!(parse_version("1.2").is_none());
}

#[test]
fn caret_compatibility_on_triples() {
    assert!(versions_compatible(&v(0, 4, 37), &v(0, 4, 37)));
    assert!(versions_compatible(&v(0, 4, 37), &v(0, 4, 40)));
    assert!(!versions_compatible(&v(0, 4, 37), &v(0, 4, 36)));
    assert!(!versions_compatible(&v(0, 4, 37), &v(0, 5, 0)));
    assert!(!versions_compatible(&v(0, 4, 37), &v(1, 4, 37)));
    assert!(versions_compatible(&v(1, 2, 3), &v(1, 3, 0)));
    assert!(versions_compatible(&v(1, 2, 3), &v(1, 2, 4)));
    assert!(!versions_compatible(&v(1, 2, 3), &v(1, 2, 2)));
    assert!(!versions_compatible(&v(1, 2, 3), &v(2, 0, 0)));
    assert!(versions_compatible(&v(0, 0, 3), &v(0, 0, 3)));
    assert!(!versions_compatible(&v(0, 0, 3), &v(0, 0, 4)));
}

#[test]
fn prerelease_never_counts_as_compatible() {
    let pre = ParsedVersion { major: 1, minor: 0, patch: 0, prerelease: true };
    assert!(!versions_compatible(&v(1, 0, 0), &pre));
    assert!(!versions_compatible(&pre, &v(1, 0, 0)));
}

#[test]
fn host_version_advice() {
    assert_eq!(check_host_version("0.4.37", "0.4.40"), VersionCompat::Compatible);
    assert_eq!(check_host_version("0.4.37", "0.5.0"), VersionCompat::Mismatch);
    assert_eq!(check_host_version("0.4.37", "nope"), VersionCompat::SuppliedUnparsable);
    assert_eq!(check_host_version("nope", "0.4.40"), VersionCompat::ExpectedUnparsable);
    // The supplied text is read first, so it decides when both fail.
    assert_eq!(check_host_version("nope", "also nope"), VersionCompat::SuppliedUnparsable);
    assert_eq!(check_host_version("1.0.0", "1.0.1-alpha"), VersionCompat::Mismatch);
}
