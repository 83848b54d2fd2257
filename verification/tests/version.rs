use dao_os::version::{parse_version, Version, VersionReq};

fn v(major: u64, minor: u64, patch: u64) -> Version {
    Version { major, minor, patch }
}

#[test]
fn parse_simple_version() {
    assert_eq!(parse_version("1.2.3"), Some(v(1, 2, 3)));
    assert_eq!(parse_version("0.0.0"), Some(v(0, 0, 0)));
    assert_eq!(parse_version("10.20.30"), Some(v(10, 20, 30)));
}

#[test]
fn parse_large_components() {
    assert_eq!(
        parse_version("18446744073709551615.0.1"),
        Some(v(u64::MAX, 0, 1))
    );
}

#[test]
fn parse_rejects_malformed() {
    assert_eq!(parse_version(""), None);
    assert_eq!(parse_version("1"), None);
    assert_eq!(parse_version("1.2"), None);
    assert_eq!(parse_version("1.2.3.4"), None);
    assert_eq!(parse_version("1..3"), None);
    assert_eq!(parse_version(".2.3"), None);
    assert_eq!(parse_version("1.2."), None);
    assert_eq!(parse_version("a.b.c"), None);
    assert_eq!(parse_version("1.2.3-beta"), None);
    assert_eq!(parse_version("v1.2.3"), None);
}

#[test]
fn parse_rejects_overflow() {
    // One more than u64::MAX in the patch position.
    assert_eq!(parse_version("1.0.18446744073709551616"), None);
}

#[test]
fn version_ordering() {
    assert!(v(1, 0, 0).lt(&v(1, 0, 1)));
    assert!(v(1, 0, 9).lt(&v(1, 1, 0)));
    assert!(v(1, 9, 9).lt(&v(2, 0, 0)));
    assert!(!v(2, 0, 0).lt(&v(1, 9, 9)));
    assert!(!v(1, 2, 3).lt(&v(1, 2, 3)));
}

#[test]
fn requirement_matching() {
    assert!(v(1, 2, 3).matches_req(&VersionReq::Exact(v(1, 2, 3))));
    assert!(!v(1, 2, 4).matches_req(&VersionReq::Exact(v(1, 2, 3))));
    // Compatible: same major, minor.patch at least the requested pair.
    assert!(v(1, 3, 0).matches_req(&VersionReq::Compatible(v(1, 2, 9))));
    assert!(v(1, 2, 9).matches_req(&VersionReq::Compatible(v(1, 2, 9))));
    assert!(!v(1, 2, 8).matches_req(&VersionReq::Compatible(v(1, 2, 9))));
    assert!(!v(2, 0, 0).matches_req(&VersionReq::Compatible(v(1, 0, 0))));
    assert!(v(0, 1, 0).matches_req(&VersionReq::Latest));
}
