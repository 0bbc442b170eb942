use semverity::ecosystem::{parse_range, try_parse_range, Ecosystem, RangeParseError};
use semverity::version::Version;
use std::str::FromStr;

fn v(s: &str) -> Version {
    Version::parse(s).unwrap()
}

// NPM tests

#[test]
fn test_npm_caret() {
    let range = parse_range("^1.2.3", Ecosystem::Npm).unwrap();
    assert!(range.contains(&v("1.2.3")));
    assert!(range.contains(&v("1.9.0")));
    assert!(!range.contains(&v("2.0.0")));
    assert!(!range.contains(&v("1.2.2")));
}

#[test]
fn test_npm_caret_zero_major() {
    let range = parse_range("^0.2.3", Ecosystem::Npm).unwrap();
    assert!(range.contains(&v("0.2.3")));
    assert!(range.contains(&v("0.2.9")));
    assert!(!range.contains(&v("0.3.0")));

    let range = parse_range("^0.0.3", Ecosystem::Npm).unwrap();
    assert!(range.contains(&v("0.0.3")));
    assert!(!range.contains(&v("0.0.4")));
}

#[test]
fn test_npm_tilde() {
    let range = parse_range("~1.2.3", Ecosystem::Npm).unwrap();
    assert!(range.contains(&v("1.2.3")));
    assert!(range.contains(&v("1.2.9")));
    assert!(!range.contains(&v("1.3.0")));

    let range = parse_range("~1.2", Ecosystem::Npm).unwrap();
    assert!(range.contains(&v("1.2.0")));
    assert!(range.contains(&v("1.2.9")));
    assert!(!range.contains(&v("1.3.0")));

    let range = parse_range("~1", Ecosystem::Npm).unwrap();
    assert!(range.contains(&v("1.0.0")));
    assert!(range.contains(&v("1.9.9")));
    assert!(!range.contains(&v("2.0.0")));
}

#[test]
fn test_npm_comparators() {
    let range = parse_range(">=1.2.3", Ecosystem::Npm).unwrap();
    assert!(range.contains(&v("1.2.3")));
    assert!(range.contains(&v("2.0.0")));
    assert!(!range.contains(&v("1.2.2")));

    let range = parse_range(">1.2.3", Ecosystem::Npm).unwrap();
    assert!(!range.contains(&v("1.2.3")));
    assert!(range.contains(&v("1.2.4")));

    let range = parse_range("<=2.0.0", Ecosystem::Npm).unwrap();
    assert!(range.contains(&v("2.0.0")));
    assert!(range.contains(&v("1.0.0")));
    assert!(!range.contains(&v("2.0.1")));

    let range = parse_range("<2.0.0", Ecosystem::Npm).unwrap();
    assert!(!range.contains(&v("2.0.0")));
    assert!(range.contains(&v("1.9.9")));

    let range = parse_range("=1.2.3", Ecosystem::Npm).unwrap();
    assert!(range.contains(&v("1.2.3")));
    assert!(!range.contains(&v("1.2.4")));
}

#[test]
fn test_npm_union() {
    let range = parse_range(">=1.0.0 <2.0.0 || >=3.0.0", Ecosystem::Npm).unwrap();
    assert!(range.contains(&v("1.5.0")));
    assert!(!range.contains(&v("2.5.0")));
    assert!(range.contains(&v("3.0.0")));
    assert!(range.contains(&v("4.0.0")));
}

#[test]
fn test_npm_intersection() {
    let range = parse_range(">=1.0.0 <2.0.0", Ecosystem::Npm).unwrap();
    assert!(range.contains(&v("1.5.0")));
    assert!(!range.contains(&v("0.5.0")));
    assert!(!range.contains(&v("2.0.0")));
}

#[test]
fn test_npm_wildcard() {
    let range = parse_range("*", Ecosystem::Npm).unwrap();
    assert!(range.contains(&v("0.0.1")));
    assert!(range.contains(&v("99.99.99")));
}

// Cargo tests

#[test]
fn test_caret_cargo() {
    let range = parse_range("^1.2.3", Ecosystem::Cargo).unwrap();
    assert!(range.contains(&v("1.2.3")));
    assert!(range.contains(&v("1.9.0")));
    assert!(!range.contains(&v("2.0.0")));
}

#[test]
fn test_cargo_comma() {
    let range = parse_range(">=1.0.0, <2.0.0", Ecosystem::Cargo).unwrap();
    assert!(range.contains(&v("1.5.0")));
    assert!(!range.contains(&v("2.0.0")));
}

// Pip tests

#[test]
fn test_pip_compat() {
    let range = parse_range("~=1.2.3", Ecosystem::Pip).unwrap();
    assert!(range.contains(&v("1.2.3")));
    assert!(range.contains(&v("1.2.9")));
    assert!(!range.contains(&v("1.3.0")));

    let range = parse_range("~=1.2", Ecosystem::Pip).unwrap();
    assert!(range.contains(&v("1.2.0")));
    assert!(range.contains(&v("1.9.0")));
    assert!(!range.contains(&v("2.0.0")));
}

#[test]
fn test_pip_neq() {
    let range = parse_range("!=1.2.3", Ecosystem::Pip).unwrap();
    assert!(!range.contains(&v("1.2.3")));
    assert!(range.contains(&v("1.2.4")));
    assert!(range.contains(&v("1.2.2")));
}

#[test]
fn test_pip_comma() {
    let range = parse_range(">=1.0.0, <2.0.0", Ecosystem::Pip).unwrap();
    assert!(range.contains(&v("1.5.0")));
    assert!(!range.contains(&v("2.0.0")));
}

// Gem tests

#[test]
fn test_gem_pessimistic() {
    let range = parse_range("~>1.2.3", Ecosystem::Gem).unwrap();
    assert!(range.contains(&v("1.2.3")));
    assert!(range.contains(&v("1.2.9")));
    assert!(!range.contains(&v("1.3.0")));

    let range = parse_range("~>1.2", Ecosystem::Gem).unwrap();
    assert!(range.contains(&v("1.2.0")));
    assert!(range.contains(&v("1.9.0")));
    assert!(!range.contains(&v("2.0.0")));
}

#[test]
fn test_gem_comma() {
    let range = parse_range(">=1.0.0, <2.0.0", Ecosystem::Gem).unwrap();
    assert!(range.contains(&v("1.5.0")));
    assert!(!range.contains(&v("2.0.0")));
}

#[test]
fn test_ecosystem_parse() {
    assert_eq!(Ecosystem::from_str("npm").unwrap(), Ecosystem::Npm);
    assert_eq!(Ecosystem::from_str("cargo").unwrap(), Ecosystem::Cargo);
    assert_eq!(Ecosystem::from_str("pip").unwrap(), Ecosystem::Pip);
    assert_eq!(Ecosystem::from_str("gem").unwrap(), Ecosystem::Gem);
    assert!(Ecosystem::from_str("unknown").is_err());
}

// ---------------------------------------------------------------------------
// Further cases
// ---------------------------------------------------------------------------

#[test]
fn ecosystem_names_and_aliases() {
    assert_eq!(Ecosystem::from_str("NodeJS").unwrap(), Ecosystem::Npm);
    assert_eq!(Ecosystem::from_str("Rust").unwrap(), Ecosystem::Cargo);
    assert_eq!(Ecosystem::all().len(), 4);
    let names: Vec<&str> = Ecosystem::all().iter().map(|e| e.as_str()).collect();
    assert_eq!(names, vec!["npm", "cargo", "pip", "gem"]);
    assert_eq!(Ecosystem::from_str("maven"), Err("unknown ecosystem: maven".to_string()));
}

#[test]
fn range_errors() {
    assert!(matches!(parse_range(">=x.y", Ecosystem::Npm), Err(_)));
    assert_eq!(parse_range("^01.2.3", Ecosystem::Npm), Err(RangeParseError::LeadingZero));
    assert!(parse_range("", Ecosystem::Npm).unwrap().contains(&v("5.0.0")));
    assert_eq!(
        RangeParseError::InvalidFormat("x".to_string()).message(),
        "invalid range format: x"
    );
    assert_eq!(RangeParseError::LeadingZero.message(), "leading zero in version number");
    assert_eq!(
        RangeParseError::InvalidVersion("y".to_string()).message(),
        "invalid version: y"
    );
}

#[test]
fn overflowing_bound_is_told_apart() {
    assert!(try_parse_range("^18446744073709551615.0.0", Ecosystem::Npm).is_none());
    assert!(try_parse_range("^1.0.0", Ecosystem::Npm).unwrap().is_ok());
}

#[test]
fn npm_conjunction_law_on_examples() {
    let both = parse_range(">=1.2.0 <1.5.0", Ecosystem::Npm).unwrap();
    let a = parse_range(">=1.2.0", Ecosystem::Npm).unwrap();
    let b = parse_range("<1.5.0", Ecosystem::Npm).unwrap();
    for s in ["1.1.9", "1.2.0", "1.4.9", "1.5.0"] {
        assert_eq!(both.contains(&v(s)), a.contains(&v(s)) && b.contains(&v(s)), "{s}");
    }
}

#[test]
fn partial_versions_and_prerelease_bounds() {
    let r = parse_range("^1.2", Ecosystem::Cargo).unwrap();
    assert!(r.contains(&v("1.2.0")));
    assert!(r.contains(&v("1.99.0")));
    assert!(!r.contains(&v("2.0.0")));
    let r = parse_range(">=1.0.0-rc.1", Ecosystem::Npm).unwrap();
    assert!(r.contains(&v("1.0.0-rc.2")));
    assert!(!r.contains(&v("1.0.0-beta")));
    // a bare version is an exact match
    let r = parse_range("1.2.3", Ecosystem::Cargo).unwrap();
    assert!(r.contains(&v("1.2.3")));
    assert!(!r.contains(&v("1.5.0")));
    assert!(!r.contains(&v("1.2.2")));
}

#[test]
fn npm_x_ranges() {
    let r = parse_range("1.2.x", Ecosystem::Npm).unwrap();
    assert!(r.contains(&v("1.2.0")));
    assert!(r.contains(&v("1.2.5")));
    assert!(!r.contains(&v("1.3.0")));
    let s = parse_range("1.x", Ecosystem::Npm).unwrap();
    assert!(s.contains(&v("1.5.0")));
    assert!(!s.contains(&v("2.0.0")));
    let t = parse_range("1.2", Ecosystem::Npm).unwrap();
    assert!(t.contains(&v("1.2.7")));
    assert!(!t.contains(&v("1.1.9")));
    assert!(parse_range("x", Ecosystem::Npm).unwrap().contains(&v("7.0.0")));
    let exact = parse_range("1.2.3", Ecosystem::Npm).unwrap();
    assert!(exact.contains(&v("1.2.3")));
    assert!(!exact.contains(&v("1.2.4")));
    // `||` of alternatives with a shared lower version
    let u = parse_range(">1.0.0 <2.0.0 || >=1.0.0 <=1.5.0", Ecosystem::Npm).unwrap();
    assert!(u.contains(&v("1.0.0")));
}

#[test]
fn malformed_partial_versions_are_refused() {
    assert!(parse_range(">=1.2.3.4", Ecosystem::Npm).is_err());
    assert!(parse_range("1..3", Ecosystem::Npm).is_err());
    assert!(parse_range("^1.", Ecosystem::Cargo).is_err());
    assert!(parse_range("~=1.2.3.4", Ecosystem::Pip).is_err());
    assert!(matches!(
        parse_range("1.2.3.4", Ecosystem::Npm),
        Err(RangeParseError::InvalidFormat(_))
    ));
}
