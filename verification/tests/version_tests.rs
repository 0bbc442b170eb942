use semverity::sorting::{latest, lowest, sort_versions};
use semverity::version::{Order, ParseError, Version};
use std::cmp::Ordering;

fn v(s: &str) -> Version {
    Version::parse(s).unwrap()
}

#[test]
fn test_parse_simple() {
    let v = Version::parse("1.2.3").unwrap();
    assert_eq!(v.major, 1);
    assert_eq!(v.minor, 2);
    assert_eq!(v.patch, 3);
    assert!(v.pre.is_empty());
    assert!(v.build.is_empty());
}

#[test]
fn version_test_parse_prerelease() {
    let v = Version::parse("1.0.0-alpha.1").unwrap();
    assert_eq!(v.pre, vec!["alpha", "1"]);
    assert!(v.is_prerelease());
}

#[test]
fn test_parse_build() {
    let v = Version::parse("1.0.0+build.123").unwrap();
    assert_eq!(v.build, vec!["build", "123"]);
    assert!(v.is_stable());
}

#[test]
fn test_parse_prerelease_and_build() {
    let v = Version::parse("1.0.0-beta.2+exp.sha.5114f85").unwrap();
    assert_eq!(v.pre, vec!["beta", "2"]);
    assert_eq!(v.build, vec!["exp", "sha", "5114f85"]);
}

#[test]
fn version_test_parse_invalid() {
    assert!(Version::parse("").is_err());
    assert!(Version::parse("1").is_err());
    assert!(Version::parse("1.2").is_err());
    assert!(Version::parse("01.2.3").is_err());
    assert!(Version::parse("1.02.3").is_err());
    assert!(Version::parse("1.2.03").is_err());
    assert!(Version::parse("1.2.3-").is_err());
    assert!(Version::parse("1.2.3-01").is_err()); // leading zero in pre
}

#[test]
fn test_display() {
    assert_eq!(Version::new(1, 2, 3).to_string(), "1.2.3");
    let v = Version::new(1, 0, 0).with_pre(vec!["alpha".into()]);
    assert_eq!(v.to_string(), "1.0.0-alpha");
    let v = Version::new(1, 0, 0)
        .with_pre(vec!["beta".into(), "2".into()])
        .with_build(vec!["sha".into(), "abc".into()]);
    assert_eq!(v.to_string(), "1.0.0-beta.2+sha.abc");
}

#[test]
fn test_compare_basic() {
    assert!(Version::new(2, 0, 0) > Version::new(1, 0, 0));
    assert!(Version::new(1, 1, 0) > Version::new(1, 0, 0));
    assert!(Version::new(1, 0, 1) > Version::new(1, 0, 0));
    assert_eq!(Version::new(1, 0, 0), Version::new(1, 0, 0));
}

#[test]
fn test_compare_prerelease() {
    // Stable > pre-release
    assert!(Version::new(1, 0, 0) > Version::parse("1.0.0-alpha").unwrap());

    // Pre-release ordering
    let alpha = Version::parse("1.0.0-alpha").unwrap();
    let alpha1 = Version::parse("1.0.0-alpha.1").unwrap();
    let beta = Version::parse("1.0.0-beta").unwrap();
    let beta2 = Version::parse("1.0.0-beta.2").unwrap();
    let beta11 = Version::parse("1.0.0-beta.11").unwrap();

    assert!(alpha < alpha1);
    assert!(alpha1 < beta);
    assert!(beta < beta2);
    assert!(beta2 < beta11);
}

#[test]
fn test_compare_numeric_vs_alpha() {
    // Numeric < alphanumeric
    let num = Version::parse("1.0.0-1").unwrap();
    let alpha = Version::parse("1.0.0-alpha").unwrap();
    assert!(num < alpha);
}

#[test]
fn test_build_metadata_ignored() {
    let a = Version::parse("1.0.0+build1").unwrap();
    let b = Version::parse("1.0.0+build2").unwrap();
    assert_eq!(a, b); // Build metadata doesn't affect precedence
}

#[test]
fn test_sort() {
    let mut versions: Vec<Version> = vec![
        Version::parse("1.0.0").unwrap(),
        Version::parse("1.0.0-alpha").unwrap(),
        Version::parse("2.0.0").unwrap(),
        Version::parse("1.0.0-beta").unwrap(),
        Version::parse("1.1.0").unwrap(),
    ];
    sort_versions(&mut versions);
    assert_eq!(versions[0].to_string(), "1.0.0-alpha");
    assert_eq!(versions[1].to_string(), "1.0.0-beta");
    assert_eq!(versions[2].to_string(), "1.0.0");
    assert_eq!(versions[3].to_string(), "1.1.0");
    assert_eq!(versions[4].to_string(), "2.0.0");
}

#[test]
fn test_bump() {
    let v = Version::new(1, 2, 3);
    assert_eq!(v.bump_major().to_string(), "2.0.0");
    assert_eq!(v.bump_minor().to_string(), "1.3.0");
    assert_eq!(v.bump_patch().to_string(), "1.2.4");
}

#[test]
fn version_test_bump_prerelease() {
    let v = Version::parse("1.0.0-alpha.1").unwrap();
    let bumped = v.bump_prerelease("alpha");
    assert_eq!(bumped.to_string(), "1.0.0-alpha.2");

    let v2 = Version::new(1, 0, 0);
    let bumped2 = v2.bump_prerelease("beta");
    assert_eq!(bumped2.to_string(), "1.0.0-beta");
}

#[test]
fn test_core() {
    let v = Version::parse("1.2.3-alpha+build").unwrap();
    assert_eq!(v.core_string(), "1.2.3");
}

// ---------------------------------------------------------------------------
// Further cases
// ---------------------------------------------------------------------------

#[test]
fn parse_error_variants() {
    assert_eq!(Version::parse(""), Err(ParseError::Empty));
    assert_eq!(Version::parse("   "), Err(ParseError::Empty));
    assert!(matches!(Version::parse("1.2"), Err(ParseError::InvalidCore(_))));
    assert!(matches!(Version::parse("1.x.3"), Err(ParseError::InvalidCore(_))));
    assert_eq!(Version::parse("01.2.3"), Err(ParseError::LeadingZero("major".to_string())));
    assert_eq!(Version::parse("1.2.3-"), Err(ParseError::EmptyIdentifier));
    assert_eq!(Version::parse("1.2.3-a..b"), Err(ParseError::EmptyIdentifier));
    assert_eq!(
        Version::parse("1.2.3-01"),
        Err(ParseError::LeadingZero("pre-release identifier".to_string()))
    );
    assert!(matches!(Version::parse("1.2.3-a_b"), Err(ParseError::InvalidIdentifier(_))));
    assert!(matches!(Version::parse("1.2.3+b@d"), Err(ParseError::InvalidIdentifier(_))));
}

#[test]
fn parse_error_messages() {
    assert_eq!(ParseError::Empty.message(), "empty version string");
    assert_eq!(
        ParseError::InvalidCore("x".to_string()).message(),
        "invalid version core: x"
    );
    assert_eq!(
        ParseError::LeadingZero("minor".to_string()).message(),
        "minor has leading zero"
    );
    assert_eq!(
        ParseError::EmptyIdentifier.message(),
        "empty identifier in pre-release/build"
    );
    assert_eq!(
        ParseError::InvalidIdentifier("a_b".to_string()).message(),
        "invalid identifier: a_b"
    );
}

#[test]
fn parse_trims_and_reads_large_numbers() {
    let x = v("  18446744073709551615.0.0  ");
    assert_eq!(x.major, u64::MAX);
    assert!(Version::parse("18446744073709551616.0.0").is_err());
    assert_eq!(v("0.0.0").to_string(), "0.0.0");
}

#[test]
fn parse_display_roundtrip_on_examples() {
    for s in ["1.2.3", "0.0.1-alpha.7+x.y", "10.20.30-rc.1", "1.0.0+build.5"] {
        assert_eq!(v(s).to_string(), s);
        assert_eq!(v(&v(s).to_string()).to_string(), s);
    }
}

#[test]
fn precedence_is_antisymmetric_and_reflexive_on_examples() {
    let xs = ["1.0.0-alpha", "1.0.0-alpha.1", "1.0.0-1", "1.0.0", "2.0.0+b"];
    for a in xs {
        assert_eq!(v(a).compare(&v(a)), Ordering::Equal);
        for b in xs {
            assert_eq!(v(a).compare(&v(b)), v(b).compare(&v(a)).reverse());
        }
    }
    assert_eq!(v("1.0.0-alpha").precedence_to(&v("1.0.0")), Order::Less);
    assert_eq!(v("1.0.0-beta.11").precedence_to(&v("1.0.0-beta.2")), Order::Greater);
}

#[test]
fn bump_prerelease_numeric_and_alpha_tail() {
    assert_eq!(v("1.0.0-rc").bump_prerelease("x").to_string(), "1.0.0-rc.0");
    assert_eq!(v("1.0.0-rc.9").bump_prerelease("x").to_string(), "1.0.0-rc.10");
    assert_eq!(v("1.2.3+meta").bump_prerelease("a").to_string(), "1.2.3-a");
    assert!(v("1.0.0-rc.1").bump_prerelease("x") > v("1.0.0-rc.1"));
}

#[test]
fn bumps_clear_pre_and_build() {
    let x = v("1.2.3-alpha+b");
    assert_eq!(x.bump_major().to_string(), "2.0.0");
    assert_eq!(x.bump_minor().to_string(), "1.3.0");
    assert_eq!(x.bump_patch().to_string(), "1.2.4");
    assert!(x.bump_patch() > x);
}

#[test]
fn sort_is_stable_for_equal_precedence() {
    let mut versions = vec![v("1.0.0+b"), v("0.9.0"), v("1.0.0+a"), v("1.0.0")];
    sort_versions(&mut versions);
    let texts: Vec<String> = versions.iter().map(|x| x.to_string()).collect();
    assert_eq!(texts, vec!["0.9.0", "1.0.0+b", "1.0.0+a", "1.0.0"]);
}

#[test]
fn latest_and_lowest_pick() {
    let versions = vec![v("1.0.0"), v("3.0.0"), v("2.0.0")];
    assert_eq!(latest(&versions), Some(1));
    assert_eq!(lowest(&versions), Some(0));
    let ties = vec![v("1.0.0+a"), v("1.0.0+b")];
    assert_eq!(latest(&ties), Some(1));
    assert_eq!(lowest(&ties), Some(0));
    assert_eq!(latest(&[]), None);
    assert_eq!(lowest(&[]), None);
}

#[test]
fn from_str_parses() {
    let x: Version = "4.5.6-rc.1".parse().unwrap();
    assert_eq!(x.to_string(), "4.5.6-rc.1");
    assert!("4.5".parse::<Version>().is_err());
}

#[test]
fn strict_core_and_build() {
    assert_eq!(Version::parse("1.0.0+"), Err(ParseError::EmptyIdentifier));
    assert!(matches!(Version::parse("1.+2.3"), Err(ParseError::InvalidCore(_))));
    assert!(matches!(Version::parse("+1.2.3"), Err(ParseError::InvalidCore(_))));
    for s in ["1.2.3", "1.0.0-rc.1+b.7", " 2.0.0-x "] {
        assert_eq!(v(s).to_string(), s.trim());
    }
}

#[test]
fn large_numeric_identifiers_compare_by_value() {
    assert!(v("1.0.0-18446744073709551616") > v("1.0.0-1"));
    assert!(v("1.0.0-99999999999999999999") < v("1.0.0-100000000000000000000"));
    assert!(v("1.0.0-18446744073709551616") < v("1.0.0-a"));
    assert_eq!(
        v("1.0.0-18446744073709551616").bump_prerelease("x").to_string(),
        "1.0.0-18446744073709551616"
    );
}

#[test]
fn display_gives_back_the_trimmed_input() {
    for s in ["1.2.3", "0.0.0", "10.20.30-rc.1", "1.0.0-alpha.0.x+build.007", "3.4.5+meta-data"] {
        let padded = format!("  {}\t", s);
        assert_eq!(Version::parse(&padded).unwrap().to_string(), s);
    }
}
