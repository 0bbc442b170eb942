use semverity::differ::{diff, ChangeType};
use semverity::version::Version;

fn v(s: &str) -> Version {
    Version::parse(s).unwrap()
}

#[test]
fn differ_test_diff_major() {
    let d = diff(&v("1.0.0"), &v("2.0.0"));
    assert_eq!(d.change_type, ChangeType::Major);
    assert_eq!(d.major_delta, 1);
}

#[test]
fn test_diff_minor() {
    let d = diff(&v("1.0.0"), &v("1.1.0"));
    assert_eq!(d.change_type, ChangeType::Minor);
    assert_eq!(d.minor_delta, 1);
}

#[test]
fn test_diff_patch() {
    let d = diff(&v("1.0.0"), &v("1.0.1"));
    assert_eq!(d.change_type, ChangeType::Patch);
    assert_eq!(d.patch_delta, 1);
}

#[test]
fn test_diff_prerelease() {
    let d = diff(&v("1.0.0-alpha"), &v("1.0.0-beta"));
    assert_eq!(d.change_type, ChangeType::Prerelease);
    assert!(d.prerelease_changed);
}

#[test]
fn test_diff_build() {
    let d = diff(&v("1.0.0+build1"), &v("1.0.0+build2"));
    assert_eq!(d.change_type, ChangeType::Build);
    assert!(d.build_changed);
}

#[test]
fn differ_test_diff_downgrade() {
    let d = diff(&v("2.0.0"), &v("1.0.0"));
    assert_eq!(d.change_type, ChangeType::Downgrade);
    assert_eq!(d.major_delta, -1);
}

#[test]
fn test_diff_equal() {
    let d = diff(&v("1.0.0"), &v("1.0.0"));
    assert_eq!(d.change_type, ChangeType::Equal);
}

#[test]
fn test_diff_display() {
    let d = diff(&v("1.0.0"), &v("2.3.4"));
    let s = d.to_string();
    assert!(s.contains("upgrade"));
    assert!(s.contains("major"));
}

// ---------------------------------------------------------------------------
// Further cases
// ---------------------------------------------------------------------------

#[test]
fn diff_text_exact() {
    assert_eq!(
        diff(&v("1.0.0"), &v("2.3.4")).to_string(),
        "upgrade 1.0.0 → 2.3.4 (major) [major +1, minor +3, patch +4]"
    );
    assert_eq!(
        diff(&v("2.1.0"), &v("1.5.0")).to_string(),
        "downgrade 2.1.0 → 1.5.0 (downgrade) [major -1, minor +4]"
    );
    assert_eq!(diff(&v("1.0.0"), &v("1.0.0")).to_string(), "no change (1.0.0 == 1.0.0)");
    assert_eq!(
        diff(&v("1.0.0-a"), &v("1.0.0-b")).to_string(),
        "upgrade 1.0.0-a → 1.0.0-b (prerelease)"
    );
}

#[test]
fn diff_direction_law_on_examples() {
    // a strict decrease in precedence is a downgrade; otherwise an upgrade kind or equal
    let xs = ["1.0.0", "1.0.0-rc.1", "1.2.0", "0.9.9", "1.0.0+b"];
    for a in xs {
        for b in xs {
            let d = diff(&v(a), &v(b));
            assert_eq!(d.change_type == ChangeType::Downgrade, v(b) < v(a), "{a} {b}");
        }
    }
}

#[test]
fn diff_minor_after_major_drop_is_downgrade_kind() {
    let d = diff(&v("1.0.0-beta"), &v("1.0.0"));
    assert_eq!(d.change_type, ChangeType::Prerelease);
    assert!(d.prerelease_changed);
    assert!(!d.build_changed);
    assert_eq!(ChangeType::Prerelease.as_str(), "prerelease");
    assert_eq!(ChangeType::Equal.as_str(), "equal");
    assert_eq!(ChangeType::Downgrade.as_str(), "downgrade");
}
