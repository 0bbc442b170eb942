use semverity::bumper::{bump, bump_from_commit, bump_from_commits, checked_bump, BumpType};
use semverity::version::Version;

fn v(s: &str) -> Version {
    Version::parse(s).unwrap()
}

#[test]
fn bumper_test_bump_major() {
    assert_eq!(bump(&v("1.2.3"), BumpType::Major, "").to_string(), "2.0.0");
}

#[test]
fn bumper_test_bump_minor() {
    assert_eq!(bump(&v("1.2.3"), BumpType::Minor, "").to_string(), "1.3.0");
}

#[test]
fn bumper_test_bump_patch() {
    assert_eq!(bump(&v("1.2.3"), BumpType::Patch, "").to_string(), "1.2.4");
}

#[test]
fn bumper_test_bump_prerelease() {
    assert_eq!(
        bump(&v("1.0.0"), BumpType::Prerelease, "alpha").to_string(),
        "1.0.0-alpha"
    );
    assert_eq!(
        bump(&v("1.0.0-alpha"), BumpType::Prerelease, "alpha").to_string(),
        "1.0.0-alpha.0"
    );
}

#[test]
fn test_bump_from_commit_feat() {
    assert_eq!(bump_from_commit("feat: add new feature"), BumpType::Minor);
    assert_eq!(bump_from_commit("feat(api): add new endpoint"), BumpType::Minor);
}

#[test]
fn test_bump_from_commit_fix() {
    assert_eq!(bump_from_commit("fix: resolve bug"), BumpType::Patch);
    assert_eq!(bump_from_commit("fix(auth): handle edge case"), BumpType::Patch);
}

#[test]
fn test_bump_from_commit_breaking() {
    assert_eq!(
        bump_from_commit("feat: new API\n\nBREAKING CHANGE: removed old API"),
        BumpType::Major
    );
    assert_eq!(bump_from_commit("feat!: redesign API"), BumpType::Major);
    assert_eq!(bump_from_commit("feat(api)!: change response format"), BumpType::Major);
}

#[test]
fn test_bump_from_commit_other() {
    assert_eq!(bump_from_commit("docs: update README"), BumpType::Patch);
    assert_eq!(bump_from_commit("chore: update deps"), BumpType::Patch);
    assert_eq!(bump_from_commit("refactor: clean up code"), BumpType::Patch);
}

#[test]
fn test_bump_from_commits_multiple() {
    let commits = vec!["fix: bug fix", "feat: new feature", "docs: update"];
    assert_eq!(bump_from_commits(&commits), BumpType::Minor);

    let commits = vec!["fix: bug fix", "feat!: breaking change"];
    assert_eq!(bump_from_commits(&commits), BumpType::Major);
}

// ---------------------------------------------------------------------------
// Further cases
// ---------------------------------------------------------------------------

#[test]
fn bump_type_names() {
    assert_eq!(BumpType::Major.as_str(), "major");
    assert_eq!(BumpType::Minor.as_str(), "minor");
    assert_eq!(BumpType::Patch.as_str(), "patch");
    assert_eq!(BumpType::Prerelease.as_str(), "prerelease");
}

#[test]
fn checked_bump_refuses_overflow() {
    let top = Version::new(u64::MAX, 0, 0);
    assert!(checked_bump(&top, BumpType::Major, "").is_none());
    assert_eq!(checked_bump(&top, BumpType::Minor, "").unwrap().to_string(), "18446744073709551615.1.0");
    let pre = v("1.0.0-rc.18446744073709551615");
    assert!(checked_bump(&pre, BumpType::Prerelease, "x").is_none());
    assert_eq!(checked_bump(&v("1.0.0-rc.4"), BumpType::Prerelease, "x").unwrap().to_string(), "1.0.0-rc.5");
}

#[test]
fn commits_edge_cases() {
    assert_eq!(bump_from_commits(&[]), BumpType::Patch);
    assert_eq!(bump_from_commit("BREAKING-CHANGE: x"), BumpType::Major);
    assert_eq!(bump_from_commit("feat"), BumpType::Patch);
    // the order of commits does not matter
    let a = vec!["feat: a", "fix: b", "chore: c"];
    let b = vec!["chore: c", "fix: b", "feat: a"];
    assert_eq!(bump_from_commits(&a), bump_from_commits(&b));
}
