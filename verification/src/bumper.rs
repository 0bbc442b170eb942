//! Version bumping with conventional commit support.

use crate::text::{
    chars_contains, chars_eq, chars_find, chars_lines, chars_of, chars_split,
    chars_trim, contains, find_char, lines, slice_views, split_char, trim,
};
use crate::version::{bumped_pre, plain, pre_bump_overflows, Version, VersionSpec};
use vstd::prelude::*;

verus! {

/// The type of version bump to apply.
#[derive(Debug, Clone, Copy, PartialEq, Eq, Structural)]
pub enum BumpType {
    Major,
    Minor,
    Patch,
    Prerelease,
}

/// The name of a bump type.
pub open spec fn bump_name(b: BumpType) -> Seq<char> {
    match b {
        BumpType::Major => "major"@,
        BumpType::Minor => "minor"@,
        BumpType::Patch => "patch"@,
        BumpType::Prerelease => "prerelease"@,
    }
}

impl BumpType {
    pub fn as_str(&self) -> (r: &'static str)
        ensures
            r@ == bump_name(*self),
    {
        match self {
            BumpType::Major => "major",
            BumpType::Minor => "minor",
            BumpType::Patch => "patch",
            BumpType::Prerelease => "prerelease",
        }
    }
}

/// The bump would overflow a `u64`.
pub open spec fn bump_overflows(v: VersionSpec, b: BumpType) -> bool {
    match b {
        BumpType::Major => v.major == u64::MAX,
        BumpType::Minor => v.minor == u64::MAX,
        BumpType::Patch => v.patch == u64::MAX,
        BumpType::Prerelease => pre_bump_overflows(v.pre),
    }
}

/// The version a bump gives: the next major, minor or patch version with
/// the lower parts reset and no identifiers, or a pre-release bump with
/// `label`.
pub open spec fn bumped(v: VersionSpec, b: BumpType, label: Seq<char>) -> VersionSpec {
    match b {
        BumpType::Major => plain((v.major + 1) as u64, 0, 0),
        BumpType::Minor => plain(v.major, (v.minor + 1) as u64, 0),
        BumpType::Patch => plain(v.major, v.minor, (v.patch + 1) as u64),
        BumpType::Prerelease => VersionSpec {
            pre: bumped_pre(v.pre, label),
            ..plain(v.major, v.minor, v.patch)
        },
    }
}

/// Bump a version according to the bump type.
pub fn bump(version: &Version, bump_type: BumpType, prerelease_label: &str) -> (r: Version)
    requires
        !bump_overflows(version@, bump_type),
    ensures
        r@ == bumped(version@, bump_type, prerelease_label@),
{
    match bump_type {
        BumpType::Major => version.bump_major(),
        BumpType::Minor => version.bump_minor(),
        BumpType::Patch => version.bump_patch(),
        BumpType::Prerelease => version.bump_prerelease(prerelease_label),
    }
}

fn last_is_max_numeric(version: &Version) -> (r: bool)
    ensures
        r == pre_bump_overflows(version@.pre),
{
    let n = version.pre.len();
    if n == 0 {
        return false;
    }
    let last = chars_of(version.pre[n - 1].as_str());
    assert(last@ == version@.pre.last());
    crate::text::chars_all_digits(last.as_slice()) && crate::text::chars_parse_u64(
        last.as_slice(),
    ) == Some(u64::MAX)
}

/// Bump a version, or `None` where the bump would overflow a `u64`.
pub fn checked_bump(version: &Version, bump_type: BumpType, prerelease_label: &str) -> (r: Option<
    Version,
>)
    ensures
        match r {
            Some(v) => !bump_overflows(version@, bump_type) && v@ == bumped(
                version@,
                bump_type,
                prerelease_label@,
            ),
            None => bump_overflows(version@, bump_type),
        },
{
    let overflows = match bump_type {
        BumpType::Major => version.major == u64::MAX,
        BumpType::Minor => version.minor == u64::MAX,
        BumpType::Patch => version.patch == u64::MAX,
        BumpType::Prerelease => last_is_max_numeric(version),
    };
    if overflows {
        None
    } else {
        Some(bump(version, bump_type, prerelease_label))
    }
}

// ---------------------------------------------------------------------------
// Conventional commits
// ---------------------------------------------------------------------------

/// The first line of a message (empty when there is none).
pub open spec fn first_line(m: Seq<char>) -> Seq<char> {
    if lines(m).len() > 0 {
        lines(m)[0]
    } else {
        seq![]
    }
}

/// The bump a conventional commit message asks for: `BREAKING CHANGE:`
/// (or `BREAKING-CHANGE:`) anywhere, or `!` just before the first `:` of
/// the header, asks for a major bump; a `feat` type (scope aside) for a
/// minor one; anything else for a patch.
pub open spec fn commit_bump(message: Seq<char>) -> BumpType {
    let m = trim(message);
    let first = first_line(m);
    if contains(m, "BREAKING CHANGE:"@) || contains(m, "BREAKING-CHANGE:"@) {
        BumpType::Major
    } else {
        match find_char(first, ':') {
            None => BumpType::Patch,
            Some(p) => {
                let type_scope = first.subrange(0, p);
                if type_scope.len() > 0 && type_scope.last() == '!' {
                    BumpType::Major
                } else if trim(split_char(type_scope, '(')[0]) == "feat"@ {
                    BumpType::Minor
                } else {
                    BumpType::Patch
                }
            },
        }
    }
}

/// Determine the appropriate bump type from a conventional commit message.
///
/// Conventional commit format: `type(scope): description`
/// - `feat:` or `feat(scope):` → minor bump
/// - `fix:` → patch bump
/// - `BREAKING CHANGE:` in footer or `!:` in header → major bump
/// - Other types (docs, chore, refactor, etc.) → patch bump (or no bump)
pub fn bump_from_commit(message: &str) -> (r: BumpType)
    ensures
        r == commit_bump(message@),
{
    let all = chars_of(message);
    let m = chars_trim(all.as_slice());
    let breaking = chars_of("BREAKING CHANGE:");
    let breaking2 = chars_of("BREAKING-CHANGE:");
    if chars_contains(m, breaking.as_slice()) || chars_contains(m, breaking2.as_slice()) {
        return BumpType::Major;
    }
    let ls = chars_lines(m);
    let empty: [char; 0] = [];
    let first: &[char] = if ls.len() > 0 {
        ls[0]
    } else {
        empty.as_slice()
    };
    assert(first@ == first_line(m@)) by {
        if ls.len() > 0 {
            assert(slice_views(ls@)[0] == ls@[0]@);
        } else {
            assert(first@ =~= Seq::<char>::empty());
        }
    }
    match chars_find(first, ':') {
        Some(colon_pos) => {
            proof {
                crate::text::lemma_find_char(first@, ':');
            }
            let type_scope = &first[0..colon_pos];
            if type_scope.len() > 0 && type_scope[type_scope.len() - 1] == '!' {
                return BumpType::Major;
            }
            let pieces = chars_split(type_scope, '(');
            proof {
                crate::text::lemma_split_char_nonempty(type_scope@, '(');
            }
            assert(slice_views(pieces@)[0] == pieces@[0]@);
            let commit_type = chars_trim(pieces[0]);
            let feat = chars_of("feat");
            if chars_eq(commit_type, feat.as_slice()) {
                BumpType::Minor
            } else {
                BumpType::Patch
            }
        },
        None => BumpType::Patch,
    }
}

/// The characters of each message.
pub open spec fn message_views(ms: Seq<&str>) -> Seq<Seq<char>> {
    ms.map_values(|m: &str| m@)
}

/// The highest bump the messages ask for: major if any asks for one, else
/// minor if any does, else patch.
pub open spec fn commits_bump(ms: Seq<Seq<char>>) -> BumpType {
    if some_asks(ms, BumpType::Major) {
        BumpType::Major
    } else if some_asks(ms, BumpType::Minor) {
        BumpType::Minor
    } else {
        BumpType::Patch
    }
}

/// One of the messages asks for bump `t`.
pub open spec fn some_asks(ms: Seq<Seq<char>>, t: BumpType) -> bool {
    exists|i: int| 0 <= i < ms.len() && #[trigger] commit_bump(ms[i]) == t
}

/// Determine the bump type from a list of commit messages.
/// Returns the highest bump needed.
pub fn bump_from_commits(messages: &[&str]) -> (r: BumpType)
    ensures
        r == commits_bump(message_views(messages@)),
{
    let ghost ms = message_views(messages@);
    let mut result = BumpType::Patch;
    let mut i: usize = 0;
    while i < messages.len()
        invariant
            ms == message_views(messages@),
            0 <= i <= messages.len(),
            forall|j: int| 0 <= j < i ==> #[trigger] commit_bump(ms[j]) != BumpType::Major,
            result == BumpType::Minor <==> exists|j: int|
                0 <= j < i && #[trigger] commit_bump(ms[j]) == BumpType::Minor,
            result == BumpType::Minor || result == BumpType::Patch,
        decreases messages.len() - i,
    {
        let b = bump_from_commit(messages[i]);
        assert(ms[i as int] == messages@[i as int]@);
        match (result, b) {
            (BumpType::Major, _) | (_, BumpType::Major) => {
                assert(commit_bump(ms[i as int]) == BumpType::Major);
                return BumpType::Major;
            },
            (BumpType::Minor, _) | (_, BumpType::Minor) => {
                result = BumpType::Minor;
            },
            _ => {
                result = BumpType::Patch;
            },
        }
        assert(commit_bump(ms[i as int]) == b);
        i = i + 1;
    }
    result
}

/// The bump from a list of commits does not depend on their order: lists
/// with the same messages ask for the same bump.
pub proof fn law_commits_order_independent(a: Seq<Seq<char>>, b: Seq<Seq<char>>)
    requires
        a.to_multiset() == b.to_multiset(),
    ensures
        commits_bump(a) == commits_bump(b),
{
    a.to_multiset_ensures();
    b.to_multiset_ensures();
    assert forall|m: Seq<char>| #[trigger] a.contains(m) <==> b.contains(m) by {
        assert(a.to_multiset().count(m) == b.to_multiset().count(m));
        assert(a.contains(m) <==> a.to_multiset().count(m) > 0);
        assert(b.contains(m) <==> b.to_multiset().count(m) > 0);
    }
    assert forall|t: BumpType| #[trigger] some_asks(a, t) <==> some_asks(b, t) by {
        if exists|i: int| 0 <= i < a.len() && #[trigger] commit_bump(a[i]) == t {
            let i = choose|i: int| 0 <= i < a.len() && #[trigger] commit_bump(a[i]) == t;
            assert(a.contains(a[i]));
            assert(b.contains(a[i]));
            let k = choose|k: int| 0 <= k < b.len() && b[k] == a[i];
            assert(commit_bump(b[k]) == t);
        }
        if exists|i: int| 0 <= i < b.len() && #[trigger] commit_bump(b[i]) == t {
            let i = choose|i: int| 0 <= i < b.len() && #[trigger] commit_bump(b[i]) == t;
            assert(b.contains(b[i]));
            assert(a.contains(b[i]));
            let k = choose|k: int| 0 <= k < a.len() && a[k] == b[i];
            assert(commit_bump(a[k]) == t);
        }
    }
}

/// One more commit never lowers the bump, and a breaking commit makes the
/// bump major whatever the others are.
pub proof fn law_commits_monotone(ms: Seq<Seq<char>>, m: Seq<char>)
    ensures
        commits_bump(ms) == BumpType::Major ==> commits_bump(ms.push(m)) == BumpType::Major,
        commits_bump(ms) == BumpType::Minor ==> commits_bump(ms.push(m)) != BumpType::Patch,
        commit_bump(m) == BumpType::Major ==> commits_bump(ms.push(m)) == BumpType::Major,
{
    let n = ms.push(m);
    assert(n[ms.len() as int] == m);
    if exists|i: int| 0 <= i < ms.len() && #[trigger] commit_bump(ms[i]) == BumpType::Major {
        let i = choose|i: int| 0 <= i < ms.len() && #[trigger] commit_bump(ms[i]) == BumpType::Major;
        assert(n[i] == ms[i]);
    }
    if exists|i: int| 0 <= i < ms.len() && #[trigger] commit_bump(ms[i]) == BumpType::Minor {
        let i = choose|i: int| 0 <= i < ms.len() && #[trigger] commit_bump(ms[i]) == BumpType::Minor;
        assert(n[i] == ms[i]);
    }
}

/// A message whose (trimmed) first line has `!` right before its first
/// `:` asks for a major bump, whatever the commit type before it; so does
/// one that mentions `BREAKING CHANGE:` or `BREAKING-CHANGE:`. A `feat`
/// header (scope aside) without these asks for a minor bump; any other
/// message for a patch bump, never a pre-release one.
pub proof fn law_commit_bump(message: Seq<char>)
    ensures
        ({
            let h = first_line(trim(message));
            find_char(h, ':') matches Some(p) && p > 0 && h[p - 1] == '!'
        }) ==> commit_bump(message) == BumpType::Major,
        contains(trim(message), "BREAKING CHANGE:"@) ==> commit_bump(message) == BumpType::Major,
        contains(trim(message), "BREAKING-CHANGE:"@) ==> commit_bump(message) == BumpType::Major,
        ({
            let t = trim(message);
            let h = first_line(t);
            &&& !contains(t, "BREAKING CHANGE:"@)
            &&& !contains(t, "BREAKING-CHANGE:"@)
            &&& find_char(h, ':') matches Some(p)
            &&& !(p > 0 && h[p - 1] == '!')
            &&& trim(split_char(h.subrange(0, p), '(')[0]) == "feat"@
        }) ==> commit_bump(message) == BumpType::Minor,
        commit_bump(message) != BumpType::Prerelease,
{
    let h = first_line(trim(message));
    crate::text::lemma_find_char(h, ':');
    if let Some(p) = find_char(h, ':') {
        let ts = h.subrange(0, p);
        if p > 0 {
            assert(ts.last() == h[p - 1]);
        }
    }
}

/// A list of commits with one breaking commit (a `!` right before the
/// first `:` of its header) asks for a major bump.
pub proof fn law_commits_breaking(ms: Seq<Seq<char>>, i: int)
    requires
        0 <= i < ms.len(),
        ({
            let h = first_line(trim(ms[i]));
            find_char(h, ':') matches Some(p) && p > 0 && h[p - 1] == '!'
        }),
    ensures
        commits_bump(ms) == BumpType::Major,
{
    law_commit_bump(ms[i]);
}

/// A major bump raises the major number by one and resets the rest; a
/// minor bump keeps the major number, raises the minor one and resets the
/// patch; a patch bump raises only the patch number. None keeps
/// pre-release or build identifiers, and each gives a higher version.
pub proof fn law_bump(v: VersionSpec, label: Seq<char>)
    ensures
        v.major < u64::MAX ==> ({
            let r = bumped(v, BumpType::Major, label);
            &&& r.major == v.major + 1 && r.minor == 0 && r.patch == 0
            &&& r.pre.len() == 0 && r.build.len() == 0
            &&& crate::version::precedence(r, v) == crate::version::Order::Greater
        }),
        v.minor < u64::MAX ==> ({
            let r = bumped(v, BumpType::Minor, label);
            &&& r.major == v.major && r.minor == v.minor + 1 && r.patch == 0
            &&& r.pre.len() == 0 && r.build.len() == 0
            &&& crate::version::precedence(r, v) == crate::version::Order::Greater
        }),
        v.patch < u64::MAX ==> ({
            let r = bumped(v, BumpType::Patch, label);
            &&& r.major == v.major && r.minor == v.minor && r.patch == v.patch + 1
            &&& r.pre.len() == 0 && r.build.len() == 0
            &&& crate::version::precedence(r, v) == crate::version::Order::Greater
        }),
{
    crate::version_laws::law_core_bumps_increase(v);
}

} // verus!
