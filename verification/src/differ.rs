//! Version diffing — compare two versions and describe the changes.

use crate::text::{chars_of, decimal, push_decimal, string_of};
use crate::version::push_chars;
use crate::version::{precedence, version_text, Order, Version, VersionSpec};
use vstd::prelude::*;

verus! {

/// The type of version change between two versions.
#[derive(Debug, Clone, Copy, PartialEq, Eq, Structural)]
pub enum ChangeType {
    Major,
    Minor,
    Patch,
    Prerelease,
    Build,
    Downgrade,
    Equal,
}

/// The name of a change type.
pub open spec fn change_name(c: ChangeType) -> Seq<char> {
    match c {
        ChangeType::Major => "major"@,
        ChangeType::Minor => "minor"@,
        ChangeType::Patch => "patch"@,
        ChangeType::Prerelease => "prerelease"@,
        ChangeType::Build => "build"@,
        ChangeType::Downgrade => "downgrade"@,
        ChangeType::Equal => "equal"@,
    }
}

impl ChangeType {
    pub fn as_str(&self) -> (r: &'static str)
        ensures
            r@ == change_name(*self),
    {
        match self {
            ChangeType::Major => "major",
            ChangeType::Minor => "minor",
            ChangeType::Patch => "patch",
            ChangeType::Prerelease => "prerelease",
            ChangeType::Build => "build",
            ChangeType::Downgrade => "downgrade",
            ChangeType::Equal => "equal",
        }
    }
}

/// A diff between two versions.
#[derive(Debug, Clone)]
pub struct VersionDiff {
    pub from: Version,
    pub to: Version,
    pub change_type: ChangeType,
    pub major_delta: i64,
    pub minor_delta: i64,
    pub patch_delta: i64,
    pub prerelease_changed: bool,
    pub build_changed: bool,
}

/// A `u64` read as an `i64` (`as i64`: values above `i64::MAX` wrap to
/// negative ones).
pub open spec fn as_signed(x: u64) -> int {
    if x <= i64::MAX {
        x as int
    } else {
        x - 0x1_0000_0000_0000_0000
    }
}

/// `to - from` on the fields read as `i64`.
pub open spec fn delta(from: u64, to: u64) -> int {
    as_signed(to) - as_signed(from)
}

/// Every delta fits an `i64` (the subtraction would overflow otherwise).
pub open spec fn deltas_fit(from: VersionSpec, to: VersionSpec) -> bool {
    &&& i64::MIN <= delta(from.major, to.major) <= i64::MAX
    &&& i64::MIN <= delta(from.minor, to.minor) <= i64::MAX
    &&& i64::MIN <= delta(from.patch, to.patch) <= i64::MAX
}

/// The kind of change from `from` to `to`: equal when identical (build
/// metadata included), a downgrade when `to` has lower precedence, else
/// the highest core part that grew, else a pre-release change, else a
/// build metadata change.
pub open spec fn change_kind(from: VersionSpec, to: VersionSpec) -> ChangeType {
    if from == to {
        ChangeType::Equal
    } else if precedence(to, from) == Order::Less {
        ChangeType::Downgrade
    } else if delta(from.major, to.major) > 0 {
        ChangeType::Major
    } else if delta(from.minor, to.minor) > 0 {
        ChangeType::Minor
    } else if delta(from.patch, to.patch) > 0 {
        ChangeType::Patch
    } else if from.pre != to.pre {
        ChangeType::Prerelease
    } else {
        ChangeType::Build
    }
}

fn signed_of(x: u64) -> (r: i64)
    ensures
        r == as_signed(x),
{
    if x <= 0x7fff_ffff_ffff_ffff {
        x as i64
    } else {
        let below: u64 = u64::MAX - x;
        -(below as i64) - 1
    }
}

fn ids_equal(a: &Vec<String>, b: &Vec<String>) -> (r: bool)
    ensures
        r == (crate::version::ids_view(a@) == crate::version::ids_view(b@)),
{
    let ghost va = crate::version::ids_view(a@);
    let ghost vb = crate::version::ids_view(b@);
    if a.len() != b.len() {
        assert(va.len() != vb.len());
        return false;
    }
    let mut i: usize = 0;
    while i < a.len()
        invariant
            a.len() == b.len(),
            va == crate::version::ids_view(a@),
            vb == crate::version::ids_view(b@),
            0 <= i <= a.len(),
            forall|j: int| 0 <= j < i ==> va[j] == vb[j],
        decreases a.len() - i,
    {
        if a[i] != b[i] {
            assert(va[i as int] != vb[i as int]);
            return false;
        }
        i = i + 1;
    }
    assert(va =~= vb);
    true
}

/// Compute the diff between two versions.
pub fn diff(from: &Version, to: &Version) -> (r: VersionDiff)
    requires
        deltas_fit(from@, to@),
    ensures
        r.from@ == from@,
        r.to@ == to@,
        r.major_delta == delta(from.major, to.major),
        r.minor_delta == delta(from.minor, to.minor),
        r.patch_delta == delta(from.patch, to.patch),
        r.prerelease_changed == (from@.pre != to@.pre),
        r.build_changed == (from@.build != to@.build),
        r.change_type == change_kind(from@, to@),
{
    let major_delta = signed_of(to.major) - signed_of(from.major);
    let minor_delta = signed_of(to.minor) - signed_of(from.minor);
    let patch_delta = signed_of(to.patch) - signed_of(from.patch);
    let prerelease_changed = !ids_equal(&from.pre, &to.pre);
    let build_changed = !ids_equal(&from.build, &to.build);
    let change_type = if from.major == to.major && from.minor == to.minor && from.patch == to.patch
        && !prerelease_changed && !build_changed {
        ChangeType::Equal
    } else if to.precedence_to(from) == Order::Less {
        ChangeType::Downgrade
    } else if major_delta > 0 {
        ChangeType::Major
    } else if minor_delta > 0 {
        ChangeType::Minor
    } else if patch_delta > 0 {
        ChangeType::Patch
    } else if prerelease_changed {
        ChangeType::Prerelease
    } else {
        ChangeType::Build
    };
    VersionDiff {
        from: from.duplicate(),
        to: to.duplicate(),
        change_type,
        major_delta,
        minor_delta,
        patch_delta,
        prerelease_changed,
        build_changed,
    }
}

fn delta_fits(from: u64, to: u64) -> (r: bool)
    ensures
        r == (i64::MIN <= delta(from, to) <= i64::MAX),
{
    let a = signed_of(to);
    let b = signed_of(from);
    if b >= 0 {
        a >= i64::MIN + b
    } else {
        a <= i64::MAX + b
    }
}

/// The diff between two versions, or `None` where a delta of their
/// numbers does not fit an `i64` (where `diff` would overflow).
pub fn checked_diff(from: &Version, to: &Version) -> (r: Option<VersionDiff>)
    ensures
        match r {
            Some(d) => deltas_fit(from@, to@) && d.from@ == from@ && d.to@ == to@ && d.major_delta
                == delta(from.major, to.major) && d.minor_delta == delta(from.minor, to.minor)
                && d.patch_delta == delta(from.patch, to.patch) && d.prerelease_changed == (
            from@.pre != to@.pre) && d.build_changed == (from@.build != to@.build) && d.change_type
                == change_kind(from@, to@),
            None => !deltas_fit(from@, to@),
        },
{
    if delta_fits(from.major, to.major) && delta_fits(from.minor, to.minor) && delta_fits(
        from.patch,
        to.patch,
    ) {
        Some(diff(from, to))
    } else {
        None
    }
}

// ---------------------------------------------------------------------------
// Text
// ---------------------------------------------------------------------------

/// A number with its sign, as `{:+}` writes it.
pub open spec fn signed_text(d: int) -> Seq<char> {
    if d >= 0 {
        seq!['+'] + decimal(d as nat)
    } else {
        seq!['-'] + decimal((-d) as nat)
    }
}

/// `name` and the signed delta, when the delta is not zero.
pub open spec fn delta_part(name: Seq<char>, d: int) -> Seq<Seq<char>> {
    if d != 0 {
        seq![name + seq![' '] + signed_text(d)]
    } else {
        seq![]
    }
}

/// The non-zero deltas, named.
pub open spec fn delta_parts(major: int, minor: int, patch: int) -> Seq<Seq<char>> {
    delta_part("major"@, major) + delta_part("minor"@, minor) + delta_part("patch"@, patch)
}

/// Parts joined with `, `.
pub open spec fn join_comma(parts: Seq<Seq<char>>) -> Seq<char>
    decreases parts.len(),
{
    if parts.len() == 0 {
        seq![]
    } else if parts.len() == 1 {
        parts[0]
    } else {
        join_comma(parts.drop_last()) + ", "@ + parts.last()
    }
}

/// The text of a diff: `no change (A == B)` for
/// equal versions, else `upgrade A → B (kind)` or `downgrade A → B
/// (downgrade)`, followed by the non-zero deltas in brackets.
pub open spec fn diff_text(
    from: VersionSpec,
    to: VersionSpec,
    change: ChangeType,
    major: int,
    minor: int,
    patch: int,
) -> Seq<char> {
    let parts = delta_parts(major, minor, patch);
    if change == ChangeType::Equal {
        "no change ("@ + version_text(from) + " == "@ + version_text(to) + ")"@
    } else {
        (if change == ChangeType::Downgrade {
            "downgrade"@
        } else {
            "upgrade"@
        }) + " "@ + version_text(from) + " \u{2192} "@ + version_text(to) + " ("@ + change_name(change)
            + ")"@ + (if parts.len() > 0 {
            " ["@ + join_comma(parts) + "]"@
        } else {
            seq![]
        })
    }
}

/// Appends the characters of `s`.
fn push_str(out: &mut Vec<char>, s: &str)
    ensures
        final(out)@ == old(out)@ + s@,
{
    let cs = chars_of(s);
    push_chars(out, cs.as_slice());
}

/// Appends a signed number.
fn push_signed(out: &mut Vec<char>, d: i64)
    ensures
        final(out)@ == old(out)@ + signed_text(d as int),
{
    if d >= 0 {
        out.push('+');
        push_decimal(out, d as u64);
    } else {
        out.push('-');
        let magnitude: u64 = (-(d + 1)) as u64 + 1;
        push_decimal(out, magnitude);
    }
    assert(final(out)@ =~= old(out)@ + signed_text(d as int));
}

/// Appends the delta part of `name`, when `d` is not zero, after a `, `
/// when parts came before it.
fn push_delta(out: &mut Vec<char>, parts: &mut usize, name: &str, d: i64, Ghost(before): Ghost<
    Seq<Seq<char>>,
>)
    requires
        *old(parts) == before.len(),
        *old(parts) < 3,
        old(out)@.len() >= 0,
    ensures
        *final(parts) == (before + delta_part(name@, d as int)).len(),
        final(out)@ == old(out)@ + (if d != 0 {
            (if before.len() > 0 {
                ", "@
            } else {
                Seq::<char>::empty()
            }) + name@ + seq![' '] + signed_text(d as int)
        } else {
            Seq::<char>::empty()
        }),
{
    if d != 0 {
        if *parts > 0 {
            push_str(out, ", ");
        }
        push_str(out, name);
        out.push(' ');
        push_signed(out, d);
        *parts = *parts + 1;
        assert(final(out)@ =~= old(out)@ + ((if before.len() > 0 {
            ", "@
        } else {
            Seq::<char>::empty()
        }) + name@ + seq![' '] + signed_text(d as int)));
    } else {
        assert(final(out)@ =~= old(out)@ + Seq::<char>::empty());
    }
}

proof fn lemma_join_comma_push(parts: Seq<Seq<char>>, p: Seq<char>)
    ensures
        join_comma(parts.push(p)) == join_comma(parts) + (if parts.len() > 0 {
            ", "@
        } else {
            Seq::<char>::empty()
        }) + p,
{
    let q = parts.push(p);
    assert(q.drop_last() =~= parts);
    if parts.len() == 0 {
        assert(join_comma(q) == q[0]);
        assert(join_comma(parts) + Seq::<char>::empty() + p =~= p);
    }
}

/// The non-zero deltas joined with `, `, and how many there are.
fn deltas_chars(major: i64, minor: i64, patch: i64) -> (r: (Vec<char>, usize))
    ensures
        r.0@ == join_comma(delta_parts(major as int, minor as int, patch as int)),
        r.1 == delta_parts(major as int, minor as int, patch as int).len(),
{
    let ghost p1 = delta_part("major"@, major as int);
    let ghost p2 = delta_part("minor"@, minor as int);
    let ghost p3 = delta_part("patch"@, patch as int);
    let mut deltas: Vec<char> = Vec::new();
    let mut count: usize = 0;
    push_delta(&mut deltas, &mut count, "major", major, Ghost(Seq::empty()));
    proof {
        assert(Seq::<Seq<char>>::empty() + p1 =~= p1);
        if major != 0 {
            lemma_join_comma_push(Seq::empty(), p1[0]);
            assert(p1 =~= Seq::<Seq<char>>::empty().push(p1[0]));
        }
        assert(deltas@ =~= join_comma(p1));
    }
    push_delta(&mut deltas, &mut count, "minor", minor, Ghost(p1));
    proof {
        if minor != 0 {
            lemma_join_comma_push(p1, p2[0]);
            assert(p1 + p2 =~= p1.push(p2[0]));
        } else {
            assert(p1 + p2 =~= p1);
        }
        assert(deltas@ =~= join_comma(p1 + p2));
    }
    push_delta(&mut deltas, &mut count, "patch", patch, Ghost(p1 + p2));
    proof {
        if patch != 0 {
            lemma_join_comma_push(p1 + p2, p3[0]);
            assert(p1 + p2 + p3 =~= (p1 + p2).push(p3[0]));
        } else {
            assert(p1 + p2 + p3 =~= p1 + p2);
        }
        assert(deltas@ =~= join_comma(p1 + p2 + p3));
    }
    (deltas, count)
}

impl VersionDiff {
    /// The text of this diff.
    pub fn to_string(&self) -> (r: String)
        ensures
            r@ == diff_text(
                self.from@,
                self.to@,
                self.change_type,
                self.major_delta as int,
                self.minor_delta as int,
                self.patch_delta as int,
            ),
    {
        let mut out: Vec<char> = Vec::new();
        let from_text = self.from.to_string();
        let to_text = self.to.to_string();
        if self.change_type == ChangeType::Equal {
            push_str(&mut out, "no change (");
            push_str(&mut out, from_text.as_str());
            push_str(&mut out, " == ");
            push_str(&mut out, to_text.as_str());
            push_str(&mut out, ")");
            assert(out@ =~= "no change ("@ + from_text@ + " == "@ + to_text@ + ")"@);
            return string_of(out.as_slice());
        }
        let direction = if self.change_type == ChangeType::Downgrade {
            "downgrade"
        } else {
            "upgrade"
        };
        push_str(&mut out, direction);
        push_str(&mut out, " ");
        push_str(&mut out, from_text.as_str());
        push_str(&mut out, " \u{2192} ");
        push_str(&mut out, to_text.as_str());
        push_str(&mut out, " (");
        push_str(&mut out, self.change_type.as_str());
        push_str(&mut out, ")");
        let ghost head = out@;
        assert(head =~= direction@ + " "@ + from_text@ + " \u{2192} "@ + to_text@ + " ("@
            + change_name(self.change_type) + ")"@);
        let (deltas, count) = deltas_chars(self.major_delta, self.minor_delta, self.patch_delta);
        if count > 0 {
            push_str(&mut out, " [");
            push_chars(&mut out, deltas.as_slice());
            push_str(&mut out, "]");
            assert(out@ =~= head + (" ["@ + deltas@ + "]"@));
        } else {
            assert(out@ =~= head + Seq::<char>::empty());
        }
        string_of(out.as_slice())
    }
}

// ---------------------------------------------------------------------------
// Laws
// ---------------------------------------------------------------------------

/// A diff reports a downgrade exactly when the target has lower
/// precedence; between different versions, a diff one way is a downgrade
/// when the target has lower precedence, and then the diff the other way
/// is not; the deltas of the reverse diff are the negated deltas.
pub proof fn law_diff_direction(a: VersionSpec, b: VersionSpec)
    ensures
        change_kind(a, b) == ChangeType::Equal <==> a == b,
        a != b ==> (change_kind(a, b) == ChangeType::Downgrade <==> precedence(b, a) == Order::Less),
        change_kind(a, b) == ChangeType::Downgrade ==> change_kind(b, a) != ChangeType::Downgrade
            && change_kind(b, a) != ChangeType::Equal,
        delta(a.major, b.major) == -delta(b.major, a.major),
        delta(a.minor, b.minor) == -delta(b.minor, a.minor),
        delta(a.patch, b.patch) == -delta(b.patch, a.patch),
{
    crate::version_laws::law_precedence_antisymmetric(a, b);
    crate::version_laws::law_precedence_reflexive(a);
}

/// An upgrade (different versions, the target not of lower precedence)
/// whose core numbers fit an `i64` is classified by the highest core part
/// that grew: major when the major number grew; minor when the major number
/// stayed and the minor one grew, whatever the patch numbers; patch when
/// only the patch number grew; else a pre-release change when the
/// pre-release identifiers differ, and a build metadata change otherwise.
pub proof fn law_upgrade_kind(from: VersionSpec, to: VersionSpec)
    requires
        from != to,
        precedence(to, from) != Order::Less,
        from.major <= i64::MAX && from.minor <= i64::MAX && from.patch <= i64::MAX,
        to.major <= i64::MAX && to.minor <= i64::MAX && to.patch <= i64::MAX,
    ensures
        change_kind(from, to) == ChangeType::Major <==> to.major > from.major,
        change_kind(from, to) == ChangeType::Minor <==> to.major == from.major && to.minor
            > from.minor,
        change_kind(from, to) == ChangeType::Patch <==> to.major == from.major && to.minor
            == from.minor && to.patch > from.patch,
        change_kind(from, to) == ChangeType::Prerelease <==> to.major == from.major && to.minor
            == from.minor && to.patch == from.patch && to.pre != from.pre,
        change_kind(from, to) == ChangeType::Build <==> to.major == from.major && to.minor
            == from.minor && to.patch == from.patch && to.pre == from.pre,
{
    crate::version_laws::law_precedence_antisymmetric(from, to);
}

/// The text of a diff: `no change (A == B)` for equal versions; otherwise
/// `upgrade A → B (kind)` (or `downgrade ...`), then, in brackets and
/// separated by `, `, `major`, `minor` and `patch` with their signed
/// deltas, each only when it is not zero, and no brackets when all are.
#[verifier::spinoff_prover]
#[verifier::rlimit(80)]
pub proof fn law_diff_text(from: VersionSpec, to: VersionSpec, change: ChangeType, a: int, b: int, c: int)
    ensures
        change == ChangeType::Equal ==> diff_text(from, to, change, a, b, c) == "no change ("@
            + version_text(from) + " == "@ + version_text(to) + ")"@,
        ({
            let head = (if change == ChangeType::Downgrade {
                "downgrade"@
            } else {
                "upgrade"@
            }) + " "@ + version_text(from) + " \u{2192} "@ + version_text(to) + " ("@
                + change_name(change) + ")"@;
            let maj = "major "@ + signed_text(a);
            let min = "minor "@ + signed_text(b);
            let pat = "patch "@ + signed_text(c);
            &&& change != ChangeType::Equal && a != 0 && b != 0 && c != 0 ==> diff_text(
                from,
                to,
                change,
                a,
                b,
                c,
            ) == head + " ["@ + maj + ", "@ + min + ", "@ + pat + "]"@
            &&& change != ChangeType::Equal && a == 0 && b != 0 && c != 0 ==> diff_text(
                from,
                to,
                change,
                a,
                b,
                c,
            ) == head + " ["@ + min + ", "@ + pat + "]"@
            &&& change != ChangeType::Equal && a != 0 && b == 0 && c == 0 ==> diff_text(
                from,
                to,
                change,
                a,
                b,
                c,
            ) == head + " ["@ + maj + "]"@
            &&& change != ChangeType::Equal && a == 0 && b != 0 && c == 0 ==> diff_text(
                from,
                to,
                change,
                a,
                b,
                c,
            ) == head + " ["@ + min + "]"@
            &&& change != ChangeType::Equal && a == 0 && b == 0 && c != 0 ==> diff_text(
                from,
                to,
                change,
                a,
                b,
                c,
            ) == head + " ["@ + pat + "]"@
            &&& change != ChangeType::Equal && a == 0 && b == 0 && c == 0 ==> diff_text(
                from,
                to,
                change,
                a,
                b,
                c,
            ) == head
        }),
{
    let head = (if change == ChangeType::Downgrade {
        "downgrade"@
    } else {
        "upgrade"@
    }) + " "@ + version_text(from) + " \u{2192} "@ + version_text(to) + " ("@
        + change_name(change) + ")"@;
    let maj = "major "@ + signed_text(a);
    let min = "minor "@ + signed_text(b);
    let pat = "patch "@ + signed_text(c);
    lemma_delta_parts(a, b, c);
    let parts = delta_parts(a, b, c);
    let t = diff_text(from, to, change, a, b, c);
    if change != ChangeType::Equal {
        if parts.len() > 0 {
            assert(t == head + (" ["@ + join_comma(parts) + "]"@)) by {
                assert(t =~= head + (" ["@ + join_comma(parts) + "]"@));
            }
            if a != 0 && b != 0 && c != 0 {
                assert(t =~= head + " ["@ + maj + ", "@ + min + ", "@ + pat + "]"@);
            } else if a == 0 && b != 0 && c != 0 {
                assert(t =~= head + " ["@ + min + ", "@ + pat + "]"@);
            } else if a != 0 && b == 0 && c == 0 {
                assert(t =~= head + " ["@ + maj + "]"@);
            } else if a == 0 && b != 0 && c == 0 {
                assert(t =~= head + " ["@ + min + "]"@);
            } else if a == 0 && b == 0 && c != 0 {
                assert(t =~= head + " ["@ + pat + "]"@);
            }
        } else {
            assert(t =~= head);
        }
    }
}

#[verifier::spinoff_prover]
proof fn lemma_delta_parts(a: int, b: int, c: int)
    ensures
        ({
            let parts = delta_parts(a, b, c);
            let maj = "major "@ + signed_text(a);
            let min = "minor "@ + signed_text(b);
            let pat = "patch "@ + signed_text(c);
            &&& parts.len() > 0 <==> (a != 0 || b != 0 || c != 0)
            &&& a != 0 && b != 0 && c != 0 ==> join_comma(parts) == maj + ", "@ + min + ", "@ + pat
            &&& a == 0 && b != 0 && c != 0 ==> join_comma(parts) == min + ", "@ + pat
            &&& a != 0 && b == 0 && c == 0 ==> join_comma(parts) == maj
            &&& a == 0 && b != 0 && c == 0 ==> join_comma(parts) == min
            &&& a == 0 && b == 0 && c != 0 ==> join_comma(parts) == pat
        }),
{
    let maj = "major "@ + signed_text(a);
    let min = "minor "@ + signed_text(b);
    let pat = "patch "@ + signed_text(c);
    reveal_strlit("major ");
    reveal_strlit("minor ");
    reveal_strlit("patch ");
    reveal_strlit("major");
    reveal_strlit("minor");
    reveal_strlit("patch");
    assert("major"@ + seq![' '] =~= "major "@);
    assert("minor"@ + seq![' '] =~= "minor "@);
    assert("patch"@ + seq![' '] =~= "patch "@);
    let parts = delta_parts(a, b, c);
    if a != 0 && b != 0 && c != 0 {
        assert(parts =~= seq![maj, min, pat]);
        assert(parts.drop_last() =~= seq![maj, min]);
        assert(seq![maj, min].drop_last() =~= seq![maj]);
        assert(join_comma(seq![maj]) == maj);
        assert(join_comma(seq![maj, min]) == maj + ", "@ + min);
        assert(join_comma(parts) == join_comma(parts.drop_last()) + ", "@ + parts.last());
    } else if a == 0 && b != 0 && c != 0 {
        assert(parts =~= seq![min, pat]);
        assert(parts.drop_last() =~= seq![min]);
        assert(join_comma(seq![min]) == min);
        assert(join_comma(parts) == join_comma(parts.drop_last()) + ", "@ + parts.last());
    } else if a != 0 && b == 0 && c == 0 {
        assert(parts =~= seq![maj]);
    } else if a == 0 && b != 0 && c == 0 {
        assert(parts =~= seq![min]);
    } else if a == 0 && b == 0 && c != 0 {
        assert(parts =~= seq![pat]);
    } else if a == 0 && b == 0 && c == 0 {
        assert(parts =~= Seq::<Seq<char>>::empty());
    } else {
        assert(parts.len() > 0) by {
            if a != 0 {
                assert(delta_part("major"@, a).len() == 1);
            } else if b != 0 {
                assert(delta_part("minor"@, b).len() == 1);
            } else {
                assert(delta_part("patch"@, c).len() == 1);
            }
        }
    }
}

} // verus!
