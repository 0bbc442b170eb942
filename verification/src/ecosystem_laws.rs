//! Laws of range syntax: a list of comparators joined by `,` (Cargo, pip,
//! gem) or by white space (npm) holds exactly the versions that every
//! comparator holds; npm alternatives joined by `||` hold the versions
//! that one of them holds.

use crate::ecosystem::{
    exact_interval, is_wild, xrange_range, compat_range, compat_upper, pessimistic_range, pessimistic_upper, starts2, tilde_range,
    tilde_upper, after, caret_range, caret_upper, half_open, npm_comparator, partial_version, partial_spec, starts1, PartialSpec, RangeFailure, ascii_lower, comma_list, comparator, ecosystem_name, ecosystem_named, fold_join, fold_meet,
    npm_conjunction, npm_range, range_outcome, Ecosystem,
};
use crate::range::{everything, in_interval, in_range, range_negation, IntervalSpec};
use crate::range_laws::{
    all_proper, law_range_intersect, law_range_union, lemma_range_join_proper,
    lemma_range_meet_proper,
};
use crate::text::{is_ws, split_str, trim, trim_end, trim_start, words};
use crate::version::{plain, precedence, Order, VersionSpec};
use vstd::prelude::*;

verus! {

/// `v` satisfies the comparator `c` in the syntax of `eco` (a comparator
/// that does not parse holds no version).
pub open spec fn comparator_holds(eco: Ecosystem, c: Seq<char>, v: VersionSpec) -> bool {
    match comparator(eco, c) {
        Ok(r) => in_range(v, r),
        Err(_) => false,
    }
}

/// A successfully parsed conjunction of comparators holds exactly the
/// versions that each of its comparators holds.
pub proof fn law_conjunction(comps: Seq<Seq<char>>, k: int, eco: Ecosystem, v: VersionSpec)
    requires
        0 <= k <= comps.len(),
        fold_meet(comps, k, eco) is Ok,
    ensures
        in_range(v, fold_meet(comps, k, eco)->Ok_0) == forall|j: int|
            0 <= j < k ==> #[trigger] comparator_holds(eco, comps[j], v),
    decreases k,
{
    if k == 0 {
        assert(in_interval(v, seq![everything()][0]));
    } else {
        law_conjunction(comps, k - 1, eco, v);
        let r = fold_meet(comps, k - 1, eco)->Ok_0;
        let sub = comparator(eco, comps[k - 1])->Ok_0;
        law_range_intersect(r, sub, v);
        if in_range(v, fold_meet(comps, k, eco)->Ok_0) {
            assert forall|j: int| 0 <= j < k implies #[trigger] comparator_holds(eco, comps[j], v) by {
                if j < k - 1 {
                }
            }
        }
        if forall|j: int| 0 <= j < k ==> #[trigger] comparator_holds(eco, comps[j], v) {
            assert(comparator_holds(eco, comps[k - 1], v));
            assert forall|j: int| 0 <= j < k - 1 implies #[trigger] comparator_holds(eco, comps[j], v) by {
                assert(comparator_holds(eco, comps[j], v));
            }
        }
    }
}

/// A range in Cargo, pip or gem syntax that parses holds exactly the
/// versions that every comparator of its comma-separated list holds.
pub proof fn law_comma_range(input: Seq<char>, eco: Ecosystem, v: VersionSpec)
    requires
        eco != Ecosystem::Npm,
        trim(input).len() > 0,
        trim(input) != seq!['*'],
        range_outcome(input, eco) is Ok,
    ensures
        in_range(v, range_outcome(input, eco)->Ok_0) == forall|j: int|
            0 <= j < comma_list(trim(input)).len() ==> #[trigger] comparator_holds(
                eco,
                comma_list(trim(input))[j],
                v,
            ),
{
    let comps = comma_list(trim(input));
    law_conjunction(comps, comps.len() as int, eco, v);
}

/// `v` satisfies the space-separated npm comparators of `alt` (an
/// alternative that does not parse holds no version).
pub open spec fn alternative_holds(alt: Seq<char>, v: VersionSpec) -> bool {
    match npm_conjunction(alt) {
        Ok(r) => in_range(v, r),
        Err(_) => false,
    }
}

/// An npm range without `||` that parses holds exactly the versions that
/// every one of its space-separated comparators holds.
pub proof fn law_npm_conjunction(input: Seq<char>, v: VersionSpec)
    requires
        trim(input).len() > 0,
        trim(input) != seq!['*'],
        split_str(trim(input), seq!['|', '|']).len() == 1,
        range_outcome(input, Ecosystem::Npm) is Ok,
    ensures
        in_range(v, range_outcome(input, Ecosystem::Npm)->Ok_0) == forall|j: int|
            0 <= j < words(trim(input)).len() ==> #[trigger] comparator_holds(
                Ecosystem::Npm,
                words(trim(input))[j],
                v,
            ),
{
    let w = words(trim(input));
    law_conjunction(w, w.len() as int, Ecosystem::Npm, v);
}

/// A parsed list of comparators has proper intervals.
proof fn lemma_fold_meet_proper(comps: Seq<Seq<char>>, k: int, eco: Ecosystem)
    requires
        fold_meet(comps, k, eco) is Ok,
    ensures
        all_proper(fold_meet(comps, k, eco)->Ok_0),
{
    if k <= 0 {
        assert(seq![everything()][0] == everything());
    } else {
        lemma_range_meet_proper(
            fold_meet(comps, k - 1, eco)->Ok_0,
            comparator(eco, comps[k - 1])->Ok_0,
        );
    }
}

/// Joined alternatives have proper intervals.
proof fn lemma_fold_join_proper(parts: Seq<Seq<char>>, k: int)
    requires
        fold_join(parts, k) is Ok,
    ensures
        all_proper(fold_join(parts, k)->Ok_0),
    decreases k,
{
    if k > 0 {
        lemma_fold_join_proper(parts, k - 1);
        let alt = words(trim(parts[k - 1]));
        lemma_fold_meet_proper(alt, alt.len() as int, Ecosystem::Npm);
        lemma_range_join_proper(
            fold_join(parts, k - 1)->Ok_0,
            npm_conjunction(trim(parts[k - 1]))->Ok_0,
        );
    }
}

/// The first `k` alternatives, joined, hold exactly the versions that one
/// of them holds.
#[verifier::rlimit(30)]
pub proof fn law_alternatives(parts: Seq<Seq<char>>, k: int, v: VersionSpec)
    requires
        0 <= k <= parts.len(),
        fold_join(parts, k) is Ok,
    ensures
        in_range(v, fold_join(parts, k)->Ok_0) == exists|j: int|
            0 <= j < k && #[trigger] alternative_holds(trim(parts[j]), v),
    decreases k,
{
    if k > 0 {
        assert(fold_join(parts, k - 1) is Ok);
        law_alternatives(parts, k - 1, v);
        let r = fold_join(parts, k - 1)->Ok_0;
        let sub = npm_conjunction(trim(parts[k - 1]))->Ok_0;
        lemma_fold_join_proper(parts, k - 1);
        let alt = words(trim(parts[k - 1]));
        lemma_fold_meet_proper(alt, alt.len() as int, Ecosystem::Npm);
        law_range_union(r, sub, v);
        if in_range(v, sub) {
            assert(alternative_holds(trim(parts[k - 1]), v));
        }
        if exists|j: int| 0 <= j < k && #[trigger] alternative_holds(trim(parts[j]), v) {
            let j = choose|j: int| 0 <= j < k && #[trigger] alternative_holds(trim(parts[j]), v);
            if j < k - 1 {
                assert(exists|i: int| 0 <= i < k - 1 && #[trigger] alternative_holds(trim(parts[i]), v));
            }
        }
    }
}

/// The `||`-separated alternatives of a trimmed npm range.
pub open spec fn npm_alternatives(input: Seq<char>) -> Seq<Seq<char>> {
    split_str(trim(input), seq!['|', '|'])
}

/// An npm range with `||` that parses holds exactly the versions that one
/// of its alternatives holds.
pub proof fn law_npm_alternatives(input: Seq<char>, v: VersionSpec)
    requires
        trim(input).len() > 0,
        trim(input) != seq!['*'],
        npm_alternatives(input).len() > 1,
        range_outcome(input, Ecosystem::Npm) is Ok,
    ensures
        in_range(v, range_outcome(input, Ecosystem::Npm)->Ok_0) == exists|j: int|
            0 <= j < npm_alternatives(input).len() && #[trigger] alternative_holds(
                trim(npm_alternatives(input)[j]),
                v,
            ),
{
    let parts = npm_alternatives(input);
    assert(npm_range(trim(input)) == fold_join(parts, parts.len() as int));
    law_alternatives(parts, parts.len() as int, v);
}

/// The name of an ecosystem reads back as that ecosystem.
pub proof fn law_ecosystem_name_roundtrip(e: Ecosystem)
    ensures
        ecosystem_named(ecosystem_name(e)) == Some(e),
{
    reveal_strlit("npm");
    reveal_strlit("node");
    reveal_strlit("nodejs");
    reveal_strlit("cargo");
    reveal_strlit("rust");
    reveal_strlit("pip");
    reveal_strlit("python");
    reveal_strlit("pypi");
    reveal_strlit("gem");
    reveal_strlit("ruby");
    reveal_strlit("bundler");
    let n = ecosystem_name(e);
    assert(ascii_lower(n) =~= n);
    match e {
        Ecosystem::Npm => {},
        Ecosystem::Cargo => {
            assert(n != "npm"@ && n != "node"@ && n != "nodejs"@);
        },
        Ecosystem::Pip => {
            assert(n[0] != "npm"@[0]);
            assert(n != "npm"@ && n != "node"@ && n != "nodejs"@);
            assert(n != "cargo"@ && n != "rust"@);
        },
        Ecosystem::Gem => {
            assert(n[0] != "npm"@[0] && n[0] != "pip"@[0]);
            assert(n != "npm"@ && n != "node"@ && n != "nodejs"@);
            assert(n != "cargo"@ && n != "rust"@);
            assert(n != "pip"@ && n != "python"@ && n != "pypi"@);
        },
    }
}

/// `v` lies at or above `lo` and below `up`.
pub open spec fn within(v: VersionSpec, lo: VersionSpec, up: VersionSpec) -> bool {
    precedence(v, lo) != Order::Less && precedence(v, up) == Order::Less
}

/// The versions a caret comparator (npm, Cargo) holds: from the partial
/// version after `^` (missing parts 0) up to, not including, the next
/// version that changes its left-most non-zero part among those given:
/// `^M.m.p` with `M > 0` → `<(M+1).0.0`; `^0.m` and `^0.m.p` with `m > 0`
/// → `<0.(m+1).0`, so no release `0.k.j` with `k > m` is held; `^0.0.p` →
/// `<0.0.(p+1)`; `^0.0` → `<0.1.0`; `^0` → `<1.0.0`.
#[verifier::spinoff_prover]
#[verifier::rlimit(30)]
pub proof fn law_caret(eco: Ecosystem, c: Seq<char>, p: PartialSpec, v: VersionSpec)
    requires
        eco == Ecosystem::Npm || eco == Ecosystem::Cargo,
        trim(c).len() > 0 && trim(c)[0] == '^',
        partial_spec(trim(c).subrange(1, trim(c).len() as int)) == Ok::<PartialSpec, RangeFailure>(p),
    ensures
        ({
            let lo = VersionSpec {
                major: p.major,
                minor: if p.minor is Some { p.minor.unwrap() } else { 0 },
                patch: if p.patch is Some { p.patch.unwrap() } else { 0 },
                pre: p.pre,
                build: p.build,
            };
            let m = lo.minor;
            let q = lo.patch;
            &&& p.major > 0 && p.major < u64::MAX ==> (comparator_holds(eco, c, v) <==> within(
                v,
                lo,
                plain((p.major + 1) as u64, 0, 0),
            ))
            &&& p.major == 0 && p.minor is Some && 0 < m < u64::MAX ==> (comparator_holds(
                eco,
                c,
                v,
            ) <==> within(v, lo, plain(0, (m + 1) as u64, 0)))
            &&& p.major == 0 && p.minor is Some && 0 < m && v.major == 0 && v.minor > m
                && v.pre.len() == 0
                ==> !comparator_holds(eco, c, v)
            &&& p.major == 0 && p.minor == Some(0u64) && p.patch is Some && q < u64::MAX
                ==> (comparator_holds(eco, c, v) <==> within(v, lo, plain(0, 0, (q + 1) as u64)))
            &&& p.major == 0 && p.minor == Some(0u64) && p.patch is None ==> (comparator_holds(
                eco,
                c,
                v,
            ) <==> within(v, lo, plain(0, 1, 0)))
            &&& p.major == 0 && p.minor is None ==> (comparator_holds(eco, c, v) <==> within(
                v,
                lo,
                plain(1, 0, 0),
            ))
        }),
{
    let t = trim(c);
    assert(t.subrange(1, t.len() as int) == after(t, 1));
    assert(starts1(t, '^'));
    assert(t != seq!['*']);
    assert(comparator(eco, c) == npm_comparator(c));
    assert(npm_comparator(c) == caret_range(after(t, 1)));
    let lo = partial_version(p);
    match caret_upper(p) {
        Some(u) => {
            let r = seq![half_open(lo, u)];
            assert(comparator(eco, c) == Ok::<Seq<IntervalSpec>, Option<RangeFailure>>(r));
            if in_interval(v, r[0]) {
                assert(in_range(v, r));
            }
            assert(comparator_holds(eco, c, v) <==> within(v, lo, u));
        },
        None => {},
    }
}

proof fn lemma_single_interval(eco: Ecosystem, c: Seq<char>, lo: VersionSpec, u: VersionSpec, v: VersionSpec)
    requires
        comparator(eco, c) == Ok::<Seq<IntervalSpec>, Option<RangeFailure>>(seq![half_open(lo, u)]),
    ensures
        comparator_holds(eco, c, v) <==> within(v, lo, u),
{
    let r = seq![half_open(lo, u)];
    if in_interval(v, r[0]) {
        assert(in_range(v, r));
    }
}

/// The full version of a partial one, missing parts 0.
pub open spec fn filled(p: PartialSpec) -> VersionSpec {
    VersionSpec {
        major: p.major,
        minor: if p.minor is Some { p.minor.unwrap() } else { 0 },
        patch: if p.patch is Some { p.patch.unwrap() } else { 0 },
        pre: p.pre,
        build: p.build,
    }
}

/// The versions a tilde comparator (npm, Cargo) holds: `~M.m` and `~M.m.p`
/// hold `[M.m.p, M.(m+1).0)`, `~M` holds `[M.0.0, (M+1).0.0)`.
pub proof fn law_tilde(eco: Ecosystem, c: Seq<char>, p: PartialSpec, v: VersionSpec)
    requires
        eco == Ecosystem::Npm || eco == Ecosystem::Cargo,
        trim(c).len() > 0 && trim(c)[0] == '~',
        partial_spec(trim(c).subrange(1, trim(c).len() as int)) == Ok::<PartialSpec, RangeFailure>(p),
    ensures
        p.minor is Some && filled(p).minor < u64::MAX ==> (comparator_holds(eco, c, v) <==> within(
            v,
            filled(p),
            plain(p.major, (filled(p).minor + 1) as u64, 0),
        )),
        p.minor is None && p.major < u64::MAX ==> (comparator_holds(eco, c, v) <==> within(
            v,
            filled(p),
            plain((p.major + 1) as u64, 0, 0),
        )),
{
    let t = trim(c);
    assert(t.subrange(1, t.len() as int) == after(t, 1));
    assert(t != seq!['*']);
    assert(!starts1(t, '^'));
    assert(comparator(eco, c) == tilde_range(after(t, 1)));
    assert(filled(p) == partial_version(p));
    if let Some(u) = tilde_upper(p) {
        lemma_single_interval(eco, c, filled(p), u, v);
    }
}

/// The versions a gem pessimistic comparator holds: `~>M.m.p` holds
/// `[M.m.p, M.(m+1).0)`; `~>M.m` and `~>M` hold `[M.m.0, (M+1).0.0)`.
pub proof fn law_pessimistic(c: Seq<char>, p: PartialSpec, v: VersionSpec)
    requires
        trim(c).len() > 1 && trim(c)[0] == '~' && trim(c)[1] == '>',
        partial_spec(trim(trim(c).subrange(2, trim(c).len() as int))) == Ok::<
            PartialSpec,
            RangeFailure,
        >(p),
    ensures
        p.minor is Some && p.patch is Some && filled(p).minor < u64::MAX ==> (comparator_holds(
            Ecosystem::Gem,
            c,
            v,
        ) <==> within(v, filled(p), plain(p.major, (filled(p).minor + 1) as u64, 0))),
        !(p.minor is Some && p.patch is Some) && p.major < u64::MAX ==> (comparator_holds(
            Ecosystem::Gem,
            c,
            v,
        ) <==> within(v, filled(p), plain((p.major + 1) as u64, 0, 0))),
{
    let t = trim(c);
    assert(t.subrange(2, t.len() as int) == after(t, 2));
    assert(starts2(t, '~', '>'));
    assert(comparator(Ecosystem::Gem, c) == pessimistic_range(trim(after(t, 2))));
    assert(filled(p) == partial_version(p));
    if let Some(u) = pessimistic_upper(p) {
        lemma_single_interval(Ecosystem::Gem, c, filled(p), u, v);
    }
}

/// The versions a pip compatible-release comparator holds: `~=M.m.p` holds
/// `[M.m.p, M.(m+1).0)`; `~=M.m` holds `[M.m.0, (M+1).0.0)`; `~=M` holds
/// none (it is refused).
pub proof fn law_compatible(c: Seq<char>, p: PartialSpec, v: VersionSpec)
    requires
        trim(c).len() > 1 && trim(c)[0] == '~' && trim(c)[1] == '=',
        partial_spec(trim(trim(c).subrange(2, trim(c).len() as int))) == Ok::<
            PartialSpec,
            RangeFailure,
        >(p),
    ensures
        p.minor is Some && p.patch is Some && filled(p).minor < u64::MAX ==> (comparator_holds(
            Ecosystem::Pip,
            c,
            v,
        ) <==> within(v, filled(p), plain(p.major, (filled(p).minor + 1) as u64, 0))),
        p.minor is Some && p.patch is None && p.major < u64::MAX ==> (comparator_holds(
            Ecosystem::Pip,
            c,
            v,
        ) <==> within(v, filled(p), plain((p.major + 1) as u64, 0, 0))),
        p.minor is None ==> !comparator_holds(Ecosystem::Pip, c, v),
{
    let t = trim(c);
    assert(t.subrange(2, t.len() as int) == after(t, 2));
    assert(starts2(t, '~', '='));
    assert(comparator(Ecosystem::Pip, c) == compat_range(trim(after(t, 2))));
    assert(filled(p) == partial_version(p));
    if let Ok(u) = compat_upper(p) {
        lemma_single_interval(Ecosystem::Pip, c, filled(p), u, v);
    }
}

proof fn lemma_trim_end_prefix(s: Seq<char>)
    ensures
        trim_end(s).len() <= s.len(),
        forall|i: int| 0 <= i < trim_end(s).len() ==> #[trigger] trim_end(s)[i] == s[i],
    decreases s.len(),
{
    if s.len() > 0 && is_ws(s.last()) {
        lemma_trim_end_prefix(s.drop_last());
    }
}

/// The versions a bare partial version holds as an npm or Cargo comparator
/// (an X-range): `M.m.p` holds the versions of equal precedence; `M.m` (or
/// `M.m.x`) holds `[M.m.0, M.(m+1).0)`; `M` (or `M.x`) holds
/// `[M.0.0, (M+1).0.0)`.
#[verifier::spinoff_prover]
#[verifier::rlimit(30)]
pub proof fn law_xrange(eco: Ecosystem, c: Seq<char>, p: PartialSpec, v: VersionSpec)
    requires
        eco == Ecosystem::Npm || eco == Ecosystem::Cargo,
        trim(c).len() > 0 && '0' <= trim(c)[0] && trim(c)[0] <= '9',
        partial_spec(trim(c)) == Ok::<PartialSpec, RangeFailure>(p),
    ensures
        p.minor is Some && p.patch is Some ==> (comparator_holds(eco, c, v) <==> precedence(
            v,
            filled(p),
        ) == Order::Equal),
        p.minor is Some && p.patch is None && filled(p).minor < u64::MAX ==> (comparator_holds(
            eco,
            c,
            v,
        ) <==> within(v, filled(p), plain(p.major, (filled(p).minor + 1) as u64, 0))),
        p.minor is None && p.major < u64::MAX ==> (comparator_holds(eco, c, v) <==> within(
            v,
            filled(p),
            plain((p.major + 1) as u64, 0, 0),
        )),
{
    let t = trim(c);
    assert(trim_start(t) == t);
    lemma_trim_end_prefix(t);
    assert(t != seq!['*']);
    assert(!is_wild(trim(t)));
    assert(comparator(eco, c) == xrange_range(t));
    assert(filled(p) == partial_version(p));
    if p.minor is Some && p.patch is Some {
        let r = seq![exact_interval(filled(p))];
        if in_interval(v, r[0]) {
            assert(in_range(v, r));
        }
    } else if let Some(u) = tilde_upper(p) {
        lemma_single_interval(eco, c, filled(p), u, v);
    }
}

/// The partial version parsed from `x`, where it parses.
pub open spec fn parsed_partial(x: Seq<char>) -> PartialSpec {
    match partial_spec(x) {
        Ok(p) => p,
        Err(_) => PartialSpec { major: 0, minor: None, patch: None, pre: seq![], build: seq![] },
    }
}

proof fn lemma_bound_interval(eco: Ecosystem, c: Seq<char>, i: IntervalSpec, v: VersionSpec)
    requires
        comparator(eco, c) == Ok::<Seq<IntervalSpec>, Option<RangeFailure>>(seq![i]),
    ensures
        comparator_holds(eco, c, v) <==> in_interval(v, i),
{
    if in_interval(v, seq![i][0]) {
        assert(in_range(v, seq![i]));
    }
}

/// The comparison operators, in every ecosystem, compare by precedence
/// with the partial version after them (missing parts 0): `>=` holds what
/// is not below it, `<=` what is not above it, `>` what is above it, `<`
/// what is below it.
#[verifier::spinoff_prover]
#[verifier::rlimit(30)]
pub proof fn law_comparison_operators(eco: Ecosystem, c: Seq<char>, v: VersionSpec)
    ensures
        ({
            let t = trim(c);
            let x = trim(after(t, 2));
            starts2(t, '>', '=') && partial_spec(x) is Ok ==> (comparator_holds(eco, c, v)
                <==> precedence(v, filled(parsed_partial(x))) != Order::Less)
        }),
        ({
            let t = trim(c);
            let x = trim(after(t, 2));
            starts2(t, '<', '=') && partial_spec(x) is Ok ==> (comparator_holds(eco, c, v)
                <==> precedence(v, filled(parsed_partial(x))) != Order::Greater)
        }),
        ({
            let t = trim(c);
            let x = trim(after(t, 1));
            starts1(t, '>') && !starts2(t, '>', '=') && partial_spec(x) is Ok ==> (
            comparator_holds(eco, c, v) <==> precedence(v, filled(parsed_partial(x)))
                == Order::Greater)
        }),
        ({
            let t = trim(c);
            let x = trim(after(t, 1));
            starts1(t, '<') && !starts2(t, '<', '=') && partial_spec(x) is Ok ==> (
            comparator_holds(eco, c, v) <==> precedence(v, filled(parsed_partial(x)))
                == Order::Less)
        }),
{
    let t = trim(c);
    assert(starts1(t, '>') ==> !starts1(t, '^') && !starts1(t, '~') && t != seq!['*'] && !starts2(
        t,
        '~',
        '=',
    ) && !starts2(t, '~', '>') && !starts2(t, '<', '=') && !starts2(t, '!', '=') && !starts2(
        t,
        '=',
        '=',
    ));
    assert(starts1(t, '<') ==> !starts1(t, '^') && !starts1(t, '~') && t != seq!['*'] && !starts2(
        t,
        '~',
        '=',
    ) && !starts2(t, '~', '>') && !starts2(t, '>', '=') && !starts2(t, '!', '=') && !starts2(
        t,
        '=',
        '=',
    ));
    assert(starts2(t, '>', '=') ==> starts1(t, '>'));
    assert(starts2(t, '<', '=') ==> starts1(t, '<'));
    match comparator(eco, c) {
        Ok(r) => {
            if r.len() == 1 {
                assert(r =~= seq![r[0]]);
                lemma_bound_interval(eco, c, r[0], v);
            }
        },
        Err(_) => {},
    }
    let x2 = trim(after(t, 2));
    let x1 = trim(after(t, 1));
    assert(filled(parsed_partial(x2)) == partial_version(parsed_partial(x2)));
    assert(filled(parsed_partial(x1)) == partial_version(parsed_partial(x1)));
    crate::version_laws::law_precedence_antisymmetric(v, filled(parsed_partial(x2)));
    crate::version_laws::law_precedence_antisymmetric(v, filled(parsed_partial(x1)));
}

/// Ecosystem names are read without regard to ASCII case, with their
/// aliases: `npm`, `node`, `nodejs`; `cargo`, `rust`; `pip`, `python`,
/// `pypi`; `gem`, `ruby`, `bundler`.
pub proof fn law_ecosystem_aliases(s: Seq<char>)
    ensures
        ({
            let l = ascii_lower(s);
            &&& (l == "npm"@ || l == "node"@ || l == "nodejs"@) ==> ecosystem_named(s) == Some(
                Ecosystem::Npm,
            )
            &&& (l == "cargo"@ || l == "rust"@) ==> ecosystem_named(s) == Some(Ecosystem::Cargo)
            &&& (l == "pip"@ || l == "python"@ || l == "pypi"@) ==> ecosystem_named(s) == Some(
                Ecosystem::Pip,
            )
            &&& (l == "gem"@ || l == "ruby"@ || l == "bundler"@) ==> ecosystem_named(s) == Some(
                Ecosystem::Gem,
            )
        }),
{
    reveal_strlit("npm");
    reveal_strlit("node");
    reveal_strlit("nodejs");
    reveal_strlit("cargo");
    reveal_strlit("rust");
    reveal_strlit("pip");
    reveal_strlit("python");
    reveal_strlit("pypi");
    reveal_strlit("gem");
    reveal_strlit("ruby");
    reveal_strlit("bundler");
    let l = ascii_lower(s);
    if l == "cargo"@ || l == "rust"@ {
        assert(l != "npm"@ && l != "node"@ && l != "nodejs"@) by {
            assert(l[0] != 'n');
        }
    }
    if l == "pip"@ || l == "python"@ || l == "pypi"@ {
        assert(l[0] == 'p');
    }
    if l == "gem"@ || l == "ruby"@ || l == "bundler"@ {
        assert(l[0] != 'n' && l[0] != 'c' && l[0] != 'p');
        assert(l != "rust"@) by {
            if l == "ruby"@ {
                assert(l[2] != "rust"@[2]);
            } else {
                assert(l[0] != 'r');
            }
        }
    }
}

/// Equality operators compare by precedence with the partial version after
/// them (missing parts 0): `=` (npm, Cargo, gem) and `==` (pip) hold the
/// versions of equal precedence, pip's `!=` every other version; a bare
/// version in pip or gem syntax is exact.
#[verifier::spinoff_prover]
#[verifier::rlimit(30)]
pub proof fn law_equality_operators(c: Seq<char>, v: VersionSpec)
    ensures
        ({
            let t = trim(c);
            let x = trim(after(t, 1));
            starts1(t, '=') && partial_spec(x) is Ok ==> (comparator_holds(Ecosystem::Npm, c, v)
                <==> precedence(v, filled(parsed_partial(x))) == Order::Equal) && (
            comparator_holds(Ecosystem::Cargo, c, v) <==> precedence(
                v,
                filled(parsed_partial(x)),
            ) == Order::Equal) && (comparator_holds(Ecosystem::Gem, c, v) <==> precedence(
                v,
                filled(parsed_partial(x)),
            ) == Order::Equal)
        }),
        ({
            let t = trim(c);
            let x = trim(after(t, 2));
            starts2(t, '=', '=') && partial_spec(x) is Ok ==> (comparator_holds(Ecosystem::Pip, c, v)
                <==> precedence(v, filled(parsed_partial(x))) == Order::Equal)
        }),
        ({
            let t = trim(c);
            let x = trim(after(t, 2));
            starts2(t, '!', '=') && partial_spec(x) is Ok ==> (comparator_holds(Ecosystem::Pip, c, v)
                <==> precedence(v, filled(parsed_partial(x))) != Order::Equal)
        }),
        ({
            let t = trim(c);
            t.len() > 0 && '0' <= t[0] && t[0] <= '9' && partial_spec(t) is Ok ==> (
            comparator_holds(Ecosystem::Pip, c, v) <==> precedence(v, filled(parsed_partial(t)))
                == Order::Equal) && (comparator_holds(Ecosystem::Gem, c, v) <==> precedence(
                v,
                filled(parsed_partial(t)),
            ) == Order::Equal)
        }),
{
    let t = trim(c);
    let x1 = trim(after(t, 1));
    let x2 = trim(after(t, 2));
    assert(filled(parsed_partial(x1)) == partial_version(parsed_partial(x1)));
    assert(filled(parsed_partial(x2)) == partial_version(parsed_partial(x2)));
    assert(filled(parsed_partial(t)) == partial_version(parsed_partial(t)));
    assert(starts2(t, '=', '=') ==> starts1(t, '='));
    if starts1(t, '=') && partial_spec(x1) is Ok {
        lemma_exact_holds(Ecosystem::Npm, c, filled(parsed_partial(x1)), v);
        lemma_exact_holds(Ecosystem::Cargo, c, filled(parsed_partial(x1)), v);
        lemma_exact_holds(Ecosystem::Gem, c, filled(parsed_partial(x1)), v);
    }
    if starts2(t, '=', '=') && partial_spec(x2) is Ok {
        lemma_exact_holds(Ecosystem::Pip, c, filled(parsed_partial(x2)), v);
    }
    if starts2(t, '!', '=') && partial_spec(x2) is Ok {
        let p = filled(parsed_partial(x2));
        let r = range_negation(seq![exact_interval(p)]);
        assert(comparator(Ecosystem::Pip, c) == Ok::<Seq<IntervalSpec>, Option<RangeFailure>>(r));
        crate::range_laws::law_range_negate(seq![exact_interval(p)], v);
        if in_interval(v, seq![exact_interval(p)][0]) {
            assert(in_range(v, seq![exact_interval(p)]));
        }
        lemma_exact_interval(p, v);
    }
    if t.len() > 0 && '0' <= t[0] && t[0] <= '9' && partial_spec(t) is Ok {
        lemma_exact_holds(Ecosystem::Pip, c, filled(parsed_partial(t)), v);
        lemma_exact_holds(Ecosystem::Gem, c, filled(parsed_partial(t)), v);
    }
}

proof fn lemma_exact_interval(p: VersionSpec, v: VersionSpec)
    ensures
        in_interval(v, exact_interval(p)) <==> precedence(v, p) == Order::Equal,
{
}

proof fn lemma_exact_holds(eco: Ecosystem, c: Seq<char>, p: VersionSpec, v: VersionSpec)
    requires
        comparator(eco, c) == Ok::<Seq<IntervalSpec>, Option<RangeFailure>>(seq![exact_interval(p)]),
    ensures
        comparator_holds(eco, c, v) <==> precedence(v, p) == Order::Equal,
{
    let r = seq![exact_interval(p)];
    if in_interval(v, r[0]) {
        assert(in_range(v, r));
    }
    lemma_exact_interval(p, v);
}

} // verus!
