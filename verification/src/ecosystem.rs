//! Multi-ecosystem version range syntax parsing.
//!
//! Supports range syntax from multiple ecosystems:
//! - npm/Node.js: ^, ~, >=, >, <=, <, =, ||, *
//! - Cargo/Rust: ^, ~, >=, >, <=, <, =, *, comma-separated (AND)
//! - pip/Python: >=, >, <=, <, ==, !=, ~=, comma-separated
//! - gem/Ruby: ~> (pessimistic), >=, >, <=, <, =, comma-separated

use crate::range::{
    everything, range_join, range_meet, range_negation, Interval, IntervalSpec, VersionRange,
};
use crate::text::{
    chars_find, chars_of, chars_parse_u64, chars_split, chars_split_str, chars_trim,
    chars_words, parse_u64, slice_views, split_char, split_str, string_of, trim, words,
};
use crate::version::{
    before_plus, build_part, concat_message, core_part, ids_view, plain, pre_part, split_ids,
    Version, VersionSpec,
};
use vstd::prelude::*;

verus! {

/// The ecosystem whose range syntax to use.
#[derive(Debug, Clone, Copy, PartialEq, Eq, Structural)]
pub enum Ecosystem {
    Npm,
    Cargo,
    Pip,
    Gem,
}

/// Errors during range parsing.
#[derive(Debug, Clone, PartialEq, Eq)]
pub enum RangeParseError {
    InvalidFormat(String),
    LeadingZero,
    InvalidVersion(String),
}

/// The mathematical value of a [`RangeParseError`].
pub enum RangeFailure {
    InvalidFormat(Seq<char>),
    LeadingZero,
    InvalidVersion(Seq<char>),
}

impl View for RangeParseError {
    type V = RangeFailure;

    open spec fn view(&self) -> RangeFailure {
        match self {
            RangeParseError::InvalidFormat(m) => RangeFailure::InvalidFormat(m@),
            RangeParseError::LeadingZero => RangeFailure::LeadingZero,
            RangeParseError::InvalidVersion(m) => RangeFailure::InvalidVersion(m@),
        }
    }
}

/// The message of a range failure.
pub open spec fn range_failure_text(e: RangeFailure) -> Seq<char> {
    match e {
        RangeFailure::InvalidFormat(m) => "invalid range format: "@ + m,
        RangeFailure::LeadingZero => "leading zero in version number"@,
        RangeFailure::InvalidVersion(m) => "invalid version: "@ + m,
    }
}

impl RangeParseError {
    /// The message of this error.
    pub fn message(&self) -> (r: String)
        ensures
            r@ == range_failure_text(self@),
    {
        match self {
            RangeParseError::InvalidFormat(m) => concat_message("invalid range format: ", m.as_str()),
            RangeParseError::LeadingZero => "leading zero in version number".to_owned(),
            RangeParseError::InvalidVersion(m) => concat_message("invalid version: ", m.as_str()),
        }
    }
}

/// The outcome of parsing part of a range: a value, a parse failure, or
/// `Err(None)` where computing a bound would overflow a `u64`.
pub type Outcome<T> = Result<T, Option<RangeFailure>>;

// ---------------------------------------------------------------------------
// Partial versions
// ---------------------------------------------------------------------------

/// A partially-specified version (e.g., "1.2" means "1.2.x").
#[derive(Debug, Clone)]
struct PartialVersion {
    major: u64,
    minor: Option<u64>,
    patch: Option<u64>,
    pre: Vec<String>,
    build: Vec<String>,
}

/// The mathematical value of a partial version.
pub struct PartialSpec {
    pub major: u64,
    pub minor: Option<u64>,
    pub patch: Option<u64>,
    pub pre: Seq<Seq<char>>,
    pub build: Seq<Seq<char>>,
}

impl View for PartialVersion {
    type V = PartialSpec;

    closed spec fn view(&self) -> PartialSpec {
        PartialSpec {
            major: self.major,
            minor: self.minor,
            patch: self.patch,
            pre: ids_view(self.pre@),
            build: ids_view(self.build@),
        }
    }
}

/// A wildcard: `*`, `x` or `X`.
pub open spec fn is_wild(t: Seq<char>) -> bool {
    t.len() == 1 && (t[0] == '*' || t[0] == 'x' || t[0] == 'X')
}

/// One dot-separated part of a partial version: absent when a wildcard,
/// else a number without leading zero; an empty part is refused.
pub open spec fn part_spec(s: Seq<char>) -> Result<Option<u64>, RangeFailure> {
    let t = trim(s);
    if t.len() == 0 {
        Err(RangeFailure::InvalidFormat("empty version part"@))
    } else if is_wild(t) {
        Ok(None)
    } else if t.len() > 1 && t[0] == '0' {
        Err(RangeFailure::LeadingZero)
    } else {
        match parse_u64(t) {
            Some(n) => Ok(Some(n)),
            None => Err(RangeFailure::InvalidFormat("not a number: "@ + t)),
        }
    }
}

/// The minor or patch part at position `k`, absent when there is none.
pub open spec fn optional_part(parts: Seq<Seq<char>>, k: int) -> Result<Option<u64>, RangeFailure> {
    if parts.len() > k {
        part_spec(parts[k])
    } else {
        Ok(None)
    }
}

/// What parsing a partial version (`1`, `1.2`, `1.2.3`, `1.x`, `*`, with
/// optional pre-release and build parts) gives. More than three parts, or
/// an empty part, are refused.
pub open spec fn partial_spec(input: Seq<char>) -> Result<PartialSpec, RangeFailure> {
    let t = trim(input);
    let vp = before_plus(t);
    let parts = split_char(core_part(vp), '.');
    if t.len() == 0 || is_wild(t) {
        Ok(PartialSpec { major: 0, minor: None, patch: None, pre: seq![], build: seq![] })
    } else if parts.len() > 3 {
        Err(RangeFailure::InvalidFormat("too many version parts"@))
    } else {
        match part_spec(parts[0]) {
            Err(e) => Err(e),
            Ok(None) => Err(RangeFailure::InvalidFormat("major is required"@)),
            Ok(Some(major)) => match optional_part(parts, 1) {
                Err(e) => Err(e),
                Ok(minor) => match optional_part(parts, 2) {
                    Err(e) => Err(e),
                    Ok(patch) => Ok(
                        PartialSpec { major, minor, patch, pre: pre_part(vp), build: build_part(t) },
                    ),
                },
            },
        }
    }
}

/// The full version of a partial one, missing parts filled with 0.
pub open spec fn partial_version(p: PartialSpec) -> VersionSpec {
    VersionSpec {
        major: p.major,
        minor: match p.minor {
            Some(m) => m,
            None => 0,
        },
        patch: match p.patch {
            Some(n) => n,
            None => 0,
        },
        pre: p.pre,
        build: p.build,
    }
}

/// A plain version with the given parts, if they all fit a `u64`.
pub open spec fn core_version(major: int, minor: int, patch: int) -> Option<VersionSpec> {
    if 0 <= major <= u64::MAX && 0 <= minor <= u64::MAX && 0 <= patch <= u64::MAX {
        Some(plain(major as u64, minor as u64, patch as u64))
    } else {
        None
    }
}

/// The upper bound of a caret range: `^1.2.3` → `2.0.0`, `^0.2.3` →
/// `0.3.0`, `^0.0.3` → `0.0.4`, `^0.0` → `0.1.0`.
pub open spec fn caret_upper(p: PartialSpec) -> Option<VersionSpec> {
    if p.major == 0 && p.minor == Some(0u64) && p.patch is Some {
        core_version(0, 0, p.patch.unwrap() + 1)
    } else if p.major == 0 && p.minor == Some(0u64) {
        core_version(0, 1, 0)
    } else if p.major == 0 && p.minor is Some {
        core_version(0, p.minor.unwrap() + 1, 0)
    } else {
        core_version(p.major + 1, 0, 0)
    }
}

/// The upper bound of a gem pessimistic range: `~>1.2.3` → `1.3.0`,
/// `~>1.2` and `~>1` → `2.0.0`.
pub open spec fn pessimistic_upper(p: PartialSpec) -> Option<VersionSpec> {
    if p.minor is Some && p.patch is Some {
        core_version(p.major as int, p.minor.unwrap() + 1, 0)
    } else {
        core_version(p.major + 1, 0, 0)
    }
}

/// The upper bound of a tilde range: `~1.2.3` and `~1.2` → `1.3.0`, `~1` → `2.0.0`.
pub open spec fn tilde_upper(p: PartialSpec) -> Option<VersionSpec> {
    if p.minor is Some {
        core_version(p.major as int, p.minor.unwrap() + 1, 0)
    } else {
        core_version(p.major + 1, 0, 0)
    }
}

/// The upper bound of a pip compatible release: `~=1.2.3` → `1.3.0`,
/// `~=1.2` → `2.0.0`; a major version alone is refused.
pub open spec fn compat_upper(p: PartialSpec) -> Outcome<VersionSpec> {
    if p.minor is None {
        Err(Some(RangeFailure::InvalidFormat("~= requires at least major.minor"@)))
    } else {
        match if p.patch is Some {
            core_version(p.major as int, p.minor.unwrap() + 1, 0)
        } else {
            core_version(p.major + 1, 0, 0)
        } {
            Some(v) => Ok(v),
            None => Err(None),
        }
    }
}

impl PartialVersion {
    /// Convert to a full Version, filling missing parts with 0.
    fn to_version(&self) -> (r: Version)
        ensures
            r@ == partial_version(self@),
    {
        let minor = match self.minor {
            Some(m) => m,
            None => 0,
        };
        let patch = match self.patch {
            Some(n) => n,
            None => 0,
        };
        Version::new(self.major, minor, patch).with_pre(copy_strings(&self.pre)).with_build(
            copy_strings(&self.build),
        )
    }

    /// Compute the upper bound for a caret (^) range.
    fn caret_upper_bound(&self) -> (r: Option<Version>)
        ensures
            match r {
                Some(v) => caret_upper(self@) == Some(v@),
                None => caret_upper(self@) is None,
            },
    {
        match (self.minor, self.patch) {
            (Some(0), Some(patch)) if self.major == 0 => {
                if patch == u64::MAX {
                    None
                } else {
                    Some(Version::new(0, 0, patch + 1))
                }
            },
            (Some(0), None) if self.major == 0 => Some(Version::new(0, 1, 0)),
            (Some(minor), _) if self.major == 0 => {
                if minor == u64::MAX {
                    None
                } else {
                    Some(Version::new(0, minor + 1, 0))
                }
            },
            _ => {
                if self.major == u64::MAX {
                    None
                } else {
                    Some(Version::new(self.major + 1, 0, 0))
                }
            },
        }
    }

    /// Compute the upper bound for gem's pessimistic (~>) operator.
    fn pessimistic_upper_bound(&self) -> (r: Option<Version>)
        ensures
            match r {
                Some(v) => pessimistic_upper(self@) == Some(v@),
                None => pessimistic_upper(self@) is None,
            },
    {
        match (self.minor, self.patch) {
            (Some(minor), Some(_)) => {
                if minor == u64::MAX {
                    None
                } else {
                    Some(Version::new(self.major, minor + 1, 0))
                }
            },
            _ => {
                if self.major == u64::MAX {
                    None
                } else {
                    Some(Version::new(self.major + 1, 0, 0))
                }
            },
        }
    }

    /// Compute the upper bound for a tilde (~) range.
    fn tilde_upper_bound(&self) -> (r: Option<Version>)
        ensures
            match r {
                Some(v) => tilde_upper(self@) == Some(v@),
                None => tilde_upper(self@) is None,
            },
    {
        match self.minor {
            Some(minor) => {
                if minor == u64::MAX {
                    None
                } else {
                    Some(Version::new(self.major, minor + 1, 0))
                }
            },
            None => {
                if self.major == u64::MAX {
                    None
                } else {
                    Some(Version::new(self.major + 1, 0, 0))
                }
            },
        }
    }

    /// Compute the upper bound for a pip ~= compatible release.
    fn compat_upper_bound(&self) -> (r: Result<Version, Option<RangeParseError>>)
        ensures
            outcome_view(r, |v: Version| v@) == compat_upper(self@),
    {
        match (self.minor, self.patch) {
            (Some(minor), Some(_)) => {
                if minor == u64::MAX {
                    Err(None)
                } else {
                    Ok(Version::new(self.major, minor + 1, 0))
                }
            },
            (Some(_), None) => {
                if self.major == u64::MAX {
                    Err(None)
                } else {
                    Ok(Version::new(self.major + 1, 0, 0))
                }
            },
            (None, _) => Err(
                Some(
                    RangeParseError::InvalidFormat("~= requires at least major.minor".to_owned()),
                ),
            ),
        }
    }
}

/// The mathematical value of an outcome.
pub open spec fn outcome_view<T, V>(r: Result<T, Option<RangeParseError>>, f: spec_fn(T) -> V) -> Outcome<V> {
    match r {
        Ok(x) => Ok(f(x)),
        Err(Some(e)) => Err(Some(e@)),
        Err(None) => Err(None),
    }
}

/// A copy of a list of strings.
fn copy_strings(v: &Vec<String>) -> (r: Vec<String>)
    ensures
        ids_view(r@) == ids_view(v@),
{
    let mut out: Vec<String> = Vec::new();
    let mut i: usize = 0;
    while i < v.len()
        invariant
            0 <= i <= v.len(),
            ids_view(out@) == ids_view(v@).subrange(0, i as int),
        decreases v.len() - i,
    {
        let ghost before = out@;
        out.push(v[i].clone());
        assert(ids_view(out@) =~= ids_view(before).push(v@[i as int]@));
        assert(ids_view(out@) =~= ids_view(v@).subrange(0, i + 1));
        i = i + 1;
    }
    assert(ids_view(v@).subrange(0, i as int) =~= ids_view(v@));
    out
}

fn chars_is_wild(t: &[char]) -> (r: bool)
    ensures
        r == is_wild(t@),
{
    t.len() == 1 && (t[0] == '*' || t[0] == 'x' || t[0] == 'X')
}

/// Parse one part of a partial version.
fn parse_part(s: &[char]) -> (r: Result<Option<u64>, RangeParseError>)
    ensures
        match r {
            Ok(p) => part_spec(s@) == Ok::<Option<u64>, RangeFailure>(p),
            Err(e) => part_spec(s@) == Err::<Option<u64>, RangeFailure>(e@),
        },
{
    let t = chars_trim(s);
    if t.len() == 0 {
        return Err(RangeParseError::InvalidFormat("empty version part".to_owned()));
    }
    if chars_is_wild(t) {
        return Ok(None);
    }
    if t.len() > 1 && t[0] == '0' {
        return Err(RangeParseError::LeadingZero);
    }
    match chars_parse_u64(t) {
        Some(n) => Ok(Some(n)),
        None => {
            let shown = string_of(t);
            Err(RangeParseError::InvalidFormat(concat_message("not a number: ", shown.as_str())))
        },
    }
}

/// Split dot-separated identifiers.
fn split_ids_exec(s: &[char]) -> (r: Vec<String>)
    ensures
        ids_view(r@) == split_ids(s@),
{
    let mut out: Vec<String> = Vec::new();
    if s.len() == 0 {
        assert(ids_view(out@) =~= Seq::<Seq<char>>::empty());
        return out;
    }
    let pieces = chars_split(s, '.');
    let ghost pv = split_char(s@, '.');
    let mut i: usize = 0;
    while i < pieces.len()
        invariant
            slice_views(pieces@) == pv,
            pv == split_char(s@, '.'),
            0 <= i <= pieces.len(),
            ids_view(out@) == pv.subrange(0, i as int),
        decreases pieces.len() - i,
    {
        let id = string_of(pieces[i]);
        let ghost before = out@;
        out.push(id);
        assert(pv[i as int] == pieces@[i as int]@);
        assert(ids_view(out@) =~= ids_view(before).push(id@));
        assert(ids_view(out@) =~= pv.subrange(0, i + 1));
        i = i + 1;
    }
    assert(pv.subrange(0, i as int) =~= pv);
    out
}

/// Parse a partial version with detailed information.
fn parse_partial_version_detailed(input: &[char]) -> (r: Result<PartialVersion, RangeParseError>)
    ensures
        match r {
            Ok(p) => partial_spec(input@) == Ok::<PartialSpec, RangeFailure>(p@),
            Err(e) => partial_spec(input@) == Err::<PartialSpec, RangeFailure>(e@),
        },
{
    let t = chars_trim(input);
    if t.len() == 0 || chars_is_wild(t) {
        let p = PartialVersion { major: 0, minor: None, patch: None, pre: Vec::new(), build: Vec::new() };
        assert(p@.pre =~= Seq::<Seq<char>>::empty());
        assert(p@.build =~= Seq::<Seq<char>>::empty());
        return Ok(p);
    }
    let plus = chars_find(t, '+');
    proof {
        crate::text::lemma_find_char(t@, '+');
    }
    let vp: &[char] = match plus {
        Some(pos) => &t[0..pos],
        None => t,
    };
    let build: Vec<String> = match plus {
        Some(pos) => split_ids_exec(&t[pos + 1..t.len()]),
        None => Vec::new(),
    };
    assert(build_part(t@) == ids_view(build@)) by {
        if plus is None {
            assert(ids_view(build@) =~= Seq::<Seq<char>>::empty());
        }
    }
    let dash = chars_find(vp, '-');
    proof {
        crate::text::lemma_find_char(vp@, '-');
    }
    let core: &[char] = match dash {
        Some(pos) => &vp[0..pos],
        None => vp,
    };
    let pre: Vec<String> = match dash {
        Some(pos) => split_ids_exec(&vp[pos + 1..vp.len()]),
        None => Vec::new(),
    };
    assert(pre_part(vp@) == ids_view(pre@)) by {
        if dash is None {
            assert(ids_view(pre@) =~= Seq::<Seq<char>>::empty());
        }
    }
    let parts = chars_split(core, '.');
    proof {
        crate::text::lemma_split_char_nonempty(core@, '.');
    }
    let ghost pv = split_char(core@, '.');
    if parts.len() > 3 {
        return Err(RangeParseError::InvalidFormat("too many version parts".to_owned()));
    }
    assert(pv[0] == parts@[0]@);
    let major = match parse_part(parts[0])? {
        Some(m) => m,
        None => {
            return Err(RangeParseError::InvalidFormat("major is required".to_owned()));
        },
    };
    let minor = if parts.len() > 1 {
        assert(pv[1] == parts@[1]@);
        parse_part(parts[1])?
    } else {
        None
    };
    let patch = if parts.len() > 2 {
        assert(pv[2] == parts@[2]@);
        parse_part(parts[2])?
    } else {
        None
    };
    Ok(PartialVersion { major, minor, patch, pre, build })
}

/// Parse a partial version string (e.g., "1", "1.2", "1.2.3", "1.2.x", "1.x").
fn parse_partial_version(input: &[char]) -> (r: Result<Version, RangeParseError>)
    ensures
        match r {
            Ok(v) => partial_spec(input@) matches Ok(p) && v@ == partial_version(p),
            Err(e) => partial_spec(input@) == Err::<PartialSpec, RangeFailure>(e@),
        },
{
    let pv = parse_partial_version_detailed(input)?;
    Ok(pv.to_version())
}

// ---------------------------------------------------------------------------
// Comparators
// ---------------------------------------------------------------------------

/// The mathematical value of a range outcome.
pub open spec fn range_outcome_view(r: Result<VersionRange, Option<RangeParseError>>) -> Outcome<
    Seq<IntervalSpec>,
> {
    match r {
        Ok(x) => Ok(x@),
        Err(Some(e)) => Err(Some(e@)),
        Err(None) => Err(None),
    }
}

/// The characters of `s` from position `n` on.
pub open spec fn after(s: Seq<char>, n: int) -> Seq<char> {
    s.subrange(n, s.len() as int)
}

pub open spec fn starts1(s: Seq<char>, a: char) -> bool {
    s.len() >= 1 && s[0] == a
}

pub open spec fn starts2(s: Seq<char>, a: char, b: char) -> bool {
    s.len() >= 2 && s[0] == a && s[1] == b
}

/// `[lower, upper)`.
pub open spec fn half_open(lower: VersionSpec, upper: VersionSpec) -> IntervalSpec {
    IntervalSpec { lower: Some((lower, true)), upper: Some((upper, false)) }
}

/// `[v, v]`.
pub open spec fn exact_interval(v: VersionSpec) -> IntervalSpec {
    IntervalSpec { lower: Some((v, true)), upper: Some((v, true)) }
}

/// Versions at or above (`inc`), or above, the partial version in `input`.
pub open spec fn lower_range(input: Seq<char>, inc: bool) -> Outcome<Seq<IntervalSpec>> {
    match partial_spec(input) {
        Err(e) => Err(Some(e)),
        Ok(p) => Ok(seq![IntervalSpec { lower: Some((partial_version(p), inc)), upper: None }]),
    }
}

/// Versions at or below (`inc`), or below, the partial version in `input`.
pub open spec fn upper_range(input: Seq<char>, inc: bool) -> Outcome<Seq<IntervalSpec>> {
    match partial_spec(input) {
        Err(e) => Err(Some(e)),
        Ok(p) => Ok(seq![IntervalSpec { lower: None, upper: Some((partial_version(p), inc)) }]),
    }
}

/// Exactly the partial version in `input`.
pub open spec fn exact_range(input: Seq<char>) -> Outcome<Seq<IntervalSpec>> {
    match partial_spec(input) {
        Err(e) => Err(Some(e)),
        Ok(p) => Ok(seq![exact_interval(partial_version(p))]),
    }
}

/// An X-range, a bare partial version: `1.2.3` is that version; `1.2` and
/// `1.2.x` hold `[1.2.0, 1.3.0)`; `1` and `1.x` hold `[1.0.0, 2.0.0)`; `x`
/// holds every version.
pub open spec fn xrange_range(input: Seq<char>) -> Outcome<Seq<IntervalSpec>> {
    if is_wild(trim(input)) {
        Ok(seq![everything()])
    } else {
        match partial_spec(input) {
            Err(e) => Err(Some(e)),
            Ok(p) => if p.minor is Some && p.patch is Some {
                Ok(seq![exact_interval(partial_version(p))])
            } else {
                match tilde_upper(p) {
                    None => Err(None),
                    Some(u) => Ok(seq![half_open(partial_version(p), u)]),
                }
            },
        }
    }
}

/// Every version but the partial version in `input`.
pub open spec fn not_equal_range(input: Seq<char>) -> Outcome<Seq<IntervalSpec>> {
    match partial_spec(input) {
        Err(e) => Err(Some(e)),
        Ok(p) => Ok(range_negation(seq![exact_interval(partial_version(p))])),
    }
}

/// A caret range.
pub open spec fn caret_range(input: Seq<char>) -> Outcome<Seq<IntervalSpec>> {
    match partial_spec(input) {
        Err(e) => Err(Some(e)),
        Ok(p) => match caret_upper(p) {
            None => Err(None),
            Some(u) => Ok(seq![half_open(partial_version(p), u)]),
        },
    }
}

/// A tilde range.
pub open spec fn tilde_range(input: Seq<char>) -> Outcome<Seq<IntervalSpec>> {
    match partial_spec(input) {
        Err(e) => Err(Some(e)),
        Ok(p) => match tilde_upper(p) {
            None => Err(None),
            Some(u) => Ok(seq![half_open(partial_version(p), u)]),
        },
    }
}

/// A gem pessimistic range.
pub open spec fn pessimistic_range(input: Seq<char>) -> Outcome<Seq<IntervalSpec>> {
    match partial_spec(input) {
        Err(e) => Err(Some(e)),
        Ok(p) => match pessimistic_upper(p) {
            None => Err(None),
            Some(u) => Ok(seq![half_open(partial_version(p), u)]),
        },
    }
}

/// A pip compatible-release range.
pub open spec fn compat_range(input: Seq<char>) -> Outcome<Seq<IntervalSpec>> {
    match partial_spec(input) {
        Err(e) => Err(Some(e)),
        Ok(p) => match compat_upper(p) {
            Err(e) => Err(e),
            Ok(u) => Ok(seq![half_open(partial_version(p), u)]),
        },
    }
}

/// One npm (and Cargo) comparator.
pub open spec fn npm_comparator(input: Seq<char>) -> Outcome<Seq<IntervalSpec>> {
    let c = trim(input);
    if c == seq!['*'] || c.len() == 0 {
        Ok(seq![everything()])
    } else if starts1(c, '^') {
        caret_range(after(c, 1))
    } else if starts1(c, '~') {
        tilde_range(after(c, 1))
    } else if starts2(c, '>', '=') {
        lower_range(trim(after(c, 2)), true)
    } else if starts2(c, '<', '=') {
        upper_range(trim(after(c, 2)), true)
    } else if starts1(c, '>') {
        lower_range(trim(after(c, 1)), false)
    } else if starts1(c, '<') {
        upper_range(trim(after(c, 1)), false)
    } else if starts1(c, '=') {
        exact_range(trim(after(c, 1)))
    } else {
        xrange_range(c)
    }
}

/// One pip comparator.
pub open spec fn pip_comparator(input: Seq<char>) -> Outcome<Seq<IntervalSpec>> {
    let c = trim(input);
    if starts2(c, '~', '=') {
        compat_range(trim(after(c, 2)))
    } else if starts2(c, '>', '=') {
        lower_range(trim(after(c, 2)), true)
    } else if starts2(c, '<', '=') {
        upper_range(trim(after(c, 2)), true)
    } else if starts2(c, '!', '=') {
        not_equal_range(trim(after(c, 2)))
    } else if starts2(c, '=', '=') {
        exact_range(trim(after(c, 2)))
    } else if starts1(c, '>') {
        lower_range(trim(after(c, 1)), false)
    } else if starts1(c, '<') {
        upper_range(trim(after(c, 1)), false)
    } else {
        exact_range(c)
    }
}

/// One gem comparator.
pub open spec fn gem_comparator(input: Seq<char>) -> Outcome<Seq<IntervalSpec>> {
    let c = trim(input);
    if starts2(c, '~', '>') {
        pessimistic_range(trim(after(c, 2)))
    } else if starts2(c, '>', '=') {
        lower_range(trim(after(c, 2)), true)
    } else if starts2(c, '<', '=') {
        upper_range(trim(after(c, 2)), true)
    } else if starts1(c, '>') {
        lower_range(trim(after(c, 1)), false)
    } else if starts1(c, '<') {
        upper_range(trim(after(c, 1)), false)
    } else if starts1(c, '=') {
        exact_range(trim(after(c, 1)))
    } else {
        exact_range(c)
    }
}

fn lower_range_of(input: &[char], inc: bool) -> (r: Result<VersionRange, Option<RangeParseError>>)
    ensures
        range_outcome_view(r) == lower_range(input@, inc),
{
    match parse_partial_version(input) {
        Ok(v) => Ok(VersionRange::from_interval(Interval::lower_bound(v, inc))),
        Err(e) => Err(Some(e)),
    }
}

fn upper_range_of(input: &[char], inc: bool) -> (r: Result<VersionRange, Option<RangeParseError>>)
    ensures
        range_outcome_view(r) == upper_range(input@, inc),
{
    match parse_partial_version(input) {
        Ok(v) => Ok(VersionRange::from_interval(Interval::upper_bound(v, inc))),
        Err(e) => Err(Some(e)),
    }
}

fn exact_range_of(input: &[char]) -> (r: Result<VersionRange, Option<RangeParseError>>)
    ensures
        range_outcome_view(r) == exact_range(input@),
{
    match parse_partial_version(input) {
        Ok(v) => Ok(VersionRange::exact(v)),
        Err(e) => Err(Some(e)),
    }
}

fn xrange_range_of(input: &[char]) -> (r: Result<VersionRange, Option<RangeParseError>>)
    ensures
        range_outcome_view(r) == xrange_range(input@),
{
    if chars_is_wild(chars_trim(input)) {
        return Ok(VersionRange::all());
    }
    let pv = match parse_partial_version_detailed(input) {
        Ok(p) => p,
        Err(e) => {
            return Err(Some(e));
        },
    };
    let lower = pv.to_version();
    if pv.minor.is_some() && pv.patch.is_some() {
        return Ok(VersionRange::exact(lower));
    }
    match pv.tilde_upper_bound() {
        Some(upper) => Ok(VersionRange::from_interval(Interval::bounded(lower, true, upper, false))),
        None => Err(None),
    }
}

fn not_equal_range_of(input: &[char]) -> (r: Result<VersionRange, Option<RangeParseError>>)
    ensures
        range_outcome_view(r) == not_equal_range(input@),
{
    match parse_partial_version(input) {
        Ok(v) => {
            let exact = VersionRange::exact(v);
            Ok(exact.negate())
        },
        Err(e) => Err(Some(e)),
    }
}

/// Parse a caret (^) range.
/// ^1.2.3 → >=1.2.3 <2.0.0
/// ^0.2.3 → >=0.2.3 <0.3.0
/// ^0.0.3 → >=0.0.3 <0.0.4
fn parse_caret_range(input: &[char]) -> (r: Result<VersionRange, Option<RangeParseError>>)
    ensures
        range_outcome_view(r) == caret_range(input@),
{
    let pv = match parse_partial_version_detailed(input) {
        Ok(p) => p,
        Err(e) => {
            return Err(Some(e));
        },
    };
    let lower = pv.to_version();
    match pv.caret_upper_bound() {
        Some(upper) => Ok(VersionRange::from_interval(Interval::bounded(lower, true, upper, false))),
        None => Err(None),
    }
}

/// Parse a tilde (~) range.
/// ~1.2.3 → >=1.2.3 <1.3.0
/// ~1.2 → >=1.2.0 <1.3.0
/// ~1 → >=1.0.0 <2.0.0
fn parse_tilde_range(input: &[char]) -> (r: Result<VersionRange, Option<RangeParseError>>)
    ensures
        range_outcome_view(r) == tilde_range(input@),
{
    let pv = match parse_partial_version_detailed(input) {
        Ok(p) => p,
        Err(e) => {
            return Err(Some(e));
        },
    };
    let lower = pv.to_version();
    match pv.tilde_upper_bound() {
        Some(upper) => Ok(VersionRange::from_interval(Interval::bounded(lower, true, upper, false))),
        None => Err(None),
    }
}

fn pessimistic_range_of(input: &[char]) -> (r: Result<VersionRange, Option<RangeParseError>>)
    ensures
        range_outcome_view(r) == pessimistic_range(input@),
{
    let pv = match parse_partial_version_detailed(input) {
        Ok(p) => p,
        Err(e) => {
            return Err(Some(e));
        },
    };
    let lower = pv.to_version();
    match pv.pessimistic_upper_bound() {
        Some(upper) => Ok(VersionRange::from_interval(Interval::bounded(lower, true, upper, false))),
        None => Err(None),
    }
}

fn compat_range_of(input: &[char]) -> (r: Result<VersionRange, Option<RangeParseError>>)
    ensures
        range_outcome_view(r) == compat_range(input@),
{
    let pv = match parse_partial_version_detailed(input) {
        Ok(p) => p,
        Err(e) => {
            return Err(Some(e));
        },
    };
    let lower = pv.to_version();
    let upper = pv.compat_upper_bound()?;
    Ok(VersionRange::from_interval(Interval::bounded(lower, true, upper, false)))
}

fn chars_starts1(s: &[char], a: char) -> (r: bool)
    ensures
        r == starts1(s@, a),
{
    s.len() >= 1 && s[0] == a
}

fn chars_starts2(s: &[char], a: char, b: char) -> (r: bool)
    ensures
        r == starts2(s@, a, b),
{
    s.len() >= 2 && s[0] == a && s[1] == b
}

/// Parse a single npm comparator.
fn parse_npm_comparator(input: &[char]) -> (r: Result<VersionRange, Option<RangeParseError>>)
    ensures
        range_outcome_view(r) == npm_comparator(input@),
{
    let c = chars_trim(input);
    if (c.len() == 1 && c[0] == '*') || c.len() == 0 {
        assert(c@.len() == 1 && c@[0] == '*' ==> c@ =~= seq!['*']);
        return Ok(VersionRange::all());
    }
    assert(c@ != seq!['*']);
    let n = c.len();
    if chars_starts1(c, '^') {
        return parse_caret_range(&c[1..n]);
    }
    if chars_starts1(c, '~') {
        return parse_tilde_range(&c[1..n]);
    }
    if chars_starts2(c, '>', '=') {
        return lower_range_of(chars_trim(&c[2..n]), true);
    }
    if chars_starts2(c, '<', '=') {
        return upper_range_of(chars_trim(&c[2..n]), true);
    }
    if chars_starts1(c, '>') {
        return lower_range_of(chars_trim(&c[1..n]), false);
    }
    if chars_starts1(c, '<') {
        return upper_range_of(chars_trim(&c[1..n]), false);
    }
    if chars_starts1(c, '=') {
        return exact_range_of(chars_trim(&c[1..n]));
    }
    xrange_range_of(c)
}

/// Parse a single pip comparator.
fn parse_pip_comparator(input: &[char]) -> (r: Result<VersionRange, Option<RangeParseError>>)
    ensures
        range_outcome_view(r) == pip_comparator(input@),
{
    let c = chars_trim(input);
    let n = c.len();
    if chars_starts2(c, '~', '=') {
        return compat_range_of(chars_trim(&c[2..n]));
    }
    if chars_starts2(c, '>', '=') {
        return lower_range_of(chars_trim(&c[2..n]), true);
    }
    if chars_starts2(c, '<', '=') {
        return upper_range_of(chars_trim(&c[2..n]), true);
    }
    if chars_starts2(c, '!', '=') {
        return not_equal_range_of(chars_trim(&c[2..n]));
    }
    if chars_starts2(c, '=', '=') {
        return exact_range_of(chars_trim(&c[2..n]));
    }
    if chars_starts1(c, '>') {
        return lower_range_of(chars_trim(&c[1..n]), false);
    }
    if chars_starts1(c, '<') {
        return upper_range_of(chars_trim(&c[1..n]), false);
    }
    exact_range_of(c)
}

/// Parse a single gem comparator.
fn parse_gem_comparator(input: &[char]) -> (r: Result<VersionRange, Option<RangeParseError>>)
    ensures
        range_outcome_view(r) == gem_comparator(input@),
{
    let c = chars_trim(input);
    let n = c.len();
    if chars_starts2(c, '~', '>') {
        return pessimistic_range_of(chars_trim(&c[2..n]));
    }
    if chars_starts2(c, '>', '=') {
        return lower_range_of(chars_trim(&c[2..n]), true);
    }
    if chars_starts2(c, '<', '=') {
        return upper_range_of(chars_trim(&c[2..n]), true);
    }
    if chars_starts1(c, '>') {
        return lower_range_of(chars_trim(&c[1..n]), false);
    }
    if chars_starts1(c, '<') {
        return upper_range_of(chars_trim(&c[1..n]), false);
    }
    if chars_starts1(c, '=') {
        return exact_range_of(chars_trim(&c[1..n]));
    }
    exact_range_of(c)
}

// ---------------------------------------------------------------------------
// Ranges
// ---------------------------------------------------------------------------

/// One comparator in the syntax of `eco` (Cargo comparators are npm's).
pub open spec fn comparator(eco: Ecosystem, c: Seq<char>) -> Outcome<Seq<IntervalSpec>> {
    match eco {
        Ecosystem::Npm | Ecosystem::Cargo => npm_comparator(c),
        Ecosystem::Pip => pip_comparator(c),
        Ecosystem::Gem => gem_comparator(c),
    }
}

/// The first `k` comparators intersected in turn, starting from every version.
pub open spec fn fold_meet(comps: Seq<Seq<char>>, k: int, eco: Ecosystem) -> Outcome<
    Seq<IntervalSpec>,
>
    decreases k,
{
    if k <= 0 {
        Ok(seq![everything()])
    } else {
        match fold_meet(comps, k - 1, eco) {
            Err(e) => Err(e),
            Ok(r) => match comparator(eco, comps[k - 1]) {
                Err(e) => Err(e),
                Ok(sub) => Ok(range_meet(r, sub)),
            },
        }
    }
}

/// The pieces trimmed, empty ones left out.
pub open spec fn trimmed_nonempty(parts: Seq<Seq<char>>) -> Seq<Seq<char>>
    decreases parts.len(),
{
    if parts.len() == 0 {
        seq![]
    } else {
        let r = trimmed_nonempty(parts.drop_last());
        let t = trim(parts.last());
        if t.len() > 0 {
            r.push(t)
        } else {
            r
        }
    }
}

/// The comparators of a comma-separated list.
pub open spec fn comma_list(input: Seq<char>) -> Seq<Seq<char>> {
    trimmed_nonempty(split_char(input, ','))
}

/// Space-separated npm comparators, intersected.
pub open spec fn npm_conjunction(input: Seq<char>) -> Outcome<Seq<IntervalSpec>> {
    fold_meet(words(input), words(input).len() as int, Ecosystem::Npm)
}

/// The first `k` `||` alternatives joined in turn, starting from no version.
pub open spec fn fold_join(parts: Seq<Seq<char>>, k: int) -> Outcome<Seq<IntervalSpec>>
    decreases k,
{
    if k <= 0 {
        Ok(seq![])
    } else {
        match fold_join(parts, k - 1) {
            Err(e) => Err(e),
            Ok(r) => match npm_conjunction(trim(parts[k - 1])) {
                Err(e) => Err(e),
                Ok(sub) => Ok(range_join(r, sub)),
            },
        }
    }
}

/// An npm range: `||`-separated alternatives of space-separated comparators.
pub open spec fn npm_range(input: Seq<char>) -> Outcome<Seq<IntervalSpec>> {
    let parts = split_str(input, seq!['|', '|']);
    if parts.len() == 1 {
        npm_conjunction(input)
    } else {
        fold_join(parts, parts.len() as int)
    }
}

/// What parsing `input` as a range in the syntax of `eco` gives.
pub open spec fn range_outcome(input: Seq<char>, eco: Ecosystem) -> Outcome<Seq<IntervalSpec>> {
    let t = trim(input);
    if t.len() == 0 || t == seq!['*'] {
        Ok(seq![everything()])
    } else {
        match eco {
            Ecosystem::Npm => npm_range(t),
            _ => fold_meet(comma_list(t), comma_list(t).len() as int, eco),
        }
    }
}

proof fn lemma_fold_meet_err(comps: Seq<Seq<char>>, k: int, m: int, eco: Ecosystem)
    requires
        0 <= k <= m,
        fold_meet(comps, k, eco) is Err,
    ensures
        fold_meet(comps, m, eco) == fold_meet(comps, k, eco),
    decreases m - k,
{
    if m > k {
        lemma_fold_meet_err(comps, k, m - 1, eco);
    }
}

proof fn lemma_fold_join_err(parts: Seq<Seq<char>>, k: int, m: int)
    requires
        0 <= k <= m,
        fold_join(parts, k) is Err,
    ensures
        fold_join(parts, m) == fold_join(parts, k),
    decreases m - k,
{
    if m > k {
        lemma_fold_join_err(parts, k, m - 1);
    }
}

fn parse_comparator(eco: Ecosystem, c: &[char]) -> (r: Result<VersionRange, Option<RangeParseError>>)
    ensures
        range_outcome_view(r) == comparator(eco, c@),
{
    match eco {
        Ecosystem::Npm | Ecosystem::Cargo => parse_npm_comparator(c),
        Ecosystem::Pip => parse_pip_comparator(c),
        Ecosystem::Gem => parse_gem_comparator(c),
    }
}

/// The comparators intersected in turn, starting from every version.
fn meet_comparators(comps: &Vec<&[char]>, eco: Ecosystem) -> (r: Result<
    VersionRange,
    Option<RangeParseError>,
>)
    ensures
        range_outcome_view(r) == fold_meet(slice_views(comps@), comps@.len() as int, eco),
{
    let ghost cv = slice_views(comps@);
    let mut range = VersionRange::all();
    let mut k: usize = 0;
    while k < comps.len()
        invariant
            cv == slice_views(comps@),
            0 <= k <= comps.len(),
            fold_meet(cv, k as int, eco) == Ok::<Seq<IntervalSpec>, Option<RangeFailure>>(range@),
        decreases comps.len() - k,
    {
        assert(cv[k as int] == comps@[k as int]@);
        let sub = match parse_comparator(eco, comps[k]) {
            Ok(x) => x,
            Err(e) => {
                proof {
                    lemma_fold_meet_err(cv, k + 1, cv.len() as int, eco);
                }
                return Err(e);
            },
        };
        range = range.intersect(&sub);
        k = k + 1;
    }
    Ok(range)
}

/// The pieces trimmed, empty ones left out.
fn trimmed_pieces<'a>(parts: &Vec<&'a [char]>) -> (r: Vec<&'a [char]>)
    ensures
        slice_views(r@) == trimmed_nonempty(slice_views(parts@)),
{
    let ghost pv = slice_views(parts@);
    let mut out: Vec<&'a [char]> = Vec::new();
    let mut i: usize = 0;
    assert(pv.subrange(0, 0) =~= Seq::<Seq<char>>::empty());
    assert(slice_views(out@) =~= Seq::<Seq<char>>::empty());
    while i < parts.len()
        invariant
            pv == slice_views(parts@),
            0 <= i <= parts.len(),
            slice_views(out@) == trimmed_nonempty(pv.subrange(0, i as int)),
        decreases parts.len() - i,
    {
        assert(pv.subrange(0, i + 1).drop_last() =~= pv.subrange(0, i as int));
        assert(pv.subrange(0, i + 1).last() == parts@[i as int]@);
        let t = chars_trim(parts[i]);
        if t.len() > 0 {
            let ghost before = out@;
            out.push(t);
            assert(slice_views(out@) =~= slice_views(before).push(t@));
        }
        i = i + 1;
    }
    assert(pv.subrange(0, i as int) =~= pv);
    out
}

/// Parse a space-separated conjunction of npm comparators.
fn parse_npm_conjunction(input: &[char]) -> (r: Result<VersionRange, Option<RangeParseError>>)
    ensures
        range_outcome_view(r) == npm_conjunction(input@),
{
    let comparators = chars_words(input);
    if comparators.len() == 0 {
        return Ok(VersionRange::all());
    }
    meet_comparators(&comparators, Ecosystem::Npm)
}

/// Parse an npm-style range.
/// Supports: ^1.2.3, ~1.2.3, >=1.2.3, >1.2.3, <=1.2.3, <1.2.3, =1.2.3,
/// 1.2.3, 1.2.x, 1.x, *, || for union, space for intersection.
#[verifier::rlimit(40)]
fn parse_npm_range(input: &[char]) -> (r: Result<VersionRange, Option<RangeParseError>>)
    ensures
        range_outcome_view(r) == npm_range(input@),
{
    let sep: [char; 2] = ['|', '|'];
    let parts = chars_split_str(input, sep.as_slice());
    assert(sep@ =~= seq!['|', '|']);
    if parts.len() == 1 {
        return parse_npm_conjunction(input);
    }
    let ghost pv = slice_views(parts@);
    let mut range = VersionRange::none();
    let mut k: usize = 0;
    while k < parts.len()
        invariant
            pv == slice_views(parts@),
            pv == split_str(input@, seq!['|', '|']),
            parts.len() != 1,
            0 <= k <= parts.len(),
            fold_join(pv, k as int) == Ok::<Seq<IntervalSpec>, Option<RangeFailure>>(range@),
        decreases parts.len() - k,
    {
        assert(pv[k as int] == parts@[k as int]@);
        let sub = match parse_npm_conjunction(chars_trim(parts[k])) {
            Ok(x) => x,
            Err(e) => {
                proof {
                    lemma_fold_join_err(pv, k + 1, pv.len() as int);
                }
                return Err(e);
            },
        };
        range = range.union(&sub);
        k = k + 1;
    }
    Ok(range)
}

/// Parse a comma-separated conjunction of comparators (Cargo, pip and gem).
fn parse_comma_range(input: &[char], eco: Ecosystem) -> (r: Result<
    VersionRange,
    Option<RangeParseError>,
>)
    ensures
        range_outcome_view(r) == fold_meet(comma_list(input@), comma_list(input@).len() as int, eco),
{
    let pieces = chars_split(input, ',');
    let comparators = trimmed_pieces(&pieces);
    if comparators.len() == 0 {
        return Ok(VersionRange::all());
    }
    meet_comparators(&comparators, eco)
}

/// Parse a Cargo-style range (similar to npm but uses commas for AND).
fn parse_cargo_range(input: &[char]) -> (r: Result<VersionRange, Option<RangeParseError>>)
    ensures
        range_outcome_view(r) == fold_meet(
            comma_list(input@),
            comma_list(input@).len() as int,
            Ecosystem::Cargo,
        ),
{
    parse_comma_range(input, Ecosystem::Cargo)
}

/// Parse a pip/Python-style range.
/// Supports: >=1.2.3, >1.2.3, <=1.2.3, <1.2.3, ==1.2.3, !=1.2.3, ~=1.2.3
/// Comma-separated for AND.
fn parse_pip_range(input: &[char]) -> (r: Result<VersionRange, Option<RangeParseError>>)
    ensures
        range_outcome_view(r) == fold_meet(
            comma_list(input@),
            comma_list(input@).len() as int,
            Ecosystem::Pip,
        ),
{
    parse_comma_range(input, Ecosystem::Pip)
}

/// Parse a gem/Ruby-style range.
/// Supports: ~>1.2.3 (pessimistic), >=1.2.3, >1.2.3, <=1.2.3, <1.2.3, =1.2.3
/// Comma-separated for AND.
fn parse_gem_range(input: &[char]) -> (r: Result<VersionRange, Option<RangeParseError>>)
    ensures
        range_outcome_view(r) == fold_meet(
            comma_list(input@),
            comma_list(input@).len() as int,
            Ecosystem::Gem,
        ),
{
    parse_comma_range(input, Ecosystem::Gem)
}

/// Parse a version range, telling apart a range whose bounds would not fit
/// a `u64` (`None`; `parse_range` requires that this does not happen).
pub fn try_parse_range(input: &str, ecosystem: Ecosystem) -> (r: Option<
    Result<VersionRange, RangeParseError>,
>)
    ensures
        match r {
            Some(Ok(range)) => range_outcome(input@, ecosystem) == Ok::<
                Seq<IntervalSpec>,
                Option<RangeFailure>,
            >(range@),
            Some(Err(e)) => range_outcome(input@, ecosystem) == Err::<
                Seq<IntervalSpec>,
                Option<RangeFailure>,
            >(Some(e@)),
            None => range_outcome(input@, ecosystem) == Err::<
                Seq<IntervalSpec>,
                Option<RangeFailure>,
            >(None),
        },
{
    let all = chars_of(input);
    let t = chars_trim(all.as_slice());
    if t.len() == 0 || (t.len() == 1 && t[0] == '*') {
        assert(t@.len() == 1 && t@[0] == '*' ==> t@ =~= seq!['*']);
        return Some(Ok(VersionRange::all()));
    }
    assert(t@ != seq!['*']);
    let r = match ecosystem {
        Ecosystem::Npm => parse_npm_range(t),
        Ecosystem::Cargo => parse_cargo_range(t),
        Ecosystem::Pip => parse_pip_range(t),
        Ecosystem::Gem => parse_gem_range(t),
    };
    match r {
        Ok(range) => Some(Ok(range)),
        Err(Some(e)) => Some(Err(e)),
        Err(None) => None,
    }
}

/// Parse a version range string in the given ecosystem's syntax.
///
/// # Errors
/// Returns an error if the range string cannot be parsed.
pub fn parse_range(input: &str, ecosystem: Ecosystem) -> (r: Result<VersionRange, RangeParseError>)
    requires
        range_outcome(input@, ecosystem) != Err::<Seq<IntervalSpec>, Option<RangeFailure>>(None),
    ensures
        match r {
            Ok(range) => range_outcome(input@, ecosystem) == Ok::<
                Seq<IntervalSpec>,
                Option<RangeFailure>,
            >(range@),
            Err(e) => range_outcome(input@, ecosystem) == Err::<
                Seq<IntervalSpec>,
                Option<RangeFailure>,
            >(Some(e@)),
        },
{
    match try_parse_range(input, ecosystem) {
        Some(r) => r,
        None => Err(RangeParseError::InvalidVersion(String::new())),
    }
}

// ---------------------------------------------------------------------------
// Ecosystem names
// ---------------------------------------------------------------------------

/// The name of an ecosystem.
pub open spec fn ecosystem_name(e: Ecosystem) -> Seq<char> {
    match e {
        Ecosystem::Npm => "npm"@,
        Ecosystem::Cargo => "cargo"@,
        Ecosystem::Pip => "pip"@,
        Ecosystem::Gem => "gem"@,
    }
}

/// ASCII letters lowered.
pub open spec fn ascii_lower(s: Seq<char>) -> Seq<char> {
    s.map_values(|c: char| if 'A' <= c && c <= 'Z' { ((c as int) + 32) as char } else { c })
}

/// The ecosystem a name stands for, letters compared without regard to
/// case: `npm`, `node`, `nodejs`; `cargo`, `rust`; `pip`, `python`, `pypi`;
/// `gem`, `ruby`, `bundler`. (Full Unicode lowering, as `str::to_lowercase`
/// does, gives one of these names for exactly the same strings.)
pub open spec fn ecosystem_named(s: Seq<char>) -> Option<Ecosystem> {
    let l = ascii_lower(s);
    if l == "npm"@ || l == "node"@ || l == "nodejs"@ {
        Some(Ecosystem::Npm)
    } else if l == "cargo"@ || l == "rust"@ {
        Some(Ecosystem::Cargo)
    } else if l == "pip"@ || l == "python"@ || l == "pypi"@ {
        Some(Ecosystem::Pip)
    } else if l == "gem"@ || l == "ruby"@ || l == "bundler"@ {
        Some(Ecosystem::Gem)
    } else {
        None
    }
}

fn lower_char(c: char) -> (r: char)
    ensures
        r == (if 'A' <= c && c <= 'Z' { ((c as int) + 32) as char } else { c }),
{
    if 'A' <= c && c <= 'Z' {
        let b = (c as u32) + 32;
        assert(b < 128);
        ((b as u8) as char)
    } else {
        c
    }
}

fn is_name(l: &[char], name: &str) -> (r: bool)
    ensures
        r == (l@ == name@),
{
    let n = chars_of(name);
    crate::text::chars_eq(l, n.as_slice())
}

impl Ecosystem {
    /// All supported ecosystems.
    pub fn all() -> (r: Vec<Ecosystem>)
        ensures
            r@ == seq![Ecosystem::Npm, Ecosystem::Cargo, Ecosystem::Pip, Ecosystem::Gem],
    {
        let mut v: Vec<Ecosystem> = Vec::new();
        v.push(Ecosystem::Npm);
        v.push(Ecosystem::Cargo);
        v.push(Ecosystem::Pip);
        v.push(Ecosystem::Gem);
        assert(v@ =~= seq![Ecosystem::Npm, Ecosystem::Cargo, Ecosystem::Pip, Ecosystem::Gem]);
        v
    }

    pub fn as_str(&self) -> (r: &'static str)
        ensures
            r@ == ecosystem_name(*self),
    {
        match self {
            Ecosystem::Npm => "npm",
            Ecosystem::Cargo => "cargo",
            Ecosystem::Pip => "pip",
            Ecosystem::Gem => "gem",
        }
    }

    /// The ecosystem a name stands for; an error message names the
    /// unknown ecosystem.
    pub fn from_name(s: &str) -> (r: Result<Ecosystem, String>)
        ensures
            match r {
                Ok(e) => ecosystem_named(s@) == Some(e),
                Err(m) => ecosystem_named(s@) is None && m@ == "unknown ecosystem: "@ + s@,
            },
    {
        let cs = chars_of(s);
        let mut l: Vec<char> = Vec::new();
        let mut i: usize = 0;
        while i < cs.len()
            invariant
                0 <= i <= cs.len(),
                l@ == ascii_lower(cs@.subrange(0, i as int)),
            decreases cs.len() - i,
        {
            l.push(lower_char(cs[i]));
            assert(l@ =~= ascii_lower(cs@.subrange(0, i + 1)));
            i = i + 1;
        }
        assert(cs@.subrange(0, i as int) =~= cs@);
        let ls = l.as_slice();
        if is_name(ls, "npm") || is_name(ls, "node") || is_name(ls, "nodejs") {
            Ok(Ecosystem::Npm)
        } else if is_name(ls, "cargo") || is_name(ls, "rust") {
            Ok(Ecosystem::Cargo)
        } else if is_name(ls, "pip") || is_name(ls, "python") || is_name(ls, "pypi") {
            Ok(Ecosystem::Pip)
        } else if is_name(ls, "gem") || is_name(ls, "ruby") || is_name(ls, "bundler") {
            Ok(Ecosystem::Gem)
        } else {
            Err(concat_message("unknown ecosystem: ", s))
        }
    }
}

impl std::str::FromStr for Ecosystem {
    type Err = String;

    fn from_str(s: &str) -> (r: Result<Self, Self::Err>)
        ensures
            match r {
                Ok(e) => ecosystem_named(s@) == Some(e),
                Err(m) => ecosystem_named(s@) is None && m@ == "unknown ecosystem: "@ + s@,
            },
    {
        Self::from_name(s)
    }
}

} // verus!
