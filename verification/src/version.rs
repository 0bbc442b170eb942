//! Semantic versions (SemVer 2.0.0): parsing, display and precedence.
//!
//! A version is `MAJOR.MINOR.PATCH`, optionally followed by `-` and
//! dot-separated pre-release identifiers, and by `+` and dot-separated
//! build identifiers. Build metadata takes no part in precedence.

use crate::text::{
    all_digits, all_ident_chars, chars_all_digits, chars_all_ident, chars_find, chars_of,
    chars_parse_u64, chars_split, chars_trim, decimal, find_char, parse_u64, push_decimal,
    slice_views, split_char, string_of, trim,
};
use std::cmp::Ordering;
use vstd::prelude::*;

verus! {

/// A semantic version following SemVer 2.0.0.
#[derive(Debug, Clone)]
pub struct Version {
    pub major: u64,
    pub minor: u64,
    pub patch: u64,
    pub pre: Vec<String>,
    pub build: Vec<String>,
}

/// The mathematical value of a [`Version`]: identifiers as character sequences.
pub struct VersionSpec {
    pub major: u64,
    pub minor: u64,
    pub patch: u64,
    pub pre: Seq<Seq<char>>,
    pub build: Seq<Seq<char>>,
}

/// The characters of each string.
pub open spec fn ids_view(v: Seq<String>) -> Seq<Seq<char>> {
    v.map_values(|s: String| s@)
}

impl View for Version {
    type V = VersionSpec;

    open spec fn view(&self) -> VersionSpec {
        VersionSpec {
            major: self.major,
            minor: self.minor,
            patch: self.patch,
            pre: ids_view(self.pre@),
            build: ids_view(self.build@),
        }
    }
}

/// A version with the given core and no identifiers.
pub open spec fn plain(major: u64, minor: u64, patch: u64) -> VersionSpec {
    VersionSpec { major, minor, patch, pre: seq![], build: seq![] }
}

// ---------------------------------------------------------------------------
// Precedence
// ---------------------------------------------------------------------------

/// The outcome of comparing two values.
#[derive(Debug, Clone, Copy, PartialEq, Eq, Structural)]
pub enum Order {
    Less,
    Equal,
    Greater,
}

/// The same outcome as a standard `Ordering`.
pub open spec fn std_order(o: Order) -> Ordering {
    match o {
        Order::Less => Ordering::Less,
        Order::Equal => Ordering::Equal,
        Order::Greater => Ordering::Greater,
    }
}

/// The reverse outcome.
pub open spec fn reversed(o: Order) -> Order {
    match o {
        Order::Less => Order::Greater,
        Order::Equal => Order::Equal,
        Order::Greater => Order::Less,
    }
}

/// Numeric comparison.
pub open spec fn u64_order(a: u64, b: u64) -> Order {
    if a < b {
        Order::Less
    } else if a > b {
        Order::Greater
    } else {
        Order::Equal
    }
}

/// Lexical comparison by character (the order of `str`, since UTF-8
/// preserves the order of code points).
pub open spec fn lex_order(a: Seq<char>, b: Seq<char>) -> Order
    decreases a.len(),
{
    if a.len() == 0 {
        if b.len() == 0 {
            Order::Equal
        } else {
            Order::Less
        }
    } else if b.len() == 0 {
        Order::Greater
    } else if a[0] < b[0] {
        Order::Less
    } else if a[0] > b[0] {
        Order::Greater
    } else {
        lex_order(a.drop_first(), b.drop_first())
    }
}

/// The digits of `s` without its leading zeros.
pub open spec fn strip_zeros(s: Seq<char>) -> Seq<char>
    decreases s.len(),
{
    if s.len() > 0 && s[0] == '0' {
        strip_zeros(s.drop_first())
    } else {
        s
    }
}

/// The order of two digit strings by the numbers they stand for, of any
/// size: leading zeros aside, a shorter one is smaller, and ones of equal
/// length compare digit by digit.
pub open spec fn numeric_order(a: Seq<char>, b: Seq<char>) -> Order {
    let x = strip_zeros(a);
    let y = strip_zeros(b);
    if x.len() < y.len() {
        Order::Less
    } else if x.len() > y.len() {
        Order::Greater
    } else {
        lex_order(x, y)
    }
}

/// Precedence of two pre-release identifiers: numeric ones compare by
/// value and come before alphanumeric ones, which compare lexically.
pub open spec fn ident_order(a: Seq<char>, b: Seq<char>) -> Order {
    if all_digits(a) && all_digits(b) {
        numeric_order(a, b)
    } else if all_digits(a) {
        Order::Less
    } else if all_digits(b) {
        Order::Greater
    } else {
        lex_order(a, b)
    }
}

/// Precedence of two lists of pre-release identifiers: field by field,
/// and a list that runs out first is lower.
pub open spec fn pre_order(a: Seq<Seq<char>>, b: Seq<Seq<char>>) -> Order
    decreases a.len(),
{
    if a.len() == 0 {
        if b.len() == 0 {
            Order::Equal
        } else {
            Order::Less
        }
    } else if b.len() == 0 {
        Order::Greater
    } else {
        match ident_order(a[0], b[0]) {
            Order::Equal => pre_order(a.drop_first(), b.drop_first()),
            o => o,
        }
    }
}

/// SemVer 2.0.0 precedence: major, minor, patch numerically; a version
/// without pre-release identifiers is above one with them; pre-release
/// lists by `pre_order`; build metadata ignored.
pub open spec fn precedence(a: VersionSpec, b: VersionSpec) -> Order {
    if a.major != b.major {
        u64_order(a.major, b.major)
    } else if a.minor != b.minor {
        u64_order(a.minor, b.minor)
    } else if a.patch != b.patch {
        u64_order(a.patch, b.patch)
    } else if a.pre.len() == 0 {
        if b.pre.len() == 0 {
            Order::Equal
        } else {
            Order::Greater
        }
    } else if b.pre.len() == 0 {
        Order::Less
    } else {
        pre_order(a.pre, b.pre)
    }
}

/// Made of `0`s only (the empty text too): the identifiers that no
/// identifier lies below.
pub open spec fn all_zeros(s: Seq<char>) -> bool {
    forall|i: int| 0 <= i < s.len() ==> s[i] == '0'
}

/// `q` is the least pre-release list above `p`: the identifiers of `p` (up
/// to equal precedence) followed by one made of `0`s.
pub open spec fn pre_next(p: Seq<Seq<char>>, q: Seq<Seq<char>>) -> bool {
    &&& q.len() == p.len() + 1
    &&& pre_order(q.drop_last(), p) == Order::Equal
    &&& all_zeros(q.last())
}

/// The core that follows `v`'s: the patch, else the minor, else the major
/// raised by one with the fields after it reset, if one of them can be.
pub open spec fn next_core(v: VersionSpec) -> Option<(u64, u64, u64)> {
    if v.patch < u64::MAX {
        Some((v.major, v.minor, (v.patch + 1) as u64))
    } else if v.minor < u64::MAX {
        Some((v.major, (v.minor + 1) as u64, 0))
    } else if v.major < u64::MAX {
        Some(((v.major + 1) as u64, 0, 0))
    } else {
        None
    }
}

/// No version lies strictly between `l` and `u`, which lies right above
/// it: `l`'s pre-release list extended by a zero identifier, or for a
/// release the least pre-release of the next core.
pub open spec fn version_next(l: VersionSpec, u: VersionSpec) -> bool {
    if l.pre.len() > 0 {
        &&& u.major == l.major
        &&& u.minor == l.minor
        &&& u.patch == l.patch
        &&& pre_next(l.pre, u.pre)
    } else {
        match next_core(l) {
            Some((a, b, c)) => u.major == a && u.minor == b && u.patch == c && pre_next(
                seq![],
                u.pre,
            ),
            None => false,
        }
    }
}

/// No version lies below `u`: it is `0.0.0` with one zero identifier.
pub open spec fn is_least(u: VersionSpec) -> bool {
    u.major == 0 && u.minor == 0 && u.patch == 0 && pre_next(seq![], u.pre)
}

/// No version lies above `l`: the release with every core field at its
/// largest.
pub open spec fn is_greatest(l: VersionSpec) -> bool {
    l.major == u64::MAX && l.minor == u64::MAX && l.patch == u64::MAX && l.pre.len() == 0
}

fn u64_compare(a: u64, b: u64) -> (r: Order)
    ensures
        r == u64_order(a, b),
{
    if a < b {
        Order::Less
    } else if a > b {
        Order::Greater
    } else {
        Order::Equal
    }
}

pub(crate) fn lex_compare(a: &[char], b: &[char]) -> (r: Order)
    ensures
        r == lex_order(a@, b@),
{
    let mut i: usize = 0;
    assert(a@.subrange(0, a@.len() as int) =~= a@);
    assert(b@.subrange(0, b@.len() as int) =~= b@);
    while i < a.len() && i < b.len()
        invariant
            0 <= i <= a.len(),
            i <= b.len(),
            lex_order(a@, b@) == lex_order(
                a@.subrange(i as int, a@.len() as int),
                b@.subrange(i as int, b@.len() as int),
            ),
        decreases a.len() - i,
    {
        let ghost sa = a@.subrange(i as int, a@.len() as int);
        let ghost sb = b@.subrange(i as int, b@.len() as int);
        assert(sa[0] == a@[i as int]);
        assert(sb[0] == b@[i as int]);
        if a[i] < b[i] {
            return Order::Less;
        } else if a[i] > b[i] {
            return Order::Greater;
        }
        assert(sa.drop_first() =~= a@.subrange(i + 1, a@.len() as int));
        assert(sb.drop_first() =~= b@.subrange(i + 1, b@.len() as int));
        i = i + 1;
    }
    if i < a.len() {
        Order::Greater
    } else if i < b.len() {
        Order::Less
    } else {
        Order::Equal
    }
}

fn strip_zeros_of(s: &[char]) -> (r: &[char])
    ensures
        r@ == strip_zeros(s@),
{
    let mut i: usize = 0;
    assert(s@.subrange(0, s@.len() as int) =~= s@);
    while i < s.len() && s[i] == '0'
        invariant
            i <= s.len(),
            strip_zeros(s@) == strip_zeros(s@.subrange(i as int, s@.len() as int)),
        decreases s.len() - i,
    {
        assert(s@.subrange(i as int, s@.len() as int).drop_first() =~= s@.subrange(
            i + 1,
            s@.len() as int,
        ));
        i = i + 1;
    }
    &s[i..s.len()]
}

/// Compare two digit strings by the numbers they stand for.
fn numeric_compare(a: &[char], b: &[char]) -> (r: Order)
    ensures
        r == numeric_order(a@, b@),
{
    let x = strip_zeros_of(a);
    let y = strip_zeros_of(b);
    if x.len() < y.len() {
        Order::Less
    } else if x.len() > y.len() {
        Order::Greater
    } else {
        lex_compare(x, y)
    }
}

/// Compare two pre-release identifiers.
fn compare_identifier(a: &str, b: &str) -> (r: Order)
    ensures
        r == ident_order(a@, b@),
{
    let ac = chars_of(a);
    let bc = chars_of(b);
    let a_num = chars_all_digits(ac.as_slice());
    let b_num = chars_all_digits(bc.as_slice());
    if a_num && b_num {
        numeric_compare(ac.as_slice(), bc.as_slice())
    } else if a_num {
        Order::Less
    } else if b_num {
        Order::Greater
    } else {
        lex_compare(ac.as_slice(), bc.as_slice())
    }
}

/// Compare pre-release identifier lists per SemVer spec.
fn compare_pre_release(a: &[String], b: &[String]) -> (r: Order)
    ensures
        r == pre_order(ids_view(a@), ids_view(b@)),
{
    let ghost va = ids_view(a@);
    let ghost vb = ids_view(b@);
    let mut i: usize = 0;
    assert(va.subrange(0, va.len() as int) =~= va);
    assert(vb.subrange(0, vb.len() as int) =~= vb);
    while i < a.len()
        invariant
            0 <= i <= a.len(),
            i <= b.len(),
            va == ids_view(a@),
            vb == ids_view(b@),
            pre_order(va, vb) == pre_order(
                va.subrange(i as int, va.len() as int),
                vb.subrange(i as int, vb.len() as int),
            ),
        decreases a.len() - i,
    {
        if i >= b.len() {
            return Order::Greater;
        }
        let ghost sa = va.subrange(i as int, va.len() as int);
        let ghost sb = vb.subrange(i as int, vb.len() as int);
        assert(sa[0] == a@[i as int]@);
        assert(sb[0] == b@[i as int]@);
        let o = compare_identifier(a[i].as_str(), b[i].as_str());
        match o {
            Order::Equal => {},
            _ => {
                return o;
            },
        }
        assert(sa.drop_first() =~= va.subrange(i + 1, va.len() as int));
        assert(sb.drop_first() =~= vb.subrange(i + 1, vb.len() as int));
        i = i + 1;
    }
    if i < b.len() {
        Order::Less
    } else {
        Order::Equal
    }
}

/// Every character of `s` is `0`.
fn zeros_only(s: &str) -> (r: bool)
    ensures
        r == all_zeros(s@),
{
    let c = chars_of(s);
    let mut i: usize = 0;
    while i < c.len()
        invariant
            c@ == s@,
            0 <= i <= c.len(),
            forall|k: int| 0 <= k < i ==> c@[k] == '0',
        decreases c.len() - i,
    {
        if c[i] != '0' {
            return false;
        }
        i = i + 1;
    }
    true
}

/// Whether `q` is the least pre-release list above `p`.
fn is_pre_next(p: &[String], q: &[String]) -> (r: bool)
    ensures
        r == pre_next(ids_view(p@), ids_view(q@)),
{
    if q.len() == 0 || q.len() - 1 != p.len() {
        return false;
    }
    let n = q.len() - 1;
    let head = &q[0..n];
    assert(ids_view(head@) =~= ids_view(q@).drop_last());
    match compare_pre_release(head, p) {
        Order::Equal => zeros_only(q[n].as_str()),
        _ => false,
    }
}

impl Version {
    /// Compare two versions by SemVer 2.0.0 precedence.
    pub fn compare(&self, other: &Version) -> (r: Ordering)
        ensures
            r == std_order(precedence(self@, other@)),
    {
        match self.precedence_to(other) {
            Order::Less => Ordering::Less,
            Order::Equal => Ordering::Equal,
            Order::Greater => Ordering::Greater,
        }
    }

    /// Whether `next` lies right above `self`, with no version between.
    pub(crate) fn is_followed_by(&self, next: &Version) -> (r: bool)
        ensures
            r == version_next(self@, next@),
    {
        if self.pre.len() > 0 {
            next.major == self.major && next.minor == self.minor && next.patch == self.patch
                && is_pre_next(self.pre.as_slice(), next.pre.as_slice())
        } else {
            let core = if self.patch < u64::MAX {
                Some((self.major, self.minor, self.patch + 1))
            } else if self.minor < u64::MAX {
                Some((self.major, self.minor + 1, 0))
            } else if self.major < u64::MAX {
                Some((self.major + 1, 0, 0))
            } else {
                None
            };
            let empty: Vec<String> = Vec::new();
            assert(ids_view(empty@) =~= Seq::<Seq<char>>::empty());
            match core {
                Some((a, b, c)) => next.major == a && next.minor == b && next.patch == c
                    && is_pre_next(empty.as_slice(), next.pre.as_slice()),
                None => false,
            }
        }
    }

    /// Whether no version lies below `self`.
    pub(crate) fn is_least(&self) -> (r: bool)
        ensures
            r == is_least(self@),
    {
        let empty: Vec<String> = Vec::new();
        assert(ids_view(empty@) =~= Seq::<Seq<char>>::empty());
        self.major == 0 && self.minor == 0 && self.patch == 0 && is_pre_next(
            empty.as_slice(),
            self.pre.as_slice(),
        )
    }

    /// Whether no version lies above `self`.
    pub(crate) fn is_greatest(&self) -> (r: bool)
        ensures
            r == is_greatest(self@),
    {
        self.major == u64::MAX && self.minor == u64::MAX && self.patch == u64::MAX
            && self.pre.len() == 0
    }

    /// The precedence of `self` relative to `other`.
    pub fn precedence_to(&self, other: &Version) -> (r: Order)
        ensures
            r == precedence(self@, other@),
    {
        if self.major != other.major {
            return u64_compare(self.major, other.major);
        }
        if self.minor != other.minor {
            return u64_compare(self.minor, other.minor);
        }
        if self.patch != other.patch {
            return u64_compare(self.patch, other.patch);
        }
        let a_pre = self.pre.len() > 0;
        let b_pre = other.pre.len() > 0;
        if !a_pre {
            if !b_pre {
                Order::Equal
            } else {
                Order::Greater
            }
        } else if !b_pre {
            Order::Less
        } else {
            compare_pre_release(self.pre.as_slice(), other.pre.as_slice())
        }
    }
}

// ---------------------------------------------------------------------------
// Parsing
// ---------------------------------------------------------------------------

/// Errors that can occur during version parsing.
#[derive(Debug, Clone, PartialEq, Eq)]
pub enum ParseError {
    Empty,
    InvalidCore(String),
    LeadingZero(String),
    EmptyIdentifier,
    InvalidIdentifier(String),
}

/// The mathematical value of a [`ParseError`].
pub enum ParseFailure {
    Empty,
    InvalidCore(Seq<char>),
    LeadingZero(Seq<char>),
    EmptyIdentifier,
    InvalidIdentifier(Seq<char>),
}

impl View for ParseError {
    type V = ParseFailure;

    open spec fn view(&self) -> ParseFailure {
        match self {
            ParseError::Empty => ParseFailure::Empty,
            ParseError::InvalidCore(m) => ParseFailure::InvalidCore(m@),
            ParseError::LeadingZero(m) => ParseFailure::LeadingZero(m@),
            ParseError::EmptyIdentifier => ParseFailure::EmptyIdentifier,
            ParseError::InvalidIdentifier(m) => ParseFailure::InvalidIdentifier(m@),
        }
    }
}

/// The message of a parse failure.
pub open spec fn parse_failure_text(e: ParseFailure) -> Seq<char> {
    match e {
        ParseFailure::Empty => "empty version string"@,
        ParseFailure::InvalidCore(m) => "invalid version core: "@ + m,
        ParseFailure::LeadingZero(field) => field + " has leading zero"@,
        ParseFailure::EmptyIdentifier => "empty identifier in pre-release/build"@,
        ParseFailure::InvalidIdentifier(id) => "invalid identifier: "@ + id,
    }
}

impl ParseError {
    /// The message of this error.
    pub fn message(&self) -> (r: String)
        ensures
            r@ == parse_failure_text(self@),
    {
        match self {
            ParseError::Empty => "empty version string".to_owned(),
            ParseError::InvalidCore(m) => concat_message("invalid version core: ", m.as_str()),
            ParseError::LeadingZero(field) => concat_message(field.as_str(), " has leading zero"),
            ParseError::EmptyIdentifier => "empty identifier in pre-release/build".to_owned(),
            ParseError::InvalidIdentifier(id) => concat_message("invalid identifier: ", id.as_str()),
        }
    }
}

/// Dot-separated identifiers; none at all in an empty sequence.
pub open spec fn split_ids(s: Seq<char>) -> Seq<Seq<char>> {
    if s.len() == 0 {
        seq![]
    } else {
        split_char(s, '.')
    }
}

/// A numeric core field: non-empty, decimal digits only, no leading zero,
/// a `u64`.
pub open spec fn parse_numeric(s: Seq<char>, field: Seq<char>) -> Result<u64, ParseFailure> {
    if s.len() == 0 {
        Err(ParseFailure::InvalidCore(field + " is empty"@))
    } else if s.len() > 1 && s[0] == '0' {
        Err(ParseFailure::LeadingZero(field))
    } else if !all_digits(s) {
        Err(ParseFailure::InvalidCore(field + " not a valid number: "@ + s))
    } else {
        match parse_u64(s) {
            Some(n) => Ok(n),
            None => Err(ParseFailure::InvalidCore(field + " not a valid number: "@ + s)),
        }
    }
}

/// Why a pre-release identifier is refused, if it is.
pub open spec fn pre_ident_failure(id: Seq<char>) -> Option<ParseFailure> {
    if id.len() == 0 {
        Some(ParseFailure::EmptyIdentifier)
    } else if !all_ident_chars(id) {
        Some(ParseFailure::InvalidIdentifier(id))
    } else if all_digits(id) && id.len() > 1 && id[0] == '0' {
        Some(ParseFailure::LeadingZero("pre-release identifier"@))
    } else {
        None
    }
}

/// Why a build identifier is refused, if it is.
pub open spec fn build_ident_failure(id: Seq<char>) -> Option<ParseFailure> {
    if id.len() == 0 {
        Some(ParseFailure::EmptyIdentifier)
    } else if !all_ident_chars(id) {
        Some(ParseFailure::InvalidIdentifier(id))
    } else {
        None
    }
}

/// The first refused identifier of `ids` at or after `i`.
pub open spec fn first_failure_from(ids: Seq<Seq<char>>, i: int, pre: bool) -> Option<
    ParseFailure,
>
    decreases ids.len() - i,
{
    if i < 0 || i >= ids.len() {
        None
    } else {
        match if pre {
            pre_ident_failure(ids[i])
        } else {
            build_ident_failure(ids[i])
        } {
            Some(e) => Some(e),
            None => first_failure_from(ids, i + 1, pre),
        }
    }
}

/// The part of `t` before the first `+` (all of it when there is none).
pub open spec fn before_plus(t: Seq<char>) -> Seq<char> {
    match find_char(t, '+') {
        Some(p) => t.subrange(0, p),
        None => t,
    }
}

/// The build identifiers after the first `+`.
pub open spec fn build_part(t: Seq<char>) -> Seq<Seq<char>> {
    match find_char(t, '+') {
        Some(p) => split_ids(t.subrange(p + 1, t.len() as int)),
        None => seq![],
    }
}

/// The core before the first `-`.
pub open spec fn core_part(vp: Seq<char>) -> Seq<char> {
    match find_char(vp, '-') {
        Some(p) => vp.subrange(0, p),
        None => vp,
    }
}

/// The pre-release identifiers after the first `-`.
pub open spec fn pre_part(vp: Seq<char>) -> Seq<Seq<char>> {
    match find_char(vp, '-') {
        Some(p) => split_ids(vp.subrange(p + 1, vp.len() as int)),
        None => seq![],
    }
}

/// What `Version::parse` gives for `input`.
pub open spec fn parse_version(input: Seq<char>) -> Result<VersionSpec, ParseFailure> {
    let t = trim(input);
    let vp = before_plus(t);
    let build = build_part(t);
    let core = core_part(vp);
    let pre = pre_part(vp);
    let parts = split_char(core, '.');
    if t.len() == 0 {
        Err(ParseFailure::Empty)
    } else if find_char(vp, '-') matches Some(p) && p + 1 == vp.len() {
        Err(ParseFailure::EmptyIdentifier)
    } else if find_char(t, '+') matches Some(p) && p + 1 == t.len() {
        Err(ParseFailure::EmptyIdentifier)
    } else if parts.len() != 3 {
        Err(ParseFailure::InvalidCore("expected MAJOR.MINOR.PATCH"@))
    } else {
        match parse_numeric(parts[0], "major"@) {
            Err(e) => Err(e),
            Ok(major) => match parse_numeric(parts[1], "minor"@) {
                Err(e) => Err(e),
                Ok(minor) => match parse_numeric(parts[2], "patch"@) {
                    Err(e) => Err(e),
                    Ok(patch) => match first_failure_from(pre, 0, true) {
                        Some(e) => Err(e),
                        None => match first_failure_from(build, 0, false) {
                            Some(e) => Err(e),
                            None => Ok(VersionSpec { major, minor, patch, pre, build }),
                        },
                    },
                },
            },
        }
    }
}

/// The mathematical value of a parse result.
pub open spec fn parse_result_view(r: Result<Version, ParseError>) -> Result<
    VersionSpec,
    ParseFailure,
> {
    match r {
        Ok(v) => Ok(v@),
        Err(e) => Err(e@),
    }
}

/// Split dot-separated identifiers.
fn split_identifiers(s: &[char]) -> (r: Vec<String>)
    ensures
        ids_view(r@) == split_ids(s@),
{
    let mut out: Vec<String> = Vec::new();
    if s.len() == 0 {
        assert(ids_view(out@) =~= Seq::<Seq<char>>::empty());
        return out;
    }
    let pieces = chars_split(s, '.');
    let ghost pv = split_char(s@, '.');
    let mut i: usize = 0;
    while i < pieces.len()
        invariant
            slice_views(pieces@) == pv,
            pv == split_char(s@, '.'),
            0 <= i <= pieces.len(),
            ids_view(out@) == pv.subrange(0, i as int),
        decreases pieces.len() - i,
    {
        let id = string_of(pieces[i]);
        let ghost before = out@;
        out.push(id);
        assert(pv[i as int] == pieces@[i as int]@);
        assert(ids_view(out@) =~= ids_view(before).push(id@));
        assert(ids_view(out@) =~= pv.subrange(0, i + 1));
        i = i + 1;
    }
    assert(pv.subrange(0, i as int) =~= pv);
    out
}

/// A string of the characters of `a` followed by those of `b`.
pub(crate) fn concat_message(a: &str, b: &str) -> (r: String)
    ensures
        r@ == a@ + b@,
{
    let mut m = a.to_owned();
    m.append(b);
    m
}

/// A numeric core field: no leading zeros (except "0" itself).
fn parse_numeric_field(s: &[char], field: &str) -> (r: Result<u64, ParseError>)
    ensures
        match r {
            Ok(n) => parse_numeric(s@, field@) == Ok::<u64, ParseFailure>(n),
            Err(e) => parse_numeric(s@, field@) == Err::<u64, ParseFailure>(e@),
        },
{
    if s.len() == 0 {
        return Err(ParseError::InvalidCore(concat_message(field, " is empty")));
    }
    if s.len() > 1 && s[0] == '0' {
        return Err(ParseError::LeadingZero(field.to_owned()));
    }
    if !crate::text::chars_all_digits(s) {
        let head = concat_message(field, " not a valid number: ");
        let tail = string_of(s);
        return Err(ParseError::InvalidCore(concat_message(head.as_str(), tail.as_str())));
    }
    match chars_parse_u64(s) {
        Some(n) => Ok(n),
        None => {
            let head = concat_message(field, " not a valid number: ");
            let tail = string_of(s);
            Err(ParseError::InvalidCore(concat_message(head.as_str(), tail.as_str())))
        },
    }
}

/// Validate a pre-release identifier: identifier characters only, and no
/// leading zero in a numeric one.
fn validate_identifier(id: &String) -> (r: Result<(), ParseError>)
    ensures
        match r {
            Ok(()) => pre_ident_failure(id@) is None,
            Err(e) => pre_ident_failure(id@) == Some(e@),
        },
{
    let cs = chars_of(id.as_str());
    if cs.len() == 0 {
        return Err(ParseError::EmptyIdentifier);
    }
    if !chars_all_ident(cs.as_slice()) {
        return Err(ParseError::InvalidIdentifier(id.clone()));
    }
    if chars_all_digits(cs.as_slice()) && cs.len() > 1 && cs[0] == '0' {
        return Err(ParseError::LeadingZero("pre-release identifier".to_owned()));
    }
    Ok(())
}

/// Validate a build identifier: identifier characters only.
fn validate_build_identifier(id: &String) -> (r: Result<(), ParseError>)
    ensures
        match r {
            Ok(()) => build_ident_failure(id@) is None,
            Err(e) => build_ident_failure(id@) == Some(e@),
        },
{
    let cs = chars_of(id.as_str());
    if cs.len() == 0 {
        return Err(ParseError::EmptyIdentifier);
    }
    if !chars_all_ident(cs.as_slice()) {
        return Err(ParseError::InvalidIdentifier(id.clone()));
    }
    Ok(())
}

/// The first refused identifier of `ids`.
fn validate_all(ids: &Vec<String>, pre: bool) -> (r: Result<(), ParseError>)
    ensures
        match r {
            Ok(()) => first_failure_from(ids_view(ids@), 0, pre) is None,
            Err(e) => first_failure_from(ids_view(ids@), 0, pre) == Some(e@),
        },
{
    let ghost v = ids_view(ids@);
    let mut i: usize = 0;
    while i < ids.len()
        invariant
            v == ids_view(ids@),
            0 <= i <= ids.len(),
            first_failure_from(v, 0, pre) == first_failure_from(v, i as int, pre),
        decreases ids.len() - i,
    {
        assert(v[i as int] == ids@[i as int]@);
        if pre {
            validate_identifier(&ids[i])?;
        } else {
            validate_build_identifier(&ids[i])?;
        }
        i = i + 1;
    }
    Ok(())
}

impl Version {
    /// Parse a SemVer string into a Version.
    ///
    /// # Errors
    /// Returns an error if the string is not a valid SemVer 2.0.0 version.
    pub fn parse(input: &str) -> (r: Result<Version, ParseError>)
        ensures
            parse_result_view(r) == parse_version(input@),
    {
        let all = chars_of(input);
        let t = chars_trim(all.as_slice());
        if t.len() == 0 {
            return Err(ParseError::Empty);
        }
        let plus = chars_find(t, '+');
        proof {
            crate::text::lemma_find_char(t@, '+');
        }
        let vp: &[char] = match plus {
            Some(pos) => &t[0..pos],
            None => t,
        };
        let build: Vec<String> = match plus {
            Some(pos) => split_identifiers(&t[pos + 1..t.len()]),
            None => Vec::new(),
        };
        proof {
            assert(build_part(t@) == ids_view(build@)) by {
                if plus is None {
                    assert(ids_view(build@) =~= Seq::<Seq<char>>::empty());
                }
            }
        }
        let dash = chars_find(vp, '-');
        proof {
            crate::text::lemma_find_char(vp@, '-');
        }
        let core: &[char] = match dash {
            Some(pos) => &vp[0..pos],
            None => vp,
        };
        let pre: Vec<String> = match dash {
            Some(pos) => {
                if pos + 1 == vp.len() {
                    return Err(ParseError::EmptyIdentifier);
                }
                split_identifiers(&vp[pos + 1..vp.len()])
            },
            None => Vec::new(),
        };
        if let Some(pos) = plus {
            if pos + 1 == t.len() {
                return Err(ParseError::EmptyIdentifier);
            }
        }
        assert(pre_part(vp@) == ids_view(pre@)) by {
            if dash is None {
                assert(ids_view(pre@) =~= Seq::<Seq<char>>::empty());
            }
        }
        let parts = chars_split(core, '.');
        if parts.len() != 3 {
            return Err(ParseError::InvalidCore("expected MAJOR.MINOR.PATCH".to_owned()));
        }
        let ghost pv = split_char(core@, '.');
        assert(pv[0] == parts@[0]@ && pv[1] == parts@[1]@ && pv[2] == parts@[2]@);
        let major = parse_numeric_field(parts[0], "major")?;
        let minor = parse_numeric_field(parts[1], "minor")?;
        let patch = parse_numeric_field(parts[2], "patch")?;
        validate_all(&pre, true)?;
        validate_all(&build, false)?;
        Ok(Version { major, minor, patch, pre, build })
    }
}

// ---------------------------------------------------------------------------
// Construction, display and bumping
// ---------------------------------------------------------------------------

/// Identifiers joined with dots (`[String]::join(".")`).
pub open spec fn join_ids(ids: Seq<Seq<char>>) -> Seq<char>
    decreases ids.len(),
{
    if ids.len() == 0 {
        seq![]
    } else if ids.len() == 1 {
        ids[0]
    } else {
        join_ids(ids.drop_last()) + seq!['.'] + ids.last()
    }
}

/// `MAJOR.MINOR.PATCH` in decimal.
pub open spec fn core_text(v: VersionSpec) -> Seq<char> {
    decimal(v.major as nat) + seq!['.'] + decimal(v.minor as nat) + seq!['.'] + decimal(
        v.patch as nat,
    )
}

/// The text of a version: its core, then `-` and the pre-release
/// identifiers if there are any, then `+` and the build identifiers if
/// there are any.
pub open spec fn version_text(v: VersionSpec) -> Seq<char> {
    core_text(v) + (if v.pre.len() > 0 {
        seq!['-'] + join_ids(v.pre)
    } else {
        seq![]
    }) + (if v.build.len() > 0 {
        seq!['+'] + join_ids(v.build)
    } else {
        seq![]
    })
}

/// The pre-release identifiers after a pre-release bump with `label`: a
/// stable version starts `[label]`; a numeric last identifier is
/// incremented (left as it is when it does not fit a `u64`); otherwise
/// `0` is appended.
pub open spec fn bumped_pre(pre: Seq<Seq<char>>, label: Seq<char>) -> Seq<Seq<char>> {
    if pre.len() == 0 {
        seq![label]
    } else if all_digits(pre.last()) {
        match parse_u64(pre.last()) {
            Some(n) => pre.update(pre.len() - 1, decimal((n + 1) as nat)),
            None => pre,
        }
    } else {
        pre.push(seq!['0'])
    }
}

/// Incrementing the last pre-release identifier would overflow a `u64`.
pub open spec fn pre_bump_overflows(pre: Seq<Seq<char>>) -> bool {
    pre.len() > 0 && all_digits(pre.last()) && parse_u64(pre.last()) == Some(u64::MAX)
}

/// Appends the characters of `s` to `out`.
pub(crate) fn push_chars(out: &mut Vec<char>, s: &[char])
    ensures
        final(out)@ == old(out)@ + s@,
{
    let mut i: usize = 0;
    while i < s.len()
        invariant
            0 <= i <= s.len(),
            out@ == old(out)@ + s@.subrange(0, i as int),
        decreases s.len() - i,
    {
        out.push(s[i]);
        assert(out@ =~= old(out)@ + s@.subrange(0, i + 1));
        i = i + 1;
    }
    assert(s@.subrange(0, s@.len() as int) =~= s@);
}

/// Appends the characters of `s` to `out`.
pub(crate) fn push_str(out: &mut Vec<char>, s: &str)
    ensures
        final(out)@ == old(out)@ + s@,
{
    let cs = chars_of(s);
    push_chars(out, cs.as_slice());
}

/// Appends the identifiers joined with dots.
fn push_ids(out: &mut Vec<char>, ids: &Vec<String>)
    ensures
        final(out)@ == old(out)@ + join_ids(ids_view(ids@)),
{
    let ghost v = ids_view(ids@);
    let mut i: usize = 0;
    assert(v.subrange(0, 0) =~= Seq::<Seq<char>>::empty());
    while i < ids.len()
        invariant
            v == ids_view(ids@),
            0 <= i <= ids.len(),
            out@ == old(out)@ + join_ids(v.subrange(0, i as int)),
        decreases ids.len() - i,
    {
        let ghost prev = out@;
        assert(v.subrange(0, i + 1).drop_last() =~= v.subrange(0, i as int));
        assert(v[i as int] == ids@[i as int]@);
        if i > 0 {
            out.push('.');
        }
        let cs = chars_of(ids[i].as_str());
        push_chars(out, cs.as_slice());
        proof {
            if i == 0 {
                assert(v.subrange(0, 1) =~= seq![v[0]]);
                assert(out@ =~= old(out)@ + join_ids(v.subrange(0, 1)));
            } else {
                assert(out@ =~= old(out)@ + join_ids(v.subrange(0, i + 1)));
            }
        }
        i = i + 1;
    }
    assert(v.subrange(0, i as int) =~= v);
}

/// Appends the decimal core `MAJOR.MINOR.PATCH`.
fn push_core(out: &mut Vec<char>, v: &Version)
    ensures
        final(out)@ == old(out)@ + core_text(v@),
{
    push_decimal(out, v.major);
    out.push('.');
    push_decimal(out, v.minor);
    out.push('.');
    push_decimal(out, v.patch);
    assert(out@ =~= old(out)@ + core_text(v@));
}

/// A copy of the identifiers.
fn copy_ids(ids: &Vec<String>) -> (r: Vec<String>)
    ensures
        ids_view(r@) == ids_view(ids@),
{
    let mut out: Vec<String> = Vec::new();
    let mut i: usize = 0;
    while i < ids.len()
        invariant
            0 <= i <= ids.len(),
            ids_view(out@) == ids_view(ids@).subrange(0, i as int),
        decreases ids.len() - i,
    {
        let ghost before = out@;
        out.push(ids[i].clone());
        assert(ids_view(out@) =~= ids_view(before).push(ids@[i as int]@));
        assert(ids_view(out@) =~= ids_view(ids@).subrange(0, i + 1));
        i = i + 1;
    }
    assert(ids_view(ids@).subrange(0, i as int) =~= ids_view(ids@));
    out
}

impl Version {
    /// Create a new simple version (no pre-release or build metadata).
    pub fn new(major: u64, minor: u64, patch: u64) -> (r: Version)
        ensures
            r@ == plain(major, minor, patch),
    {
        let r = Version { major, minor, patch, pre: Vec::new(), build: Vec::new() };
        assert(r@.pre =~= Seq::<Seq<char>>::empty());
        assert(r@.build =~= Seq::<Seq<char>>::empty());
        r
    }

    /// Create a version with pre-release identifiers.
    pub fn with_pre(self, pre: Vec<String>) -> (r: Version)
        ensures
            r@ == (VersionSpec { pre: ids_view(pre@), ..self@ }),
    {
        let mut s = self;
        s.pre = pre;
        s
    }

    /// Create a version with build metadata.
    pub fn with_build(self, build: Vec<String>) -> (r: Version)
        ensures
            r@ == (VersionSpec { build: ids_view(build@), ..self@ }),
    {
        let mut s = self;
        s.build = build;
        s
    }

    /// A copy of this version.
    pub fn duplicate(&self) -> (r: Version)
        ensures
            r@ == self@,
    {
        Version {
            major: self.major,
            minor: self.minor,
            patch: self.patch,
            pre: copy_ids(&self.pre),
            build: copy_ids(&self.build),
        }
    }

    /// Check if this is a pre-release version.
    pub fn is_prerelease(&self) -> (r: bool)
        ensures
            r == (self@.pre.len() > 0),
    {
        self.pre.len() > 0
    }

    /// Check if this is a stable (non-pre-release) version.
    pub fn is_stable(&self) -> (r: bool)
        ensures
            r == (self@.pre.len() == 0),
    {
        self.pre.len() == 0
    }

    /// Get the core version string (MAJOR.MINOR.PATCH without pre/build).
    pub fn core_string(&self) -> (r: String)
        ensures
            r@ == core_text(self@),
    {
        let mut out: Vec<char> = Vec::new();
        push_core(&mut out, self);
        assert(out@ =~= core_text(self@));
        string_of(out.as_slice())
    }

    /// The text of this version: `1.0.0-beta.2+sha.abc`.
    pub fn to_string(&self) -> (r: String)
        ensures
            r@ == version_text(self@),
    {
        let mut out: Vec<char> = Vec::new();
        push_core(&mut out, self);
        if self.pre.len() > 0 {
            out.push('-');
            push_ids(&mut out, &self.pre);
        }
        let ghost mid = out@;
        if self.build.len() > 0 {
            out.push('+');
            push_ids(&mut out, &self.build);
        }
        assert(out@ =~= version_text(self@));
        string_of(out.as_slice())
    }

    /// Bump to the next major version (resets minor, patch, clears pre/build).
    pub fn bump_major(&self) -> (r: Version)
        requires
            self.major < u64::MAX,
        ensures
            r@ == plain((self.major + 1) as u64, 0, 0),
    {
        Self::new(self.major + 1, 0, 0)
    }

    /// Bump to the next minor version (resets patch, clears pre/build).
    pub fn bump_minor(&self) -> (r: Version)
        requires
            self.minor < u64::MAX,
        ensures
            r@ == plain(self.major, (self.minor + 1) as u64, 0),
    {
        Self::new(self.major, self.minor + 1, 0)
    }

    /// Bump to the next patch version (clears pre/build).
    pub fn bump_patch(&self) -> (r: Version)
        requires
            self.patch < u64::MAX,
        ensures
            r@ == plain(self.major, self.minor, (self.patch + 1) as u64),
    {
        Self::new(self.major, self.minor, self.patch + 1)
    }

    /// Bump the pre-release version. If no pre-release exists, starts one with the given label.
    /// If a pre-release already exists with a numeric last identifier, increments it.
    /// If a pre-release already exists with a non-numeric last identifier, appends ".0".
    pub fn bump_prerelease(&self, label: &str) -> (r: Version)
        requires
            !pre_bump_overflows(self@.pre),
        ensures
            r@ == (VersionSpec {
                pre: bumped_pre(self@.pre, label@),
                ..plain(self.major, self.minor, self.patch)
            }),
    {
        let was_prerelease = self.is_prerelease();
        let mut new_pre: Vec<String>;
        if was_prerelease {
            new_pre = copy_ids(&self.pre);
            let n = new_pre.len();
            let last = chars_of(new_pre[n - 1].as_str());
            assert(last@ == ids_view(self.pre@).last());
            if chars_all_digits(last.as_slice()) {
                match chars_parse_u64(last.as_slice()) {
                    Some(k) => {
                        let mut digits: Vec<char> = Vec::new();
                        push_decimal(&mut digits, k + 1);
                        let ghost before = new_pre@;
                        new_pre.set(n - 1, string_of(digits.as_slice()));
                        assert(ids_view(new_pre@) =~= ids_view(before).update(
                            n - 1,
                            decimal((k + 1) as nat),
                        ));
                    },
                    None => {},
                }
            } else {
                let ghost before = new_pre@;
                let zero = "0".to_owned();
                proof {
                    reveal_strlit("0");
                    assert(zero@ =~= seq!['0']);
                }
                new_pre.push(zero);
                assert(ids_view(new_pre@) =~= ids_view(before).push(seq!['0']));
            }
        } else {
            new_pre = Vec::new();
            new_pre.push(label.to_owned());
            assert(ids_view(new_pre@) =~= seq![label@]);
        }
        Self::new(self.major, self.minor, self.patch).with_pre(new_pre)
    }
}

// ---------------------------------------------------------------------------
// Standard traits
// ---------------------------------------------------------------------------

/// Same core and same pre-release identifiers; build metadata ignored.
pub open spec fn same_precedence_fields(a: VersionSpec, b: VersionSpec) -> bool {
    a.major == b.major && a.minor == b.minor && a.patch == b.patch && a.pre == b.pre
}

fn same_ids(a: &Vec<String>, b: &Vec<String>) -> (r: bool)
    ensures
        r == (ids_view(a@) == ids_view(b@)),
{
    if a.len() != b.len() {
        assert(ids_view(a@).len() != ids_view(b@).len());
        return false;
    }
    let mut i: usize = 0;
    while i < a.len()
        invariant
            a.len() == b.len(),
            0 <= i <= a.len(),
            forall|j: int| 0 <= j < i ==> a@[j]@ == b@[j]@,
        decreases a.len() - i,
    {
        if a[i] != b[i] {
            assert(ids_view(a@)[i as int] != ids_view(b@)[i as int]);
            return false;
        }
        i = i + 1;
    }
    assert(ids_view(a@) =~= ids_view(b@));
    true
}

impl PartialEq for Version {
    /// Per SemVer 2.0.0, build metadata is ignored when determining version precedence.
    fn eq(&self, other: &Self) -> (r: bool) {
        self.major == other.major && self.minor == other.minor && self.patch == other.patch
            && same_ids(&self.pre, &other.pre)
    }
}

impl vstd::std_specs::cmp::PartialEqSpecImpl for Version {
    open spec fn obeys_eq_spec() -> bool {
        true
    }

    open spec fn eq_spec(&self, other: &Self) -> bool {
        same_precedence_fields(self@, other@)
    }
}

impl Eq for Version {

}

impl PartialOrd for Version {
    fn partial_cmp(&self, other: &Self) -> (r: Option<Ordering>) {
        Some(self.compare(other))
    }
}

impl vstd::std_specs::cmp::PartialOrdSpecImpl for Version {
    open spec fn obeys_partial_cmp_spec() -> bool {
        true
    }

    open spec fn partial_cmp_spec(&self, other: &Self) -> Option<Ordering> {
        Some(std_order(precedence(self@, other@)))
    }
}

impl std::str::FromStr for Version {
    type Err = ParseError;

    fn from_str(s: &str) -> (r: Result<Self, Self::Err>)
        ensures
            parse_result_view(r) == parse_version(s@),
    {
        Self::parse(s)
    }
}

} // verus!
