//! Version ranges as unions of intervals.
//!
//! A range is a list of intervals; a version is in the range when it is in
//! one of them. Each interval has an optional lower and an optional upper
//! bound, each inclusive or exclusive, compared by version precedence.

use crate::text::string_of;
use crate::version::{
    is_greatest, is_least, precedence, push_str, version_next, version_text, Order, Version,
    VersionSpec,
};
use vstd::prelude::*;

verus! {

/// A bound on a version interval.
#[derive(Debug, Clone, PartialEq, Eq)]
pub enum Bound {
    /// Inclusive lower bound (>= version)
    InclusiveLower(Version),
    /// Exclusive lower bound (> version)
    ExclusiveLower(Version),
    /// Inclusive upper bound (<= version)
    InclusiveUpper(Version),
    /// Exclusive upper bound (< version)
    ExclusiveUpper(Version),
}

/// A single interval of versions.
#[derive(Debug, Clone, PartialEq, Eq)]
pub struct Interval {
    pub lower: Option<(Version, bool)>,  // (version, inclusive)
    pub upper: Option<(Version, bool)>,  // (version, inclusive)
}

/// A version bound: the version and whether it is inclusive.
pub type BoundSpec = Option<(VersionSpec, bool)>;

/// The mathematical value of an [`Interval`].
pub struct IntervalSpec {
    pub lower: BoundSpec,
    pub upper: BoundSpec,
}

/// The mathematical value of a bound.
pub open spec fn bound_view(b: Option<(Version, bool)>) -> BoundSpec {
    match b {
        Some((v, inc)) => Some((v@, inc)),
        None => None,
    }
}

impl View for Interval {
    type V = IntervalSpec;

    open spec fn view(&self) -> IntervalSpec {
        IntervalSpec { lower: bound_view(self.lower), upper: bound_view(self.upper) }
    }
}

/// `v` is not below the lower bound.
pub open spec fn above_lower(v: VersionSpec, lower: BoundSpec) -> bool {
    match lower {
        None => true,
        Some((l, inc)) => match precedence(v, l) {
            Order::Less => false,
            Order::Equal => inc,
            Order::Greater => true,
        },
    }
}

/// `v` is not above the upper bound.
pub open spec fn below_upper(v: VersionSpec, upper: BoundSpec) -> bool {
    match upper {
        None => true,
        Some((u, inc)) => match precedence(v, u) {
            Order::Greater => false,
            Order::Equal => inc,
            Order::Less => true,
        },
    }
}

/// `v` lies in the interval.
pub open spec fn in_interval(v: VersionSpec, i: IntervalSpec) -> bool {
    above_lower(v, i.lower) && below_upper(v, i.upper)
}

/// The higher of two lower bounds; at equal versions, inclusive only if both are.
pub open spec fn tighter_lower_spec(a: BoundSpec, b: BoundSpec) -> BoundSpec {
    match (a, b) {
        (None, None) => None,
        (Some(x), None) => Some(x),
        (None, Some(x)) => Some(x),
        (Some((av, ai)), Some((bv, bi))) => match precedence(av, bv) {
            Order::Greater => Some((av, ai)),
            Order::Less => Some((bv, bi)),
            Order::Equal => Some((av, ai && bi)),
        },
    }
}

/// The lower of two upper bounds; at equal versions, inclusive only if both are.
pub open spec fn tighter_upper_spec(a: BoundSpec, b: BoundSpec) -> BoundSpec {
    match (a, b) {
        (None, None) => None,
        (Some(x), None) => Some(x),
        (None, Some(x)) => Some(x),
        (Some((av, ai)), Some((bv, bi))) => match precedence(av, bv) {
            Order::Less => Some((av, ai)),
            Order::Greater => Some((bv, bi)),
            Order::Equal => Some((av, ai && bi)),
        },
    }
}

/// The lower bound lies above the upper bound (or at it without both
/// being inclusive).
pub open spec fn crossed(lower: BoundSpec, upper: BoundSpec) -> bool {
    match (lower, upper) {
        (Some((lv, li)), Some((uv, ui))) => match precedence(lv, uv) {
            Order::Greater => true,
            Order::Equal => !(li && ui),
            Order::Less => false,
        },
        _ => false,
    }
}

/// The interval holds no version: its bounds cross; or both are exclusive
/// and the upper one lies right above the lower one; or it has one
/// exclusive bound only, at the least or the greatest version.
pub open spec fn void(i: IntervalSpec) -> bool {
    ||| crossed(i.lower, i.upper)
    ||| match (i.lower, i.upper) {
        (Some((l, false)), Some((u, false))) => version_next(l, u),
        (None, Some((u, false))) => is_least(u),
        (Some((l, false)), None) => is_greatest(l),
        _ => false,
    }
}

/// Every interval of the range holds no version (true of an empty list).
pub open spec fn all_void(r: Seq<IntervalSpec>) -> bool {
    forall|k: int| 0 <= k < r.len() ==> #[trigger] void(r[k])
}

/// What `Interval::intersect` gives: the tighter bounds, or nothing when
/// they cross.
pub open spec fn interval_meet(a: IntervalSpec, b: IntervalSpec) -> Option<IntervalSpec> {
    let lower = tighter_lower_spec(a.lower, b.lower);
    let upper = tighter_upper_spec(a.upper, b.upper);
    if crossed(lower, upper) {
        None
    } else {
        Some(IntervalSpec { lower, upper })
    }
}

/// A copy of a bound.
fn copy_bound(b: &Option<(Version, bool)>) -> (r: Option<(Version, bool)>)
    ensures
        bound_view(r) == bound_view(*b),
{
    match b {
        Some((v, inc)) => Some((v.duplicate(), *inc)),
        None => None,
    }
}

/// Find the tighter (higher) lower bound.
fn tighter_lower(a: &Option<(Version, bool)>, b: &Option<(Version, bool)>) -> (r: Option<
    (Version, bool),
>)
    ensures
        bound_view(r) == tighter_lower_spec(bound_view(*a), bound_view(*b)),
{
    match (a, b) {
        (None, None) => None,
        (Some(_), None) => copy_bound(a),
        (None, Some(_)) => copy_bound(b),
        (Some((av, ai)), Some((bv, bi))) => match av.precedence_to(bv) {
            Order::Greater => Some((av.duplicate(), *ai)),
            Order::Less => Some((bv.duplicate(), *bi)),
            Order::Equal => Some((av.duplicate(), *ai && *bi)),
        },
    }
}

/// Find the tighter (lower) upper bound.
fn tighter_upper(a: &Option<(Version, bool)>, b: &Option<(Version, bool)>) -> (r: Option<
    (Version, bool),
>)
    ensures
        bound_view(r) == tighter_upper_spec(bound_view(*a), bound_view(*b)),
{
    match (a, b) {
        (None, None) => None,
        (Some(_), None) => copy_bound(a),
        (None, Some(_)) => copy_bound(b),
        (Some((av, ai)), Some((bv, bi))) => match av.precedence_to(bv) {
            Order::Less => Some((av.duplicate(), *ai)),
            Order::Greater => Some((bv.duplicate(), *bi)),
            Order::Equal => Some((av.duplicate(), *ai && *bi)),
        },
    }
}

impl Interval {
    /// Create an unbounded interval (matches all versions).
    pub fn all() -> (r: Interval)
        ensures
            r@ == (IntervalSpec { lower: None, upper: None }),
    {
        Interval { lower: None, upper: None }
    }

    /// Create an interval from a lower bound.
    pub fn lower_bound(version: Version, inclusive: bool) -> (r: Interval)
        ensures
            r@ == (IntervalSpec { lower: Some((version@, inclusive)), upper: None }),
    {
        Interval { lower: Some((version, inclusive)), upper: None }
    }

    /// Create an interval from an upper bound.
    pub fn upper_bound(version: Version, inclusive: bool) -> (r: Interval)
        ensures
            r@ == (IntervalSpec { lower: None, upper: Some((version@, inclusive)) }),
    {
        Interval { lower: None, upper: Some((version, inclusive)) }
    }

    /// Create an exact match interval (== version).
    pub fn exact(version: Version) -> (r: Interval)
        ensures
            r@ == (IntervalSpec {
                lower: Some((version@, true)),
                upper: Some((version@, true)),
            }),
    {
        Interval { lower: Some((version.duplicate(), true)), upper: Some((version, true)) }
    }

    /// Create a bounded interval.
    pub fn bounded(lower: Version, lower_inclusive: bool, upper: Version, upper_inclusive: bool) -> (r:
        Interval)
        ensures
            r@ == (IntervalSpec {
                lower: Some((lower@, lower_inclusive)),
                upper: Some((upper@, upper_inclusive)),
            }),
    {
        Interval { lower: Some((lower, lower_inclusive)), upper: Some((upper, upper_inclusive)) }
    }

    /// A copy of this interval.
    pub fn duplicate(&self) -> (r: Interval)
        ensures
            r@ == self@,
    {
        Interval { lower: copy_bound(&self.lower), upper: copy_bound(&self.upper) }
    }

    /// Check if a version falls within this interval.
    pub fn contains(&self, version: &Version) -> (r: bool)
        ensures
            r == in_interval(version@, self@),
    {
        if let Some((lower, inclusive)) = &self.lower {
            match version.precedence_to(lower) {
                Order::Less => {
                    return false;
                },
                Order::Equal => {
                    if !*inclusive {
                        return false;
                    }
                },
                Order::Greater => {},
            }
        }
        if let Some((upper, inclusive)) = &self.upper {
            match version.precedence_to(upper) {
                Order::Greater => {
                    return false;
                },
                Order::Equal => {
                    if !*inclusive {
                        return false;
                    }
                },
                Order::Less => {},
            }
        }
        true
    }

    /// The bounds cross: the lower one lies above the upper one, or at it
    /// without both being inclusive.
    pub fn is_crossed(&self) -> (r: bool)
        ensures
            r == crossed(self@.lower, self@.upper),
    {
        if let (Some((lv, li)), Some((uv, ui))) = (&self.lower, &self.upper) {
            match lv.precedence_to(uv) {
                Order::Greater => true,
                Order::Equal => !(*li && *ui),
                Order::Less => false,
            }
        } else {
            false
        }
    }

    /// The interval holds no version (see `void`).
    pub fn is_void(&self) -> (r: bool)
        ensures
            r == void(self@),
    {
        if self.is_crossed() {
            return true;
        }
        match (&self.lower, &self.upper) {
            (Some((l, false)), Some((u, false))) => l.is_followed_by(u),
            (None, Some((u, false))) => u.is_least(),
            (Some((l, false)), None) => l.is_greatest(),
            _ => false,
        }
    }

    /// Intersect two intervals. Returns None if the intersection is empty.
    pub fn intersect(&self, other: &Self) -> (r: Option<Interval>)
        ensures
            match r {
                Some(i) => interval_meet(self@, other@) == Some(i@),
                None => interval_meet(self@, other@) is None,
            },
    {
        let lower = tighter_lower(&self.lower, &other.lower);
        let upper = tighter_upper(&self.upper, &other.upper);
        if let (Some((lv, li)), Some((uv, ui))) = (&lower, &upper) {
            match lv.precedence_to(uv) {
                Order::Greater => {
                    return None;
                },
                Order::Equal => {
                    if !(*li && *ui) {
                        return None;
                    }
                },
                Order::Less => {},
            }
        }
        Some(Interval { lower, upper })
    }
}

// ---------------------------------------------------------------------------
// Ranges
// ---------------------------------------------------------------------------

/// A version range: a union of intervals.
#[derive(Debug, Clone, PartialEq, Eq)]
pub struct VersionRange {
    pub intervals: Vec<Interval>,
}

/// The mathematical values of intervals.
pub open spec fn intervals_view(v: Seq<Interval>) -> Seq<IntervalSpec> {
    v.map_values(|i: Interval| i@)
}

impl View for VersionRange {
    type V = Seq<IntervalSpec>;

    open spec fn view(&self) -> Seq<IntervalSpec> {
        intervals_view(self.intervals@)
    }
}

/// The interval holding every version.
pub open spec fn everything() -> IntervalSpec {
    IntervalSpec { lower: None, upper: None }
}

/// `v` lies in one of the intervals.
pub open spec fn in_range(v: VersionSpec, r: Seq<IntervalSpec>) -> bool {
    exists|k: int| 0 <= k < r.len() && #[trigger] in_interval(v, r[k])
}

/// An optional interval as a list of at most one.
pub open spec fn opt_seq(o: Option<IntervalSpec>) -> Seq<IntervalSpec> {
    match o {
        Some(i) => seq![i],
        None => seq![],
    }
}

/// The non-empty meets of `x` with each interval of `b`, in order.
pub open spec fn meet_row(x: IntervalSpec, b: Seq<IntervalSpec>) -> Seq<IntervalSpec>
    decreases b.len(),
{
    if b.len() == 0 {
        seq![]
    } else {
        meet_row(x, b.drop_last()) + opt_seq(interval_meet(x, b.last()))
    }
}

/// What `VersionRange::intersect` gives: the non-empty meets of every
/// interval of `a` with every interval of `b`, `a` in the outer order.
pub open spec fn range_meet(a: Seq<IntervalSpec>, b: Seq<IntervalSpec>) -> Seq<IntervalSpec>
    decreases a.len(),
{
    if a.len() == 0 {
        seq![]
    } else {
        range_meet(a.drop_last(), b) + meet_row(a.last(), b)
    }
}

/// The intervals making up the complement of an interval: below its lower
/// bound and above its upper bound, with inclusivity flipped.
pub open spec fn complement(i: IntervalSpec) -> Seq<IntervalSpec> {
    (match i.lower {
        Some((l, inc)) => seq![IntervalSpec { lower: None, upper: Some((l, !inc)) }],
        None => seq![],
    }) + (match i.upper {
        Some((u, inc)) => seq![IntervalSpec { lower: Some((u, !inc)), upper: None }],
        None => seq![],
    })
}

/// The complements of the first `k` intervals of `r`, intersected in turn.
pub open spec fn negate_prefix(r: Seq<IntervalSpec>, k: int) -> Seq<IntervalSpec>
    decreases k,
{
    if k <= 0 {
        seq![everything()]
    } else {
        range_meet(negate_prefix(r, k - 1), complement(r[k - 1]))
    }
}

/// What `VersionRange::negate` gives.
pub open spec fn range_negation(r: Seq<IntervalSpec>) -> Seq<IntervalSpec> {
    negate_prefix(r, r.len() as int)
}

/// Appends to `out` the non-empty meets of every interval of `a` with
/// every interval of `b`.
fn push_meets(out: &mut Vec<Interval>, a: &[Interval], b: &[Interval])
    ensures
        intervals_view(final(out)@) == intervals_view(old(out)@) + range_meet(
            intervals_view(a@),
            intervals_view(b@),
        ),
{
    let ghost va = intervals_view(a@);
    let ghost vb = intervals_view(b@);
    let mut i: usize = 0;
    assert(va.subrange(0, 0) =~= Seq::<IntervalSpec>::empty());
    assert(intervals_view(out@) =~= intervals_view(old(out)@) + range_meet(va.subrange(0, 0), vb));
    while i < a.len()
        invariant
            va == intervals_view(a@),
            vb == intervals_view(b@),
            0 <= i <= a.len(),
            intervals_view(out@) == intervals_view(old(out)@) + range_meet(
                va.subrange(0, i as int),
                vb,
            ),
        decreases a.len() - i,
    {
        let ghost base = intervals_view(out@);
        let mut j: usize = 0;
        assert(vb.subrange(0, 0) =~= Seq::<IntervalSpec>::empty());
        assert(base + meet_row(va[i as int], vb.subrange(0, 0)) =~= base);
        while j < b.len()
            invariant
                va == intervals_view(a@),
                vb == intervals_view(b@),
                0 <= i < a.len(),
                0 <= j <= b.len(),
                intervals_view(out@) == base + meet_row(va[i as int], vb.subrange(0, j as int)),
            decreases b.len() - j,
        {
            assert(vb.subrange(0, j + 1).drop_last() =~= vb.subrange(0, j as int));
            assert(va[i as int] == a@[i as int]@ && vb[j as int] == b@[j as int]@);
            let ghost before = intervals_view(out@);
            match a[i].intersect(&b[j]) {
                Some(m) => {
                    let ghost old_out = out@;
                    out.push(m);
                    assert(intervals_view(out@) =~= intervals_view(old_out).push(m@));
                    assert(intervals_view(out@) =~= base + meet_row(
                        va[i as int],
                        vb.subrange(0, j + 1),
                    ));
                },
                None => {
                    assert(intervals_view(out@) =~= base + meet_row(
                        va[i as int],
                        vb.subrange(0, j + 1),
                    ));
                },
            }
            j = j + 1;
        }
        assert(vb.subrange(0, j as int) =~= vb);
        assert(va.subrange(0, i + 1).drop_last() =~= va.subrange(0, i as int));
        assert(va.subrange(0, i + 1).last() == va[i as int]);
        assert(intervals_view(out@) =~= intervals_view(old(out)@) + range_meet(
            va.subrange(0, i + 1),
            vb,
        ));
        i = i + 1;
    }
    assert(va.subrange(0, i as int) =~= va);
}

/// Compute the complement of an interval (returns 0, 1, or 2 intervals).
fn complement_interval(interval: &Interval) -> (r: Vec<Interval>)
    ensures
        intervals_view(r@) == complement(interval@),
{
    let mut result: Vec<Interval> = Vec::new();
    if let Some((lower, inclusive)) = &interval.lower {
        result.push(Interval::upper_bound(lower.duplicate(), !*inclusive));
    }
    if let Some((upper, inclusive)) = &interval.upper {
        result.push(Interval::lower_bound(upper.duplicate(), !*inclusive));
    }
    assert(intervals_view(result@) =~= complement(interval@));
    result
}

impl VersionRange {
    /// Create a range matching all versions.
    pub fn all() -> (r: VersionRange)
        ensures
            r@ == seq![everything()],
    {
        let mut intervals: Vec<Interval> = Vec::new();
        intervals.push(Interval::all());
        let r = VersionRange { intervals };
        assert(r@ =~= seq![everything()]);
        r
    }

    /// Create a range matching no versions.
    pub fn none() -> (r: VersionRange)
        ensures
            r@ == Seq::<IntervalSpec>::empty(),
    {
        let r = VersionRange { intervals: Vec::new() };
        assert(r@ =~= Seq::<IntervalSpec>::empty());
        r
    }

    /// Create a range from a single interval.
    pub fn from_interval(interval: Interval) -> (r: VersionRange)
        ensures
            r@ == seq![interval@],
    {
        let mut intervals: Vec<Interval> = Vec::new();
        intervals.push(interval);
        let r = VersionRange { intervals };
        assert(r@ =~= seq![interval@]);
        r
    }

    /// Create a range matching an exact version.
    pub fn exact(version: Version) -> (r: VersionRange)
        ensures
            r@ == seq![
                IntervalSpec { lower: Some((version@, true)), upper: Some((version@, true)) },
            ],
    {
        Self::from_interval(Interval::exact(version))
    }

    /// Check if a version satisfies this range.
    pub fn contains(&self, version: &Version) -> (r: bool)
        ensures
            r == in_range(version@, self@),
    {
        let mut i: usize = 0;
        while i < self.intervals.len()
            invariant
                0 <= i <= self.intervals.len(),
                forall|k: int| 0 <= k < i ==> !in_interval(version@, #[trigger] self@[k]),
            decreases self.intervals.len() - i,
        {
            if self.intervals[i].contains(version) {
                assert(in_interval(version@, self@[i as int]));
                return true;
            }
            i = i + 1;
        }
        false
    }

    /// Intersect with another range. Returns empty range if no overlap.
    pub fn intersect(&self, other: &Self) -> (r: VersionRange)
        ensures
            r@ == range_meet(self@, other@),
    {
        let mut result: Vec<Interval> = Vec::new();
        push_meets(&mut result, self.intervals.as_slice(), other.intervals.as_slice());
        assert(intervals_view(result@) =~= range_meet(self@, other@));
        VersionRange { intervals: result }
    }

    /// Check if the range is empty (matches no versions): no interval
    /// holds a version.
    pub fn is_empty(&self) -> (r: bool)
        ensures
            r == all_void(self@),
    {
        let mut i: usize = 0;
        while i < self.intervals.len()
            invariant
                i <= self.intervals.len(),
                forall|k: int| 0 <= k < i ==> #[trigger] void(self@[k]),
            decreases self.intervals.len() - i,
        {
            if !self.intervals[i].is_void() {
                assert(!void(self@[i as int]));
                return false;
            }
            i = i + 1;
        }
        true
    }

    /// Negate the range (complement).
    pub fn negate(&self) -> (r: VersionRange)
        ensures
            r@ == range_negation(self@),
    {
        if self.intervals.len() == 0 {
            return Self::all();
        }
        let mut result: Vec<Interval> = Vec::new();
        result.push(Interval::all());
        assert(intervals_view(result@) =~= negate_prefix(self@, 0));
        let mut k: usize = 0;
        while k < self.intervals.len()
            invariant
                0 <= k <= self.intervals.len(),
                intervals_view(result@) == negate_prefix(self@, k as int),
            decreases self.intervals.len() - k,
        {
            let complements = complement_interval(&self.intervals[k]);
            let mut new_result: Vec<Interval> = Vec::new();
            push_meets(&mut new_result, result.as_slice(), complements.as_slice());
            assert(self@[k as int] == self.intervals@[k as int]@);
            assert(intervals_view(new_result@) =~= negate_prefix(self@, k + 1));
            result = new_result;
            k = k + 1;
        }
        VersionRange { intervals: result }
    }
}

// ---------------------------------------------------------------------------
// Union: sort by lower bound, then merge
// ---------------------------------------------------------------------------

/// The sort order of intervals by lower bound: an unbounded one first,
/// then by precedence of the bound's version, and at equal versions an
/// inclusive bound before an exclusive one (so that merging keeps the
/// weaker of two lower bounds at one version).
pub open spec fn lower_key_order(a: BoundSpec, b: BoundSpec) -> Order {
    match (a, b) {
        (None, None) => Order::Equal,
        (None, Some(_)) => Order::Less,
        (Some(_), None) => Order::Greater,
        (Some((av, ai)), Some((bv, bi))) => match precedence(av, bv) {
            Order::Equal => if ai == bi {
                Order::Equal
            } else if ai {
                Order::Less
            } else {
                Order::Greater
            },
            o => o,
        },
    }
}

/// `x` inserted into `s` after every interval whose lower bound does not
/// sort after it.
pub open spec fn insert_by_lower(s: Seq<IntervalSpec>, x: IntervalSpec) -> Seq<IntervalSpec>
    decreases s.len(),
{
    if s.len() == 0 {
        seq![x]
    } else if lower_key_order(s.last().lower, x.lower) == Order::Greater {
        insert_by_lower(s.drop_last(), x).push(s.last())
    } else {
        s.push(x)
    }
}

/// The intervals stably sorted by lower bound (`sort_by` on the lower
/// bound, which keeps intervals with equal keys in their order).
pub open spec fn sort_by_lower(s: Seq<IntervalSpec>) -> Seq<IntervalSpec>
    decreases s.len(),
{
    if s.len() == 0 {
        seq![]
    } else {
        insert_by_lower(sort_by_lower(s.drop_last()), s.last())
    }
}

/// `last` with its upper bound widened to take in `cu`.
pub open spec fn widen(last: IntervalSpec, cu: BoundSpec) -> IntervalSpec {
    match (last.upper, cu) {
        (None, _) => last,
        (Some(_), None) => IntervalSpec { lower: last.lower, upper: None },
        (Some((lu, li)), Some((c, ci))) => match precedence(lu, c) {
            Order::Less => IntervalSpec { lower: last.lower, upper: Some((c, ci)) },
            Order::Equal => IntervalSpec { lower: last.lower, upper: Some((c, li || ci)) },
            Order::Greater => last,
        },
    }
}

/// One step of merging sorted intervals: `cur` starts a new interval when
/// it lies clear above the last one, else it is merged into the last one.
pub open spec fn merge_step(result: Seq<IntervalSpec>, cur: IntervalSpec) -> Seq<IntervalSpec> {
    if result.len() == 0 {
        seq![cur]
    } else {
        let last = result.last();
        let n = result.len() - 1;
        match (last.upper, cur.lower) {
            (Some((lu, li)), Some((cl, ci))) => match precedence(lu, cl) {
                Order::Less => result.push(cur),
                Order::Equal => if li || ci {
                    result.update(n, IntervalSpec { lower: last.lower, upper: cur.upper })
                } else {
                    result.push(cur)
                },
                Order::Greater => result.update(n, widen(last, cur.upper)),
            },
            _ => result.update(n, widen(last, cur.upper)),
        }
    }
}

/// Sorted intervals merged in order.
pub open spec fn merge_all(s: Seq<IntervalSpec>) -> Seq<IntervalSpec>
    decreases s.len(),
{
    if s.len() == 0 {
        seq![]
    } else {
        merge_step(merge_all(s.drop_last()), s.last())
    }
}

/// What `VersionRange::union` gives: the intervals of both ranges, sorted
/// by lower bound and merged.
pub open spec fn range_join(a: Seq<IntervalSpec>, b: Seq<IntervalSpec>) -> Seq<IntervalSpec> {
    merge_all(sort_by_lower(a + b))
}

fn lower_key_compare(a: &Option<(Version, bool)>, b: &Option<(Version, bool)>) -> (r: Order)
    ensures
        r == lower_key_order(bound_view(*a), bound_view(*b)),
{
    match (a, b) {
        (None, None) => Order::Equal,
        (None, Some(_)) => Order::Less,
        (Some(_), None) => Order::Greater,
        (Some((av, ai)), Some((bv, bi))) => match av.precedence_to(bv) {
            Order::Equal => if *ai == *bi {
                Order::Equal
            } else if *ai {
                Order::Less
            } else {
                Order::Greater
            },
            o => o,
        },
    }
}

proof fn lemma_insert_at(s: Seq<IntervalSpec>, x: IntervalSpec, j: int)
    requires
        0 <= j <= s.len(),
        forall|k: int| j <= k < s.len() ==> lower_key_order(#[trigger] s[k].lower, x.lower)
            == Order::Greater,
        j > 0 ==> lower_key_order(s[j - 1].lower, x.lower) != Order::Greater,
    ensures
        insert_by_lower(s, x) == s.subrange(0, j).push(x) + s.subrange(j, s.len() as int),
    decreases s.len(),
{
    if s.len() == j {
        assert(s.subrange(0, j) =~= s);
        assert(s.subrange(j, s.len() as int) =~= Seq::<IntervalSpec>::empty());
        if j == 0 {
            assert(s.push(x) =~= seq![x]);
        }
        assert(s.push(x) + Seq::<IntervalSpec>::empty() =~= s.push(x));
    } else {
        assert(lower_key_order(s[s.len() - 1].lower, x.lower) == Order::Greater);
        let d = s.drop_last();
        assert forall|k: int| j <= k < d.len() implies lower_key_order(#[trigger] d[k].lower, x.lower)
            == Order::Greater by {
            assert(d[k] == s[k]);
        }
        if j > 0 {
            assert(d[j - 1] == s[j - 1]);
        }
        lemma_insert_at(d, x, j);
        assert(d.subrange(0, j) =~= s.subrange(0, j));
        assert((d.subrange(0, j).push(x) + d.subrange(j, d.len() as int)).push(s.last())
            =~= s.subrange(0, j).push(x) + s.subrange(j, s.len() as int));
    }
}

/// Stable insertion sort by lower bound.
fn sort_intervals(intervals: Vec<Interval>) -> (r: Vec<Interval>)
    ensures
        intervals_view(r@) == sort_by_lower(intervals_view(intervals@)),
{
    let ghost v = intervals_view(intervals@);
    let mut result: Vec<Interval> = Vec::new();
    let mut i: usize = 0;
    assert(v.subrange(0, 0) =~= Seq::<IntervalSpec>::empty());
    assert(intervals_view(result@) =~= sort_by_lower(v.subrange(0, 0)));
    while i < intervals.len()
        invariant
            v == intervals_view(intervals@),
            0 <= i <= intervals.len(),
            intervals_view(result@) == sort_by_lower(v.subrange(0, i as int)),
        decreases intervals.len() - i,
    {
        let x = intervals[i].duplicate();
        let ghost rv = intervals_view(result@);
        let mut j: usize = result.len();
        while j > 0 && lower_key_compare(&result[j - 1].lower, &x.lower) == Order::Greater
            invariant
                0 <= j <= result.len(),
                rv == intervals_view(result@),
                forall|k: int| j <= k < rv.len() ==> lower_key_order(#[trigger] rv[k].lower, x@.lower)
                    == Order::Greater,
            decreases j,
        {
            assert(rv[j - 1] == result@[j - 1]@);
            j = j - 1;
        }
        proof {
            if j > 0 {
                assert(rv[j - 1] == result@[j - 1]@);
            }
            lemma_insert_at(rv, x@, j as int);
        }
        result.insert(j, x);
        assert(intervals_view(result@) =~= rv.subrange(0, j as int).push(x@) + rv.subrange(
            j as int,
            rv.len() as int,
        ));
        assert(v.subrange(0, i + 1).drop_last() =~= v.subrange(0, i as int));
        assert(v.subrange(0, i + 1).last() == x@);
        i = i + 1;
    }
    assert(v.subrange(0, i as int) =~= v);
    result
}

/// `last` with its upper bound widened to take in `cu`.
fn widen_interval(last: &Interval, cu: &Option<(Version, bool)>) -> (r: Interval)
    ensures
        r@ == widen(last@, bound_view(*cu)),
{
    match (&last.upper, cu) {
        (None, _) => last.duplicate(),
        (Some(_), None) => Interval { lower: copy_bound(&last.lower), upper: None },
        (Some((lu, li)), Some((c, ci))) => match lu.precedence_to(c) {
            Order::Less => Interval { lower: copy_bound(&last.lower), upper: Some((c.duplicate(), *ci)) },
            Order::Equal => Interval {
                lower: copy_bound(&last.lower),
                upper: Some((c.duplicate(), *li || *ci)),
            },
            Order::Greater => last.duplicate(),
        },
    }
}

/// Merge sorted intervals.
fn merge_intervals(sorted: &Vec<Interval>) -> (r: Vec<Interval>)
    ensures
        intervals_view(r@) == merge_all(intervals_view(sorted@)),
{
    let ghost v = intervals_view(sorted@);
    let mut result: Vec<Interval> = Vec::with_capacity(sorted.len());
    let mut i: usize = 0;
    assert(v.subrange(0, 0) =~= Seq::<IntervalSpec>::empty());
    assert(intervals_view(result@) =~= merge_all(v.subrange(0, 0)));
    while i < sorted.len()
        invariant
            v == intervals_view(sorted@),
            0 <= i <= sorted.len(),
            intervals_view(result@) == merge_all(v.subrange(0, i as int)),
        decreases sorted.len() - i,
    {
        let interval = &sorted[i];
        let ghost rv = intervals_view(result@);
        assert(v.subrange(0, i + 1).drop_last() =~= v.subrange(0, i as int));
        assert(v.subrange(0, i + 1).last() == interval@);
        let n = result.len();
        if n == 0 {
            result.push(interval.duplicate());
            assert(intervals_view(result@) =~= seq![interval@]);
        } else {
            assert(rv.last() == result@[n - 1]@);
            let merged: Option<Interval> = match (&result[n - 1].upper, &interval.lower) {
                (Some((last_upper, last_inclusive)), Some((_, cur_inclusive))) => {
                    let cur_lower = match &interval.lower {
                        Some((cl, _)) => cl,
                        None => last_upper,
                    };
                    match last_upper.precedence_to(cur_lower) {
                        Order::Less => None,
                        Order::Equal => {
                            if *last_inclusive || *cur_inclusive {
                                Some(
                                    Interval {
                                        lower: copy_bound(&result[n - 1].lower),
                                        upper: copy_bound(&interval.upper),
                                    },
                                )
                            } else {
                                None
                            }
                        },
                        Order::Greater => Some(widen_interval(&result[n - 1], &interval.upper)),
                    }
                },
                _ => Some(widen_interval(&result[n - 1], &interval.upper)),
            };
            match merged {
                Some(m) => {
                    let ghost before = result@;
                    result.set(n - 1, m);
                    assert(intervals_view(result@) =~= intervals_view(before).update(n - 1, m@));
                },
                None => {
                    let ghost before = result@;
                    result.push(interval.duplicate());
                    assert(intervals_view(result@) =~= intervals_view(before).push(interval@));
                },
            }
        }
        i = i + 1;
    }
    assert(v.subrange(0, i as int) =~= v);
    result
}

/// Simplify and sort intervals (merge overlapping ones).
fn simplify_intervals(intervals: Vec<Interval>) -> (r: Vec<Interval>)
    ensures
        intervals_view(r@) == merge_all(sort_by_lower(intervals_view(intervals@))),
{
    if intervals.len() == 0 {
        assert(intervals_view(intervals@) =~= Seq::<IntervalSpec>::empty());
        return intervals;
    }
    let sorted = sort_intervals(intervals);
    merge_intervals(&sorted)
}

/// Appends copies of the intervals of `src` to `out`.
fn push_copies(out: &mut Vec<Interval>, src: &Vec<Interval>)
    ensures
        intervals_view(final(out)@) == intervals_view(old(out)@) + intervals_view(src@),
{
    let mut i: usize = 0;
    while i < src.len()
        invariant
            0 <= i <= src.len(),
            intervals_view(out@) == intervals_view(old(out)@) + intervals_view(src@).subrange(
                0,
                i as int,
            ),
        decreases src.len() - i,
    {
        let ghost before = out@;
        out.push(src[i].duplicate());
        assert(intervals_view(out@) =~= intervals_view(before).push(src@[i as int]@));
        assert(intervals_view(out@) =~= intervals_view(old(out)@) + intervals_view(src@).subrange(
            0,
            i + 1,
        ));
        i = i + 1;
    }
    assert(intervals_view(src@).subrange(0, i as int) =~= intervals_view(src@));
}

impl VersionRange {
    /// Union with another range.
    pub fn union(&self, other: &Self) -> (r: VersionRange)
        ensures
            r@ == range_join(self@, other@),
    {
        let mut intervals: Vec<Interval> = Vec::new();
        push_copies(&mut intervals, &self.intervals);
        push_copies(&mut intervals, &other.intervals);
        assert(intervals_view(intervals@) =~= self@ + other@);
        VersionRange { intervals: simplify_intervals(intervals) }
    }
}

// ---------------------------------------------------------------------------
// Text
// ---------------------------------------------------------------------------

/// Texts joined with `sep` between each two.
pub open spec fn join_with(parts: Seq<Seq<char>>, sep: Seq<char>) -> Seq<char>
    decreases parts.len(),
{
    if parts.len() == 0 {
        seq![]
    } else if parts.len() == 1 {
        parts[0]
    } else {
        join_with(parts.drop_last(), sep) + sep + parts.last()
    }
}

/// The text of a lower bound: `>=v`, `>v`, or `*` when there is none.
pub open spec fn lower_text(b: BoundSpec) -> Seq<char> {
    match b {
        Some((v, true)) => ">="@ + version_text(v),
        Some((v, false)) => ">"@ + version_text(v),
        None => "*"@,
    }
}

/// The text of an upper bound: `<=v`, `<v`, or `*` when there is none.
pub open spec fn upper_text(b: BoundSpec) -> Seq<char> {
    match b {
        Some((v, true)) => "<="@ + version_text(v),
        Some((v, false)) => "<"@ + version_text(v),
        None => "*"@,
    }
}

/// The text of an interval: its bounds, joined by ` AND ` when it has both,
/// `*` when it has none.
pub open spec fn interval_text(i: IntervalSpec) -> Seq<char> {
    match i.lower {
        None => match i.upper {
            None => "*"@,
            Some(_) => upper_text(i.upper),
        },
        Some(_) => match i.upper {
            None => lower_text(i.lower),
            Some(_) => lower_text(i.lower) + " AND "@ + upper_text(i.upper),
        },
    }
}

/// The text of a range: its intervals joined by
/// ` OR `, or `(none)` for the empty range.
pub open spec fn range_text(r: Seq<IntervalSpec>) -> Seq<char> {
    if r.len() == 0 {
        "(none)"@
    } else {
        join_with(r.map_values(|i: IntervalSpec| interval_text(i)), " OR "@)
    }
}

fn push_bound(out: &mut Vec<char>, b: &Option<(Version, bool)>, upper: bool)
    ensures
        final(out)@ == old(out)@ + if upper {
            upper_text(bound_view(*b))
        } else {
            lower_text(bound_view(*b))
        },
{
    match b {
        Some((v, inclusive)) => {
            if upper {
                if *inclusive {
                    push_str(out, "<=");
                } else {
                    push_str(out, "<");
                }
            } else {
                if *inclusive {
                    push_str(out, ">=");
                } else {
                    push_str(out, ">");
                }
            }
            let t = v.to_string();
            push_str(out, t.as_str());
            assert(out@ =~= old(out)@ + if upper {
                upper_text(bound_view(*b))
            } else {
                lower_text(bound_view(*b))
            });
        },
        None => {
            push_str(out, "*");
        },
    }
}

fn push_interval(out: &mut Vec<char>, interval: &Interval)
    ensures
        final(out)@ == old(out)@ + interval_text(interval@),
{
    match (&interval.lower, &interval.upper) {
        (None, None) => {
            push_str(out, "*");
        },
        (Some(_), None) => {
            push_bound(out, &interval.lower, false);
        },
        (None, Some(_)) => {
            push_bound(out, &interval.upper, true);
        },
        (Some(_), Some(_)) => {
            push_bound(out, &interval.lower, false);
            push_str(out, " AND ");
            push_bound(out, &interval.upper, true);
            assert(out@ =~= old(out)@ + interval_text(interval@));
        },
    }
}

/// The text of an interval: `>=1.0.0 AND <2.0.0`, `>1.0.0`, `*`.
pub fn format_interval(interval: &Interval) -> (r: String)
    ensures
        r@ == interval_text(interval@),
{
    let mut out: Vec<char> = Vec::new();
    push_interval(&mut out, interval);
    assert(out@ =~= interval_text(interval@));
    string_of(out.as_slice())
}

impl VersionRange {
    /// The text of this range.
    pub fn to_string(&self) -> (r: String)
        ensures
            r@ == range_text(self@),
    {
        if self.intervals.len() == 0 {
            return "(none)".to_owned();
        }
        let ghost texts = self@.map_values(|i: IntervalSpec| interval_text(i));
        let mut out: Vec<char> = Vec::new();
        let mut k: usize = 0;
        while k < self.intervals.len()
            invariant
                k <= self.intervals.len(),
                texts == self@.map_values(|i: IntervalSpec| interval_text(i)),
                out@ == join_with(texts.take(k as int), " OR "@),
            decreases self.intervals.len() - k,
        {
            assert(texts.take(k + 1).drop_last() =~= texts.take(k as int));
            assert(texts[k as int] == interval_text(self.intervals@[k as int]@));
            if k > 0 {
                push_str(&mut out, " OR ");
            } else {
                assert(texts.take(1) =~= seq![texts[0]]);
            }
            push_interval(&mut out, &self.intervals[k]);
            k = k + 1;
        }
        assert(texts.take(self.intervals.len() as int) =~= texts);
        string_of(out.as_slice())
    }
}

} // verus!
