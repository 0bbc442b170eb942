use semverity::range::{format_interval, Interval, VersionRange};
use semverity::version::Version;

fn v(s: &str) -> Version {
    Version::parse(s).unwrap()
}

#[test]
fn test_interval_contains() {
    let interval = Interval::bounded(v("1.0.0"), true, v("2.0.0"), false);
    assert!(interval.contains(&v("1.0.0")));
    assert!(interval.contains(&v("1.5.0")));
    assert!(!interval.contains(&v("2.0.0")));
    assert!(!interval.contains(&v("0.9.0")));
}

#[test]
fn test_interval_exact() {
    let interval = Interval::exact(v("1.2.3"));
    assert!(interval.contains(&v("1.2.3")));
    assert!(!interval.contains(&v("1.2.4")));
    assert!(!interval.contains(&v("1.2.2")));
}

#[test]
fn test_interval_intersect() {
    let a = Interval::bounded(v("1.0.0"), true, v("3.0.0"), false);
    let b = Interval::bounded(v("2.0.0"), true, v("4.0.0"), false);
    let result = a.intersect(&b).unwrap();
    assert!(result.contains(&v("2.0.0")));
    assert!(result.contains(&v("2.5.0")));
    assert!(!result.contains(&v("1.5.0")));
    assert!(!result.contains(&v("3.0.0")));
}

#[test]
fn test_interval_no_intersect() {
    let a = Interval::bounded(v("1.0.0"), true, v("2.0.0"), false);
    let b = Interval::bounded(v("3.0.0"), true, v("4.0.0"), false);
    assert!(a.intersect(&b).is_none());
}

#[test]
fn test_range_contains() {
    let range = VersionRange::from_interval(Interval::bounded(v("1.0.0"), true, v("2.0.0"), false));
    assert!(range.contains(&v("1.0.0")));
    assert!(range.contains(&v("1.5.0")));
    assert!(!range.contains(&v("2.0.0")));
}

#[test]
fn test_range_union() {
    let a = VersionRange::from_interval(Interval::bounded(v("1.0.0"), true, v("2.0.0"), false));
    let b = VersionRange::from_interval(Interval::bounded(v("3.0.0"), true, v("4.0.0"), false));
    let union = a.union(&b);
    assert!(union.contains(&v("1.5.0")));
    assert!(union.contains(&v("3.5.0")));
    assert!(!union.contains(&v("2.5.0")));
}

#[test]
fn test_range_intersect() {
    let a = VersionRange::from_interval(Interval::bounded(v("1.0.0"), true, v("3.0.0"), false));
    let b = VersionRange::from_interval(Interval::bounded(v("2.0.0"), true, v("4.0.0"), false));
    let result = a.intersect(&b);
    assert!(result.contains(&v("2.0.0")));
    assert!(result.contains(&v("2.5.0")));
    assert!(!result.contains(&v("1.5.0")));
    assert!(!result.contains(&v("3.0.0")));
}

#[test]
fn test_range_negate() {
    let range = VersionRange::from_interval(Interval::bounded(v("1.0.0"), true, v("2.0.0"), false));
    let negated = range.negate();
    assert!(!negated.contains(&v("1.5.0")));
    assert!(negated.contains(&v("0.5.0")));
    assert!(negated.contains(&v("2.0.0")));
    assert!(negated.contains(&v("3.0.0")));
}

#[test]
fn test_range_exact() {
    let range = VersionRange::exact(v("1.2.3"));
    assert!(range.contains(&v("1.2.3")));
    assert!(!range.contains(&v("1.2.4")));
}

#[test]
fn test_range_empty() {
    let range = VersionRange::none();
    assert!(range.is_empty());
    assert!(!range.contains(&v("1.0.0")));
}

#[test]
fn test_range_all() {
    let range = VersionRange::all();
    assert!(range.contains(&v("0.0.1")));
    assert!(range.contains(&v("99.99.99")));
}

// ---------------------------------------------------------------------------
// Further cases
// ---------------------------------------------------------------------------

#[test]
fn interval_bounds_and_exclusive_edges() {
    let lower = Interval::lower_bound(v("1.0.0"), false);
    assert!(!lower.contains(&v("1.0.0")));
    assert!(lower.contains(&v("1.0.1")));
    let upper = Interval::upper_bound(v("2.0.0"), true);
    assert!(upper.contains(&v("2.0.0")));
    assert!(!upper.contains(&v("2.0.1")));
    assert!(Interval::all().contains(&v("0.0.0")));
    // build metadata does not count
    assert!(Interval::exact(v("1.0.0")).contains(&v("1.0.0+sha")));
}

#[test]
fn interval_intersection_touching_bounds() {
    let a = Interval::bounded(v("1.0.0"), true, v("2.0.0"), true);
    let b = Interval::bounded(v("2.0.0"), true, v("3.0.0"), false);
    let meet = a.intersect(&b).unwrap();
    assert!(meet.contains(&v("2.0.0")));
    assert!(!meet.contains(&v("1.9.9")));
    let c = Interval::bounded(v("2.0.0"), false, v("3.0.0"), false);
    assert!(a.intersect(&c).is_none());
}

#[test]
fn intersect_law_on_examples() {
    let a = VersionRange::from_interval(Interval::bounded(v("1.0.0"), true, v("3.0.0"), false))
        .union(&VersionRange::from_interval(Interval::lower_bound(v("5.0.0"), true)));
    let b = VersionRange::from_interval(Interval::bounded(v("2.0.0"), false, v("6.0.0"), true));
    let m = a.intersect(&b);
    for s in ["0.5.0", "1.0.0", "2.0.0", "2.5.0", "3.0.0", "4.0.0", "5.0.0", "6.0.0", "7.0.0"] {
        assert_eq!(m.contains(&v(s)), a.contains(&v(s)) && b.contains(&v(s)), "{s}");
    }
}

#[test]
fn negate_law_on_examples() {
    let a = VersionRange::from_interval(Interval::bounded(v("1.0.0"), false, v("2.0.0"), true))
        .union(&VersionRange::from_interval(Interval::exact(v("3.0.0"))));
    let n = a.negate();
    for s in ["0.5.0", "1.0.0", "1.5.0", "2.0.0", "2.5.0", "3.0.0", "3.0.1"] {
        assert_eq!(n.contains(&v(s)), !a.contains(&v(s)), "{s}");
    }
    assert!(VersionRange::none().negate().contains(&v("1.2.3")));
    assert!(VersionRange::all().negate().is_empty());
}

#[test]
fn union_law_on_examples() {
    let a = VersionRange::from_interval(Interval::bounded(v("1.0.0"), true, v("2.0.0"), false));
    let b = VersionRange::from_interval(Interval::bounded(v("1.5.0"), true, v("3.0.0"), true));
    let u = a.union(&b);
    assert_eq!(u.intervals.len(), 1);
    for s in ["0.5.0", "1.0.0", "1.7.0", "2.0.0", "3.0.0", "3.0.1"] {
        assert_eq!(u.contains(&v(s)), a.contains(&v(s)) || b.contains(&v(s)), "{s}");
    }
    // touching bounds merge when one side is inclusive
    let c = VersionRange::from_interval(Interval::bounded(v("2.0.0"), true, v("2.5.0"), false));
    assert_eq!(a.union(&c).intervals.len(), 1);
}

#[test]
fn range_text() {
    assert_eq!(VersionRange::none().to_string(), "(none)");
    assert_eq!(VersionRange::all().to_string(), "*");
    let a = VersionRange::from_interval(Interval::bounded(v("1.0.0"), true, v("2.0.0"), false))
        .union(&VersionRange::from_interval(Interval::lower_bound(v("3.0.0"), false)));
    assert_eq!(a.to_string(), ">=1.0.0 AND <2.0.0 OR >3.0.0");
    assert_eq!(format_interval(&Interval::upper_bound(v("1.0.0-rc.1"), true)), "<=1.0.0-rc.1");
}

#[test]
fn crossed_ranges_are_empty() {
    let r = VersionRange::from_interval(Interval::bounded(v("2.0.0"), true, v("1.0.0"), true));
    assert!(r.is_empty());
    assert!(!r.contains(&v("1.5.0")));
    let touching = VersionRange::from_interval(Interval::bounded(v("1.0.0"), true, v("1.0.0"), false));
    assert!(touching.is_empty());
    let point = VersionRange::exact(v("1.0.0"));
    assert!(!point.is_empty());
}

#[test]
fn union_keeps_the_weaker_lower_bound() {
    let a = VersionRange::from_interval(Interval::bounded(v("1.0.0"), false, v("2.0.0"), false));
    let b = VersionRange::exact(v("1.0.0"));
    let u = a.union(&b);
    assert!(u.contains(&v("1.0.0")));
    assert!(u.contains(&v("1.5.0")));
    assert!(!u.contains(&v("2.0.0")));
    let c = VersionRange::from_interval(Interval::bounded(v("1.0.0"), true, v("1.5.0"), true));
    let w = a.union(&c);
    assert!(w.contains(&v("1.0.0")));
    assert!(w.contains(&v("1.9.0")));
    assert_eq!(w.intervals.len(), 1);
}

#[test]
fn union_gives_sorted_separate_intervals() {
    let high = VersionRange::from_interval(Interval::bounded(v("3.0.0"), true, v("4.0.0"), false));
    let low = VersionRange::from_interval(Interval::bounded(v("1.0.0"), true, v("2.0.0"), false));
    let u = high.union(&low);
    assert_eq!(u.intervals.len(), 2);
    assert_eq!(format_interval(&u.intervals[0]), format_interval(&Interval::bounded(v("1.0.0"), true, v("2.0.0"), false)));
    assert_eq!(format_interval(&u.intervals[1]), format_interval(&Interval::bounded(v("3.0.0"), true, v("4.0.0"), false)));
    // Both bounds exclusive at 1.0.0: the two sides stay apart.
    let below = VersionRange::from_interval(Interval::upper_bound(v("1.0.0"), false));
    let above = VersionRange::from_interval(Interval::lower_bound(v("1.0.0"), false));
    let w = above.union(&below);
    assert_eq!(w.intervals.len(), 2);
    assert!(!w.contains(&v("1.0.0")));
    // Touching at an inclusive bound: merged into one.
    let upto = VersionRange::from_interval(Interval::upper_bound(v("1.0.0"), true));
    let m = upto.union(&above);
    assert_eq!(m.intervals.len(), 1);
    assert!(m.contains(&v("1.0.0")));
    assert!(m.contains(&v("0.1.0")));
    assert!(m.contains(&v("9.0.0")));
}

#[test]
fn ranges_without_room_between_their_bounds_are_empty() {
    // Nothing lies strictly between a version and the same version with a
    // zero identifier appended.
    let r = VersionRange::from_interval(Interval::bounded(v("1.0.0-0"), false, v("1.0.0-0.0"), false));
    assert!(r.is_empty());
    let r = VersionRange::from_interval(Interval::bounded(v("1.0.0-alpha"), false, v("1.0.0-alpha.0"), false));
    assert!(r.is_empty());
    // Nor between a release and the least pre-release of the next core.
    let r = VersionRange::from_interval(Interval::bounded(v("1.2.3"), false, v("1.2.4-0"), false));
    assert!(r.is_empty());
    let r = VersionRange::from_interval(Interval::bounded(
        v("1.2.18446744073709551615"),
        false,
        v("1.3.0-0"),
        false,
    ));
    assert!(r.is_empty());
    // Nothing lies below 0.0.0-0 or above the greatest release.
    assert!(VersionRange::from_interval(Interval::upper_bound(v("0.0.0-0"), false)).is_empty());
    let top = v("18446744073709551615.18446744073709551615.18446744073709551615");
    assert!(VersionRange::from_interval(Interval::lower_bound(top, false)).is_empty());
    // With room between the bounds the range is not empty.
    let r = VersionRange::from_interval(Interval::bounded(v("1.2.3"), false, v("1.2.4-1"), false));
    assert!(!r.is_empty());
    assert!(r.contains(&v("1.2.4-0")));
    let r = VersionRange::from_interval(Interval::bounded(v("1.0.0-0"), false, v("1.0.0-0.1"), false));
    assert!(!r.is_empty());
    assert!(r.contains(&v("1.0.0-0.0")));
    assert!(!VersionRange::from_interval(Interval::upper_bound(v("0.0.0-1"), false)).is_empty());
    assert!(!VersionRange::from_interval(Interval::upper_bound(v("0.0.0-0"), true)).is_empty());
    let below_top = v("18446744073709551615.18446744073709551615.18446744073709551615-rc");
    assert!(!VersionRange::from_interval(Interval::lower_bound(below_top, false)).is_empty());
}
