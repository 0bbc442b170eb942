//! Laws of version ranges: intersection, negation and union are exact on
//! the versions they contain, emptiness is exact, and simplification gives
//! sorted, separated intervals.

use crate::range::{
    above_lower, all_void, below_upper, complement, crossed, everything, in_interval, in_range,
    insert_by_lower, interval_meet, lower_key_order, meet_row, merge_all, merge_step,
    negate_prefix, opt_seq, range_join, range_meet, range_negation, sort_by_lower,
    tighter_lower_spec, tighter_upper_spec, void, widen, BoundSpec, IntervalSpec,
};
use crate::range::{interval_text, join_with, range_text};
use crate::version::{version_text, is_greatest, is_least, precedence, version_next, Order, VersionSpec};
use crate::version_laws::{
    between, greatest_version, law_nothing_above_greatest, law_nothing_below_least,
    law_nothing_between, law_precedence_antisymmetric, law_precedence_transitive,
    law_something_above, law_something_below, law_something_between, least_version,
};
use vstd::prelude::*;

verus! {

proof fn lemma_order3(a: VersionSpec, b: VersionSpec, c: VersionSpec)
    ensures
        precedence(a, b) == Order::Equal ==> precedence(a, c) == precedence(b, c),
        precedence(b, c) == Order::Equal ==> precedence(a, c) == precedence(a, b),
        precedence(a, b) == precedence(b, c) ==> precedence(a, c) == precedence(a, b),
        precedence(b, a) == crate::version::reversed(precedence(a, b)),
        precedence(c, b) == crate::version::reversed(precedence(b, c)),
        precedence(c, a) == crate::version::reversed(precedence(a, c)),
{
    law_precedence_transitive(a, b, c);
    law_precedence_antisymmetric(a, b);
    law_precedence_antisymmetric(b, c);
    law_precedence_antisymmetric(a, c);
}

proof fn lemma_lower_meet(v: VersionSpec, a: BoundSpec, b: BoundSpec)
    ensures
        above_lower(v, tighter_lower_spec(a, b)) == (above_lower(v, a) && above_lower(v, b)),
{
    if let (Some((av, ai)), Some((bv, bi))) = (a, b) {
        lemma_order3(v, av, bv);
        lemma_order3(v, bv, av);
    }
}

proof fn lemma_upper_meet(v: VersionSpec, a: BoundSpec, b: BoundSpec)
    ensures
        below_upper(v, tighter_upper_spec(a, b)) == (below_upper(v, a) && below_upper(v, b)),
{
    if let (Some((av, ai)), Some((bv, bi))) = (a, b) {
        lemma_order3(v, av, bv);
        lemma_order3(v, bv, av);
    }
}

proof fn lemma_crossed_empty(v: VersionSpec, lower: BoundSpec, upper: BoundSpec)
    requires
        crossed(lower, upper),
    ensures
        !(above_lower(v, lower) && below_upper(v, upper)),
{
    if let (Some((lv, li)), Some((uv, ui))) = (lower, upper) {
        lemma_order3(lv, v, uv);
    }
}

/// Two intervals meet exactly in the versions they share: `intersect`
/// gives an interval holding just those, or nothing when there are none.
pub proof fn law_interval_meet(a: IntervalSpec, b: IntervalSpec, v: VersionSpec)
    ensures
        match interval_meet(a, b) {
            Some(i) => in_interval(v, i) == (in_interval(v, a) && in_interval(v, b)),
            None => !(in_interval(v, a) && in_interval(v, b)),
        },
{
    lemma_lower_meet(v, a.lower, b.lower);
    lemma_upper_meet(v, a.upper, b.upper);
    let lower = tighter_lower_spec(a.lower, b.lower);
    let upper = tighter_upper_spec(a.upper, b.upper);
    if crossed(lower, upper) {
        lemma_crossed_empty(v, lower, upper);
    }
}

proof fn lemma_in_range_concat(v: VersionSpec, a: Seq<IntervalSpec>, b: Seq<IntervalSpec>)
    ensures
        in_range(v, a + b) == (in_range(v, a) || in_range(v, b)),
{
    let s = a + b;
    if in_range(v, s) {
        let k = choose|k: int| 0 <= k < s.len() && #[trigger] in_interval(v, s[k]);
        if k < a.len() {
            assert(s[k] == a[k]);
        } else {
            assert(s[k] == b[k - a.len()]);
        }
    }
    if in_range(v, a) {
        let k = choose|k: int| 0 <= k < a.len() && #[trigger] in_interval(v, a[k]);
        assert(s[k] == a[k]);
    }
    if in_range(v, b) {
        let k = choose|k: int| 0 <= k < b.len() && #[trigger] in_interval(v, b[k]);
        assert(s[k + a.len()] == b[k]);
    }
}

proof fn lemma_in_range_drop_last(v: VersionSpec, a: Seq<IntervalSpec>)
    requires
        a.len() > 0,
    ensures
        in_range(v, a) == (in_range(v, a.drop_last()) || in_interval(v, a.last())),
{
    assert(a =~= a.drop_last() + seq![a.last()]);
    lemma_in_range_concat(v, a.drop_last(), seq![a.last()]);
    if in_interval(v, a.last()) {
        assert(in_interval(v, seq![a.last()][0]));
    }
}

proof fn lemma_meet_row(v: VersionSpec, x: IntervalSpec, b: Seq<IntervalSpec>)
    ensures
        in_range(v, meet_row(x, b)) == (in_interval(v, x) && in_range(v, b)),
    decreases b.len(),
{
    if b.len() > 0 {
        lemma_meet_row(v, x, b.drop_last());
        lemma_in_range_concat(v, meet_row(x, b.drop_last()), opt_seq(interval_meet(x, b.last())));
        lemma_in_range_drop_last(v, b);
        law_interval_meet(x, b.last(), v);
        if let Some(i) = interval_meet(x, b.last()) {
            if in_interval(v, i) {
                assert(in_interval(v, opt_seq(interval_meet(x, b.last()))[0]));
            }
        }
    }
}

/// A version lies in the intersection of two ranges exactly when it lies
/// in both.
pub proof fn law_range_intersect(a: Seq<IntervalSpec>, b: Seq<IntervalSpec>, v: VersionSpec)
    ensures
        in_range(v, range_meet(a, b)) == (in_range(v, a) && in_range(v, b)),
    decreases a.len(),
{
    if a.len() > 0 {
        law_range_intersect(a.drop_last(), b, v);
        lemma_meet_row(v, a.last(), b);
        lemma_in_range_concat(v, range_meet(a.drop_last(), b), meet_row(a.last(), b));
        lemma_in_range_drop_last(v, a);
    }
}

proof fn lemma_complement(v: VersionSpec, i: IntervalSpec)
    ensures
        in_range(v, complement(i)) == !in_interval(v, i),
{
    let lo: Seq<IntervalSpec> = match i.lower {
        Some((l, inc)) => seq![IntervalSpec { lower: None, upper: Some((l, !inc)) }],
        None => seq![],
    };
    let hi: Seq<IntervalSpec> = match i.upper {
        Some((u, inc)) => seq![IntervalSpec { lower: Some((u, !inc)), upper: None }],
        None => seq![],
    };
    lemma_in_range_concat(v, lo, hi);
    if lo.len() > 0 {
        assert(in_range(v, lo) == in_interval(v, lo[0]));
    }
    if hi.len() > 0 {
        assert(in_range(v, hi) == in_interval(v, hi[0]));
    }
}

proof fn lemma_negate_prefix(r: Seq<IntervalSpec>, k: int, v: VersionSpec)
    requires
        0 <= k <= r.len(),
    ensures
        in_range(v, negate_prefix(r, k)) == forall|j: int| 0 <= j < k ==> !#[trigger] in_interval(v, r[j]),
    decreases k,
{
    if k == 0 {
        assert(in_interval(v, seq![everything()][0]));
    } else {
        lemma_negate_prefix(r, k - 1, v);
        law_range_intersect(negate_prefix(r, k - 1), complement(r[k - 1]), v);
        lemma_complement(v, r[k - 1]);
    }
}

/// A version lies in the negation of a range exactly when it does not lie
/// in the range.
pub proof fn law_range_negate(r: Seq<IntervalSpec>, v: VersionSpec)
    ensures
        in_range(v, range_negation(r)) == !in_range(v, r),
{
    lemma_negate_prefix(r, r.len() as int, v);
    if in_range(v, r) {
        let k = choose|k: int| 0 <= k < r.len() && #[trigger] in_interval(v, r[k]);
    }
}

// ---------------------------------------------------------------------------
// Union
// ---------------------------------------------------------------------------

/// An interval that holds at least its bounds' meeting point: its lower
/// bound does not lie above its upper bound.
pub open spec fn proper(i: IntervalSpec) -> bool {
    !crossed(i.lower, i.upper)
}

/// Every interval is proper.
pub open spec fn all_proper(s: Seq<IntervalSpec>) -> bool {
    forall|i: int| 0 <= i < s.len() ==> #[trigger] proper(s[i])
}

/// Sorted by lower bound.
pub open spec fn sorted_by_lower(s: Seq<IntervalSpec>) -> bool {
    forall|i: int, j: int|
        0 <= i < j < s.len() ==> lower_key_order(#[trigger] s[i].lower, #[trigger] s[j].lower)
            != Order::Greater
}

proof fn lemma_key3(a: BoundSpec, b: BoundSpec, c: BoundSpec)
    ensures
        lower_key_order(b, a) == crate::version::reversed(lower_key_order(a, b)),
        lower_key_order(a, b) != Order::Greater && lower_key_order(b, c) != Order::Greater
            ==> lower_key_order(a, c) != Order::Greater,
        lower_key_order(a, b) == Order::Less && lower_key_order(b, c) != Order::Greater
            ==> lower_key_order(a, c) == Order::Less,
{
    match (a, b, c) {
        (Some((av, _)), Some((bv, _)), Some((cv, _))) => {
            lemma_order3(av, bv, cv);
            lemma_order3(av, av, av);
        },
        (Some((av, _)), Some((bv, _)), None) => {
            lemma_order3(av, bv, bv);
        },
        (Some((av, _)), None, Some((cv, _))) => {
            lemma_order3(av, cv, cv);
        },
        (None, Some((bv, _)), Some((cv, _))) => {
            lemma_order3(bv, cv, cv);
        },
        (Some((av, _)), None, None) => {
            lemma_order3(av, av, av);
        },
        (None, Some((bv, _)), None) => {
            lemma_order3(bv, bv, bv);
        },
        _ => {},
    }
}

proof fn lemma_insert_sorted(s: Seq<IntervalSpec>, x: IntervalSpec)
    requires
        sorted_by_lower(s),
    ensures
        sorted_by_lower(insert_by_lower(s, x)),
        insert_by_lower(s, x).len() == s.len() + 1,
        forall|y: IntervalSpec| #[trigger] insert_by_lower(s, x).contains(y) <==> (s.contains(y) || y == x),
    decreases s.len(),
{
    let t = insert_by_lower(s, x);
    if s.len() == 0 {
        assert(t =~= seq![x]);
        assert forall|y: IntervalSpec| t.contains(y) <==> (s.contains(y) || y == x) by {
            if t.contains(y) {
                assert(t[0] == y);
            }
            if y == x {
                assert(t[0] == y);
            }
        }
    } else if lower_key_order(s.last().lower, x.lower) == Order::Greater {
        let d = s.drop_last();
        let l = s.last();
        assert(sorted_by_lower(d)) by {
            assert forall|i: int, j: int| 0 <= i < j < d.len() implies lower_key_order(
                #[trigger] d[i].lower,
                #[trigger] d[j].lower,
            ) != Order::Greater by {
                assert(d[i] == s[i] && d[j] == s[j]);
            }
        }
        lemma_insert_sorted(d, x);
        let u = insert_by_lower(d, x);
        assert(t == u.push(l));
        lemma_key3(l.lower, x.lower, x.lower);
        assert forall|i: int, j: int| 0 <= i < j < t.len() implies lower_key_order(
            #[trigger] t[i].lower,
            #[trigger] t[j].lower,
        ) != Order::Greater by {
            if j < t.len() - 1 {
                assert(t[i] == u[i] && t[j] == u[j]);
            } else {
                assert(t[j] == l);
                assert(t[i] == u[i]);
                assert(u.contains(u[i]));
                if u[i] == x {
                } else {
                    assert(d.contains(u[i]));
                    let k = choose|k: int| 0 <= k < d.len() && d[k] == u[i];
                    assert(s[k] == d[k]);
                    assert(s[s.len() - 1] == l);
                }
            }
        }
        assert forall|y: IntervalSpec| #[trigger] t.contains(y) <==> (s.contains(y) || y == x) by {
            if t.contains(y) {
                let k = choose|k: int| 0 <= k < t.len() && t[k] == y;
                if k < t.len() - 1 {
                    assert(u[k] == y);
                    assert(u.contains(y));
                    if d.contains(y) {
                        let m = choose|m: int| 0 <= m < d.len() && d[m] == y;
                        assert(s[m] == y);
                    }
                } else {
                    assert(s[s.len() - 1] == y);
                }
            }
            if s.contains(y) {
                let k = choose|k: int| 0 <= k < s.len() && s[k] == y;
                if k < s.len() - 1 {
                    assert(d[k] == y);
                    assert(d.contains(y));
                    assert(u.contains(y));
                    let m = choose|m: int| 0 <= m < u.len() && u[m] == y;
                    assert(t[m] == y);
                } else {
                    assert(t[t.len() - 1] == y);
                }
            }
            if y == x {
                assert(u.contains(y));
                let m = choose|m: int| 0 <= m < u.len() && u[m] == y;
                assert(t[m] == y);
            }
        }
    } else {
        assert(t == s.push(x));
        assert forall|i: int, j: int| 0 <= i < j < t.len() implies lower_key_order(
            #[trigger] t[i].lower,
            #[trigger] t[j].lower,
        ) != Order::Greater by {
            if j < t.len() - 1 {
                assert(t[i] == s[i] && t[j] == s[j]);
            } else {
                assert(t[j] == x);
                assert(t[i] == s[i]);
                if i < s.len() - 1 {
                    assert(lower_key_order(s[i].lower, s[s.len() - 1].lower) != Order::Greater);
                }
                lemma_key3(s[i].lower, s.last().lower, x.lower);
            }
        }
        assert forall|y: IntervalSpec| #[trigger] t.contains(y) <==> (s.contains(y) || y == x) by {
            if t.contains(y) {
                let k = choose|k: int| 0 <= k < t.len() && t[k] == y;
                if k < s.len() {
                    assert(s[k] == y);
                }
            }
            if s.contains(y) {
                let k = choose|k: int| 0 <= k < s.len() && s[k] == y;
                assert(t[k] == y);
            }
            if y == x {
                assert(t[s.len() as int] == y);
            }
        }
    }
}

proof fn lemma_sort(s: Seq<IntervalSpec>)
    ensures
        sorted_by_lower(sort_by_lower(s)),
        sort_by_lower(s).len() == s.len(),
        forall|y: IntervalSpec| #[trigger] sort_by_lower(s).contains(y) <==> s.contains(y),
    decreases s.len(),
{
    if s.len() > 0 {
        let d = s.drop_last();
        lemma_sort(d);
        lemma_insert_sorted(sort_by_lower(d), s.last());
        assert forall|y: IntervalSpec| #[trigger] sort_by_lower(s).contains(y) <==> s.contains(y) by {
            if d.contains(y) {
                let k = choose|k: int| 0 <= k < d.len() && d[k] == y;
                assert(s[k] == y);
            }
            if s.contains(y) {
                let k = choose|k: int| 0 <= k < s.len() && s[k] == y;
                if k < s.len() - 1 {
                    assert(d[k] == y);
                }
            }
            if y == s.last() {
                assert(s[s.len() - 1] == y);
            }
        }
    } else {
        assert forall|y: IntervalSpec| #[trigger] sort_by_lower(s).contains(y) <==> s.contains(y) by {
        }
    }
}

/// Sequences with the same elements hold the same versions.
proof fn lemma_in_range_same_elements(v: VersionSpec, a: Seq<IntervalSpec>, b: Seq<IntervalSpec>)
    requires
        forall|y: IntervalSpec| #[trigger] a.contains(y) <==> b.contains(y),
    ensures
        in_range(v, a) == in_range(v, b),
{
    if in_range(v, a) {
        let k = choose|k: int| 0 <= k < a.len() && #[trigger] in_interval(v, a[k]);
        assert(a.contains(a[k]));
        assert(b.contains(a[k]));
        let m = choose|m: int| 0 <= m < b.len() && b[m] == a[k];
        assert(in_interval(v, b[m]));
    }
    if in_range(v, b) {
        let k = choose|k: int| 0 <= k < b.len() && #[trigger] in_interval(v, b[k]);
        assert(b.contains(b[k]));
        assert(a.contains(b[k]));
        let m = choose|m: int| 0 <= m < a.len() && a[m] == b[k];
        assert(in_interval(v, a[m]));
    }
}

/// Every version above lower bound `b` is also above lower bound `a`.
spec fn lower_covers(a: BoundSpec, b: BoundSpec) -> bool {
    forall|v: VersionSpec| #[trigger] above_lower(v, b) ==> above_lower(v, a)
}

proof fn lemma_lower_covers(a: BoundSpec, b: BoundSpec)
    requires
        lower_key_order(a, b) != Order::Greater,
    ensures
        lower_covers(a, b),
{
    assert forall|v: VersionSpec| #[trigger] above_lower(v, b) implies above_lower(v, a) by {
        if let (Some((av, ai)), Some((bv, bi))) = (a, b) {
            lemma_order3(v, bv, av);
        }
    }
}

proof fn lemma_merge_step(v: VersionSpec, r: Seq<IntervalSpec>, cur: IntervalSpec)
    requires
        proper(cur),
        r.len() > 0 ==> lower_covers(r.last().lower, cur.lower),
        r.len() > 0 && cur.lower is None ==> r.last().lower is None,
    ensures
        in_range(v, merge_step(r, cur)) == (in_range(v, r) || in_interval(v, cur)),
        merge_step(r, cur).len() > 0,
        merge_step(r, cur).last().lower == cur.lower || (r.len() > 0 && merge_step(r, cur).last().lower
            == r.last().lower),
        r.len() > 0 ==> merge_step(r, cur).drop_last() == r.drop_last() || merge_step(r, cur).drop_last() == r,
{
    let m = merge_step(r, cur);
    if r.len() == 0 {
        assert(m == seq![cur]);
        assert(in_range(v, m) == in_interval(v, m[0]));
    } else {
        let last = r.last();
        let n = r.len() - 1;
        let pushed = match (last.upper, cur.lower) {
            (Some((lu, li)), Some((cl, ci))) => match precedence(lu, cl) {
                Order::Less => true,
                Order::Equal => !(li || ci),
                Order::Greater => false,
            },
            _ => false,
        };
        if pushed {
            assert(m == r.push(cur));
            assert(r.push(cur) =~= r + seq![cur]);
            lemma_in_range_concat(v, r, seq![cur]);
            assert(in_range(v, seq![cur]) == in_interval(v, seq![cur][0]));
            assert(r.push(cur).drop_last() =~= r);
        } else {
            let merged = m.last();
            assert(m == r.update(n, merged));
            // The merged interval holds exactly the versions of `last` and `cur`.
            assert(in_interval(v, merged) == (in_interval(v, last) || in_interval(v, cur))) by {
                assert(above_lower(v, cur.lower) ==> above_lower(v, last.lower));
                match (last.upper, cur.lower) {
                    (Some((lu, li)), Some((cl, ci))) => {
                        lemma_order3(v, lu, cl);
                        match cur.upper {
                            Some((cu, cui)) => {
                                lemma_order3(v, cl, cu);
                                lemma_order3(lu, cl, cu);
                                lemma_order3(v, lu, cu);
                                lemma_order3(cl, v, lu);
                            },
                            None => {},
                        }
                    },
                    (Some((lu, li)), None) => {
                        match cur.upper {
                            Some((cu, cui)) => {
                                lemma_order3(v, lu, cu);
                            },
                            None => {},
                        }
                    },
                    _ => {},
                }
            }
            assert(r =~= r.drop_last() + seq![last]);
            assert(m =~= r.drop_last() + seq![merged]);
            lemma_in_range_concat(v, r.drop_last(), seq![last]);
            lemma_in_range_concat(v, r.drop_last(), seq![merged]);
            assert(in_range(v, seq![last]) == in_interval(v, seq![last][0]));
            assert(in_range(v, seq![merged]) == in_interval(v, seq![merged][0]));
            assert(m.drop_last() =~= r.drop_last());
        }
    }
}

proof fn lemma_merge_all(s: Seq<IntervalSpec>, v: VersionSpec)
    requires
        sorted_by_lower(s),
        all_proper(s),
    ensures
        in_range(v, merge_all(s)) == in_range(v, s),
        s.len() > 0 ==> merge_all(s).len() > 0 && exists|g: int|
            0 <= g < s.len() && merge_all(s).last().lower == #[trigger] s[g].lower,
    decreases s.len(),
{
    if s.len() > 0 {
        let d = s.drop_last();
        let cur = s.last();
        assert(sorted_by_lower(d)) by {
            assert forall|i: int, j: int| 0 <= i < j < d.len() implies lower_key_order(
                #[trigger] d[i].lower,
                #[trigger] d[j].lower,
            ) != Order::Greater by {
                assert(d[i] == s[i] && d[j] == s[j]);
            }
        }
        assert(all_proper(d)) by {
            assert forall|i: int| 0 <= i < d.len() implies #[trigger] proper(d[i]) by {
                assert(d[i] == s[i]);
            }
        }
        lemma_merge_all(d, v);
        let r = merge_all(d);
        assert(proper(s[s.len() - 1]));
        if d.len() > 0 {
            let g = choose|g: int| 0 <= g < d.len() && r.last().lower == #[trigger] d[g].lower;
            assert(d[g] == s[g]);
            assert(lower_key_order(s[g].lower, s[s.len() - 1].lower) != Order::Greater);
            lemma_lower_covers(r.last().lower, cur.lower);
            if cur.lower is None {
                assert(r.last().lower is None);
            }
        }
        lemma_merge_step(v, r, cur);
        lemma_in_range_drop_last(v, s);
        let m = merge_step(r, cur);
        if m.last().lower == cur.lower {
            assert(m.last().lower == s[s.len() - 1].lower);
        } else {
            let g = choose|g: int| 0 <= g < d.len() && r.last().lower == #[trigger] d[g].lower;
            assert(d[g] == s[g]);
            assert(m.last().lower == s[g].lower);
        }
    }
}

/// A version lies in the union of two ranges exactly when it lies in one
/// of them, provided every interval of both is proper (an interval with
/// crossed bounds can cut short the one it is merged into).
pub proof fn law_range_union(a: Seq<IntervalSpec>, b: Seq<IntervalSpec>, v: VersionSpec)
    requires
        all_proper(a),
        all_proper(b),
    ensures
        in_range(v, range_join(a, b)) == (in_range(v, a) || in_range(v, b)),
{
    let s = a + b;
    let t = sort_by_lower(s);
    lemma_sort(s);
    assert(all_proper(s)) by {
        assert forall|i: int| 0 <= i < s.len() implies #[trigger] proper(s[i]) by {
            if i < a.len() {
                assert(s[i] == a[i]);
            } else {
                assert(s[i] == b[i - a.len()]);
            }
        }
    }
    assert(all_proper(t)) by {
        assert forall|i: int| 0 <= i < t.len() implies #[trigger] proper(t[i]) by {
            assert(t.contains(t[i]));
            let k = choose|k: int| 0 <= k < s.len() && s[k] == t[i];
            assert(proper(s[k]));
        }
    }
    lemma_merge_all(t, v);
    lemma_in_range_same_elements(v, t, s);
    lemma_in_range_concat(v, a, b);
}

/// An interval with crossed bounds holds no version.
pub proof fn law_crossed_holds_nothing(i: IntervalSpec, v: VersionSpec)
    requires
        crossed(i.lower, i.upper),
    ensures
        !in_interval(v, i),
{
    let (lv, li) = i.lower.unwrap();
    let (uv, ui) = i.upper.unwrap();
    law_precedence_transitive(v, lv, uv);
    law_precedence_antisymmetric(v, lv);
    law_precedence_antisymmetric(lv, uv);
    if in_interval(v, i) {
        law_precedence_transitive(lv, v, uv);
        law_precedence_antisymmetric(v, uv);
    }
}

/// An interval that `void` describes holds no version.
pub proof fn law_void_holds_nothing(i: IntervalSpec, v: VersionSpec)
    requires
        void(i),
    ensures
        !in_interval(v, i),
{
    if crossed(i.lower, i.upper) {
        law_crossed_holds_nothing(i, v);
    } else {
        match (i.lower, i.upper) {
            (Some((l, false)), Some((u, false))) => {
                law_precedence_antisymmetric(l, v);
                law_nothing_between(l, u, v);
            },
            (None, Some((u, false))) => {
                law_nothing_below_least(u, v);
            },
            (Some((l, false)), None) => {
                law_precedence_antisymmetric(l, v);
                law_nothing_above_greatest(l, v);
            },
            _ => {},
        }
    }
}

/// An interval whose bounds do not cross holds its inclusive bounds, and
/// one without bounds holds every version.
pub proof fn law_uncrossed_holds_bounds(i: IntervalSpec, v: VersionSpec)
    requires
        !crossed(i.lower, i.upper),
    ensures
        i.lower matches Some((l, true)) ==> in_interval(l, i),
        i.upper matches Some((u, true)) ==> in_interval(u, i),
        i.lower is None && i.upper is None ==> in_interval(v, i),
{
    if let Some((l, li)) = i.lower {
        crate::version_laws::law_precedence_reflexive(l);
        law_precedence_antisymmetric(l, l);
        if let Some((u, ui)) = i.upper {
            law_precedence_antisymmetric(l, u);
            crate::version_laws::law_precedence_reflexive(u);
        }
    }
    if let Some((u, ui)) = i.upper {
        crate::version_laws::law_precedence_reflexive(u);
    }
}

/// A version that an interval holds, where it holds any.
pub open spec fn interval_witness(i: IntervalSpec) -> VersionSpec {
    match (i.lower, i.upper) {
        (Some((l, true)), _) => l,
        (_, Some((u, true))) => u,
        (Some((l, false)), Some((u, false))) => between(l, u),
        (Some((l, false)), None) => greatest_version(),
        _ => least_version(),
    }
}

/// An interval that `void` does not describe holds a version.
pub proof fn law_not_void_holds_witness(i: IntervalSpec)
    requires
        !void(i),
    ensures
        in_interval(interval_witness(i), i),
{
    let w = interval_witness(i);
    law_uncrossed_holds_bounds(i, w);
    match (i.lower, i.upper) {
        (Some((l, false)), Some((u, false))) => {
            law_something_between(l, u);
            law_precedence_antisymmetric(l, w);
        },
        (None, Some((u, false))) => {
            law_something_below(u);
        },
        (Some((l, false)), None) => {
            law_something_above(l);
            law_precedence_antisymmetric(l, w);
        },
        _ => {},
    }
}

/// A range that `is_empty` reports empty holds no version.
pub proof fn law_empty_holds_nothing(r: Seq<IntervalSpec>, v: VersionSpec)
    requires
        all_void(r),
    ensures
        !in_range(v, r),
{
    if in_range(v, r) {
        let k = choose|k: int| 0 <= k < r.len() && #[trigger] in_interval(v, r[k]);
        law_void_holds_nothing(r[k], v);
    }
}

/// `is_empty` is exact: a range is reported empty exactly when no version
/// lies in it.
pub proof fn law_is_empty_exact(r: Seq<IntervalSpec>)
    ensures
        all_void(r) <==> !(exists|v: VersionSpec| in_range(v, r)),
{
    if all_void(r) {
        assert forall|v: VersionSpec| !in_range(v, r) by {
            law_empty_holds_nothing(r, v);
        }
    } else {
        let k = choose|k: int| 0 <= k < r.len() && !#[trigger] void(r[k]);
        law_not_void_holds_witness(r[k]);
        assert(in_interval(interval_witness(r[k]), r[k]));
        assert(in_range(interval_witness(r[k]), r));
    }
}

/// Interval `a` ends below where `b` starts (or at it, both bounds
/// exclusive), and `b`'s lower bound sorts after `a`'s.
pub open spec fn ends_before(a: IntervalSpec, b: IntervalSpec) -> bool {
    &&& match (a.upper, b.lower) {
        (Some((u, ui)), Some((l, li))) => precedence(u, l) == Order::Less || (precedence(u, l)
            == Order::Equal && !ui && !li),
        _ => false,
    }
    &&& lower_key_order(a.lower, b.lower) == Order::Less
}

/// Proper intervals, each ending before the next one starts.
pub open spec fn simplified(s: Seq<IntervalSpec>) -> bool {
    &&& all_proper(s)
    &&& forall|i: int, j: int|
        0 <= i && j == i + 1 && j < s.len() ==> ends_before(#[trigger] s[i], #[trigger] s[j])
}

/// A proper interval whose upper bound is raised stays proper.
proof fn lemma_widen_proper(last: IntervalSpec, cu: BoundSpec)
    requires
        proper(last),
    ensures
        proper(widen(last, cu)),
        widen(last, cu).lower == last.lower,
{
    if let (Some((lu, li)), Some((c, ci))) = (last.upper, cu) {
        if let Some((ll, lli)) = last.lower {
            lemma_order3(ll, lu, c);
        }
    }
}

/// One merge step keeps the intervals proper and apart.
proof fn lemma_merge_step_shape(r: Seq<IntervalSpec>, cur: IntervalSpec)
    requires
        simplified(r),
        proper(cur),
        r.len() > 0 ==> lower_key_order(r.last().lower, cur.lower) != Order::Greater,
    ensures
        simplified(merge_step(r, cur)),
        1 <= merge_step(r, cur).len() <= r.len() + 1,
{
    let m = merge_step(r, cur);
    if r.len() == 0 {
        assert(m == seq![cur]);
    } else {
        let last = r.last();
        let n = r.len() - 1;
        assert(proper(r[n]));
        let pushed = match (last.upper, cur.lower) {
            (Some((lu, li)), Some((cl, ci))) => match precedence(lu, cl) {
                Order::Less => true,
                Order::Equal => !(li || ci),
                Order::Greater => false,
            },
            _ => false,
        };
        if pushed {
            let (lu, li) = last.upper.unwrap();
            let (cl, ci) = cur.lower.unwrap();
            assert(m == r.push(cur));
            assert(ends_before(last, cur)) by {
                if let Some((ll, lli)) = last.lower {
                    lemma_order3(ll, lu, cl);
                }
            }
            assert forall|i: int| 0 <= i < m.len() implies #[trigger] proper(m[i]) by {
                if i < r.len() {
                    assert(m[i] == r[i]);
                }
            }
            assert forall|i: int, j: int|
                0 <= i && j == i + 1 && j < m.len() implies ends_before(
                #[trigger] m[i],
                #[trigger] m[j],
            ) by {
                assert(m[i] == r.push(cur)[i]);
                if j < r.len() {
                    assert(m[j] == r[j] && m[i] == r[i]);
                }
            }
        } else {
            let merged = m[n];
            assert(m == r.update(n, merged));
            assert(merged.lower == last.lower && proper(merged)) by {
                match (last.upper, cur.lower) {
                    (Some((lu, li)), Some((cl, ci))) => {
                        if precedence(lu, cl) == Order::Equal {
                            assert(merged == IntervalSpec { lower: last.lower, upper: cur.upper });
                            if let (Some((ll, lli)), Some((cu, cui))) = (last.lower, cur.upper) {
                                lemma_order3(ll, cl, cu);
                            }
                        } else {
                            lemma_widen_proper(last, cur.upper);
                        }
                    },
                    _ => {
                        lemma_widen_proper(last, cur.upper);
                    },
                }
            }
            assert forall|i: int| 0 <= i < m.len() implies #[trigger] proper(m[i]) by {
                if i < n {
                    assert(m[i] == r[i]);
                }
            }
            assert forall|i: int, j: int|
                0 <= i && j == i + 1 && j < m.len() implies ends_before(
                #[trigger] m[i],
                #[trigger] m[j],
            ) by {
                assert(m[i] == r[i]);
                if j < n {
                    assert(m[j] == r[j]);
                } else {
                    assert(ends_before(r[i], r[j]));
                    assert(m[j].lower == r[j].lower);
                }
            }
        }
    }
}

proof fn lemma_merge_all_shape(s: Seq<IntervalSpec>)
    requires
        sorted_by_lower(s),
        all_proper(s),
    ensures
        simplified(merge_all(s)),
        merge_all(s).len() <= s.len(),
        merge_all(s).len() == 0 <==> s.len() == 0,
    decreases s.len(),
{
    if s.len() > 0 {
        let d = s.drop_last();
        assert(sorted_by_lower(d)) by {
            assert forall|i: int, j: int| 0 <= i < j < d.len() implies lower_key_order(
                #[trigger] d[i].lower,
                #[trigger] d[j].lower,
            ) != Order::Greater by {
                assert(d[i] == s[i] && d[j] == s[j]);
            }
        }
        assert(all_proper(d)) by {
            assert forall|i: int| 0 <= i < d.len() implies #[trigger] proper(d[i]) by {
                assert(d[i] == s[i]);
            }
        }
        lemma_merge_all_shape(d);
        let r = merge_all(d);
        assert(proper(s[s.len() - 1]));
        if d.len() > 0 {
            lemma_merge_all(d, crate::version::plain(0, 0, 0));
            let g = choose|g: int| 0 <= g < d.len() && r.last().lower == #[trigger] d[g].lower;
            assert(d[g] == s[g]);
            assert(lower_key_order(s[g].lower, s[s.len() - 1].lower) != Order::Greater);
        }
        lemma_merge_step_shape(r, s.last());
    }
}

/// Sorting and merging proper intervals, as a union does, gives proper
/// intervals in order of their lower bounds, each ending before the next
/// one starts, no more of them than were given, and none only when none
/// were given.
pub proof fn law_simplified(s: Seq<IntervalSpec>)
    requires
        all_proper(s),
    ensures
        simplified(merge_all(sort_by_lower(s))),
        merge_all(sort_by_lower(s)).len() <= s.len(),
        merge_all(sort_by_lower(s)).len() == 0 <==> s.len() == 0,
{
    let t = sort_by_lower(s);
    lemma_sort(s);
    assert(all_proper(t)) by {
        assert forall|i: int| 0 <= i < t.len() implies #[trigger] proper(t[i]) by {
            assert(t.contains(t[i]));
            let k = choose|k: int| 0 <= k < s.len() && s[k] == t[i];
            assert(proper(s[k]));
        }
    }
    lemma_merge_all_shape(t);
}

proof fn lemma_concat_proper(a: Seq<IntervalSpec>, b: Seq<IntervalSpec>)
    requires
        all_proper(a),
        all_proper(b),
    ensures
        all_proper(a + b),
{
    assert forall|i: int| 0 <= i < (a + b).len() implies #[trigger] proper((a + b)[i]) by {
        if i < a.len() {
            assert((a + b)[i] == a[i]);
        } else {
            assert((a + b)[i] == b[i - a.len()]);
        }
    }
}

proof fn lemma_meet_row_proper(x: IntervalSpec, b: Seq<IntervalSpec>)
    ensures
        all_proper(meet_row(x, b)),
    decreases b.len(),
{
    if b.len() > 0 {
        lemma_meet_row_proper(x, b.drop_last());
        let o = opt_seq(interval_meet(x, b.last()));
        assert(all_proper(o)) by {
            if let Some(i) = interval_meet(x, b.last()) {
                assert(o[0] == i);
            }
        }
        lemma_concat_proper(meet_row(x, b.drop_last()), o);
    }
}

/// The intervals of an intersection are proper.
pub proof fn lemma_range_meet_proper(a: Seq<IntervalSpec>, b: Seq<IntervalSpec>)
    ensures
        all_proper(range_meet(a, b)),
    decreases a.len(),
{
    if a.len() > 0 {
        lemma_range_meet_proper(a.drop_last(), b);
        lemma_meet_row_proper(a.last(), b);
        lemma_concat_proper(range_meet(a.drop_last(), b), meet_row(a.last(), b));
    }
}

/// The union of ranges of proper intervals has proper intervals.
pub proof fn lemma_range_join_proper(a: Seq<IntervalSpec>, b: Seq<IntervalSpec>)
    requires
        all_proper(a),
        all_proper(b),
    ensures
        all_proper(range_join(a, b)),
{
    lemma_concat_proper(a, b);
    law_simplified(a + b);
}

/// The text of an interval: `>=` or `>` and the lower version, ` AND `,
/// `<=` or `<` and the upper version, each part only where there is that
/// bound, and `*` where there is neither; a range joins the texts of its
/// intervals with ` OR `, and an empty one reads `(none)`.
pub proof fn law_interval_text(l: VersionSpec, li: bool, u: VersionSpec, ui: bool, r: Seq<IntervalSpec>)
    ensures
        interval_text(IntervalSpec { lower: Some((l, li)), upper: Some((u, ui)) }) == (if li {
            ">="@
        } else {
            ">"@
        }) + version_text(l) + " AND "@ + (if ui {
            "<="@
        } else {
            "<"@
        }) + version_text(u),
        interval_text(IntervalSpec { lower: Some((l, li)), upper: None }) == (if li {
            ">="@
        } else {
            ">"@
        }) + version_text(l),
        interval_text(IntervalSpec { lower: None, upper: Some((u, ui)) }) == (if ui {
            "<="@
        } else {
            "<"@
        }) + version_text(u),
        interval_text(IntervalSpec { lower: None, upper: None }) == "*"@,
        range_text(Seq::<IntervalSpec>::empty()) == "(none)"@,
        r.len() == 1 ==> range_text(r) == interval_text(r[0]),
        r.len() == 2 ==> range_text(r) == interval_text(r[0]) + " OR "@ + interval_text(r[1]),
{
    if r.len() == 1 {
        let t = r.map_values(|i: IntervalSpec| interval_text(i));
        assert(t =~= seq![interval_text(r[0])]);
    }
    if r.len() == 2 {
        let t = r.map_values(|i: IntervalSpec| interval_text(i));
        assert(t =~= seq![interval_text(r[0]), interval_text(r[1])]);
        assert(t.drop_last() =~= seq![interval_text(r[0])]);
        assert(join_with(t.drop_last(), " OR "@) == interval_text(r[0]));
        assert(t.last() == interval_text(r[1]));
        assert(join_with(t, " OR "@) == join_with(t.drop_last(), " OR "@) + " OR "@ + t.last());
    }
}

} // verus!
