//! Sorting versions and picking the latest or lowest one, by precedence.

use crate::version::{precedence, Order, Version, VersionSpec};
use crate::version_laws::{law_precedence_antisymmetric, law_precedence_transitive};
use vstd::prelude::*;

verus! {

broadcast use vstd::seq_lib::group_to_multiset_ensures;

/// The mathematical values of versions.
pub open spec fn versions_view(s: Seq<Version>) -> Seq<VersionSpec> {
    s.map_values(|v: Version| v@)
}

/// No version comes after one of lower precedence.
pub open spec fn sorted_by_precedence(s: Seq<VersionSpec>) -> bool {
    forall|i: int, j: int|
        0 <= i < j < s.len() ==> precedence(#[trigger] s[i], #[trigger] s[j]) != Order::Greater
}

/// `x` inserted into `s` after every version that does not come after it.
pub open spec fn insert_by_precedence(s: Seq<VersionSpec>, x: VersionSpec) -> Seq<VersionSpec>
    decreases s.len(),
{
    if s.len() == 0 {
        seq![x]
    } else if precedence(s.last(), x) == Order::Greater {
        insert_by_precedence(s.drop_last(), x).push(s.last())
    } else {
        s.push(x)
    }
}

/// The versions stably sorted by precedence: ascending, and versions of
/// equal precedence in the order they were given (as `slice::sort` does).
pub open spec fn sort_by_precedence(s: Seq<VersionSpec>) -> Seq<VersionSpec>
    decreases s.len(),
{
    if s.len() == 0 {
        seq![]
    } else {
        insert_by_precedence(sort_by_precedence(s.drop_last()), s.last())
    }
}

proof fn lemma_insert_at(s: Seq<VersionSpec>, x: VersionSpec, j: int)
    requires
        0 <= j <= s.len(),
        forall|k: int| j <= k < s.len() ==> precedence(#[trigger] s[k], x) == Order::Greater,
        j > 0 ==> precedence(s[j - 1], x) != Order::Greater,
    ensures
        insert_by_precedence(s, x) == s.subrange(0, j).push(x) + s.subrange(j, s.len() as int),
    decreases s.len(),
{
    if s.len() == j {
        assert(s.subrange(0, j) =~= s);
        assert(s.subrange(j, s.len() as int) =~= Seq::<VersionSpec>::empty());
        assert(s.subrange(0, j).push(x) + s.subrange(j, s.len() as int) =~= s.push(x));
    } else {
        let t = s.drop_last();
        lemma_insert_at(t, x, j);
        assert(s.subrange(0, j) =~= t.subrange(0, j));
        assert(s.subrange(j, s.len() as int) =~= t.subrange(j, t.len() as int).push(s.last()));
        assert(t.subrange(0, j).push(x) + t.subrange(j, t.len() as int).push(s.last()) =~= (
        t.subrange(0, j).push(x) + t.subrange(j, t.len() as int)).push(s.last()));
    }
}

/// Two comparisons that are not `Greater` chain to one that is not.
proof fn lemma_not_greater_chain(a: VersionSpec, b: VersionSpec, c: VersionSpec)
    requires
        precedence(a, b) != Order::Greater,
        precedence(b, c) != Order::Greater,
    ensures
        precedence(a, c) != Order::Greater,
{
    law_precedence_transitive(a, b, c);
}

/// Where `x` goes in a sorted sequence: after the versions not above it.
proof fn lemma_insert_sorted(s: Seq<VersionSpec>, x: VersionSpec)
    requires
        sorted_by_precedence(s),
    ensures
        sorted_by_precedence(insert_by_precedence(s, x)),
        insert_by_precedence(s, x).to_multiset() == s.to_multiset().insert(x),
        insert_by_precedence(s, x).len() == s.len() + 1,
    decreases s.len(),
{
    if s.len() == 0 {
        assert(seq![x] =~= Seq::<VersionSpec>::empty().push(x));
    } else if precedence(s.last(), x) == Order::Greater {
        let t = s.drop_last();
        lemma_insert_sorted(t, x);
        let r = insert_by_precedence(t, x);
        let q = r.push(s.last());
        assert forall|i: int, j: int| 0 <= i < j < q.len() implies precedence(
            #[trigger] q[i],
            #[trigger] q[j],
        ) != Order::Greater by {
            if j == q.len() - 1 {
                // q[i] is an element of t or x; both are not above s.last()
                assert(r.to_multiset().count(q[i]) > 0);
                assert(r.to_multiset() == t.to_multiset().insert(x));
                if q[i] == x {
                    law_precedence_antisymmetric(s.last(), x);
                } else {
                    assert(t.to_multiset().count(q[i]) > 0);
                    let k = choose|k: int| 0 <= k < t.len() && t[k] == q[i];
                    assert(s[k] == t[k]);
                    assert(precedence(s[k], s[s.len() - 1]) != Order::Greater);
                }
            } else {
                assert(q[i] == r[i] && q[j] == r[j]);
            }
        }
        assert(t.push(s.last()) =~= s);
    } else {
        let q = s.push(x);
        assert forall|i: int, j: int| 0 <= i < j < q.len() implies precedence(
            #[trigger] q[i],
            #[trigger] q[j],
        ) != Order::Greater by {
            if j == q.len() - 1 {
                if i < s.len() - 1 {
                    assert(precedence(s[i], s[s.len() - 1]) != Order::Greater);
                    lemma_not_greater_chain(s[i], s.last(), x);
                }
            } else {
                assert(q[i] == s[i] && q[j] == s[j]);
            }
        }
    }
}

/// The stable sort by precedence is sorted and holds the same versions.
pub proof fn lemma_sort_by_precedence(s: Seq<VersionSpec>)
    ensures
        sorted_by_precedence(sort_by_precedence(s)),
        sort_by_precedence(s).to_multiset() == s.to_multiset(),
        sort_by_precedence(s).len() == s.len(),
    decreases s.len(),
{
    if s.len() > 0 {
        lemma_sort_by_precedence(s.drop_last());
        lemma_insert_sorted(sort_by_precedence(s.drop_last()), s.last());
        assert(s.drop_last().push(s.last()) =~= s);
    }
}

/// Sort versions in ascending order of precedence; versions of equal
/// precedence keep their order (a stable sort, as `slice::sort` is).
pub fn sort_versions(versions: &mut Vec<Version>)
    ensures
        versions_view(final(versions)@) == sort_by_precedence(versions_view(old(versions)@)),
        sorted_by_precedence(versions_view(final(versions)@)),
        versions_view(final(versions)@).to_multiset() == versions_view(old(versions)@).to_multiset(),
{
    let ghost v = versions_view(versions@);
    let mut result: Vec<Version> = Vec::new();
    let mut i: usize = 0;
    assert(v.subrange(0, 0) =~= Seq::<VersionSpec>::empty());
    assert(versions_view(result@) =~= sort_by_precedence(v.subrange(0, 0)));
    while i < versions.len()
        invariant
            v == versions_view(versions@),
            0 <= i <= versions.len(),
            versions_view(result@) == sort_by_precedence(v.subrange(0, i as int)),
        decreases versions.len() - i,
    {
        let x = versions[i].duplicate();
        let ghost rv = versions_view(result@);
        let mut j: usize = result.len();
        while j > 0 && result[j - 1].precedence_to(&x) == Order::Greater
            invariant
                0 <= j <= result.len(),
                rv == versions_view(result@),
                forall|k: int| j <= k < rv.len() ==> precedence(#[trigger] rv[k], x@) == Order::Greater,
            decreases j,
        {
            assert(rv[j - 1] == result@[j - 1]@);
            j = j - 1;
        }
        proof {
            if j > 0 {
                assert(rv[j - 1] == result@[j - 1]@);
            }
            lemma_insert_at(rv, x@, j as int);
        }
        result.insert(j, x);
        assert(versions_view(result@) =~= rv.subrange(0, j as int).push(x@) + rv.subrange(
            j as int,
            rv.len() as int,
        ));
        assert(v.subrange(0, i + 1).drop_last() =~= v.subrange(0, i as int));
        assert(v.subrange(0, i + 1).last() == x@);
        i = i + 1;
    }
    assert(v.subrange(0, i as int) =~= v);
    *versions = result;
    proof {
        lemma_sort_by_precedence(v);
    }
}

/// The position of the latest version: one of highest precedence, the last
/// such one (as `Iterator::max` picks); `None` for no versions.
pub fn latest(versions: &[Version]) -> (r: Option<usize>)
    ensures
        match r {
            None => versions.len() == 0,
            Some(i) => i < versions.len() && (forall|j: int|
                0 <= j < i ==> precedence(#[trigger] versions@[j]@, versions@[i as int]@)
                    != Order::Greater) && (forall|j: int|
                i < j < versions.len() ==> precedence(#[trigger] versions@[j]@, versions@[i as int]@)
                    == Order::Less),
        },
{
    if versions.len() == 0 {
        return None;
    }
    let mut best: usize = 0;
    let mut k: usize = 1;
    while k < versions.len()
        invariant
            1 <= k <= versions.len(),
            best < k,
            forall|j: int|
                0 <= j < best ==> precedence(#[trigger] versions@[j]@, versions@[best as int]@)
                    != Order::Greater,
            forall|j: int|
                best < j < k ==> precedence(#[trigger] versions@[j]@, versions@[best as int]@)
                    == Order::Less,
        decreases versions.len() - k,
    {
        let o = versions[k].precedence_to(&versions[best]);
        if o != Order::Less {
            let ghost old_best = best as int;
            proof {
                law_precedence_antisymmetric(versions@[k as int]@, versions@[old_best]@);
                assert forall|j: int| 0 <= j < k implies precedence(
                    #[trigger] versions@[j]@,
                    versions@[k as int]@,
                ) != Order::Greater by {
                    if j != old_best {
                        law_precedence_transitive(
                            versions@[j]@,
                            versions@[old_best]@,
                            versions@[k as int]@,
                        );
                    }
                }
            }
            best = k;
        }
        k = k + 1;
    }
    Some(best)
}

/// The position of the lowest version: one of lowest precedence, the first
/// such one (as `Iterator::min` picks); `None` for no versions.
pub fn lowest(versions: &[Version]) -> (r: Option<usize>)
    ensures
        match r {
            None => versions.len() == 0,
            Some(i) => i < versions.len() && (forall|j: int|
                0 <= j < i ==> precedence(#[trigger] versions@[j]@, versions@[i as int]@)
                    == Order::Greater) && (forall|j: int|
                i < j < versions.len() ==> precedence(#[trigger] versions@[j]@, versions@[i as int]@)
                    != Order::Less),
        },
{
    if versions.len() == 0 {
        return None;
    }
    let mut best: usize = 0;
    let mut k: usize = 1;
    while k < versions.len()
        invariant
            1 <= k <= versions.len(),
            best < k,
            forall|j: int|
                0 <= j < best ==> precedence(#[trigger] versions@[j]@, versions@[best as int]@)
                    == Order::Greater,
            forall|j: int|
                best < j < k ==> precedence(#[trigger] versions@[j]@, versions@[best as int]@)
                    != Order::Less,
        decreases versions.len() - k,
    {
        let o = versions[k].precedence_to(&versions[best]);
        if o == Order::Less {
            let ghost old_best = best as int;
            proof {
                law_precedence_antisymmetric(versions@[k as int]@, versions@[old_best]@);
                assert forall|j: int| 0 <= j < k implies precedence(
                    #[trigger] versions@[j]@,
                    versions@[k as int]@,
                ) == Order::Greater by {
                    if j != old_best {
                        law_precedence_transitive(
                            versions@[j]@,
                            versions@[old_best]@,
                            versions@[k as int]@,
                        );
                        law_precedence_antisymmetric(versions@[j]@, versions@[old_best]@);
                        law_precedence_antisymmetric(versions@[j]@, versions@[k as int]@);
                    }
                }
            }
            best = k;
        }
        k = k + 1;
    }
    Some(best)
}

} // verus!
