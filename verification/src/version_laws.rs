//! Laws of version precedence: it is a total preorder that ignores build
//! metadata, and it agrees with `==` on canonical versions.

use crate::text::{
    all_digits, all_ident_chars, decimal, digit_char, digit_val, digits_value, is_digit,
    is_ident_char, is_ws, lemma_decimal, lemma_find_char, lemma_find_char_is, lemma_find_char_none,
    lemma_split_char_concat, lemma_split_char_none, lemma_trim_unchanged, parse_u64, split_char,
    trim, find_char,
};
use crate::version::{
    before_plus, build_part, bumped_pre, core_part, core_text, first_failure_from, ident_order,
    join_ids, lex_order, numeric_order, parse_numeric, parse_version, plain, pre_order, pre_part,
    precedence, reversed, same_precedence_fields, strip_zeros, version_text, Order, ParseFailure,
    VersionSpec, all_zeros, pre_next, next_core, version_next, is_least, is_greatest,
};
use vstd::prelude::*;

verus! {

/// How three outcomes of comparing `a` with `b`, `b` with `c` and `a` with
/// `c` fit together in a total preorder.
pub open spec fn chains(ab: Order, bc: Order, ac: Order) -> bool {
    &&& ab == Order::Equal ==> ac == bc
    &&& bc == Order::Equal ==> ac == ab
    &&& ab == bc ==> ac == ab
}

pub(crate) proof fn lemma_lex_reverse(a: Seq<char>, b: Seq<char>)
    ensures
        lex_order(b, a) == reversed(lex_order(a, b)),
    decreases a.len(),
{
    if a.len() > 0 && b.len() > 0 && a[0] == b[0] {
        lemma_lex_reverse(a.drop_first(), b.drop_first());
    }
}

pub(crate) proof fn lemma_lex_chain(a: Seq<char>, b: Seq<char>, c: Seq<char>)
    ensures
        chains(lex_order(a, b), lex_order(b, c), lex_order(a, c)),
    decreases a.len(),
{
    if a.len() > 0 && b.len() > 0 && c.len() > 0 {
        lemma_lex_chain(a.drop_first(), b.drop_first(), c.drop_first());
    }
}

pub(crate) proof fn lemma_lex_equal(a: Seq<char>, b: Seq<char>)
    ensures
        lex_order(a, b) == Order::Equal <==> a == b,
    decreases a.len(),
{
    if a.len() > 0 && b.len() > 0 {
        lemma_lex_equal(a.drop_first(), b.drop_first());
        if a[0] == b[0] && a.drop_first() == b.drop_first() {
            assert(a =~= seq![a[0]] + a.drop_first());
            assert(b =~= seq![b[0]] + b.drop_first());
        }
        if a == b {
            assert(a.drop_first() == b.drop_first());
        }
    } else if a.len() == 0 && b.len() == 0 {
        assert(a =~= b);
    }
}

proof fn lemma_ident_reverse(a: Seq<char>, b: Seq<char>)
    ensures
        ident_order(b, a) == reversed(ident_order(a, b)),
{
    lemma_lex_reverse(a, b);
    lemma_lex_reverse(strip_zeros(a), strip_zeros(b));
}

proof fn lemma_ident_chain(a: Seq<char>, b: Seq<char>, c: Seq<char>)
    ensures
        chains(ident_order(a, b), ident_order(b, c), ident_order(a, c)),
{
    lemma_lex_chain(a, b, c);
    let (x, y, z) = (strip_zeros(a), strip_zeros(b), strip_zeros(c));
    lemma_lex_chain(x, y, z);
    lemma_lex_equal(x, y);
    lemma_lex_equal(y, z);
    lemma_lex_equal(x, z);
}

proof fn lemma_pre_reverse(a: Seq<Seq<char>>, b: Seq<Seq<char>>)
    ensures
        pre_order(b, a) == reversed(pre_order(a, b)),
    decreases a.len(),
{
    if a.len() > 0 && b.len() > 0 {
        lemma_ident_reverse(a[0], b[0]);
        lemma_pre_reverse(a.drop_first(), b.drop_first());
    }
}

proof fn lemma_pre_chain(a: Seq<Seq<char>>, b: Seq<Seq<char>>, c: Seq<Seq<char>>)
    ensures
        chains(pre_order(a, b), pre_order(b, c), pre_order(a, c)),
    decreases a.len(),
{
    if a.len() > 0 && b.len() > 0 && c.len() > 0 {
        lemma_ident_chain(a[0], b[0], c[0]);
        lemma_pre_chain(a.drop_first(), b.drop_first(), c.drop_first());
    }
}

proof fn lemma_ident_reflexive(a: Seq<char>)
    ensures
        ident_order(a, a) == Order::Equal,
{
    lemma_lex_equal(a, a);
    lemma_lex_equal(strip_zeros(a), strip_zeros(a));
}

proof fn lemma_pre_reflexive(a: Seq<Seq<char>>)
    ensures
        pre_order(a, a) == Order::Equal,
    decreases a.len(),
{
    if a.len() > 0 {
        lemma_ident_reflexive(a[0]);
        lemma_pre_reflexive(a.drop_first());
    }
}

/// Swapping the two versions reverses the outcome of a comparison.
pub proof fn law_precedence_antisymmetric(a: VersionSpec, b: VersionSpec)
    ensures
        precedence(b, a) == reversed(precedence(a, b)),
{
    lemma_pre_reverse(a.pre, b.pre);
}

/// Precedence is transitive: outcomes of comparing `a` with `b` and `b`
/// with `c` determine, where a total preorder does, the outcome of
/// comparing `a` with `c`.
pub proof fn law_precedence_transitive(a: VersionSpec, b: VersionSpec, c: VersionSpec)
    ensures
        chains(precedence(a, b), precedence(b, c), precedence(a, c)),
{
    lemma_pre_chain(a.pre, b.pre, c.pre);
}

/// Every version has the same precedence as itself.
pub proof fn law_precedence_reflexive(a: VersionSpec)
    ensures
        precedence(a, a) == Order::Equal,
{
    lemma_pre_reflexive(a.pre);
}

/// Build metadata takes no part in precedence: two versions that differ
/// only in it compare equal, and `==` holds between them.
pub proof fn law_build_ignored(a: VersionSpec, build: Seq<Seq<char>>)
    ensures
        precedence(a, VersionSpec { build, ..a }) == Order::Equal,
        same_precedence_fields(a, VersionSpec { build, ..a }),
{
    lemma_pre_reflexive(a.pre);
}

/// Versions that are `==` compare equal.
pub proof fn law_eq_implies_equal_precedence(a: VersionSpec, b: VersionSpec)
    requires
        same_precedence_fields(a, b),
    ensures
        precedence(a, b) == Order::Equal,
{
    lemma_pre_reflexive(a.pre);
}

/// A pre-release identifier that is written the one way its precedence
/// allows: a numeric one is non-empty and has no leading zero.
pub open spec fn canonical_ident(s: Seq<char>) -> bool {
    all_digits(s) ==> s.len() > 0 && (s.len() == 1 || s[0] != '0')
}

/// All pre-release identifiers are canonical.
pub open spec fn canonical_pre(ids: Seq<Seq<char>>) -> bool {
    forall|i: int| 0 <= i < ids.len() ==> #[trigger] canonical_ident(ids[i])
}

proof fn lemma_digit_roundtrip(c: char)
    requires
        is_digit(c),
    ensures
        digit_char(digit_val(c)) == c,
        digit_val(c) < 10,
{
}

proof fn lemma_canonical_digits(s: Seq<char>)
    requires
        all_digits(s),
        s.len() > 0,
        s.len() == 1 || s[0] != '0',
    ensures
        s == decimal(digits_value(s)),
        digits_value(s) >= 1 || s.len() == 1,
        s.len() > 1 ==> digits_value(s) >= 10,
    decreases s.len(),
{
    let d = s.last();
    assert(is_digit(s[s.len() - 1]));
    lemma_digit_roundtrip(d);
    if s.len() == 1 {
        assert(s.drop_last() =~= Seq::<char>::empty());
        assert(digits_value(Seq::<char>::empty()) == 0);
        assert(digits_value(s) == digit_val(d));
        assert(s =~= seq![d]);
    } else {
        let p = s.drop_last();
        assert(all_digits(p)) by {
            assert forall|i: int| 0 <= i < p.len() implies #[trigger] is_digit(p[i]) by {
                assert(p[i] == s[i]);
            }
        }
        assert(p[0] == s[0]);
        if p.len() == 1 {
            assert(is_digit(p[0]));
            assert(p.drop_last() =~= Seq::<char>::empty());
            assert(digits_value(Seq::<char>::empty()) == 0);
            assert(digits_value(p) == digit_val(p[0]));
        }
        lemma_canonical_digits(p);
        let v = digits_value(s);
        assert(v == 10 * digits_value(p) + digit_val(d));
        assert(v / 10 == digits_value(p));
        assert(v % 10 == digit_val(d));
        assert(decimal(v) == decimal(v / 10).push(digit_char(v % 10)));
        assert(s =~= p.push(d));
    }
}

proof fn lemma_ident_equal(a: Seq<char>, b: Seq<char>)
    requires
        canonical_ident(a),
        canonical_ident(b),
        ident_order(a, b) == Order::Equal,
    ensures
        a == b,
{
    lemma_lex_equal(a, b);
    if all_digits(a) && all_digits(b) {
        let (x, y) = (strip_zeros(a), strip_zeros(b));
        lemma_lex_equal(x, y);
        assert(x == y);
        if a[0] == '0' {
            assert(a =~= seq!['0']);
            assert(a.drop_first() =~= Seq::<char>::empty());
            assert(strip_zeros(a.drop_first()) == a.drop_first());
            assert(x.len() == 0);
        } else {
            assert(x == a);
        }
        if b[0] == '0' {
            assert(b =~= seq!['0']);
            assert(b.drop_first() =~= Seq::<char>::empty());
            assert(strip_zeros(b.drop_first()) == b.drop_first());
            assert(y.len() == 0);
        } else {
            assert(y == b);
        }

    }
}

proof fn lemma_pre_equal(a: Seq<Seq<char>>, b: Seq<Seq<char>>)
    requires
        canonical_pre(a),
        canonical_pre(b),
        pre_order(a, b) == Order::Equal,
    ensures
        a == b,
    decreases a.len(),
{
    if a.len() == 0 {
        assert(a =~= b);
    } else {
        assert(canonical_ident(a[0]) && canonical_ident(b[0]));
        lemma_ident_equal(a[0], b[0]);
        assert(canonical_pre(a.drop_first())) by {
            assert forall|i: int| 0 <= i < a.drop_first().len() implies #[trigger] canonical_ident(
                a.drop_first()[i],
            ) by {
                assert(a.drop_first()[i] == a[i + 1]);
            }
        }
        assert(canonical_pre(b.drop_first())) by {
            assert forall|i: int| 0 <= i < b.drop_first().len() implies #[trigger] canonical_ident(
                b.drop_first()[i],
            ) by {
                assert(b.drop_first()[i] == b[i + 1]);
            }
        }
        lemma_pre_equal(a.drop_first(), b.drop_first());
        assert(a =~= seq![a[0]] + a.drop_first());
        assert(b =~= seq![b[0]] + b.drop_first());
    }
}

/// Versions with canonical pre-release identifiers that compare equal are
/// `==`; so on them `==` and precedence agree. (Without the canonical form
/// they need not: `1.0.0-01` and `1.0.0-1` compare equal but are not `==`.)
pub proof fn law_equal_precedence_implies_eq(a: VersionSpec, b: VersionSpec)
    requires
        canonical_pre(a.pre),
        canonical_pre(b.pre),
        precedence(a, b) == Order::Equal,
    ensures
        same_precedence_fields(a, b),
{
    if a.pre.len() > 0 && b.pre.len() > 0 {
        lemma_pre_equal(a.pre, b.pre);
    } else {
        assert(a.pre =~= b.pre);
    }
}

// ---------------------------------------------------------------------------
// Parsing and display
// ---------------------------------------------------------------------------

/// A version whose identifiers all pass the checks of `Version::parse`.
pub open spec fn valid_version(v: VersionSpec) -> bool {
    &&& first_failure_from(v.pre, 0, true) is None
    &&& first_failure_from(v.build, 0, false) is None
}

proof fn lemma_no_failure_from(ids: Seq<Seq<char>>, i: int, pre: bool)
    requires
        0 <= i,
        first_failure_from(ids, i, pre) is None,
    ensures
        forall|j: int|
            i <= j < ids.len() ==> #[trigger] ids[j].len() > 0 && all_ident_chars(ids[j]),
    decreases ids.len() - i,
{
    if i < ids.len() {
        lemma_no_failure_from(ids, i + 1, pre);
    }
}

/// The characters a joined identifier list is made of.
spec fn joinable(s: Seq<char>) -> bool {
    forall|i: int| 0 <= i < s.len() ==> is_ident_char(#[trigger] s[i]) || s[i] == '.'
}

proof fn lemma_join_ids(ids: Seq<Seq<char>>)
    requires
        ids.len() > 0,
        forall|j: int| 0 <= j < ids.len() ==> #[trigger] ids[j].len() > 0 && all_ident_chars(ids[j]),
    ensures
        joinable(join_ids(ids)),
        join_ids(ids).len() > 0,
        is_ident_char(join_ids(ids).last()),
        is_ident_char(join_ids(ids)[0]),
        split_char(join_ids(ids), '.') == ids,
    decreases ids.len(),
{
    let l = ids.last();
    assert(ids[ids.len() - 1].len() > 0 && all_ident_chars(ids[ids.len() - 1]));
    assert(is_ident_char(l[l.len() - 1]));
    assert(is_ident_char(l[0]));
    assert forall|i: int| 0 <= i < l.len() implies l[i] != '.' by {
        assert(is_ident_char(l[i]));
    }
    lemma_split_char_none(l, '.');
    if ids.len() == 1 {
        assert(ids =~= seq![l]);
    } else {
        let p = ids.drop_last();
        assert forall|j: int| 0 <= j < p.len() implies #[trigger] p[j].len() > 0 && all_ident_chars(
            p[j],
        ) by {
            assert(p[j] == ids[j]);
        }
        lemma_join_ids(p);
        let jp = join_ids(p);
        let s = jp + seq!['.'] + l;
        assert(join_ids(ids) == s);
        lemma_split_char_concat(jp, l, '.');
        assert(p + seq![l] =~= ids);
        assert forall|i: int| 0 <= i < s.len() implies is_ident_char(#[trigger] s[i]) || s[i]
            == '.' by {
            if i < jp.len() {
                assert(s[i] == jp[i]);
            } else if i > jp.len() {
                assert(s[i] == l[i - jp.len() - 1]);
                assert(is_ident_char(l[i - jp.len() - 1]));
            }
        }
        assert(s[0] == jp[0]);
        assert(s.last() == l.last());
    }
}

proof fn lemma_parse_decimal(n: u64, field: Seq<char>)
    ensures
        parse_numeric(decimal(n as nat), field) == Ok::<u64, ParseFailure>(n),
{
    lemma_decimal(n as nat);
}

proof fn lemma_core_split(v: VersionSpec)
    ensures
        split_char(core_text(v), '.') == seq![
            decimal(v.major as nat),
            decimal(v.minor as nat),
            decimal(v.patch as nat),
        ],
        forall|i: int| 0 <= i < core_text(v).len() ==> (crate::text::is_digit(#[trigger] core_text(v)[i])
            || core_text(v)[i] == '.'),
        core_text(v).len() > 0,
        crate::text::is_digit(core_text(v)[0]),
{
    let d1 = decimal(v.major as nat);
    let d2 = decimal(v.minor as nat);
    let d3 = decimal(v.patch as nat);
    lemma_decimal(v.major as nat);
    lemma_decimal(v.minor as nat);
    lemma_decimal(v.patch as nat);
    assert forall|i: int| 0 <= i < d1.len() implies d1[i] != '.' by {
        assert(crate::text::is_digit(d1[i]));
    }
    assert forall|i: int| 0 <= i < d2.len() implies d2[i] != '.' by {
        assert(crate::text::is_digit(d2[i]));
    }
    assert forall|i: int| 0 <= i < d3.len() implies d3[i] != '.' by {
        assert(crate::text::is_digit(d3[i]));
    }
    lemma_split_char_none(d1, '.');
    lemma_split_char_none(d2, '.');
    lemma_split_char_none(d3, '.');
    lemma_split_char_concat(d1, d2, '.');
    lemma_split_char_concat(d1 + seq!['.'] + d2, d3, '.');
    let c = core_text(v);
    assert(c == d1 + seq!['.'] + d2 + seq!['.'] + d3);
    assert forall|i: int| 0 <= i < c.len() implies (crate::text::is_digit(#[trigger] c[i]) || c[i]
        == '.') by {
        if i < d1.len() {
            assert(c[i] == d1[i]);
            assert(crate::text::is_digit(d1[i]));
        } else if i == d1.len() {
        } else if i < d1.len() + 1 + d2.len() {
            assert(c[i] == d2[i - d1.len() - 1]);
            assert(crate::text::is_digit(d2[i - d1.len() - 1]));
        } else if i == d1.len() + 1 + d2.len() {
        } else {
            assert(c[i] == d3[i - d1.len() - 2 - d2.len()]);
            assert(crate::text::is_digit(d3[i - d1.len() - 2 - d2.len()]));
        }
    }
    assert(c[0] == d1[0]);
    assert(crate::text::is_digit(d1[0]));
}

/// Displaying a valid version and parsing the text gives the version back,
/// build metadata included.
pub proof fn law_parse_display_roundtrip(v: VersionSpec)
    requires
        valid_version(v),
    ensures
        parse_version(version_text(v)) == Ok::<VersionSpec, ParseFailure>(v),
{
    lemma_no_failure_from(v.pre, 0, true);
    lemma_no_failure_from(v.build, 0, false);
    lemma_core_split(v);
    let a = core_text(v);
    let b: Seq<char> = if v.pre.len() > 0 {
        seq!['-'] + join_ids(v.pre)
    } else {
        seq![]
    };
    let c: Seq<char> = if v.build.len() > 0 {
        seq!['+'] + join_ids(v.build)
    } else {
        seq![]
    };
    let text = version_text(v);
    assert(text == a + b + c);
    if v.pre.len() > 0 {
        lemma_join_ids(v.pre);
    }
    if v.build.len() > 0 {
        lemma_join_ids(v.build);
    }
    // No white space at either end.
    assert(text[0] == a[0]);
    assert(!is_ws(text.last())) by {
        if v.build.len() > 0 {
            assert(text.last() == join_ids(v.build).last());
        } else if v.pre.len() > 0 {
            assert(text.last() == join_ids(v.pre).last());
        } else {
            assert(text.last() == a.last());
            assert(crate::text::is_digit(a[a.len() - 1]));
        }
    }
    lemma_trim_unchanged(text);
    assert(trim(text) == text);
    // The first `+` starts the build metadata.
    let ab = a + b;
    assert forall|i: int| 0 <= i < ab.len() implies ab[i] != '+' && (i < a.len() ==> ab[i] != '-') by {
        if i < a.len() {
            assert(ab[i] == a[i]);
        } else if i > a.len() {
            assert(ab[i] == join_ids(v.pre)[i - a.len() - 1]);
            assert(is_ident_char(join_ids(v.pre)[i - a.len() - 1]) || join_ids(v.pre)[i - a.len() - 1] == '.');
        }
    }
    if v.build.len() > 0 {
        assert(text[ab.len() as int] == '+');
        lemma_find_char_is(text, '+', ab.len() as int);
        assert(text.subrange(0, ab.len() as int) =~= ab);
        assert(text.subrange(ab.len() as int + 1, text.len() as int) =~= join_ids(v.build));
        assert(build_part(text) == v.build);
    } else {
        assert(text =~= ab);
        lemma_find_char_none(text, '+');
        assert(build_part(text) =~= v.build);
    }
    assert(before_plus(text) =~= ab);
    // The first `-` starts the pre-release identifiers.
    if v.pre.len() > 0 {
        assert(ab[a.len() as int] == '-');
        lemma_find_char_is(ab, '-', a.len() as int);
        assert(ab.subrange(0, a.len() as int) =~= a);
        assert(ab.subrange(a.len() as int + 1, ab.len() as int) =~= join_ids(v.pre));
        assert(pre_part(ab) == v.pre);
    } else {
        assert(ab =~= a);
        lemma_find_char_none(ab, '-');
        assert(pre_part(ab) =~= v.pre);
    }
    assert(core_part(ab) =~= a);
    lemma_parse_decimal(v.major, "major"@);
    lemma_parse_decimal(v.minor, "minor"@);
    lemma_parse_decimal(v.patch, "patch"@);
}

/// Whatever `Version::parse` accepts is a valid version, so the round trip
/// above applies to every parsed version.
pub proof fn law_parsed_versions_are_valid(s: Seq<char>)
    ensures
        parse_version(s) matches Ok(v) ==> valid_version(v),
{
}

/// Joining the dot-separated pieces of a text gives the text back.
proof fn lemma_join_split(s: Seq<char>)
    ensures
        join_ids(split_char(s, '.')) == s,
        split_char(s, '.').len() >= 1,
    decreases s.len(),
{
    if s.len() == 0 {
        assert(split_char(s, '.') =~= seq![Seq::<char>::empty()]);
        assert(s =~= Seq::<char>::empty());
    } else {
        let p = s.drop_last();
        let x = s.last();
        lemma_join_split(p);
        let r = split_char(p, '.');
        if x == '.' {
            let q = r.push(Seq::<char>::empty());
            assert(q.drop_last() =~= r);
            assert(join_ids(q) == join_ids(r) + seq!['.'] + Seq::<char>::empty());
            assert(s =~= p + seq!['.'] + Seq::<char>::empty());
        } else {
            let q = r.update(r.len() - 1, r.last().push(x));
            if r.len() == 1 {
                assert(join_ids(r) == r[0]);
                assert(join_ids(q) == q[0]);
                assert(s =~= p.push(x));
            } else {
                assert(q.drop_last() =~= r.drop_last());
                assert(join_ids(q) == join_ids(r.drop_last()) + seq!['.'] + r.last().push(x));
                assert(join_ids(r) == join_ids(r.drop_last()) + seq!['.'] + r.last());
                assert(s =~= p.push(x));
                assert(join_ids(q) =~= join_ids(r).push(x));
            }
        }
    }
}

/// A core field that `parse_numeric` accepts is the decimal text of its
/// value.
proof fn lemma_numeric_text(t: Seq<char>, field: Seq<char>)
    requires
        parse_numeric(t, field) is Ok,
    ensures
        parse_numeric(t, field) matches Ok(n) && t == decimal(n as nat),
{
    assert(is_digit(t[0]));
    lemma_canonical_digits(t);
}

/// A separator splits a text into what stands before it, the separator and
/// what follows.
proof fn lemma_cut(t: Seq<char>, p: int, c: char)
    requires
        0 <= p < t.len(),
        t[p] == c,
    ensures
        t == t.subrange(0, p) + seq![c] + t.subrange(p + 1, t.len() as int),
{
    assert(t =~= t.subrange(0, p) + seq![c] + t.subrange(p + 1, t.len() as int));
}

/// Whatever `Version::parse` accepts, the version displays as the trimmed
/// input: parsing keeps every character of it.
pub proof fn law_display_of_parsed(s: Seq<char>)
    ensures
        parse_version(s) matches Ok(v) ==> version_text(v) == trim(s),
{
    if let Ok(v) = parse_version(s) {
        let t = trim(s);
        let vp = before_plus(t);
        let core = core_part(vp);
        let parts = split_char(core, '.');
        lemma_join_split(core);
        lemma_numeric_text(parts[0], "major"@);
        lemma_numeric_text(parts[1], "minor"@);
        lemma_numeric_text(parts[2], "patch"@);
        let two = seq![parts[0], parts[1]];
        assert(parts =~= seq![parts[0], parts[1], parts[2]]);
        assert(parts.drop_last() =~= two);
        assert(two.drop_last() =~= seq![parts[0]]);
        assert(join_ids(seq![parts[0]]) == parts[0]);
        assert(two.last() == parts[1]);
        assert(join_ids(two) == join_ids(two.drop_last()) + seq!['.'] + two.last());
        assert(join_ids(two) == parts[0] + seq!['.'] + parts[1]);
        assert(core == join_ids(two) + seq!['.'] + parts[2]);
        assert(core == core_text(v));
        let b: Seq<char> = if v.pre.len() > 0 {
            seq!['-'] + join_ids(v.pre)
        } else {
            seq![]
        };
        let c: Seq<char> = if v.build.len() > 0 {
            seq!['+'] + join_ids(v.build)
        } else {
            seq![]
        };
        lemma_find_char(vp, '-');
        match find_char(vp, '-') {
            Some(p) => {
                let rest = vp.subrange(p + 1, vp.len() as int);
                lemma_join_split(rest);
                lemma_cut(vp, p, '-');
                assert(rest.len() > 0);
                assert(v.pre == split_char(rest, '.'));
                assert(vp == core + b);
            },
            None => {
                assert(v.pre =~= Seq::<Seq<char>>::empty());
                assert(vp =~= core + b);
            },
        }
        lemma_find_char(t, '+');
        match find_char(t, '+') {
            Some(p) => {
                let rest = t.subrange(p + 1, t.len() as int);
                lemma_join_split(rest);
                lemma_cut(t, p, '+');
                assert(rest.len() > 0);
                assert(v.build == split_char(rest, '.'));
                assert(t == vp + c);
            },
            None => {
                assert(v.build =~= Seq::<Seq<char>>::empty());
                assert(t =~= vp + c);
            },
        }
        assert(version_text(v) == core_text(v) + b + c);
        assert(t =~= core_text(v) + b + c);
    }
}

/// A character that SemVer 2.0.0 allows in an identifier: an ASCII letter
/// of either case, an ASCII digit, or `-`.
pub open spec fn semver_ident_char(c: char) -> bool {
    ||| ('0' <= c && c <= '9')
    ||| ('a' <= c && c <= 'z')
    ||| ('A' <= c && c <= 'Z')
    ||| c == '-'
}

/// A pre-release identifier that SemVer 2.0.0 allows: non-empty, made of
/// identifier characters, and not a number written with a leading zero.
pub open spec fn semver_pre_ident(id: Seq<char>) -> bool {
    &&& id.len() > 0
    &&& forall|i: int| 0 <= i < id.len() ==> semver_ident_char(#[trigger] id[i])
    &&& !(id.len() > 1 && id[0] == '0' && forall|i: int|
        0 <= i < id.len() ==> '0' <= #[trigger] id[i] && id[i] <= '9')
}

/// A build identifier that SemVer 2.0.0 allows: non-empty, made of
/// identifier characters.
pub open spec fn semver_build_ident(id: Seq<char>) -> bool {
    &&& id.len() > 0
    &&& forall|i: int| 0 <= i < id.len() ==> semver_ident_char(#[trigger] id[i])
}

proof fn lemma_allowed_ids_pass(ids: Seq<Seq<char>>, i: int, pre: bool)
    requires
        0 <= i,
        forall|k: int| 0 <= k < ids.len() ==> if pre {
            semver_pre_ident(#[trigger] ids[k])
        } else {
            semver_build_ident(ids[k])
        },
    ensures
        first_failure_from(ids, i, pre) is None,
    decreases ids.len() - i,
{
    if i < ids.len() {
        let id = ids[i];
        assert(all_ident_chars(id)) by {
            assert forall|j: int| 0 <= j < id.len() implies #[trigger] is_ident_char(id[j]) by {
                assert(semver_ident_char(id[j]));
            }
        }
        if pre {
            assert(semver_pre_ident(id));
            if all_digits(id) && id.len() > 1 && id[0] == '0' {
                assert forall|j: int| 0 <= j < id.len() implies '0' <= #[trigger] id[j] && id[j]
                    <= '9' by {
                    assert(is_digit(id[j]));
                }
            }
        } else {
            assert(semver_build_ident(id));
        }
        lemma_allowed_ids_pass(ids, i + 1, pre);
    }
}

/// Every version whose pre-release identifiers SemVer 2.0.0 allows (letters
/// of either case, digits and `-`, numbers without leading zero) and whose
/// build identifiers it allows is accepted by `Version::parse` from its
/// text, and read back unchanged.
pub proof fn law_allowed_versions_parse(v: VersionSpec)
    requires
        forall|k: int| 0 <= k < v.pre.len() ==> semver_pre_ident(#[trigger] v.pre[k]),
        forall|k: int| 0 <= k < v.build.len() ==> semver_build_ident(#[trigger] v.build[k]),
    ensures
        parse_version(version_text(v)) == Ok::<VersionSpec, ParseFailure>(v),
{
    lemma_allowed_ids_pass(v.pre, 0, true);
    lemma_allowed_ids_pass(v.build, 0, false);
    law_parse_display_roundtrip(v);
}

proof fn lemma_failure_free_ids(ids: Seq<Seq<char>>, i: int, pre: bool)
    requires
        0 <= i,
        first_failure_from(ids, i, pre) is None,
    ensures
        forall|k: int| i <= k < ids.len() ==> if pre {
            semver_pre_ident(#[trigger] ids[k])
        } else {
            semver_build_ident(ids[k])
        },
    decreases ids.len() - i,
{
    if i < ids.len() {
        lemma_failure_free_ids(ids, i + 1, pre);
        let id = ids[i];
        assert forall|j: int| 0 <= j < id.len() implies semver_ident_char(#[trigger] id[j]) by {
            assert(is_ident_char(id[j]));
        }
        if pre && id.len() > 1 && id[0] == '0' && forall|j: int|
            0 <= j < id.len() ==> '0' <= #[trigger] id[j] && id[j] <= '9' {
            assert(all_digits(id)) by {
                assert forall|j: int| 0 <= j < id.len() implies #[trigger] is_digit(id[j]) by {
                    assert('0' <= id[j] && id[j] <= '9');
                }
            }
        }
    }
}

/// What `Version::parse` accepts is SemVer 2.0.0: its pre-release and
/// build identifiers are non-empty, made of letters, digits and `-`, and
/// no numeric pre-release identifier has a leading zero.
pub proof fn law_parsed_identifiers_allowed(s: Seq<char>)
    ensures
        parse_version(s) matches Ok(v) ==> (forall|k: int|
            0 <= k < v.pre.len() ==> semver_pre_ident(#[trigger] v.pre[k])) && (forall|k: int|
            0 <= k < v.build.len() ==> semver_build_ident(#[trigger] v.build[k])),
{
    if let Ok(v) = parse_version(s) {
        lemma_failure_free_ids(v.pre, 0, true);
        lemma_failure_free_ids(v.build, 0, false);
    }
}

proof fn lemma_pre_proper_prefix(p: Seq<Seq<char>>, q: Seq<Seq<char>>)
    requires
        q.len() > 0,
    ensures
        pre_order(p, p + q) == Order::Less,
    decreases p.len(),
{
    if p.len() > 0 {
        lemma_ident_reflexive(p[0]);
        assert((p + q)[0] == p[0]);
        assert((p + q).drop_first() =~= p.drop_first() + q);
        lemma_pre_proper_prefix(p.drop_first(), q);
    }
}

proof fn lemma_pre_first_difference(p: Seq<Seq<char>>, x: Seq<char>, y: Seq<char>, a: Seq<Seq<char>>, b: Seq<Seq<char>>)
    requires
        ident_order(x, y) == Order::Less,
    ensures
        pre_order(p.push(x) + a, p.push(y) + b) == Order::Less,
    decreases p.len(),
{
    if p.len() == 0 {
        assert((p.push(x) + a)[0] == x);
        assert((p.push(y) + b)[0] == y);
    } else {
        lemma_ident_reflexive(p[0]);
        assert((p.push(x) + a)[0] == p[0]);
        assert((p.push(y) + b)[0] == p[0]);
        assert((p.push(x) + a).drop_first() =~= p.drop_first().push(x) + a);
        assert((p.push(y) + b).drop_first() =~= p.drop_first().push(y) + b);
        lemma_pre_first_difference(p.drop_first(), x, y, a, b);
    }
}

/// SemVer 2.0.0 precedence: the first of major, minor and patch that
/// differs decides, numerically; at an equal core a pre-release is below
/// the release; pre-release lists compare at their first differing
/// identifier, where a numeric identifier is below an alphanumeric one,
/// numeric ones compare by value and alphanumeric ones by character; a
/// list is below any longer list it starts.
pub proof fn law_semver_precedence(a: VersionSpec, b: VersionSpec)
    ensures
        a.major < b.major ==> precedence(a, b) == Order::Less,
        a.major == b.major && a.minor < b.minor ==> precedence(a, b) == Order::Less,
        a.major == b.major && a.minor == b.minor && a.patch < b.patch ==> precedence(a, b)
            == Order::Less,
        a.major == b.major && a.minor == b.minor && a.patch == b.patch && a.pre.len() > 0
            && b.pre.len() == 0 ==> precedence(a, b) == Order::Less,
        a.major == b.major && a.minor == b.minor && a.patch == b.patch && a.pre.len() > 0
            && b.pre.len() > a.pre.len() && b.pre.subrange(0, a.pre.len() as int) == a.pre
            ==> precedence(a, b) == Order::Less,
{
    if a.major == b.major && a.minor == b.minor && a.patch == b.patch && a.pre.len() > 0
        && b.pre.len() > a.pre.len() && b.pre.subrange(0, a.pre.len() as int) == a.pre {
        let q = b.pre.subrange(a.pre.len() as int, b.pre.len() as int);
        assert(b.pre =~= a.pre + q);
        lemma_pre_proper_prefix(a.pre, q);
    }
}

/// At the first differing pre-release identifier: a numeric one is below
/// an alphanumeric one, numeric ones compare by their value and
/// alphanumeric ones by their characters.
pub proof fn law_semver_identifier_order(
    p: Seq<Seq<char>>,
    x: Seq<char>,
    y: Seq<char>,
    rx: Seq<Seq<char>>,
    ry: Seq<Seq<char>>,
)
    ensures
        all_digits(x) && !all_digits(y) ==> pre_order(p.push(x) + rx, p.push(y) + ry)
            == Order::Less,
        all_digits(x) && all_digits(y) && digits_value(x) < digits_value(y) ==> pre_order(
            p.push(x) + rx,
            p.push(y) + ry,
        ) == Order::Less,
        !all_digits(x) && !all_digits(y) && lex_order(x, y) == Order::Less ==> pre_order(
            p.push(x) + rx,
            p.push(y) + ry,
        ) == Order::Less,
{
    if all_digits(x) && all_digits(y) {
        law_numeric_order_by_value(x, y);
    }
    if ident_order(x, y) == Order::Less {
        lemma_pre_first_difference(p, x, y, rx, ry);
    }
}

// ---------------------------------------------------------------------------
// Bumping
// ---------------------------------------------------------------------------

proof fn lemma_pre_prefix_then(p: Seq<Seq<char>>, x: Seq<char>, y: Seq<char>)
    ensures
        pre_order(p.push(x), p.push(y)) == ident_order(x, y),
        pre_order(p.push(x), p) == Order::Greater,
    decreases p.len(),
{
    if p.len() == 0 {
        assert(p.push(x).drop_first() =~= Seq::<Seq<char>>::empty());
        assert(p.push(y).drop_first() =~= Seq::<Seq<char>>::empty());
        assert(p.push(x)[0] == x && p.push(y)[0] == y);
        assert(pre_order(Seq::<Seq<char>>::empty(), Seq::<Seq<char>>::empty()) == Order::Equal);
    } else {
        lemma_ident_reflexive(p[0]);
        assert(p.push(x)[0] == p[0] && p.push(y)[0] == p[0]);
        assert(p.push(x).drop_first() =~= p.drop_first().push(x));
        assert(p.push(y).drop_first() =~= p.drop_first().push(y));
        lemma_pre_prefix_then(p.drop_first(), x, y);
    }
}

/// A major, minor or patch bump gives a version of higher precedence.
pub proof fn law_core_bumps_increase(v: VersionSpec)
    ensures
        v.major < u64::MAX ==> precedence(plain((v.major + 1) as u64, 0, 0), v) == Order::Greater,
        v.minor < u64::MAX ==> precedence(plain(v.major, (v.minor + 1) as u64, 0), v)
            == Order::Greater,
        v.patch < u64::MAX ==> precedence(plain(v.major, v.minor, (v.patch + 1) as u64), v)
            == Order::Greater,
{
}

/// The order of two integers.
pub open spec fn int_order(a: int, b: int) -> Order {
    if a < b {
        Order::Less
    } else if a > b {
        Order::Greater
    } else {
        Order::Equal
    }
}

/// Ten to the power `n`.
pub open spec fn pow10(n: nat) -> nat
    decreases n,
{
    if n == 0 {
        1
    } else {
        10 * pow10((n - 1) as nat)
    }
}

proof fn lemma_pow10_mono(m: nat, n: nat)
    requires
        m <= n,
    ensures
        1 <= pow10(m) <= pow10(n),
    decreases n,
{
    if n > m {
        lemma_pow10_mono(m, (n - 1) as nat);
    } else if n > 0 {
        lemma_pow10_mono(0, (n - 1) as nat);
    }
}

proof fn lemma_all_digits_tail(s: Seq<char>)
    requires
        all_digits(s),
        s.len() > 0,
    ensures
        all_digits(s.drop_first()),
        all_digits(s.drop_last()),
        is_digit(s[0]),
        is_digit(s.last()),
{
    assert(is_digit(s[0]));
    assert(is_digit(s[s.len() - 1]));
    assert forall|i: int| 0 <= i < s.drop_first().len() implies #[trigger] is_digit(
        s.drop_first()[i],
    ) by {
        assert(s.drop_first()[i] == s[i + 1]);
    }
    assert forall|i: int| 0 <= i < s.drop_last().len() implies #[trigger] is_digit(
        s.drop_last()[i],
    ) by {
        assert(s.drop_last()[i] == s[i]);
    }
}

/// The value of a digit string read from its first digit.
proof fn lemma_digits_front(s: Seq<char>)
    requires
        s.len() > 0,
    ensures
        digits_value(s) == digit_val(s[0]) * pow10((s.len() - 1) as nat) + digits_value(
            s.drop_first(),
        ),
    decreases s.len(),
{
    if s.len() == 1 {
        assert(s.drop_last() =~= Seq::<char>::empty());
        assert(s.drop_first() =~= Seq::<char>::empty());
        assert(pow10(0) == 1);
        assert(digits_value(Seq::<char>::empty()) == 0);
        assert(s.last() == s[0]);
        assert(digits_value(s) == 10 * digits_value(s.drop_last()) + digit_val(s.last()));
        assert(digits_value(s) == digit_val(s[0]));
        assert(digit_val(s[0]) * 1 == digit_val(s[0]));
    } else {
        let t = s.drop_last();
        lemma_digits_front(t);
        assert(t[0] == s[0]);
        let u = s.drop_first();
        assert(u.drop_last() =~= t.drop_first());
        assert(u.last() == s.last());
        assert(digits_value(u) == 10 * digits_value(t.drop_first()) + digit_val(s.last()));
        assert(digits_value(s) == 10 * digits_value(t) + digit_val(s.last()));
        let v0 = digit_val(s[0]) as int;
        let p = pow10((t.len() - 1) as nat) as int;
        assert(pow10((s.len() - 1) as nat) == 10 * p);
        assert(10 * (v0 * p) == v0 * (10 * p)) by (nonlinear_arith);
    }
}

proof fn lemma_digits_bound(s: Seq<char>)
    requires
        all_digits(s),
    ensures
        digits_value(s) < pow10(s.len()),
    decreases s.len(),
{
    if s.len() > 0 {
        lemma_all_digits_tail(s);
        lemma_digits_bound(s.drop_last());
        assert(digit_val(s.last()) <= 9);
    }
}

proof fn lemma_digits_low(s: Seq<char>)
    requires
        all_digits(s),
        s.len() > 0,
        s[0] != '0',
    ensures
        digits_value(s) >= pow10((s.len() - 1) as nat),
{
    lemma_digits_front(s);
    assert(is_digit(s[0]));
    let v0 = digit_val(s[0]) as int;
    let p = pow10((s.len() - 1) as nat) as int;
    assert(v0 >= 1);
    assert(v0 * p >= p) by (nonlinear_arith)
        requires
            v0 >= 1,
            p >= 0,
    ;
}

proof fn lemma_strip_zeros(s: Seq<char>)
    requires
        all_digits(s),
    ensures
        all_digits(strip_zeros(s)),
        digits_value(strip_zeros(s)) == digits_value(s),
        strip_zeros(s).len() == 0 || strip_zeros(s)[0] != '0',
    decreases s.len(),
{
    if s.len() > 0 && s[0] == '0' {
        lemma_all_digits_tail(s);
        lemma_strip_zeros(s.drop_first());
        lemma_digits_front(s);
        assert(digit_val(s[0]) == 0);
        assert(0 * pow10((s.len() - 1) as nat) == 0);
    }
}

/// Digit strings of equal length compare digit by digit as their values do.
proof fn lemma_equal_length_order(x: Seq<char>, y: Seq<char>)
    requires
        all_digits(x),
        all_digits(y),
        x.len() == y.len(),
    ensures
        lex_order(x, y) == int_order(digits_value(x) as int, digits_value(y) as int),
    decreases x.len(),
{
    if x.len() > 0 {
        lemma_all_digits_tail(x);
        lemma_all_digits_tail(y);
        lemma_digits_front(x);
        lemma_digits_front(y);
        lemma_digits_bound(x.drop_first());
        lemma_digits_bound(y.drop_first());
        lemma_equal_length_order(x.drop_first(), y.drop_first());
        let p = pow10((x.len() - 1) as nat) as int;
        let a = digit_val(x[0]) as int;
        let b = digit_val(y[0]) as int;
        let ra = digits_value(x.drop_first()) as int;
        let rb = digits_value(y.drop_first()) as int;
        assert(x.drop_first().len() == x.len() - 1);
        if a < b {
            assert(a * p + ra < b * p + rb) by (nonlinear_arith)
                requires
                    a < b,
                    0 <= ra < p,
                    0 <= rb,
            ;
        } else if a > b {
            assert(a * p + ra > b * p + rb) by (nonlinear_arith)
                requires
                    a > b,
                    0 <= rb < p,
                    0 <= ra,
            ;
        }
    }
}

/// Numeric identifiers compare by the numbers they stand for, however
/// large: the order of digit strings is the order of their values.
pub proof fn law_numeric_order_by_value(a: Seq<char>, b: Seq<char>)
    requires
        all_digits(a),
        all_digits(b),
    ensures
        numeric_order(a, b) == int_order(digits_value(a) as int, digits_value(b) as int),
{
    lemma_strip_zeros(a);
    lemma_strip_zeros(b);
    let x = strip_zeros(a);
    let y = strip_zeros(b);
    if x.len() == y.len() {
        lemma_equal_length_order(x, y);
    } else if x.len() < y.len() {
        lemma_digits_bound(x);
        lemma_digits_low(y);
        lemma_pow10_mono(x.len(), (y.len() - 1) as nat);
    } else {
        lemma_digits_bound(y);
        lemma_digits_low(x);
        lemma_pow10_mono(y.len(), (x.len() - 1) as nat);
    }
}

/// A pre-release bump of a pre-release version gives a version of higher
/// precedence, unless its last identifier is numeric but too large for a
/// `u64` (it is then left as it is); a pre-release bump of a stable version
/// gives a pre-release of the same core, which is lower.
pub proof fn law_prerelease_bump_order(v: VersionSpec, label: Seq<char>)
    requires
        !crate::version::pre_bump_overflows(v.pre),
    ensures
        v.pre.len() > 0 && !(all_digits(v.pre.last()) && parse_u64(v.pre.last()) is None)
            ==> precedence(
            VersionSpec { pre: bumped_pre(v.pre, label), ..plain(v.major, v.minor, v.patch) },
            v,
        ) == Order::Greater,
        v.pre.len() == 0 ==> precedence(
            VersionSpec { pre: bumped_pre(v.pre, label), ..plain(v.major, v.minor, v.patch) },
            v,
        ) == Order::Less,
{
    if v.pre.len() > 0 {
        let p = v.pre.drop_last();
        let l = v.pre.last();
        assert(p.push(l) =~= v.pre);
        if all_digits(l) {
            if let Some(n) = parse_u64(l) {
                lemma_decimal((n + 1) as nat);
                assert(v.pre.update(v.pre.len() - 1, decimal((n + 1) as nat)) =~= p.push(
                    decimal((n + 1) as nat),
                ));
                lemma_pre_prefix_then(p, decimal((n + 1) as nat), l);
                if l.len() > 0 {
                    assert(is_digit(l[0]));
                }
                assert(digits_value(l) == n);
                law_numeric_order_by_value(decimal((n + 1) as nat), l);
            }
        } else {
            lemma_pre_prefix_then(v.pre, seq!['0'], seq!['0']);
        }
    }
}


// ---------------------------------------------------------------------------
// Neighbouring versions
// ---------------------------------------------------------------------------

proof fn lemma_strip_all_zeros(s: Seq<char>)
    ensures
        all_digits(s) ==> (strip_zeros(s).len() == 0 <==> all_zeros(s)),
        all_zeros(s) ==> all_digits(s) && strip_zeros(s).len() == 0,
    decreases s.len(),
{
    if s.len() > 0 {
        lemma_strip_all_zeros(s.drop_first());
        assert forall|i: int| 0 <= i < s.drop_first().len() implies #[trigger] s.drop_first()[i]
            == s[i + 1] by {}
        if all_digits(s) {
            assert(all_digits(s.drop_first())) by {
                assert forall|i: int| 0 <= i < s.drop_first().len() implies #[trigger] is_digit(
                    s.drop_first()[i],
                ) by {
                    assert(is_digit(s[i + 1]));
                }
            }
        }
        if all_zeros(s) {
            assert(all_zeros(s.drop_first())) by {
                assert forall|i: int| 0 <= i < s.drop_first().len() implies #[trigger] s.drop_first()[i]
                    == '0' by {
                    assert(s[i + 1] == '0');
                }
            }
            assert forall|i: int| 0 <= i < s.len() implies #[trigger] is_digit(s[i]) by {
                assert(s[i] == '0');
            }
        }
        if all_zeros(s.drop_first()) && s[0] == '0' {
            assert forall|i: int| 0 <= i < s.len() implies #[trigger] s[i] == '0' by {
                if i > 0 {
                    assert(s[i] == s.drop_first()[i - 1]);
                }
            }
        }
    }
}

/// No identifier lies below one made of `0`s, and only such ones are equal
/// to it.
proof fn lemma_zero_ident(x: Seq<char>, z: Seq<char>)
    requires
        all_zeros(z),
    ensures
        ident_order(x, z) != Order::Less,
        ident_order(x, z) == Order::Equal <==> all_zeros(x),
        ident_order(z, x) != Order::Greater,
        ident_order(z, x) == Order::Equal <==> all_zeros(x),
{
    lemma_strip_all_zeros(z);
    lemma_strip_all_zeros(x);
    lemma_ident_reverse(x, z);
    if all_digits(x) && strip_zeros(x).len() == 0 {
        lemma_lex_equal(strip_zeros(x), strip_zeros(z));
        assert(strip_zeros(x) =~= strip_zeros(z));
    }
}

/// Extending a pre-release list gives a greater one.
proof fn lemma_pre_extend(p: Seq<Seq<char>>, x: Seq<char>)
    ensures
        pre_order(p, p.push(x)) == Order::Less,
{
    lemma_pre_prefix_then(p, x, x);
    lemma_pre_reverse(p.push(x), p);
}

/// A list below `q`, extended by `0`, stays below `q` unless `q` is the
/// least list above it.
proof fn lemma_push_zero_below(p: Seq<Seq<char>>, q: Seq<Seq<char>>)
    requires
        pre_order(p, q) == Order::Less,
    ensures
        pre_order(p.push(seq!['0']), q) == Order::Less || pre_next(p, q),
    decreases p.len(),
{
    let zero = seq!['0'];
    assert(all_zeros(zero));
    let pz = p.push(zero);
    if p.len() == 0 {
        assert(q.len() > 0);
        assert(pz =~= seq![zero]);
        assert(pz[0] == zero);
        lemma_zero_ident(q[0], zero);
        assert(pz.drop_first() =~= Seq::<Seq<char>>::empty());
        if ident_order(zero, q[0]) == Order::Equal {
            assert(pre_order(pz, q) == pre_order(pz.drop_first(), q.drop_first()));
            if q.len() == 1 {
                assert(q.drop_last() =~= Seq::<Seq<char>>::empty());
                assert(q.last() == q[0]);
                assert(all_zeros(q[0]));
                assert(pre_order(q.drop_last(), p) == Order::Equal);
                assert(pre_next(p, q));
            } else {
                assert(q.drop_first().len() > 0);
                assert(pre_order(pz, q) == Order::Less);
            }
        } else {
            assert(ident_order(zero, q[0]) == Order::Less);
            assert(pre_order(pz, q) == Order::Less);
        }
    } else {
        assert(pz[0] == p[0]);
        assert(pz.drop_first() =~= p.drop_first().push(zero));
        if ident_order(p[0], q[0]) == Order::Equal {
            lemma_push_zero_below(p.drop_first(), q.drop_first());
            if pre_next(p.drop_first(), q.drop_first()) {
                let qd = q.drop_last();
                assert(qd[0] == q[0]);
                assert(qd.drop_first() =~= q.drop_first().drop_last());
                lemma_ident_reverse(p[0], q[0]);
                assert(q.last() == q.drop_first().last());
            }
        }
    }
}

/// No list lies strictly between `p` and the least list above it.
proof fn lemma_none_between(p: Seq<Seq<char>>, q: Seq<Seq<char>>, w: Seq<Seq<char>>)
    requires
        pre_next(p, q),
        pre_order(p, w) == Order::Less,
    ensures
        pre_order(w, q) != Order::Less,
    decreases p.len(),
{
    if p.len() == 0 {
        assert(w.len() > 0);
        assert(q.len() == 1);
        assert(q.last() == q[0]);
        lemma_zero_ident(w[0], q[0]);
        assert(q.drop_first() =~= Seq::<Seq<char>>::empty());
        if ident_order(w[0], q[0]) == Order::Equal {
            assert(pre_order(w, q) == pre_order(w.drop_first(), q.drop_first()));
            assert(pre_order(w.drop_first(), q.drop_first()) != Order::Less);
        } else {
            assert(ident_order(w[0], q[0]) == Order::Greater);
        }
    } else {
        let qd = q.drop_last();
        assert(qd[0] == q[0]);
        assert(qd.drop_first() =~= q.drop_first().drop_last());
        assert(q.last() == q.drop_first().last());
        lemma_ident_chain(w[0], p[0], q[0]);
        lemma_ident_chain(q[0], p[0], w[0]);
        lemma_ident_reverse(p[0], w[0]);
        lemma_ident_reverse(q[0], p[0]);
        lemma_ident_reverse(w[0], q[0]);
        if ident_order(p[0], w[0]) == Order::Equal {
            lemma_none_between(p.drop_first(), q.drop_first(), w.drop_first());
        }
    }
}

/// No version lies strictly between `l` and the version right above it.
pub proof fn law_nothing_between(l: VersionSpec, u: VersionSpec, v: VersionSpec)
    requires
        version_next(l, u),
    ensures
        !(precedence(l, v) == Order::Less && precedence(v, u) == Order::Less),
{
    if precedence(l, v) == Order::Less && precedence(v, u) == Order::Less {
        if l.pre.len() > 0 {
            if v.major == l.major && v.minor == l.minor && v.patch == l.patch && v.pre.len() > 0 {
                lemma_none_between(l.pre, u.pre, v.pre);
            }
        } else {
            if v.major == u.major && v.minor == u.minor && v.patch == u.patch && v.pre.len() > 0 {
                lemma_none_between(seq![], u.pre, v.pre);
            }
        }
    }
}

/// No version lies below the least one.
pub proof fn law_nothing_below_least(u: VersionSpec, v: VersionSpec)
    requires
        is_least(u),
    ensures
        precedence(v, u) != Order::Less,
{
    if v.major == 0 && v.minor == 0 && v.patch == 0 && v.pre.len() > 0 {
        lemma_none_between(seq![], u.pre, v.pre);
    }
}

/// No version lies above the greatest one.
pub proof fn law_nothing_above_greatest(l: VersionSpec, v: VersionSpec)
    requires
        is_greatest(l),
    ensures
        precedence(l, v) != Order::Less,
{
}

/// A version strictly between `l` and `u`, where there is one.
pub open spec fn between(l: VersionSpec, u: VersionSpec) -> VersionSpec {
    if l.pre.len() > 0 {
        VersionSpec { pre: l.pre.push(seq!['0']), build: seq![], ..l }
    } else {
        match next_core(l) {
            Some((a, b, c)) => VersionSpec {
                major: a,
                minor: b,
                patch: c,
                pre: seq![seq!['0']],
                build: seq![],
            },
            None => l,
        }
    }
}

/// The least version.
pub open spec fn least_version() -> VersionSpec {
    VersionSpec { major: 0, minor: 0, patch: 0, pre: seq![seq!['0']], build: seq![] }
}

/// The greatest version.
pub open spec fn greatest_version() -> VersionSpec {
    plain(u64::MAX, u64::MAX, u64::MAX)
}

/// Below `u` but not right below it, some version lies strictly between.
pub proof fn law_something_between(l: VersionSpec, u: VersionSpec)
    requires
        precedence(l, u) == Order::Less,
        !version_next(l, u),
    ensures
        precedence(l, between(l, u)) == Order::Less,
        precedence(between(l, u), u) == Order::Less,
{
    let w = between(l, u);
    if l.pre.len() > 0 {
        lemma_pre_extend(l.pre, seq!['0']);
        if u.major == l.major && u.minor == l.minor && u.patch == l.patch && u.pre.len() > 0 {
            lemma_push_zero_below(l.pre, u.pre);
        }
    } else {
        assert(seq![seq!['0']] =~= Seq::<Seq<char>>::empty().push(seq!['0']));
        if next_core(l) matches Some((a, b, c)) && u.major == a && u.minor == b && u.patch == c
            && u.pre.len() > 0 {
            lemma_push_zero_below(seq![], u.pre);
        }
    }
}

/// Every version but the least has one below it.
pub proof fn law_something_below(u: VersionSpec)
    requires
        !is_least(u),
    ensures
        precedence(least_version(), u) == Order::Less,
{
    assert(seq![seq!['0']] =~= Seq::<Seq<char>>::empty().push(seq!['0']));
    if u.major == 0 && u.minor == 0 && u.patch == 0 && u.pre.len() > 0 {
        lemma_push_zero_below(seq![], u.pre);
    }
}

/// Every version but the greatest has one above it.
pub proof fn law_something_above(l: VersionSpec)
    requires
        !is_greatest(l),
    ensures
        precedence(l, greatest_version()) == Order::Less,
{
}

} // verus!
