//! Character-level text utilities with their specifications.
//!
//! All parsing in this crate works on the characters of a string, viewed
//! as a `Seq<char>`. The spec functions here say what the standard string
//! operations that the parsers rely on (trimming, splitting, searching,
//! decimal numbers) compute; the exec functions are proved against them.

use vstd::prelude::*;

verus! {

/// The characters of `s`, in order.
pub(crate) fn chars_of(s: &str) -> (r: Vec<char>)
    ensures
        r@ == s@,
{
    broadcast use vstd::string::axiom_spec_iter;

    let mut r: Vec<char> = Vec::new();
    for c in it: s.chars()
        invariant
            r@ == it.seq().take(it.index() as int),
    {
        r.push(c);
    }
    r
}

/// `c` appended to `s` (`String::push`).
#[verifier::external_body]
fn push_char(s: &mut String, c: char)
    ensures
        final(s)@ == old(s)@.push(c),
{
    s.push(c);
}

/// The string made of the characters `cs`.
pub(crate) fn string_of(cs: &[char]) -> (r: String)
    ensures
        r@ == cs@,
{
    let mut r = String::new();
    let mut i: usize = 0;
    while i < cs.len()
        invariant
            i <= cs.len(),
            r@ == cs@.take(i as int),
        decreases cs.len() - i,
    {
        push_char(&mut r, cs[i]);
        assert(cs@.take(i + 1) =~= cs@.take(i as int).push(cs@[i as int]));
        i = i + 1;
    }
    assert(cs@.take(cs.len() as int) =~= cs@);
    r
}

// ---------------------------------------------------------------------------
// Character classes
// ---------------------------------------------------------------------------

/// ASCII decimal digit.
pub open spec fn is_digit(c: char) -> bool {
    '0' <= c && c <= '9'
}

/// ASCII letter or digit.
pub open spec fn is_alnum(c: char) -> bool {
    ('0' <= c && c <= '9') || ('a' <= c && c <= 'z') || ('A' <= c && c <= 'Z')
}

/// A character allowed in a pre-release or build identifier.
pub open spec fn is_ident_char(c: char) -> bool {
    is_alnum(c) || c == '-'
}

/// The Unicode `White_Space` property, which is what `char::is_whitespace`
/// (and so `str::trim` and `str::split_whitespace`) tests.
pub open spec fn is_ws(c: char) -> bool {
    ||| '\u{9}' <= c && c <= '\u{d}'
    ||| c == ' '
    ||| c == '\u{85}'
    ||| c == '\u{a0}'
    ||| c == '\u{1680}'
    ||| '\u{2000}' <= c && c <= '\u{200a}'
    ||| c == '\u{2028}'
    ||| c == '\u{2029}'
    ||| c == '\u{202f}'
    ||| c == '\u{205f}'
    ||| c == '\u{3000}'
}

pub fn char_is_digit(c: char) -> (r: bool)
    ensures
        r == is_digit(c),
{
    '0' <= c && c <= '9'
}

pub fn char_is_alnum(c: char) -> (r: bool)
    ensures
        r == is_alnum(c),
{
    ('0' <= c && c <= '9') || ('a' <= c && c <= 'z') || ('A' <= c && c <= 'Z')
}

pub fn char_is_ws(c: char) -> (r: bool)
    ensures
        r == is_ws(c),
{
    ('\u{9}' <= c && c <= '\u{d}') || c == ' ' || c == '\u{85}' || c == '\u{a0}' || c
        == '\u{1680}' || ('\u{2000}' <= c && c <= '\u{200a}') || c == '\u{2028}' || c
        == '\u{2029}' || c == '\u{202f}' || c == '\u{205f}' || c == '\u{3000}'
}

/// Every character of `s` is an ASCII digit (true of the empty sequence).
pub open spec fn all_digits(s: Seq<char>) -> bool {
    forall|i: int| 0 <= i < s.len() ==> #[trigger] is_digit(s[i])
}

/// Every character of `s` may stand in an identifier.
pub open spec fn all_ident_chars(s: Seq<char>) -> bool {
    forall|i: int| 0 <= i < s.len() ==> #[trigger] is_ident_char(s[i])
}

pub fn chars_all_digits(s: &[char]) -> (r: bool)
    ensures
        r == all_digits(s@),
{
    let mut i: usize = 0;
    while i < s.len()
        invariant
            0 <= i <= s.len(),
            forall|j: int| 0 <= j < i ==> is_digit(#[trigger] s@[j]),
        decreases s.len() - i,
    {
        if !char_is_digit(s[i]) {
            assert(!is_digit(s@[i as int]));
            return false;
        }
        i = i + 1;
    }
    true
}

pub fn chars_all_ident(s: &[char]) -> (r: bool)
    ensures
        r == all_ident_chars(s@),
{
    let mut i: usize = 0;
    while i < s.len()
        invariant
            0 <= i <= s.len(),
            forall|j: int| 0 <= j < i ==> is_ident_char(#[trigger] s@[j]),
        decreases s.len() - i,
    {
        if !(char_is_alnum(s[i]) || s[i] == '-') {
            assert(!is_ident_char(s@[i as int]));
            return false;
        }
        i = i + 1;
    }
    true
}

// ---------------------------------------------------------------------------
// Comparing and searching
// ---------------------------------------------------------------------------

/// Equality of two character slices.
pub fn chars_eq(a: &[char], b: &[char]) -> (r: bool)
    ensures
        r == (a@ == b@),
{
    if a.len() != b.len() {
        return false;
    }
    let mut i: usize = 0;
    while i < a.len()
        invariant
            a.len() == b.len(),
            0 <= i <= a.len(),
            forall|j: int| 0 <= j < i ==> a@[j] == b@[j],
        decreases a.len() - i,
    {
        if a[i] != b[i] {
            return false;
        }
        i = i + 1;
    }
    assert(a@ =~= b@);
    true
}

/// `p` occurs in `s` at position `i`.
pub open spec fn matches_at(s: Seq<char>, p: Seq<char>, i: int) -> bool {
    0 <= i && i + p.len() <= s.len() && s.subrange(i, i + p.len()) == p
}

pub open spec fn starts_with(s: Seq<char>, p: Seq<char>) -> bool {
    matches_at(s, p, 0)
}

pub open spec fn ends_with(s: Seq<char>, p: Seq<char>) -> bool {
    p.len() <= s.len() && matches_at(s, p, s.len() - p.len())
}

/// `s` holds `p` somewhere (`str::contains` with a string pattern).
pub open spec fn contains(s: Seq<char>, p: Seq<char>) -> bool {
    exists|i: int| matches_at(s, p, i)
}

pub fn chars_match_at(s: &[char], p: &[char], i: usize) -> (r: bool)
    ensures
        r == matches_at(s@, p@, i as int),
{
    if i > s.len() || p.len() > s.len() - i {
        return false;
    }
    let mut k: usize = 0;
    while k < p.len()
        invariant
            i + p.len() <= s.len(),
            0 <= k <= p.len(),
            forall|j: int| 0 <= j < k ==> s@[i + j] == p@[j],
        decreases p.len() - k,
    {
        if s[i + k] != p[k] {
            assert(s@.subrange(i as int, i + p@.len())[k as int] != p@[k as int]);
            return false;
        }
        k = k + 1;
    }
    assert(s@.subrange(i as int, i + p@.len()) =~= p@);
    true
}

pub fn chars_starts_with(s: &[char], p: &[char]) -> (r: bool)
    ensures
        r == starts_with(s@, p@),
{
    chars_match_at(s, p, 0)
}

pub fn chars_ends_with(s: &[char], p: &[char]) -> (r: bool)
    ensures
        r == ends_with(s@, p@),
{
    if p.len() > s.len() {
        return false;
    }
    chars_match_at(s, p, s.len() - p.len())
}

/// The first position at or after `i` where `p` occurs in `s`.
pub open spec fn find_sub_from(s: Seq<char>, p: Seq<char>, i: int) -> Option<int>
    decreases s.len() + 1 - i,
{
    if i < 0 || i + p.len() > s.len() {
        None
    } else if matches_at(s, p, i) {
        Some(i)
    } else {
        find_sub_from(s, p, i + 1)
    }
}

/// The first position where `p` occurs in `s` (`str::find` with a string pattern).
pub open spec fn find_sub(s: Seq<char>, p: Seq<char>) -> Option<int> {
    find_sub_from(s, p, 0)
}

proof fn lemma_find_sub_from(s: Seq<char>, p: Seq<char>, i: int)
    requires
        0 <= i,
    ensures
        find_sub_from(s, p, i) matches Some(k) ==> i <= k && matches_at(s, p, k) && forall|j: int|
            i <= j < k ==> !matches_at(s, p, j),
        find_sub_from(s, p, i) is None ==> forall|j: int| i <= j ==> !matches_at(s, p, j),
    decreases s.len() + 1 - i,
{
    if i + p.len() > s.len() {
    } else if matches_at(s, p, i) {
    } else {
        lemma_find_sub_from(s, p, i + 1);
    }
}

/// The first occurrence is the least one, and there is one exactly when `p` occurs.
pub proof fn lemma_find_sub(s: Seq<char>, p: Seq<char>)
    ensures
        find_sub(s, p) matches Some(k) ==> matches_at(s, p, k) && forall|j: int|
            0 <= j < k ==> !matches_at(s, p, j),
        find_sub(s, p) is Some <==> contains(s, p),
{
    lemma_find_sub_from(s, p, 0);
    if find_sub(s, p) is None {
        assert forall|i: int| !matches_at(s, p, i) by {
            if i < 0 {
            }
        }
    }
}

pub fn chars_find_sub(s: &[char], p: &[char]) -> (r: Option<usize>)
    ensures
        match r {
            Some(k) => find_sub(s@, p@) == Some(k as int),
            None => find_sub(s@, p@) is None,
        },
{
    if p.len() > s.len() {
        return None;
    }
    let last = s.len() - p.len();
    let mut i: usize = 0;
    loop
        invariant
            last == s.len() - p.len(),
            0 <= i <= last,
            find_sub(s@, p@) == find_sub_from(s@, p@, i as int),
        decreases last - i,
    {
        if chars_match_at(s, p, i) {
            return Some(i);
        }
        if i == last {
            assert(find_sub_from(s@, p@, i + 1) is None);
            return None;
        }
        i = i + 1;
    }
}

pub fn chars_contains(s: &[char], p: &[char]) -> (r: bool)
    ensures
        r == contains(s@, p@),
{
    proof {
        lemma_find_sub(s@, p@);
    }
    chars_find_sub(s, p).is_some()
}

/// The first position at or after `i` holding `c`.
pub open spec fn find_char_from(s: Seq<char>, c: char, i: int) -> Option<int>
    decreases s.len() - i,
{
    if i < 0 || i >= s.len() {
        None
    } else if s[i] == c {
        Some(i)
    } else {
        find_char_from(s, c, i + 1)
    }
}

/// The first position holding `c` (`str::find` with a `char` pattern).
pub open spec fn find_char(s: Seq<char>, c: char) -> Option<int> {
    find_char_from(s, c, 0)
}

proof fn lemma_find_char_from(s: Seq<char>, c: char, i: int)
    requires
        0 <= i,
    ensures
        find_char_from(s, c, i) matches Some(k) ==> i <= k < s.len() && s[k] == c && forall|j: int|
            i <= j < k ==> s[j] != c,
        find_char_from(s, c, i) is None ==> forall|j: int| i <= j < s.len() ==> s[j] != c,
    decreases s.len() - i,
{
    if i < s.len() && s[i] != c {
        lemma_find_char_from(s, c, i + 1);
    }
}

/// `find_char` gives the first position of `c`, and `None` when there is none.
pub proof fn lemma_find_char(s: Seq<char>, c: char)
    ensures
        find_char(s, c) matches Some(k) ==> 0 <= k < s.len() && s[k] == c && forall|j: int|
            0 <= j < k ==> s[j] != c,
        find_char(s, c) is None ==> forall|j: int| 0 <= j < s.len() ==> s[j] != c,
{
    lemma_find_char_from(s, c, 0);
}

proof fn lemma_find_char_from_at(s: Seq<char>, c: char, i: int, k: int)
    requires
        0 <= i <= k < s.len(),
        s[k] == c,
        forall|j: int| i <= j < k ==> s[j] != c,
    ensures
        find_char_from(s, c, i) == Some(k),
    decreases k - i,
{
    if i < k {
        lemma_find_char_from_at(s, c, i + 1, k);
    }
}

proof fn lemma_find_char_from_none(s: Seq<char>, c: char, i: int)
    requires
        0 <= i,
        forall|j: int| i <= j < s.len() ==> s[j] != c,
    ensures
        find_char_from(s, c, i) is None,
    decreases s.len() - i,
{
    if i < s.len() {
        lemma_find_char_from_none(s, c, i + 1);
    }
}

/// `find_char` is characterized by its result being the first `c`.
pub proof fn lemma_find_char_is(s: Seq<char>, c: char, k: int)
    requires
        0 <= k < s.len(),
        s[k] == c,
        forall|j: int| 0 <= j < k ==> s[j] != c,
    ensures
        find_char(s, c) == Some(k),
{
    lemma_find_char_from_at(s, c, 0, k);
}

pub proof fn lemma_find_char_none(s: Seq<char>, c: char)
    requires
        forall|j: int| 0 <= j < s.len() ==> s[j] != c,
    ensures
        find_char(s, c) is None,
{
    lemma_find_char_from_none(s, c, 0);
}

pub fn chars_find(s: &[char], c: char) -> (r: Option<usize>)
    ensures
        match r {
            Some(k) => find_char(s@, c) == Some(k as int),
            None => find_char(s@, c) is None,
        },
{
    let mut i: usize = 0;
    while i < s.len()
        invariant
            0 <= i <= s.len(),
            find_char(s@, c) == find_char_from(s@, c, i as int),
        decreases s.len() - i,
    {
        if s[i] == c {
            return Some(i);
        }
        i = i + 1;
    }
    None
}

// ---------------------------------------------------------------------------
// Trimming
// ---------------------------------------------------------------------------

pub open spec fn trim_start(s: Seq<char>) -> Seq<char>
    decreases s.len(),
{
    if s.len() > 0 && is_ws(s[0]) {
        trim_start(s.drop_first())
    } else {
        s
    }
}

pub open spec fn trim_end(s: Seq<char>) -> Seq<char>
    decreases s.len(),
{
    if s.len() > 0 && is_ws(s.last()) {
        trim_end(s.drop_last())
    } else {
        s
    }
}

/// `str::trim`: leading and trailing white space removed.
pub open spec fn trim(s: Seq<char>) -> Seq<char> {
    trim_end(trim_start(s))
}

pub fn chars_trim(s: &[char]) -> (r: &[char])
    ensures
        r@ == trim(s@),
{
    let mut lo: usize = 0;
    assert(s@.subrange(0, s@.len() as int) =~= s@);
    while lo < s.len() && char_is_ws(s[lo])
        invariant
            0 <= lo <= s.len(),
            trim_start(s@) == trim_start(s@.subrange(lo as int, s@.len() as int)),
        decreases s.len() - lo,
    {
        assert(s@.subrange(lo as int, s@.len() as int).drop_first() =~= s@.subrange(
            lo + 1,
            s@.len() as int,
        ));
        lo = lo + 1;
    }
    let mut hi: usize = s.len();
    while hi > lo && char_is_ws(s[hi - 1])
        invariant
            lo <= hi <= s.len(),
            trim_start(s@) == s@.subrange(lo as int, s@.len() as int),
            trim(s@) == trim_end(s@.subrange(lo as int, hi as int)),
        decreases hi - lo,
    {
        assert(s@.subrange(lo as int, hi as int).drop_last() =~= s@.subrange(
            lo as int,
            hi - 1,
        ));
        hi = hi - 1;
    }
    &s[lo..hi]
}

/// Trimming a sequence with white space at neither end leaves it unchanged.
pub proof fn lemma_trim_unchanged(s: Seq<char>)
    requires
        s.len() > 0 ==> !is_ws(s[0]) && !is_ws(s.last()),
    ensures
        trim(s) == s,
{
}

// ---------------------------------------------------------------------------
// Splitting
// ---------------------------------------------------------------------------

/// `str::split` with a `char` separator: the pieces between separators,
/// always at least one.
pub open spec fn split_char(s: Seq<char>, c: char) -> Seq<Seq<char>>
    decreases s.len(),
{
    if s.len() == 0 {
        seq![Seq::empty()]
    } else {
        let r = split_char(s.drop_last(), c);
        if s.last() == c {
            r.push(Seq::empty())
        } else {
            r.update(r.len() - 1, r.last().push(s.last()))
        }
    }
}

pub proof fn lemma_split_char_nonempty(s: Seq<char>, c: char)
    ensures
        split_char(s, c).len() >= 1,
    decreases s.len(),
{
    if s.len() > 0 {
        lemma_split_char_nonempty(s.drop_last(), c);
    }
}

/// A sequence without the separator splits into itself alone.
pub proof fn lemma_split_char_none(s: Seq<char>, c: char)
    requires
        forall|i: int| 0 <= i < s.len() ==> s[i] != c,
    ensures
        split_char(s, c) == seq![s],
    decreases s.len(),
{
    if s.len() == 0 {
        assert(s =~= Seq::<char>::empty());
    } else {
        lemma_split_char_none(s.drop_last(), c);
        assert(s.last() != c);
        assert(s.drop_last().push(s.last()) =~= s);
        assert(seq![s.drop_last()].update(0, s) =~= seq![s]);
    }
}

/// Splitting distributes over a separator.
pub proof fn lemma_split_char_concat(a: Seq<char>, b: Seq<char>, c: char)
    ensures
        split_char(a + seq![c] + b, c) == split_char(a, c) + split_char(b, c),
    decreases b.len(),
{
    lemma_split_char_nonempty(a, c);
    if b.len() == 0 {
        assert((a + seq![c] + b).drop_last() =~= a);
        assert(split_char(b, c) =~= seq![Seq::empty()]);
        assert(split_char(a, c).push(Seq::empty()) =~= split_char(a, c) + seq![Seq::empty()]);
    } else {
        let s = a + seq![c] + b;
        assert(s.drop_last() =~= a + seq![c] + b.drop_last());
        lemma_split_char_concat(a, b.drop_last(), c);
        lemma_split_char_nonempty(b.drop_last(), c);
        let ra = split_char(a, c);
        let rb = split_char(b.drop_last(), c);
        if b.last() == c {
            assert((ra + rb).push(Seq::empty()) =~= ra + rb.push(Seq::empty()));
        } else {
            let r = ra + rb;
            assert(r.update(r.len() - 1, r.last().push(b.last())) =~= ra + rb.update(
                rb.len() - 1,
                rb.last().push(b.last()),
            ));
        }
    }
}

pub open spec fn slice_views<'a>(v: Seq<&'a [char]>) -> Seq<Seq<char>> {
    v.map_values(|x: &'a [char]| x@)
}

pub fn chars_split<'a>(s: &'a [char], c: char) -> (r: Vec<&'a [char]>)
    ensures
        slice_views(r@) == split_char(s@, c),
{
    let mut out: Vec<&'a [char]> = Vec::new();
    let mut start: usize = 0;
    let mut i: usize = 0;
    assert(s@.subrange(0, 0) =~= Seq::<char>::empty());
    assert(slice_views(out@).push(s@.subrange(0, 0)) =~= seq![Seq::<char>::empty()]);
    while i < s.len()
        invariant
            0 <= start <= i <= s.len(),
            slice_views(out@).push(s@.subrange(start as int, i as int)) == split_char(
                s@.subrange(0, i as int),
                c,
            ),
        decreases s.len() - i,
    {
        let ghost prev = s@.subrange(0, i as int);
        assert(s@.subrange(0, i + 1).drop_last() =~= prev);
        if s[i] == c {
            let piece = &s[start..i];
            let ghost before = out@;
            out.push(piece);
            assert(slice_views(out@) =~= slice_views(before).push(piece@));
            start = i + 1;
            assert(s@.subrange(start as int, start as int) =~= Seq::<char>::empty());
        } else {
            let ghost r = split_char(prev, c);
            assert(s@.subrange(start as int, i + 1) =~= s@.subrange(start as int, i as int).push(
                s@[i as int],
            ));
            assert(slice_views(out@).push(s@.subrange(start as int, i + 1)) =~= r.update(
                r.len() - 1,
                r.last().push(s@[i as int]),
            ));
        }
        i = i + 1;
    }
    let last = &s[start..s.len()];
    let ghost before = out@;
    out.push(last);
    assert(s@.subrange(0, s@.len() as int) =~= s@);
    assert(slice_views(out@) =~= slice_views(before).push(last@));
    out
}

/// `str::split_whitespace`: the maximal runs of non-white-space characters.
pub open spec fn words(s: Seq<char>) -> Seq<Seq<char>>
    decreases s.len(),
{
    if s.len() == 0 {
        seq![]
    } else {
        let r = words(s.drop_last());
        let x = s.last();
        if is_ws(x) {
            r
        } else if s.len() >= 2 && !is_ws(s[s.len() - 2]) {
            r.update(r.len() - 1, r.last().push(x))
        } else {
            r.push(seq![x])
        }
    }
}

pub fn chars_words<'a>(s: &'a [char]) -> (r: Vec<&'a [char]>)
    ensures
        slice_views(r@) == words(s@),
{
    let mut out: Vec<&'a [char]> = Vec::new();
    let mut start: usize = 0;
    let mut in_tok = false;
    let mut i: usize = 0;
    assert(s@.subrange(0, 0) =~= Seq::<char>::empty());
    assert(slice_views(out@) =~= Seq::<Seq<char>>::empty());
    while i < s.len()
        invariant
            0 <= start <= i <= s.len(),
            in_tok ==> start < i && !is_ws(s@[i - 1]),
            !in_tok ==> i == 0 || is_ws(s@[i - 1]),
            words(s@.subrange(0, i as int)) == if in_tok {
                slice_views(out@).push(s@.subrange(start as int, i as int))
            } else {
                slice_views(out@)
            },
        decreases s.len() - i,
    {
        assert(s@.subrange(0, i + 1).drop_last() =~= s@.subrange(0, i as int));
        if char_is_ws(s[i]) {
            if in_tok {
                let piece = &s[start..i];
                let ghost before = out@;
                out.push(piece);
                assert(slice_views(out@) =~= slice_views(before).push(piece@));
                in_tok = false;
            }
        } else {
            if in_tok {
                let ghost r = slice_views(out@).push(s@.subrange(start as int, i as int));
                assert(s@.subrange(start as int, i as int).push(s@[i as int]) =~= s@.subrange(
                    start as int,
                    i + 1,
                ));
                assert(r.update(r.len() - 1, r.last().push(s@[i as int])) =~= slice_views(
                    out@,
                ).push(s@.subrange(start as int, i + 1)));
            } else {
                start = i;
                assert(s@.subrange(start as int, i + 1) =~= seq![s@[i as int]]);
            }
            in_tok = true;
        }
        i = i + 1;
    }
    assert(s@.subrange(0, s@.len() as int) =~= s@);
    if in_tok {
        let piece = &s[start..s.len()];
        let ghost before = out@;
        out.push(piece);
        assert(slice_views(out@) =~= slice_views(before).push(piece@));
    }
    out
}

/// A line with one trailing carriage return removed.
pub open spec fn strip_cr(s: Seq<char>) -> Seq<char> {
    if s.len() > 0 && s.last() == '\r' {
        s.drop_last()
    } else {
        s
    }
}

/// `str::lines`: split at `\n`; a `\r` before a `\n` is dropped; a final
/// line ending yields no empty last line.
pub open spec fn lines(s: Seq<char>) -> Seq<Seq<char>> {
    if s.len() == 0 {
        seq![]
    } else {
        let parts = split_char(s, '\n');
        let body = parts.drop_last().map_values(|p: Seq<char>| strip_cr(p));
        if s.last() == '\n' {
            body
        } else {
            body.push(parts.last())
        }
    }
}

pub fn chars_strip_cr(s: &[char]) -> (r: &[char])
    ensures
        r@ == strip_cr(s@),
{
    if s.len() > 0 && s[s.len() - 1] == '\r' {
        &s[0..s.len() - 1]
    } else {
        s
    }
}

pub fn chars_lines<'a>(s: &'a [char]) -> (r: Vec<&'a [char]>)
    ensures
        slice_views(r@) == lines(s@),
{
    let mut out: Vec<&'a [char]> = Vec::new();
    if s.len() == 0 {
        assert(slice_views(out@) =~= Seq::<Seq<char>>::empty());
        return out;
    }
    let parts = chars_split(s, '\n');
    proof {
        lemma_split_char_nonempty(s@, '\n');
    }
    let ghost pv = split_char(s@, '\n');
    let n = parts.len();
    let mut i: usize = 0;
    while i + 1 < n
        invariant
            n == parts@.len(),
            n >= 1,
            slice_views(parts@) == pv,
            0 <= i < n,
            slice_views(out@) == pv.subrange(0, i as int).map_values(|p: Seq<char>| strip_cr(p)),
        decreases n - i,
    {
        let line = chars_strip_cr(parts[i]);
        let ghost before = out@;
        out.push(line);
        assert(pv[i as int] == parts@[i as int]@);
        assert(slice_views(out@) =~= slice_views(before).push(line@));
        assert(pv.subrange(0, i + 1).map_values(|p: Seq<char>| strip_cr(p)) =~= pv.subrange(
            0,
            i as int,
        ).map_values(|p: Seq<char>| strip_cr(p)).push(strip_cr(pv[i as int])));
        i = i + 1;
    }
    assert(pv.subrange(0, i as int) =~= pv.drop_last());
    if s[s.len() - 1] != '\n' {
        let ghost before = out@;
        out.push(parts[n - 1]);
        assert(pv.last() == parts@[n - 1]@);
        assert(slice_views(out@) =~= slice_views(before).push(pv.last()));
    }
    out
}

/// `str::split` with a string separator, scanning from position `i` with the
/// current piece starting at `start`.
pub open spec fn split_str_from(s: Seq<char>, p: Seq<char>, i: int, start: int) -> Seq<
    Seq<char>,
>
    decreases s.len() + 1 - i,
{
    if p.len() == 0 || start < 0 || i < start || i + p.len() > s.len() {
        seq![s.subrange(start, s.len() as int)]
    } else if matches_at(s, p, i) {
        seq![s.subrange(start, i)] + split_str_from(s, p, i + p.len(), i + p.len())
    } else {
        split_str_from(s, p, i + 1, start)
    }
}

/// `str::split` with a non-empty string separator.
pub open spec fn split_str(s: Seq<char>, p: Seq<char>) -> Seq<Seq<char>> {
    split_str_from(s, p, 0, 0)
}

pub fn chars_split_str<'a>(s: &'a [char], p: &[char]) -> (r: Vec<&'a [char]>)
    requires
        p@.len() > 0,
    ensures
        slice_views(r@) == split_str(s@, p@),
{
    let mut out: Vec<&'a [char]> = Vec::new();
    let mut start: usize = 0;
    let mut i: usize = 0;
    assert(slice_views(out@) =~= Seq::<Seq<char>>::empty());
    while i <= s.len() && p.len() <= s.len() - i
        invariant
            p@.len() > 0,
            0 <= start <= i <= s.len(),
            slice_views(out@) + split_str_from(s@, p@, i as int, start as int) == split_str(
                s@,
                p@,
            ),
        decreases s.len() - i,
    {
        if chars_match_at(s, p, i) {
            let piece = &s[start..i];
            let ghost before = out@;
            out.push(piece);
            assert(slice_views(out@) =~= slice_views(before).push(piece@));
            let ghost rest = split_str_from(s@, p@, i + p@.len(), i + p@.len());
            assert(slice_views(before) + (seq![piece@] + rest) =~= slice_views(out@) + rest);
            i = i + p.len();
            start = i;
        } else {
            i = i + 1;
        }
    }
    let last = &s[start..s.len()];
    let ghost before = out@;
    out.push(last);
    assert(slice_views(out@) =~= slice_views(before) + seq![last@]);
    out
}

// ---------------------------------------------------------------------------
// Decimal numbers
// ---------------------------------------------------------------------------

/// The value of a decimal digit character.
pub open spec fn digit_val(c: char) -> nat {
    (c as int - '0' as int) as nat
}

/// The decimal value of a sequence of digits.
pub open spec fn digits_value(s: Seq<char>) -> nat
    decreases s.len(),
{
    if s.len() == 0 {
        0
    } else {
        10 * digits_value(s.drop_last()) + digit_val(s.last())
    }
}

/// `u64::from_str`: an optional `+`, then one or more digits whose value fits.
pub open spec fn parse_u64(s: Seq<char>) -> Option<u64> {
    let d = if s.len() > 0 && s[0] == '+' {
        s.drop_first()
    } else {
        s
    };
    if d.len() > 0 && all_digits(d) && digits_value(d) <= u64::MAX {
        Some(digits_value(d) as u64)
    } else {
        None
    }
}

proof fn lemma_digits_value_prefix(s: Seq<char>, i: int)
    requires
        0 <= i <= s.len(),
        all_digits(s),
    ensures
        digits_value(s.subrange(0, i)) <= digits_value(s),
    decreases s.len() - i,
{
    if i < s.len() {
        lemma_digits_value_prefix(s, i + 1);
        assert(s.subrange(0, i + 1).drop_last() =~= s.subrange(0, i));
    } else {
        assert(s.subrange(0, i) =~= s);
    }
}

fn digits_to_u64(d: &[char]) -> (r: Option<u64>)
    requires
        all_digits(d@),
    ensures
        match r {
            Some(n) => digits_value(d@) <= u64::MAX && n == digits_value(d@),
            None => digits_value(d@) > u64::MAX,
        },
{
    let mut acc: u64 = 0;
    let mut i: usize = 0;
    assert(d@.subrange(0, 0) =~= Seq::<char>::empty());
    while i < d.len()
        invariant
            all_digits(d@),
            0 <= i <= d.len(),
            acc == digits_value(d@.subrange(0, i as int)),
        decreases d.len() - i,
    {
        assert(d@.subrange(0, i + 1).drop_last() =~= d@.subrange(0, i as int));
        assert(is_digit(d@[i as int]));
        let dv = digit_of(d[i]);
        if acc > 1844674407370955161 || (acc == 1844674407370955161 && dv > 5) {
            proof {
                lemma_digits_value_prefix(d@, i + 1);
            }
            return None;
        }
        acc = acc * 10 + dv;
        i = i + 1;
    }
    assert(d@.subrange(0, d@.len() as int) =~= d@);
    Some(acc)
}

/// The value of one digit character.
pub fn digit_of(c: char) -> (r: u64)
    requires
        is_digit(c),
    ensures
        r == digit_val(c),
        r < 10,
{
    let v = c as u32;
    (v - 48) as u64
}

pub fn chars_parse_u64(s: &[char]) -> (r: Option<u64>)
    ensures
        r == parse_u64(s@),
{
    let d = if s.len() > 0 && s[0] == '+' {
        &s[1..s.len()]
    } else {
        s
    };
    assert(s.len() > 0 && s@[0] == '+' ==> d@ == s@.drop_first());
    if d.len() == 0 || !chars_all_digits(d) {
        return None;
    }
    digits_to_u64(d)
}

/// The character of a decimal digit.
pub open spec fn digit_char(d: nat) -> char {
    (d + 48) as char
}

/// The decimal representation of `n`, without leading zeros.
pub open spec fn decimal(n: nat) -> Seq<char>
    decreases n,
{
    if n < 10 {
        seq![digit_char(n)]
    } else {
        decimal(n / 10).push(digit_char(n % 10))
    }
}

fn digit_char_of(d: u64) -> (r: char)
    requires
        d < 10,
    ensures
        r == digit_char(d as nat),
{
    let b: u8 = (d as u8) + 48u8;
    b as char
}

/// Appends the decimal representation of `n` to `out`.
pub fn push_decimal(out: &mut Vec<char>, n: u64)
    ensures
        final(out)@ == old(out)@ + decimal(n as nat),
    decreases n,
{
    if n < 10 {
        out.push(digit_char_of(n));
    } else {
        push_decimal(out, n / 10);
        out.push(digit_char_of(n % 10));
        assert(final(out)@ =~= old(out)@ + decimal(n as nat));
    }
}

/// Facts about the decimal representation: it is made of digits, does not
/// start with `0` unless it is `0`, and reads back as `n`.
proof fn lemma_digit_char(k: nat)
    requires
        k < 10,
    ensures
        is_digit(digit_char(k)),
        digit_val(digit_char(k)) == k,
        k > 0 ==> digit_char(k) != '0',
{
    assert(digit_char(k) as int == k + 48);
}

pub proof fn lemma_decimal(n: nat)
    ensures
        decimal(n).len() >= 1,
        n >= 10 ==> decimal(n).len() >= 2,
        all_digits(decimal(n)),
        digits_value(decimal(n)) == n,
        decimal(n).len() > 1 ==> decimal(n)[0] != '0',
        n <= u64::MAX ==> parse_u64(decimal(n)) == Some(n as u64),
    decreases n,
{
    let d = decimal(n);
    if n >= 10 {
        lemma_decimal(n / 10);
        lemma_digit_char(n % 10);
        assert(d.drop_last() =~= decimal(n / 10));
        assert(d.last() == digit_char(n % 10));
        assert forall|i: int| 0 <= i < d.len() implies #[trigger] is_digit(d[i]) by {
            if i < d.len() - 1 {
                assert(d[i] == decimal(n / 10)[i]);
            }
        }
        if n / 10 < 10 {
            lemma_digit_char(n / 10);
            assert(decimal(n / 10) == seq![digit_char(n / 10)]);
        }
        assert(d[0] == decimal(n / 10)[0]);
        assert(digits_value(d) == 10 * digits_value(d.drop_last()) + digit_val(d.last()));
    } else {
        lemma_digit_char(n);
        assert(d.drop_last() =~= Seq::<char>::empty());
        assert(digits_value(d) == 10 * digits_value(d.drop_last()) + digit_val(d.last()));
    }
    assert(is_digit(d[0]));
}

} // verus!
