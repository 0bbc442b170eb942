//! Package file analysis — dependency version constraints from
//! package.json, Cargo.toml, pyproject.toml and go.mod contents, and
//! conflicts between constraints on the same package.

use crate::ecosystem::{
    ecosystem_name, range_outcome, try_parse_range, Ecosystem, Outcome, RangeFailure,
};
use crate::range::{all_void, range_meet, everything, IntervalSpec, VersionRange};
use crate::text::{
    chars_contains, chars_eq, chars_find, chars_find_sub, chars_lines, chars_of, chars_split, chars_starts_with,
    chars_trim, chars_words, contains, find_char, find_sub, lines, slice_views, split_char, starts_with,
    string_of, trim, words, decimal, push_decimal,
};
use crate::version::{concat_message, lex_compare, lex_order, push_chars, push_str, Order};
use crate::version_laws::{lemma_lex_chain, lemma_lex_equal, lemma_lex_reverse};
use vstd::prelude::*;

verus! {

/// A dependency entry found in a package file.
#[derive(Debug, Clone)]
pub struct Dependency {
    pub name: String,
    pub constraint: String,
    pub ecosystem: Ecosystem,
    pub section: String,  // e.g., "dependencies", "devDependencies"
}

/// The mathematical value of a [`Dependency`].
pub struct DependencySpec {
    pub name: Seq<char>,
    pub constraint: Seq<char>,
    pub ecosystem: Ecosystem,
    pub section: Seq<char>,
}

impl View for Dependency {
    type V = DependencySpec;

    open spec fn view(&self) -> DependencySpec {
        DependencySpec {
            name: self.name@,
            constraint: self.constraint@,
            ecosystem: self.ecosystem,
            section: self.section@,
        }
    }
}

/// The mathematical values of dependencies.
pub open spec fn deps_view(s: Seq<Dependency>) -> Seq<DependencySpec> {
    s.map_values(|d: Dependency| d@)
}

/// A version conflict between two constraints on the same package.
#[derive(Debug, Clone)]
pub struct Conflict {
    pub package: String,
    pub constraints: Vec<String>,
    pub intersection_empty: bool,
}

/// The mathematical value of a [`Conflict`].
pub struct ConflictSpec {
    pub package: Seq<char>,
    pub constraints: Seq<Seq<char>>,
    pub intersection_empty: bool,
}

impl View for Conflict {
    type V = ConflictSpec;

    open spec fn view(&self) -> ConflictSpec {
        ConflictSpec {
            package: self.package@,
            constraints: crate::version::ids_view(self.constraints@),
            intersection_empty: self.intersection_empty,
        }
    }
}

/// Analysis result for a package file.
#[derive(Debug, Clone)]
pub struct AnalysisResult {
    pub file: String,
    pub ecosystem: Ecosystem,
    pub dependencies: Vec<Dependency>,
    pub conflicts: Vec<Conflict>,
}

/// Errors during analysis.
#[derive(Debug)]
pub enum AnalyzeError {
    Io(String),
    Parse(String),
    UnknownFormat(String),
}

impl AnalyzeError {
    /// The message of this error.
    pub fn message(&self) -> (r: String)
        ensures
            r@ == match self {
                AnalyzeError::Io(m) => "IO error: "@ + m@,
                AnalyzeError::Parse(m) => "parse error: "@ + m@,
                AnalyzeError::UnknownFormat(m) => "unknown format: "@ + m@,
            },
    {
        match self {
            AnalyzeError::Io(m) => concat_message("IO error: ", m.as_str()),
            AnalyzeError::Parse(m) => concat_message("parse error: ", m.as_str()),
            AnalyzeError::UnknownFormat(m) => concat_message("unknown format: ", m.as_str()),
        }
    }
}

// ---------------------------------------------------------------------------
// Small text helpers
// ---------------------------------------------------------------------------

pub open spec fn strip_lead_quotes(s: Seq<char>) -> Seq<char>
    decreases s.len(),
{
    if s.len() > 0 && s[0] == '"' {
        strip_lead_quotes(s.drop_first())
    } else {
        s
    }
}

pub open spec fn strip_trail_quotes(s: Seq<char>) -> Seq<char>
    decreases s.len(),
{
    if s.len() > 0 && s.last() == '"' {
        strip_trail_quotes(s.drop_last())
    } else {
        s
    }
}

/// `str::trim_matches('"')`: every leading and trailing `"` removed.
pub open spec fn trim_quotes(s: Seq<char>) -> Seq<char> {
    strip_trail_quotes(strip_lead_quotes(s))
}

fn chars_trim_quotes(s: &[char]) -> (r: &[char])
    ensures
        r@ == trim_quotes(s@),
{
    let mut lo: usize = 0;
    assert(s@.subrange(0, s@.len() as int) =~= s@);
    while lo < s.len() && s[lo] == '"'
        invariant
            0 <= lo <= s.len(),
            strip_lead_quotes(s@) == strip_lead_quotes(s@.subrange(lo as int, s@.len() as int)),
        decreases s.len() - lo,
    {
        assert(s@.subrange(lo as int, s@.len() as int).drop_first() =~= s@.subrange(
            lo + 1,
            s@.len() as int,
        ));
        lo = lo + 1;
    }
    let mut hi: usize = s.len();
    while hi > lo && s[hi - 1] == '"'
        invariant
            lo <= hi <= s.len(),
            strip_lead_quotes(s@) == s@.subrange(lo as int, s@.len() as int),
            trim_quotes(s@) == strip_trail_quotes(s@.subrange(lo as int, hi as int)),
        decreases hi - lo,
    {
        assert(s@.subrange(lo as int, hi as int).drop_last() =~= s@.subrange(lo as int, hi - 1));
        hi = hi - 1;
    }
    &s[lo..hi]
}

pub open spec fn starts1(s: Seq<char>, a: char) -> bool {
    s.len() >= 1 && s[0] == a
}

fn chars_starts1(s: &[char], a: char) -> (r: bool)
    ensures
        r == starts1(s@, a),
{
    s.len() >= 1 && s[0] == a
}

// ---------------------------------------------------------------------------
// pip dependency strings and arrays
// ---------------------------------------------------------------------------

/// The smaller of two optional positions.
pub open spec fn earlier(a: Option<int>, b: Option<int>) -> Option<int> {
    match b {
        None => a,
        Some(p) => match a {
            None => Some(p),
            Some(q) => if p < q {
                Some(p)
            } else {
                Some(q)
            },
        },
    }
}

/// Where the version constraint of a PEP 508 string starts: the first
/// occurrence of any of `>=`, `<=`, `~=`, `==`, `!=`, `>`, `<`, `=`.
pub open spec fn constraint_start(t: Seq<char>) -> Option<int> {
    earlier(
        earlier(
            earlier(
                earlier(
                    earlier(
                        earlier(
                            earlier(find_sub(t, ">="@), find_sub(t, "<="@)),
                            find_sub(t, "~="@),
                        ),
                        find_sub(t, "=="@),
                    ),
                    find_sub(t, "!="@),
                ),
                find_sub(t, ">"@),
            ),
            find_sub(t, "<"@),
        ),
        find_sub(t, "="@),
    )
}

/// What `parse_pip_dep_string` gives: the package name (extras such as
/// `[extra]` cut off) and the constraint, `*` when there is none.
pub open spec fn pip_dep(s: Seq<char>) -> Option<(Seq<char>, Seq<char>)> {
    let t = trim(s);
    if t.len() == 0 {
        None
    } else {
        match constraint_start(t) {
            Some(pos) => {
                let name = trim(t.subrange(0, pos));
                let constraint = trim(t.subrange(pos, t.len() as int));
                if name.len() == 0 || constraint.len() == 0 {
                    None
                } else {
                    Some((split_char(name, '[')[0], constraint))
                }
            },
            None => {
                let name = trim(split_char(t, '[')[0]);
                if name.len() == 0 {
                    None
                } else {
                    Some((name, "*"@))
                }
            },
        }
    }
}

fn consider_op(best: Option<usize>, t: &[char], op: &str) -> (r: Option<usize>)
    ensures
        match r {
            Some(p) => earlier(
                match best {
                    Some(b) => Some(b as int),
                    None => None,
                },
                find_sub(t@, op@),
            ) == Some(p as int),
            None => earlier(
                match best {
                    Some(b) => Some(b as int),
                    None => None,
                },
                find_sub(t@, op@),
            ) is None,
        },
{
    let o = chars_of(op);
    match chars_find_sub(t, o.as_slice()) {
        Some(pos) => match best {
            None => Some(pos),
            Some(q) => if pos < q {
                Some(pos)
            } else {
                Some(q)
            },
        },
        None => best,
    }
}

fn first_piece<'a>(s: &'a [char], c: char) -> (r: &'a [char])
    ensures
        r@ == split_char(s@, c)[0],
{
    let pieces = chars_split(s, c);
    proof {
        crate::text::lemma_split_char_nonempty(s@, c);
    }
    assert(slice_views(pieces@)[0] == pieces@[0]@);
    pieces[0]
}

/// Parse a PEP 508 dependency string like "package>=1.0,<2.0" or "package[extra]>=1.0".
/// Returns (name, constraint) or None.
pub fn parse_pip_dep_string(s: &str) -> (r: Option<(String, String)>)
    ensures
        match r {
            Some((n, c)) => pip_dep(s@) == Some((n@, c@)),
            None => pip_dep(s@) is None,
        },
{
    let all = chars_of(s);
    let t = chars_trim(all.as_slice());
    if t.len() == 0 {
        return None;
    }
    let mut split_pos: Option<usize> = None;
    split_pos = consider_op(split_pos, t, ">=");
    split_pos = consider_op(split_pos, t, "<=");
    split_pos = consider_op(split_pos, t, "~=");
    split_pos = consider_op(split_pos, t, "==");
    split_pos = consider_op(split_pos, t, "!=");
    split_pos = consider_op(split_pos, t, ">");
    split_pos = consider_op(split_pos, t, "<");
    split_pos = consider_op(split_pos, t, "=");
    match split_pos {
        Some(pos) => {
            proof {
                crate::text::lemma_find_sub(t@, "="@);
                crate::text::lemma_find_sub(t@, "<"@);
                crate::text::lemma_find_sub(t@, ">"@);
                crate::text::lemma_find_sub(t@, "!="@);
                crate::text::lemma_find_sub(t@, "=="@);
                crate::text::lemma_find_sub(t@, "~="@);
                crate::text::lemma_find_sub(t@, "<="@);
                crate::text::lemma_find_sub(t@, ">="@);
            }
            assert(pos <= t.len());
            let name = chars_trim(&t[0..pos]);
            let constraint = chars_trim(&t[pos..t.len()]);
            if name.len() == 0 || constraint.len() == 0 {
                None
            } else {
                let base = first_piece(name, '[');
                Some((string_of(base), string_of(constraint)))
            }
        },
        None => {
            let name = chars_trim(first_piece(t, '['));
            if name.len() == 0 {
                None
            } else {
                Some((string_of(name), "*".to_owned()))
            }
        },
    }
}

/// The strings between pairs of double quotes, in order (an unclosed
/// quote at the end yields nothing).
pub open spec fn quoted_strings(s: Seq<char>) -> Seq<Seq<char>> {
    let p = split_char(s, '"');
    Seq::new(((p.len() - 1) / 2) as nat, |k: int| p[2 * k + 1])
}

/// The dependencies that the quoted PEP 508 strings of `array` give, in
/// order, with ecosystem pip and the given section.
pub open spec fn pip_array_deps(array: Seq<char>, section: Seq<char>) -> Seq<DependencySpec>
    decreases quoted_strings(array).len(),
{
    pip_deps_of(quoted_strings(array), quoted_strings(array).len() as int, section)
}

/// The dependencies from the first `k` strings.
pub open spec fn pip_deps_of(qs: Seq<Seq<char>>, k: int, section: Seq<char>) -> Seq<DependencySpec>
    decreases k,
{
    if k <= 0 {
        seq![]
    } else {
        pip_deps_of(qs, k - 1, section) + match pip_dep(qs[k - 1]) {
            Some((n, c)) => seq![
                DependencySpec { name: n, constraint: c, ecosystem: Ecosystem::Pip, section },
            ],
            None => seq![],
        }
    }
}

/// Parse a PEP 621 dependency array (e.g., ["package>=1.0,<2.0", "other~=3.0"]).
fn parse_pip_dep_array(array_str: &[char], deps: &mut Vec<Dependency>, section: &[char])
    ensures
        deps_view(final(deps)@) == deps_view(old(deps)@) + pip_array_deps(array_str@, section@),
{
    let pieces = chars_split(array_str, '"');
    proof {
        crate::text::lemma_split_char_nonempty(array_str@, '"');
    }
    let ghost pv = slice_views(pieces@);
    let ghost qs = quoted_strings(array_str@);
    let pairs = (pieces.len() - 1) / 2;
    let mut k: usize = 0;
    while k < pairs
        invariant
            pv == slice_views(pieces@),
            pv == split_char(array_str@, '"'),
            qs == quoted_strings(array_str@),
            pairs == (pieces.len() - 1) / 2,
            qs.len() == pairs,
            0 <= k <= pairs,
            deps_view(deps@) == deps_view(old(deps)@) + pip_deps_of(qs, k as int, section@),
        decreases pairs - k,
    {
        let piece = pieces[2 * k + 1];
        assert(qs[k as int] == pv[2 * k + 1]);
        assert(pv[2 * k + 1] == piece@);
        let current = string_of(piece);
        let ghost before = deps@;
        match parse_pip_dep_string(current.as_str()) {
            Some((name, constraint)) => {
                deps.push(
                    Dependency {
                        name,
                        constraint,
                        ecosystem: Ecosystem::Pip,
                        section: string_of(section),
                    },
                );
                let ghost d = DependencySpec {
                    name: name@,
                    constraint: constraint@,
                    ecosystem: Ecosystem::Pip,
                    section: section@,
                };
                assert(deps_view(deps@) =~= deps_view(before).push(d));
                assert(pip_deps_of(qs, k + 1, section@) =~= pip_deps_of(qs, k as int, section@)
                    + seq![d]);
                assert(deps_view(deps@) =~= deps_view(old(deps)@) + pip_deps_of(
                    qs,
                    k + 1,
                    section@,
                ));
            },
            None => {
                assert(pip_deps_of(qs, k + 1, section@) =~= pip_deps_of(qs, k as int, section@));
            },
        }
        k = k + 1;
    }
}

// ---------------------------------------------------------------------------
// Go module lines
// ---------------------------------------------------------------------------

/// What `parse_go_dep` gives: the first two words as name and version,
/// the version without a leading `v`.
pub open spec fn go_dep(line: Seq<char>) -> Option<DependencySpec> {
    let p = words(line);
    if p.len() < 2 {
        None
    } else {
        Some(
            DependencySpec {
                name: p[0],
                constraint: if starts1(p[1], 'v') {
                    p[1].drop_first()
                } else {
                    p[1]
                },
                ecosystem: Ecosystem::Cargo,
                section: "require"@,
            },
        )
    }
}

/// Parse a Go module dependency line: "github.com/pkg/errors v1.0.0"
fn parse_go_dep(line: &[char]) -> (r: Option<Dependency>)
    ensures
        match r {
            Some(d) => go_dep(line@) == Some(d@),
            None => go_dep(line@) is None,
        },
{
    let parts = chars_words(line);
    if parts.len() < 2 {
        return None;
    }
    assert(slice_views(parts@)[0] == parts@[0]@);
    assert(slice_views(parts@)[1] == parts@[1]@);
    let name = string_of(parts[0]);
    let version = parts[1];
    let constraint: &[char] = if chars_starts1(version, 'v') {
        &version[1..version.len()]
    } else {
        version
    };
    assert(starts1(version@, 'v') ==> constraint@ =~= version@.drop_first());
    Some(
        Dependency {
            name,
            constraint: string_of(constraint),
            ecosystem: Ecosystem::Cargo,
            section: "require".to_owned(),
        },
    )
}

// ---------------------------------------------------------------------------
// Conflicts
// ---------------------------------------------------------------------------

/// The mathematical values of conflicts.
pub open spec fn conflicts_view(s: Seq<Conflict>) -> Seq<ConflictSpec> {
    s.map_values(|c: Conflict| c@)
}

/// The mathematical values of borrowed dependencies.
pub open spec fn ref_views<'a>(s: Seq<&'a Dependency>) -> Seq<DependencySpec> {
    s.map_values(|d: &'a Dependency| d@)
}

/// The dependencies of `deps` named `name`, in their order.
pub open spec fn group_of(deps: Seq<DependencySpec>, name: Seq<char>) -> Seq<DependencySpec>
    decreases deps.len(),
{
    if deps.len() == 0 {
        seq![]
    } else if deps.last().name == name {
        group_of(deps.drop_last(), name).push(deps.last())
    } else {
        group_of(deps.drop_last(), name)
    }
}

/// What parsing the constraint of `d` in its ecosystem gives.
pub open spec fn dep_outcome(d: DependencySpec) -> Outcome<Seq<IntervalSpec>> {
    range_outcome(d.constraint, d.ecosystem)
}

/// No constraint of the group has a bound too large for `u64`.
pub open spec fn group_fits(g: Seq<DependencySpec>) -> bool {
    forall|i: int|
        0 <= i < g.len() ==> dep_outcome(#[trigger] g[i]) != Err::<
            Seq<IntervalSpec>,
            Option<RangeFailure>,
        >(None)
}

/// Every package that occurs at least twice has constraints whose bounds
/// fit a `u64` (the inputs on which conflict detection does not panic).
pub open spec fn ranges_fit(deps: Seq<DependencySpec>) -> bool {
    forall|k: int|
        0 <= k < deps.len() && #[trigger] group_of(deps, deps[k].name).len() >= 2 ==> group_fits(
            group_of(deps, deps[k].name),
        )
}

/// The intersection of the ranges of a group, starting from all versions;
/// a constraint that does not parse is left out.
pub open spec fn combined_range(g: Seq<DependencySpec>) -> Seq<IntervalSpec>
    decreases g.len(),
{
    if g.len() == 0 {
        seq![everything()]
    } else {
        match dep_outcome(g.last()) {
            Ok(r) => range_meet(combined_range(g.drop_last()), r),
            Err(_) => combined_range(g.drop_last()),
        }
    }
}

/// The package `name` occurs at least twice and its ranges have an empty
/// intersection.
pub open spec fn in_conflict(deps: Seq<DependencySpec>, name: Seq<char>) -> bool {
    group_of(deps, name).len() >= 2 && all_void(combined_range(group_of(deps, name)))
}

/// The conflict reported for package `name`.
pub open spec fn conflict_for(deps: Seq<DependencySpec>, name: Seq<char>) -> ConflictSpec {
    ConflictSpec {
        package: name,
        constraints: group_of(deps, name).map_values(|d: DependencySpec| d.constraint),
        intersection_empty: true,
    }
}

/// Strictly ascending by package name.
pub open spec fn ascending_packages(out: Seq<ConflictSpec>) -> bool {
    forall|i: int, j: int|
        0 <= i < j < out.len() ==> lex_order(#[trigger] out[i].package, #[trigger] out[j].package)
            == Order::Less
}

/// `out` lists the conflicts of `deps`: one for each package in conflict,
/// in ascending order of package name, and nothing else.
pub open spec fn is_conflict_list(deps: Seq<DependencySpec>, out: Seq<ConflictSpec>) -> bool {
    &&& ascending_packages(out)
    &&& forall|i: int|
        0 <= i < out.len() ==> in_conflict(deps, #[trigger] out[i].package) && out[i]
            == conflict_for(deps, out[i].package)
    &&& forall|k: int|
        0 <= k < deps.len() && in_conflict(deps, #[trigger] deps[k].name) ==> exists|i: int|
            0 <= i < out.len() && #[trigger] out[i].package == deps[k].name
}

/// Strictly ascending names.
pub open spec fn ascending_names(names: Seq<String>) -> bool {
    forall|i: int, j: int|
        0 <= i < j < names.len() ==> lex_order(#[trigger] names[i]@, #[trigger] names[j]@)
            == Order::Less
}

/// Where `n` stands in the ascending `names`: the first position whose
/// name is not below `n`, and whether the name there is `n`.
fn name_position(names: &Vec<String>, n: &[char]) -> (r: (usize, bool))
    requires
        ascending_names(names@),
    ensures
        r.0 <= names.len(),
        forall|i: int| 0 <= i < r.0 ==> lex_order(#[trigger] names@[i]@, n@) == Order::Less,
        r.1 ==> r.0 < names.len() && names@[r.0 as int]@ == n@,
        !r.1 ==> forall|i: int|
            r.0 <= i < names.len() ==> lex_order(n@, #[trigger] names@[i]@) == Order::Less,
{
    let mut p: usize = 0;
    while p < names.len()
        invariant
            p <= names.len(),
            ascending_names(names@),
            forall|i: int| 0 <= i < p ==> lex_order(#[trigger] names@[i]@, n@) == Order::Less,
        decreases names.len() - p,
    {
        let pc = chars_of(names[p].as_str());
        match lex_compare(pc.as_slice(), n) {
            Order::Less => {
                p = p + 1;
            },
            Order::Equal => {
                proof {
                    lemma_lex_equal(names@[p as int]@, n@);
                }
                return (p, true);
            },
            Order::Greater => {
                proof {
                    lemma_lex_reverse(names@[p as int]@, n@);
                    assert forall|i: int| p <= i < names.len() implies lex_order(
                        n@,
                        #[trigger] names@[i]@,
                    ) == Order::Less by {
                        if i > p {
                            lemma_lex_chain(n@, names@[p as int]@, names@[i]@);
                        }
                    }
                }
                return (p, false);
            },
        }
    }
    (p, false)
}

/// The strings of `keys`, each once, in ascending order, with where each
/// came from and where each key went.
fn distinct_sorted(keys: &Vec<String>) -> (r: (Vec<String>, Ghost<Seq<int>>, Ghost<Seq<int>>))
    ensures
        ascending_names(r.0@),
        r.1@.len() == r.0.len(),
        r.2@.len() == keys.len(),
        forall|i: int|
            0 <= i < r.0.len() ==> 0 <= #[trigger] r.1@[i] < keys.len() && keys@[r.1@[i]]@
                == r.0@[i]@,
        forall|k: int|
            0 <= k < keys.len() ==> 0 <= #[trigger] r.2@[k] < r.0.len() && r.0@[r.2@[k]]@
                == keys@[k]@,
{
    let ghost dv = keys@.map_values(|s: String| s@);
    let mut names: Vec<String> = Vec::new();
    let ghost mut wit: Seq<int> = seq![];
    let ghost mut pos: Seq<int> = seq![];
    let mut k: usize = 0;
    while k < keys.len()
        invariant
            k <= keys.len(),
            dv == keys@.map_values(|s: String| s@),
            ascending_names(names@),
            wit.len() == names.len(),
            pos.len() == k,
            forall|i: int|
                0 <= i < names.len() ==> 0 <= #[trigger] wit[i] < k && dv[wit[i]]
                    == names@[i]@,
            forall|j: int|
                0 <= j < k ==> 0 <= #[trigger] pos[j] < names.len() && names@[pos[j]]@
                    == dv[j],
        decreases keys.len() - k,
    {
        let nc = chars_of(keys[k].as_str());
        let (p, found) = name_position(&names, nc.as_slice());
        assert(dv[k as int] == keys@[k as int]@);
        if found {
            proof {
                pos = pos.push(p as int);
            }
        } else {
            let ghost old_names = names@;
            let ghost old_pos = pos;
            let ghost old_wit = wit;
            names.insert(p, keys[k].clone());
            assert(names@ == old_names.insert(p as int, keys@[k as int]));
            proof {
                wit = old_wit.insert(p as int, k as int);
                pos = old_pos.map_values(|x: int| if x >= p { x + 1 } else { x }).push(p as int);
            }
            assert forall|i: int, j: int| 0 <= i < j < names.len() implies lex_order(
                #[trigger] names@[i]@,
                #[trigger] names@[j]@,
            ) == Order::Less by {
                if j < p {
                    assert(names@[i] == old_names[i] && names@[j] == old_names[j]);
                } else if j == p {
                    assert(names@[i] == old_names[i]);
                } else if i == p {
                    assert(names@[j] == old_names[j - 1]);
                } else if i < p {
                    assert(names@[i] == old_names[i] && names@[j] == old_names[j - 1]);
                } else {
                    assert(names@[i] == old_names[i - 1] && names@[j] == old_names[j - 1]);
                }
            }
            assert forall|i: int| 0 <= i < names.len() implies 0 <= #[trigger] wit[i] < k + 1
                && dv[wit[i]] == names@[i]@ by {
                if i < p {
                    assert(wit[i] == old_wit[i] && names@[i] == old_names[i]);
                } else if i > p {
                    assert(wit[i] == old_wit[i - 1] && names@[i] == old_names[i - 1]);
                }
            }
            assert forall|j: int| 0 <= j < k + 1 implies 0 <= #[trigger] pos[j] < names.len()
                && names@[pos[j]]@ == dv[j] by {
                if j < k {
                    let x = old_pos[j];
                    if x >= p {
                        assert(names@[x + 1] == old_names[x]);
                    } else {
                        assert(names@[x] == old_names[x]);
                    }
                }
            }
        }
        k = k + 1;
    }
    assert forall|i: int| 0 <= i < names.len() implies 0 <= #[trigger] wit[i] < keys.len()
        && keys@[wit[i]]@ == names@[i]@ by {
        assert(dv[wit[i]] == keys@[wit[i]]@);
    }
    assert forall|j: int| 0 <= j < keys.len() implies 0 <= #[trigger] pos[j] < names.len()
        && names@[pos[j]]@ == keys@[j]@ by {
        assert(dv[j] == keys@[j]@);
    }
    (names, Ghost(wit), Ghost(pos))
}

/// The names of the dependencies, in order.
fn dep_names(deps: &[Dependency]) -> (r: Vec<String>)
    ensures
        r.len() == deps.len(),
        forall|k: int| 0 <= k < deps.len() ==> (#[trigger] r@[k])@ == deps@[k].name@,
{
    let mut r: Vec<String> = Vec::new();
    let mut k: usize = 0;
    while k < deps.len()
        invariant
            k <= deps.len(),
            r.len() == k,
            forall|j: int| 0 <= j < k ==> (#[trigger] r@[j])@ == deps@[j].name@,
        decreases deps.len() - k,
    {
        r.push(deps[k].name.clone());
        k = k + 1;
    }
    r
}

/// The sections of the dependencies, in order.
fn dep_sections(deps: &[Dependency]) -> (r: Vec<String>)
    ensures
        r.len() == deps.len(),
        forall|k: int| 0 <= k < deps.len() ==> (#[trigger] r@[k])@ == deps@[k].section@,
{
    let mut r: Vec<String> = Vec::new();
    let mut k: usize = 0;
    while k < deps.len()
        invariant
            k <= deps.len(),
            r.len() == k,
            forall|j: int| 0 <= j < k ==> (#[trigger] r@[j])@ == deps@[j].section@,
        decreases deps.len() - k,
    {
        r.push(deps[k].section.clone());
        k = k + 1;
    }
    r
}

/// The dependencies of `deps` named `name`, in their order.
fn group_members<'a>(deps: &'a [Dependency], name: &String) -> (g: Vec<&'a Dependency>)
    ensures
        ref_views(g@) == group_of(deps_view(deps@), name@),
{
    let ghost dv = deps_view(deps@);
    let mut g: Vec<&'a Dependency> = Vec::new();
    let mut k: usize = 0;
    assert(dv.take(0) =~= Seq::<DependencySpec>::empty());
    while k < deps.len()
        invariant
            k <= deps.len(),
            dv == deps_view(deps@),
            ref_views(g@) == group_of(dv.take(k as int), name@),
        decreases deps.len() - k,
    {
        assert(dv.take(k + 1).drop_last() =~= dv.take(k as int));
        assert(dv.take(k + 1).last() == deps@[k as int]@);
        if deps[k].name == *name {
            g.push(&deps[k]);
            assert(ref_views(g@) =~= group_of(dv.take(k as int), name@).push(deps@[k as int]@));
        }
        k = k + 1;
    }
    assert(dv.take(deps.len() as int) =~= dv);
    g
}

/// The intersection of the ranges of a group, or `None` where a bound
/// does not fit a `u64`.
fn group_range(g: &Vec<&Dependency>) -> (r: Option<VersionRange>)
    ensures
        match r {
            Some(range) => group_fits(ref_views(g@)) && range@ == combined_range(ref_views(g@)),
            None => !group_fits(ref_views(g@)),
        },
{
    let ghost gv = ref_views(g@);
    let mut combined = VersionRange::all();
    let mut i: usize = 0;
    assert(gv.take(0) =~= Seq::<DependencySpec>::empty());
    while i < g.len()
        invariant
            i <= g.len(),
            gv == ref_views(g@),
            group_fits(gv.take(i as int)),
            combined@ == combined_range(gv.take(i as int)),
        decreases g.len() - i,
    {
        assert(gv.take(i + 1).drop_last() =~= gv.take(i as int));
        assert(gv.take(i + 1).last() == gv[i as int]);
        assert(gv[i as int] == g@[i as int]@);
        match try_parse_range(g[i].constraint.as_str(), g[i].ecosystem) {
            None => {
                assert(dep_outcome(gv[i as int]) == Err::<
                    Seq<IntervalSpec>,
                    Option<RangeFailure>,
                >(None));
                return None;
            },
            Some(Ok(range)) => {
                combined = combined.intersect(&range);
            },
            Some(Err(_)) => {},
        }
        assert forall|j: int| 0 <= j < i + 1 implies dep_outcome(#[trigger] gv.take(i + 1)[j])
            != Err::<Seq<IntervalSpec>, Option<RangeFailure>>(None) by {
            if j < i {
                assert(gv.take(i + 1)[j] == gv.take(i as int)[j]);
            }
        }
        i = i + 1;
    }
    assert(gv.take(g.len() as int) =~= gv);
    Some(combined)
}

/// The constraints of a group, in order.
fn group_constraints(g: &Vec<&Dependency>) -> (r: Vec<String>)
    ensures
        crate::version::ids_view(r@) == ref_views(g@).map_values(|d: DependencySpec| d.constraint),
{
    let mut r: Vec<String> = Vec::new();
    let mut i: usize = 0;
    while i < g.len()
        invariant
            i <= g.len(),
            crate::version::ids_view(r@) == ref_views(g@).take(i as int).map_values(
                |d: DependencySpec| d.constraint,
            ),
        decreases g.len() - i,
    {
        let ghost before = r@;
        r.push(g[i].constraint.clone());
        assert(crate::version::ids_view(r@) =~= crate::version::ids_view(before).push(
            g@[i as int].constraint@,
        ));
        assert(ref_views(g@).take(i + 1) =~= ref_views(g@).take(i as int).push(g@[i as int]@));
        assert(ref_views(g@).take(i + 1).map_values(|d: DependencySpec| d.constraint)
            =~= ref_views(g@).take(i as int).map_values(|d: DependencySpec| d.constraint).push(
            g@[i as int]@.constraint,
        ));
        i = i + 1;
    }
    assert(ref_views(g@).take(g.len() as int) =~= ref_views(g@));
    r
}

/// The conflicts among `deps`: for each package named at least twice whose
/// constraints have no version in common, the package and its constraints,
/// in ascending order of package name. `None` where a constraint of such a
/// package has a bound too large for `u64`.
pub fn find_conflicts(deps: &[Dependency]) -> (r: Option<Vec<Conflict>>)
    ensures
        match r {
            Some(out) => ranges_fit(deps_view(deps@)) && is_conflict_list(
                deps_view(deps@),
                conflicts_view(out@),
            ),
            None => !ranges_fit(deps_view(deps@)),
        },
{
    let ghost dv = deps_view(deps@);
    let keys = dep_names(deps);
    let (names, Ghost(wit), Ghost(pos)) = distinct_sorted(&keys);
    assert forall|a: int| 0 <= a < names.len() implies 0 <= #[trigger] wit[a] < deps.len()
        && deps@[wit[a]].name@ == names@[a]@ by {
        assert(keys@[wit[a]]@ == deps@[wit[a]].name@);
    }
    assert forall|k: int| 0 <= k < deps.len() implies 0 <= #[trigger] pos[k] < names.len()
        && names@[pos[k]]@ == deps@[k].name@ by {
        assert(keys@[k]@ == deps@[k].name@);
    }
    let mut out: Vec<Conflict> = Vec::new();
    let ghost mut src: Seq<int> = seq![];
    let ghost mut slot: Seq<int> = seq![];
    let mut i: usize = 0;
    while i < names.len()
        invariant
            i <= names.len(),
            dv == deps_view(deps@),
            ascending_names(names@),
            wit.len() == names.len(),
            pos.len() == deps.len(),
            forall|a: int|
                0 <= a < names.len() ==> 0 <= #[trigger] wit[a] < deps.len()
                    && deps@[wit[a]].name@ == names@[a]@,
            forall|k: int|
                0 <= k < deps.len() ==> 0 <= #[trigger] pos[k] < names.len() && names@[pos[k]]@
                    == deps@[k].name@,
            ascending_packages(conflicts_view(out@)),
            src.len() == out.len(),
            slot.len() == i,
            forall|a: int|
                0 <= a < out.len() ==> 0 <= #[trigger] src[a] < i && names@[src[a]]@
                    == conflicts_view(out@)[a].package,
            forall|a: int|
                0 <= a < out.len() ==> in_conflict(dv, #[trigger] conflicts_view(out@)[a].package)
                    && conflicts_view(out@)[a] == conflict_for(dv, conflicts_view(out@)[a].package),
            forall|b: int|
                0 <= b < i && in_conflict(dv, names@[b]@) ==> 0 <= #[trigger] slot[b] < out.len()
                    && conflicts_view(out@)[slot[b]].package == names@[b]@,
            forall|b: int|
                0 <= b < i && group_of(dv, names@[b]@).len() >= 2 ==> #[trigger] group_fits(
                    group_of(dv, names@[b]@),
                ),
        decreases names.len() - i,
    {
        let g = group_members(deps, &names[i]);
        let ghost old_out = conflicts_view(out@);
        let ghost old_src = src;
        let ghost old_slot = slot;
        let ghost n = names@[i as int]@;
        if g.len() >= 2 {
            match group_range(&g) {
                None => {
                    proof {
                        let k = wit[i as int];
                        assert(dv[k].name == n);
                        assert(group_of(dv, dv[k].name).len() >= 2);
                        assert(!ranges_fit(dv));
                    }
                    return None;
                },
                Some(combined) => {
                    if combined.is_empty() {
                        let c = Conflict {
                            package: names[i].clone(),
                            constraints: group_constraints(&g),
                            intersection_empty: true,
                        };
                        out.push(c);
                        proof {
                            src = old_src.push(i as int);
                            slot = old_slot.push(old_out.len() as int);
                            let nv = conflicts_view(out@);
                            assert(nv =~= old_out.push(c@));
                            assert(c@ =~= conflict_for(dv, n));
                            assert forall|a: int, b: int| 0 <= a < b < nv.len() implies lex_order(
                                #[trigger] nv[a].package,
                                #[trigger] nv[b].package,
                            ) == Order::Less by {
                                assert(nv[a] == old_out[a]);
                                if b < nv.len() - 1 {
                                    assert(nv[b] == old_out[b]);
                                } else {
                                    assert(names@[old_src[a]]@ == old_out[a].package);
                                }
                            }
                            assert forall|a: int| 0 <= a < out.len() implies 0 <= #[trigger] src[a]
                                < i + 1 && names@[src[a]]@ == nv[a].package by {
                                if a < out.len() - 1 {
                                    assert(src[a] == old_src[a] && nv[a] == old_out[a]);
                                }
                            }
                            assert forall|a: int| 0 <= a < out.len() implies in_conflict(
                                dv,
                                #[trigger] nv[a].package,
                            ) && nv[a] == conflict_for(dv, nv[a].package) by {
                                if a < out.len() - 1 {
                                    assert(nv[a] == old_out[a]);
                                }
                            }
                            assert forall|b: int| 0 <= b < i + 1 && in_conflict(dv, names@[b]@)
                                implies 0 <= #[trigger] slot[b] < out.len()
                                && nv[slot[b]].package == names@[b]@ by {
                                if b < i {
                                    assert(slot[b] == old_slot[b]);
                                    assert(nv[slot[b]] == old_out[slot[b]]);
                                }
                            }
                        }
                    } else {
                        proof {
                            slot = old_slot.push(0);
                        }
                    }
                },
            }
        } else {
            proof {
                slot = old_slot.push(0);
            }
        }
        i = i + 1;
    }
    proof {
        let cv = conflicts_view(out@);
        assert forall|k: int|
            0 <= k < dv.len() && #[trigger] group_of(dv, dv[k].name).len() >= 2 implies group_fits(
            group_of(dv, dv[k].name),
        ) by {
            assert(names@[pos[k]]@ == dv[k].name);
        }
        assert forall|k: int|
            0 <= k < dv.len() && in_conflict(dv, #[trigger] dv[k].name) implies exists|a: int|
            0 <= a < cv.len() && #[trigger] cv[a].package == dv[k].name by {
            assert(names@[pos[k]]@ == dv[k].name);
            let a = slot[pos[k]];
            assert(cv[a].package == dv[k].name);
        }
    }
    Some(out)
}

/// Detect conflicts: same package with incompatible version constraints.
pub fn detect_conflicts(deps: &[Dependency], _path: &str) -> (r: Vec<Conflict>)
    requires
        ranges_fit(deps_view(deps@)),
    ensures
        is_conflict_list(deps_view(deps@), conflicts_view(r@)),
{
    match find_conflicts(deps) {
        Some(out) => out,
        None => Vec::new(),
    }
}

// ---------------------------------------------------------------------------
// Line-based package files
// ---------------------------------------------------------------------------

/// A dependency with the given parts.
pub open spec fn dep_spec(
    name: Seq<char>,
    constraint: Seq<char>,
    ecosystem: Ecosystem,
    section: Seq<char>,
) -> DependencySpec {
    DependencySpec { name, constraint, ecosystem, section }
}

/// The section a `[...]` header line opens, if the line is one.
pub open spec fn section_header(line: Seq<char>) -> Option<Seq<char>> {
    if line.len() >= 2 && line[0] == '[' && line.last() == ']' {
        Some(line.subrange(1, line.len() - 1))
    } else {
        None
    }
}

fn header_of(line: &[char]) -> (r: Option<&[char]>)
    ensures
        match r {
            Some(sec) => section_header(line@) == Some(sec@),
            None => section_header(line@) is None,
        },
{
    if line.len() >= 1 && line[0] == '[' && line[line.len() - 1] == ']' {
        if line.len() >= 2 {
            Some(&line[1..line.len() - 1])
        } else {
            None
        }
    } else {
        None
    }
}

/// The version in an inline table such as `{ version = "4.5", ... }`: the
/// text between the first two double quotes after the word `version`.
pub open spec fn inline_version(value: Seq<char>) -> Option<Seq<char>> {
    match find_sub(value, "version"@) {
        None => None,
        Some(vs) => {
            let rest = value.subrange(vs, value.len() as int);
            match find_char(rest, '"') {
                None => None,
                Some(q1) => {
                    let tail = rest.subrange(q1 + 1, rest.len() as int);
                    match find_char(tail, '"') {
                        None => None,
                        Some(q2) => Some(tail.subrange(0, q2)),
                    }
                },
            }
        },
    }
}

fn inline_version_of(value: &[char]) -> (r: Option<&[char]>)
    ensures
        match r {
            Some(v) => inline_version(value@) == Some(v@),
            None => inline_version(value@) is None,
        },
{
    let word = chars_of("version");
    match chars_find_sub(value, word.as_slice()) {
        None => None,
        Some(vs) => {
            proof {
                crate::text::lemma_find_sub(value@, word@);
            }
            let rest = &value[vs..value.len()];
            match chars_find(rest, '"') {
                None => None,
                Some(q1) => {
                    proof {
                        crate::text::lemma_find_char(rest@, '"');
                    }
                    let tail = &rest[q1 + 1..rest.len()];
                    match chars_find(tail, '"') {
                        None => None,
                        Some(q2) => {
                            proof {
                                crate::text::lemma_find_char(tail@, '"');
                            }
                            Some(&tail[0..q2])
                        },
                    }
                },
            }
        },
    }
}

/// The dependency a `name = "version"` or `name = { version = "..." }`
/// line of a TOML table gives.
pub open spec fn table_entry(line: Seq<char>, section: Seq<char>, eco: Ecosystem) -> Option<
    DependencySpec,
> {
    match find_char(line, '=') {
        None => None,
        Some(eq) => {
            let key = trim_quotes(trim(line.subrange(0, eq)));
            let value = trim(line.subrange(eq + 1, line.len() as int));
            if starts1(value, '"') {
                let version = trim_quotes(value);
                if version.len() > 0 {
                    Some(dep_spec(key, version, eco, section))
                } else {
                    None
                }
            } else if starts1(value, '{') {
                match inline_version(value) {
                    Some(version) => Some(dep_spec(key, version, eco, section)),
                    None => None,
                }
            } else {
                None
            }
        },
    }
}

fn parse_table_entry(line: &[char], section: &[char], eco: Ecosystem) -> (r: Option<Dependency>)
    ensures
        match r {
            Some(d) => table_entry(line@, section@, eco) == Some(d@),
            None => table_entry(line@, section@, eco) is None,
        },
{
    match chars_find(line, '=') {
        None => None,
        Some(eq) => {
            proof {
                crate::text::lemma_find_char(line@, '=');
            }
            let n = line.len();
            assert(eq < n);
            let key = chars_trim_quotes(chars_trim(&line[0..eq]));
            let value = chars_trim(&line[eq + 1..n]);
            if chars_starts1(value, '"') {
                let version = chars_trim_quotes(value);
                if version.len() > 0 {
                    Some(
                        Dependency {
                            name: string_of(key),
                            constraint: string_of(version),
                            ecosystem: eco,
                            section: string_of(section),
                        },
                    )
                } else {
                    None
                }
            } else if chars_starts1(value, '{') {
                match inline_version_of(value) {
                    Some(version) => Some(
                        Dependency {
                            name: string_of(key),
                            constraint: string_of(version),
                            ecosystem: eco,
                            section: string_of(section),
                        },
                    ),
                    None => None,
                }
            } else {
                None
            }
        },
    }
}

/// The sections of a Cargo manifest whose entries are dependencies.
pub open spec fn cargo_dep_section(section: Seq<char>) -> bool {
    ||| section == "dependencies"@
    ||| section == "dev-dependencies"@
    ||| section == "build-dependencies"@
    ||| starts_with(section, "dependencies."@)
}

fn is_cargo_dep_section(section: &[char]) -> (r: bool)
    ensures
        r == cargo_dep_section(section@),
{
    let a = chars_of("dependencies");
    let b = chars_of("dev-dependencies");
    let c = chars_of("build-dependencies");
    let d = chars_of("dependencies.");
    chars_eq(section, a.as_slice()) || chars_eq(section, b.as_slice()) || chars_eq(
        section,
        c.as_slice(),
    ) || chars_starts_with(section, d.as_slice())
}

/// One line of a Cargo manifest read, given the current section and the
/// dependencies so far.
pub open spec fn cargo_step(
    state: (Seq<char>, Seq<DependencySpec>),
    raw: Seq<char>,
) -> (Seq<char>, Seq<DependencySpec>) {
    let line = trim(raw);
    match section_header(line) {
        Some(sec) => (sec, state.1),
        None => if cargo_dep_section(state.0) {
            match table_entry(line, state.0, Ecosystem::Cargo) {
                Some(d) => (state.0, state.1.push(d)),
                None => state,
            }
        } else {
            state
        },
    }
}

/// The section and dependencies after reading the lines `ls`.
pub open spec fn cargo_scan(ls: Seq<Seq<char>>) -> (Seq<char>, Seq<DependencySpec>)
    decreases ls.len(),
{
    if ls.len() == 0 {
        (seq![], seq![])
    } else {
        cargo_step(cargo_scan(ls.drop_last()), ls.last())
    }
}

/// The dependencies of a Cargo manifest, in the order of its lines.
pub open spec fn cargo_deps(content: Seq<char>) -> Seq<DependencySpec> {
    cargo_scan(lines(content)).1
}

/// What an analysis of dependencies `deps` found in file `path` with
/// ecosystem `eco` holds.
pub open spec fn analysis_of(
    r: AnalysisResult,
    path: Seq<char>,
    eco: Ecosystem,
    deps: Seq<DependencySpec>,
) -> bool {
    &&& r.file@ == path
    &&& r.ecosystem == eco
    &&& deps_view(r.dependencies@) == deps
    &&& is_conflict_list(deps, conflicts_view(r.conflicts@))
}

/// The result for dependencies already found, or `None` where conflict
/// detection would meet a bound too large for `u64`.
fn finish_analysis(deps: Vec<Dependency>, path: &str, eco: Ecosystem) -> (r: Option<AnalysisResult>)
    ensures
        match r {
            Some(res) => analysis_of(res, path@, eco, deps_view(deps@)),
            None => !ranges_fit(deps_view(deps@)),
        },
{
    match find_conflicts(deps.as_slice()) {
        None => None,
        Some(conflicts) => Some(
            AnalysisResult {
                file: path.to_owned(),
                ecosystem: eco,
                dependencies: deps,
                conflicts,
            },
        ),
    }
}

/// Analyze a Cargo.toml file (Rust). `None` where a constraint on a package
/// named twice has a bound too large for `u64`.
pub fn analyze_cargo_toml(content: &str, path: &str) -> (r: Option<AnalysisResult>)
    ensures
        match r {
            Some(res) => analysis_of(res, path@, Ecosystem::Cargo, cargo_deps(content@)),
            None => !ranges_fit(cargo_deps(content@)),
        },
{
    let all = chars_of(content);
    let ls = chars_lines(all.as_slice());
    let ghost lv = slice_views(ls@);
    let mut deps: Vec<Dependency> = Vec::new();
    let mut section: &[char] = &all[0..0];
    let mut k: usize = 0;
    assert(lv.take(0) =~= Seq::<Seq<char>>::empty());
    assert(section@ =~= Seq::<char>::empty());
    while k < ls.len()
        invariant
            k <= ls.len(),
            lv == slice_views(ls@),
            (section@, deps_view(deps@)) == cargo_scan(lv.take(k as int)),
        decreases ls.len() - k,
    {
        assert(lv.take(k + 1).drop_last() =~= lv.take(k as int));
        assert(lv.take(k + 1).last() == ls@[k as int]@);
        let line = chars_trim(ls[k]);
        match header_of(line) {
            Some(sec) => {
                section = sec;
            },
            None => {
                if is_cargo_dep_section(section) {
                    match parse_table_entry(line, section, Ecosystem::Cargo) {
                        Some(d) => {
                            let ghost before = deps@;
                            deps.push(d);
                            assert(deps_view(deps@) =~= deps_view(before).push(d@));
                        },
                        None => {},
                    }
                }
            },
        }
        k = k + 1;
    }
    assert(lv.take(ls.len() as int) =~= lv);
    finish_analysis(deps, path, Ecosystem::Cargo)
}

/// The dependencies of one `name = [...]` line of an optional-dependencies
/// table, in the section `optional-dependencies.name`.
pub open spec fn optional_deps(line: Seq<char>) -> Seq<DependencySpec> {
    match find_char(line, '=') {
        None => seq![],
        Some(eq) => {
            let key = trim(line.subrange(0, eq));
            let value = trim(line.subrange(eq + 1, line.len() as int));
            if starts1(value, '[') {
                pip_array_deps(value, "optional-dependencies."@ + key)
            } else {
                seq![]
            }
        },
    }
}

/// The sections of a pyproject file that hold Poetry dependency tables.
pub open spec fn poetry_section(section: Seq<char>) -> bool {
    starts_with(section, "tool.poetry"@) && (section == "tool.poetry.dependencies"@ || starts_with(
        section,
        "tool.poetry.group"@,
    ))
}

/// One line of a pyproject file read, given the current section and the
/// dependencies so far.
pub open spec fn pyproject_step(
    state: (Seq<char>, Seq<DependencySpec>),
    raw: Seq<char>,
) -> (Seq<char>, Seq<DependencySpec>) {
    let line = trim(raw);
    let sec = state.0;
    match section_header(line) {
        Some(h) => (h, state.1),
        None => {
            let listed = if sec == "project"@ && starts_with(line, "dependencies"@) {
                match find_char(line, '[') {
                    Some(start) => pip_array_deps(
                        line.subrange(start, line.len() as int),
                        "dependencies"@,
                    ),
                    None => seq![],
                }
            } else {
                seq![]
            };
            let optional = if starts_with(sec, "project.optional-dependencies"@) {
                optional_deps(line)
            } else {
                seq![]
            };
            let poetry = if poetry_section(sec) {
                match table_entry(line, sec, Ecosystem::Pip) {
                    Some(d) => seq![d],
                    None => seq![],
                }
            } else {
                seq![]
            };
            (sec, state.1 + listed + optional + poetry)
        },
    }
}

/// The section and dependencies after reading the lines `ls`.
pub open spec fn pyproject_scan(ls: Seq<Seq<char>>) -> (Seq<char>, Seq<DependencySpec>)
    decreases ls.len(),
{
    if ls.len() == 0 {
        (seq![], seq![])
    } else {
        pyproject_step(pyproject_scan(ls.drop_last()), ls.last())
    }
}

/// The dependencies of a pyproject file, in the order of its lines.
pub open spec fn pyproject_deps(content: Seq<char>) -> Seq<DependencySpec> {
    pyproject_scan(lines(content)).1
}

fn is_poetry_section(sec: &[char]) -> (r: bool)
    ensures
        r == poetry_section(sec@),
{
    let a = chars_of("tool.poetry");
    let b = chars_of("tool.poetry.dependencies");
    let c = chars_of("tool.poetry.group");
    chars_starts_with(sec, a.as_slice()) && (chars_eq(sec, b.as_slice()) || chars_starts_with(
        sec,
        c.as_slice(),
    ))
}

/// Reads one line of a pyproject file in section `sec`, appending what it
/// lists to `deps`.
fn pyproject_line(raw: &[char], sec: &[char], deps: &mut Vec<Dependency>)
    requires
        section_header(trim(raw@)) is None,
    ensures
        deps_view(final(deps)@) == pyproject_step((sec@, deps_view(old(deps)@)), raw@).1,
{
    let line = chars_trim(raw);
    let project = chars_of("project");
    let listed = chars_of("dependencies");
    let ghost d0 = deps_view(deps@);
    if chars_eq(sec, project.as_slice()) && chars_starts_with(line, listed.as_slice()) {
        match chars_find(line, '[') {
            Some(start) => {
                proof {
                    crate::text::lemma_find_char(line@, '[');
                }
                parse_pip_dep_array(&line[start..line.len()], deps, listed.as_slice());
            },
            None => {},
        }
    }
    let ghost d1 = deps_view(deps@);
    let optional = chars_of("project.optional-dependencies");
    if chars_starts_with(sec, optional.as_slice()) {
        match chars_find(line, '=') {
            Some(eq) => {
                proof {
                    crate::text::lemma_find_char(line@, '=');
                }
                let n = line.len();
                let key = chars_trim(&line[0..eq]);
                let value = chars_trim(&line[eq + 1..n]);
                if chars_starts1(value, '[') {
                    let mut name = chars_of("optional-dependencies.");
                    push_chars(&mut name, key);
                    parse_pip_dep_array(value, deps, name.as_slice());
                }
            },
            None => {},
        }
    }
    let ghost d2 = deps_view(deps@);
    if is_poetry_section(sec) {
        match parse_table_entry(line, sec, Ecosystem::Pip) {
            Some(d) => {
                deps.push(d);
                assert(deps_view(deps@) =~= d2.push(d@));
            },
            None => {},
        }
    }
    assert(deps_view(deps@) =~= pyproject_step((sec@, d0), raw@).1);
}

/// Analyze a pyproject.toml file (Python). `None` where a constraint on a
/// package named twice has a bound too large for `u64`.
pub fn analyze_pyproject_toml(content: &str, path: &str) -> (r: Option<AnalysisResult>)
    ensures
        match r {
            Some(res) => analysis_of(res, path@, Ecosystem::Pip, pyproject_deps(content@)),
            None => !ranges_fit(pyproject_deps(content@)),
        },
{
    let all = chars_of(content);
    let ls = chars_lines(all.as_slice());
    let ghost lv = slice_views(ls@);
    let mut deps: Vec<Dependency> = Vec::new();
    let mut section: &[char] = &all[0..0];
    let mut k: usize = 0;
    assert(lv.take(0) =~= Seq::<Seq<char>>::empty());
    assert(section@ =~= Seq::<char>::empty());
    while k < ls.len()
        invariant
            k <= ls.len(),
            lv == slice_views(ls@),
            (section@, deps_view(deps@)) == pyproject_scan(lv.take(k as int)),
        decreases ls.len() - k,
    {
        assert(lv.take(k + 1).drop_last() =~= lv.take(k as int));
        assert(lv.take(k + 1).last() == ls@[k as int]@);
        let line = chars_trim(ls[k]);
        match header_of(line) {
            Some(sec) => {
                section = sec;
            },
            None => {
                pyproject_line(ls[k], section, &mut deps);
            },
        }
        k = k + 1;
    }
    assert(lv.take(ls.len() as int) =~= lv);
    finish_analysis(deps, path, Ecosystem::Pip)
}

/// One line of a go.mod file read, given whether a `require (` block is
/// open and the dependencies so far.
pub open spec fn go_step(state: (bool, Seq<DependencySpec>), raw: Seq<char>) -> (
    bool,
    Seq<DependencySpec>,
) {
    let line = trim(raw);
    let with = |o: Option<DependencySpec>|
        match o {
            Some(d) => state.1.push(d),
            None => state.1,
        };
    if line == "require ("@ {
        (true, state.1)
    } else if state.0 && line == ")"@ {
        (false, state.1)
    } else if starts_with(line, "require "@) {
        (state.0, with(go_dep(trim(line.subrange("require "@.len() as int, line.len() as int)))))
    } else if state.0 && line.len() > 0 && !starts_with(line, "//"@) {
        (state.0, with(go_dep(line)))
    } else {
        state
    }
}

/// Whether a block is open, and the dependencies, after reading `ls`.
pub open spec fn go_scan(ls: Seq<Seq<char>>) -> (bool, Seq<DependencySpec>)
    decreases ls.len(),
{
    if ls.len() == 0 {
        (false, seq![])
    } else {
        go_step(go_scan(ls.drop_last()), ls.last())
    }
}

/// The dependencies of a go.mod file, in the order of its lines.
pub open spec fn go_deps(content: Seq<char>) -> Seq<DependencySpec> {
    go_scan(lines(content)).1
}

/// Analyze a go.mod file (Go). Go versions are exact, not ranges; they are
/// kept as they stand, under the Cargo ecosystem. `None` where a version of
/// a module named twice is too large for `u64`.
pub fn analyze_go_mod(content: &str, path: &str) -> (r: Option<AnalysisResult>)
    ensures
        match r {
            Some(res) => analysis_of(res, path@, Ecosystem::Cargo, go_deps(content@)),
            None => !ranges_fit(go_deps(content@)),
        },
{
    let all = chars_of(content);
    let ls = chars_lines(all.as_slice());
    let ghost lv = slice_views(ls@);
    let open_block = chars_of("require (");
    let close_block = chars_of(")");
    let single = chars_of("require ");
    let comment = chars_of("//");
    let mut deps: Vec<Dependency> = Vec::new();
    let mut in_block = false;
    let mut k: usize = 0;
    assert(lv.take(0) =~= Seq::<Seq<char>>::empty());
    while k < ls.len()
        invariant
            k <= ls.len(),
            lv == slice_views(ls@),
            open_block@ == "require ("@,
            close_block@ == ")"@,
            single@ == "require "@,
            comment@ == "//"@,
            (in_block, deps_view(deps@)) == go_scan(lv.take(k as int)),
        decreases ls.len() - k,
    {
        assert(lv.take(k + 1).drop_last() =~= lv.take(k as int));
        assert(lv.take(k + 1).last() == ls@[k as int]@);
        let line = chars_trim(ls[k]);
        let ghost before = deps_view(deps@);
        if chars_eq(line, open_block.as_slice()) {
            in_block = true;
        } else if in_block && chars_eq(line, close_block.as_slice()) {
            in_block = false;
        } else if chars_starts_with(line, single.as_slice()) {
            let rest = chars_trim(&line[single.len()..line.len()]);
            match parse_go_dep(rest) {
                Some(d) => {
                    deps.push(d);
                    assert(deps_view(deps@) =~= before.push(d@));
                },
                None => {},
            }
        } else if in_block && line.len() > 0 && !chars_starts_with(line, comment.as_slice()) {
            match parse_go_dep(line) {
                Some(d) => {
                    deps.push(d);
                    assert(deps_view(deps@) =~= before.push(d@));
                },
                None => {},
            }
        }
        k = k + 1;
    }
    assert(lv.take(ls.len() as int) =~= lv);
    finish_analysis(deps, path, Ecosystem::Cargo)
}

// ---------------------------------------------------------------------------
// package.json
// ---------------------------------------------------------------------------

/// A JSON value, as a JSON parser hands it over: an object is its entries
/// in order, each key once; a number is its text.
#[derive(Debug)]
pub enum JsonValue {
    Null,
    Bool(bool),
    Number(String),
    Str(String),
    Array(Vec<JsonValue>),
    Object(Vec<(String, JsonValue)>),
}

/// `serde_json::Value`, as the JSON parser hands it over.
#[verifier::external_type_specification]
#[verifier::external_body]
pub struct ExJsonDocument(serde_json::Value);

/// `serde_json` accepts `content` as a JSON document.
pub uninterp spec fn json_accepts(content: Seq<char>) -> bool;

/// The document that `serde_json` reads from `content`, as a `JsonValue`.
pub uninterp spec fn json_document(content: Seq<char>) -> JsonValue;

/// A `serde_json::Value` as a `JsonValue`, variant for variant (a number
/// by its text, an object by its entries in the order the parser keeps).
#[verifier::external_body]
fn json_from_value(v: &serde_json::Value) -> JsonValue {
    match v {
        serde_json::Value::Null => JsonValue::Null,
        serde_json::Value::Bool(b) => JsonValue::Bool(*b),
        serde_json::Value::Number(n) => JsonValue::Number(n.to_string()),
        serde_json::Value::String(t) => JsonValue::Str(t.clone()),
        serde_json::Value::Array(items) => JsonValue::Array(items.iter().map(json_from_value).collect()),
        serde_json::Value::Object(map) => JsonValue::Object(
            map.iter().map(|(k, x)| (k.clone(), json_from_value(x))).collect(),
        ),
    }
}

/// Parses JSON text with `serde_json::from_str` into a `serde_json::Value`
/// and hands it over as a `JsonValue`. The contract claims that the parse
/// succeeds exactly on the texts `serde_json` accepts and that the document
/// depends on the text alone; the error message is left unsaid.
#[verifier::external_body]
fn parse_json(content: &str) -> (r: Result<JsonValue, String>)
    ensures
        r is Ok == json_accepts(content@),
        r matches Ok(v) ==> v == json_document(content@),
{
    match serde_json::from_str::<serde_json::Value>(content) {
        Ok(v) => Ok(json_from_value(&v)),
        Err(e) => Err(e.to_string()),
    }
}

/// The value of the first entry with key `key`.
pub open spec fn json_get(entries: Seq<(String, JsonValue)>, key: Seq<char>) -> Option<JsonValue>
    decreases entries.len(),
{
    if entries.len() == 0 {
        None
    } else if entries[0].0@ == key {
        Some(entries[0].1)
    } else {
        json_get(entries.drop_first(), key)
    }
}

/// The dependencies that the string-valued entries give, in order.
pub open spec fn entry_deps(entries: Seq<(String, JsonValue)>, section: Seq<char>) -> Seq<
    DependencySpec,
>
    decreases entries.len(),
{
    if entries.len() == 0 {
        seq![]
    } else {
        let rest = entry_deps(entries.drop_last(), section);
        match entries.last().1 {
            JsonValue::Str(v) => rest.push(
                dep_spec(entries.last().0@, v@, Ecosystem::Npm, section),
            ),
            _ => rest,
        }
    }
}

/// The dependencies listed in the object `section` of the top-level object.
pub open spec fn json_section_deps(json: JsonValue, section: Seq<char>) -> Seq<DependencySpec> {
    match json {
        JsonValue::Object(top) => match json_get(top@, section) {
            Some(JsonValue::Object(entries)) => entry_deps(entries@, section),
            _ => seq![],
        },
        _ => seq![],
    }
}

/// The dependencies of a package.json document: those of `dependencies`,
/// `devDependencies`, `peerDependencies` and `optionalDependencies`, in
/// that order.
pub open spec fn package_json_deps(json: JsonValue) -> Seq<DependencySpec> {
    json_section_deps(json, "dependencies"@) + json_section_deps(json, "devDependencies"@)
        + json_section_deps(json, "peerDependencies"@) + json_section_deps(
        json,
        "optionalDependencies"@,
    )
}

fn json_lookup<'a>(entries: &'a Vec<(String, JsonValue)>, key: &str) -> (r: Option<&'a JsonValue>)
    ensures
        match r {
            Some(v) => json_get(entries@, key@) == Some(*v),
            None => json_get(entries@, key@) is None,
        },
{
    let kc = chars_of(key);
    let mut i: usize = 0;
    assert(entries@.subrange(0, entries@.len() as int) =~= entries@);
    while i < entries.len()
        invariant
            i <= entries.len(),
            kc@ == key@,
            json_get(entries@, key@) == json_get(
                entries@.subrange(i as int, entries@.len() as int),
                key@,
            ),
        decreases entries.len() - i,
    {
        let ghost rest = entries@.subrange(i as int, entries@.len() as int);
        assert(rest[0] == entries@[i as int]);
        let name = chars_of(entries[i].0.as_str());
        if chars_eq(name.as_slice(), kc.as_slice()) {
            return Some(&entries[i].1);
        }
        assert(rest.drop_first() =~= entries@.subrange(i + 1, entries@.len() as int));
        i = i + 1;
    }
    None
}

/// Appends the dependencies listed in the object `section` of `json`.
fn push_json_section(json: &JsonValue, section: &str, deps: &mut Vec<Dependency>)
    ensures
        deps_view(final(deps)@) == deps_view(old(deps)@) + json_section_deps(*json, section@),
{
    let ghost d0 = deps_view(deps@);
    match json {
        JsonValue::Object(top) => match json_lookup(top, section) {
            Some(JsonValue::Object(entries)) => {
                let mut i: usize = 0;
                assert(entries@.take(0) =~= Seq::<(String, JsonValue)>::empty());
                assert(d0 + entry_deps(entries@.take(0), section@) =~= d0);
                while i < entries.len()
                    invariant
                        i <= entries.len(),
                        deps_view(deps@) == d0 + entry_deps(entries@.take(i as int), section@),
                    decreases entries.len() - i,
                {
                    assert(entries@.take(i + 1).drop_last() =~= entries@.take(i as int));
                    assert(entries@.take(i + 1).last() == entries@[i as int]);
                    let ghost before = deps_view(deps@);
                    match &entries[i].1 {
                        JsonValue::Str(v) => {
                            let d = Dependency {
                                name: entries[i].0.clone(),
                                constraint: v.clone(),
                                ecosystem: Ecosystem::Npm,
                                section: section.to_owned(),
                            };
                            deps.push(d);
                            assert(deps_view(deps@) =~= before.push(d@));
                        },
                        _ => {},
                    }
                    i = i + 1;
                }
                assert(entries@.take(entries.len() as int) =~= entries@);
            },
            _ => {
                assert(deps_view(deps@) =~= d0 + json_section_deps(*json, section@));
            },
        },
        _ => {
            assert(deps_view(deps@) =~= d0 + json_section_deps(*json, section@));
        },
    }
}

/// Analyze a package.json document (npm/Node.js). `None` where a constraint
/// on a package named twice has a bound too large for `u64`.
pub fn analyze_package_json(json: &JsonValue, path: &str) -> (r: Option<AnalysisResult>)
    ensures
        match r {
            Some(res) => analysis_of(res, path@, Ecosystem::Npm, package_json_deps(*json)),
            None => !ranges_fit(package_json_deps(*json)),
        },
{
    let mut deps: Vec<Dependency> = Vec::new();
    push_json_section(json, "dependencies", &mut deps);
    push_json_section(json, "devDependencies", &mut deps);
    push_json_section(json, "peerDependencies", &mut deps);
    push_json_section(json, "optionalDependencies", &mut deps);
    assert(deps_view(deps@) =~= package_json_deps(*json));
    finish_analysis(deps, path, Ecosystem::Npm)
}

// ---------------------------------------------------------------------------
// Which kind of file
// ---------------------------------------------------------------------------

/// The kinds of package file the analyzer reads.
#[derive(Debug, Clone, Copy, PartialEq, Eq, Structural)]
pub enum FileKind {
    PackageJson,
    CargoToml,
    PyprojectToml,
    GoMod,
}

/// The kind of a file, by its name, else its extension, else its content.
pub open spec fn file_kind(name: Seq<char>, ext: Seq<char>, content: Seq<char>) -> Option<FileKind> {
    if name == "package.json"@ {
        Some(FileKind::PackageJson)
    } else if name == "Cargo.toml"@ {
        Some(FileKind::CargoToml)
    } else if name == "pyproject.toml"@ {
        Some(FileKind::PyprojectToml)
    } else if name == "go.mod"@ {
        Some(FileKind::GoMod)
    } else if ext == "json"@ {
        Some(FileKind::PackageJson)
    } else if ext == "toml"@ {
        if contains(content, "[package]"@) || contains(content, "[dependencies]"@) {
            Some(FileKind::CargoToml)
        } else {
            Some(FileKind::PyprojectToml)
        }
    } else if contains(content, "module "@) && contains(content, "go "@) {
        Some(FileKind::GoMod)
    } else {
        None
    }
}

fn str_is(s: &[char], lit: &str) -> (r: bool)
    ensures
        r == (s@ == lit@),
{
    let l = chars_of(lit);
    chars_eq(s, l.as_slice())
}

fn holds(s: &[char], lit: &str) -> (r: bool)
    ensures
        r == contains(s@, lit@),
{
    let l = chars_of(lit);
    chars_contains(s, l.as_slice())
}

/// Decide which kind of package file `name` (with extension `ext`) holding
/// `content` is.
///
/// # Errors
/// `UnknownFormat` when neither the name, the extension nor the content
/// tells.
pub fn detect_file_kind(name: &str, ext: &str, content: &str) -> (r: Result<FileKind, AnalyzeError>)
    ensures
        match r {
            Ok(k) => file_kind(name@, ext@, content@) == Some(k),
            Err(e) => file_kind(name@, ext@, content@) is None && (e matches AnalyzeError::UnknownFormat(
                m,
            ) && m@ == "could not determine file type"@),
        },
{
    let n = chars_of(name);
    let x = chars_of(ext);
    let c = chars_of(content);
    if str_is(n.as_slice(), "package.json") {
        Ok(FileKind::PackageJson)
    } else if str_is(n.as_slice(), "Cargo.toml") {
        Ok(FileKind::CargoToml)
    } else if str_is(n.as_slice(), "pyproject.toml") {
        Ok(FileKind::PyprojectToml)
    } else if str_is(n.as_slice(), "go.mod") {
        Ok(FileKind::GoMod)
    } else if str_is(x.as_slice(), "json") {
        Ok(FileKind::PackageJson)
    } else if str_is(x.as_slice(), "toml") {
        if holds(c.as_slice(), "[package]") || holds(c.as_slice(), "[dependencies]") {
            Ok(FileKind::CargoToml)
        } else {
            Ok(FileKind::PyprojectToml)
        }
    } else if holds(c.as_slice(), "module ") && holds(c.as_slice(), "go ") {
        Ok(FileKind::GoMod)
    } else {
        Err(AnalyzeError::UnknownFormat("could not determine file type".to_owned()))
    }
}

// ---------------------------------------------------------------------------
// The text report
// ---------------------------------------------------------------------------

/// Texts one after another.
pub open spec fn concat_all(parts: Seq<Seq<char>>) -> Seq<char>
    decreases parts.len(),
{
    if parts.len() == 0 {
        seq![]
    } else {
        concat_all(parts.drop_last()) + parts.last()
    }
}

/// The dependencies of `deps` in section `sec`, in their order.
pub open spec fn section_members(deps: Seq<DependencySpec>, sec: Seq<char>) -> Seq<DependencySpec>
    decreases deps.len(),
{
    if deps.len() == 0 {
        seq![]
    } else if deps.last().section == sec {
        section_members(deps.drop_last(), sec).push(deps.last())
    } else {
        section_members(deps.drop_last(), sec)
    }
}

/// The report line of a dependency: `  name = "constraint"`.
pub open spec fn dep_line(d: DependencySpec) -> Seq<char> {
    "  "@ + d.name + " = \""@ + d.constraint + "\"\n"@
}

/// The report block of a section: its header, its dependencies, a blank line.
pub open spec fn section_block(deps: Seq<DependencySpec>, sec: Seq<char>) -> Seq<char> {
    "["@ + sec + "]\n"@ + concat_all(
        section_members(deps, sec).map_values(|d: DependencySpec| dep_line(d)),
    ) + "\n"@
}

/// The report block of a conflict: the package, then each constraint.
pub open spec fn conflict_block(c: ConflictSpec) -> Seq<char> {
    "  "@ + c.package + ": incompatible constraints\n"@ + concat_all(
        c.constraints.map_values(|x: Seq<char>| "    - "@ + x + "\n"@),
    )
}

/// The conflicts part of the report.
pub open spec fn conflicts_text(cs: Seq<ConflictSpec>) -> Seq<char> {
    if cs.len() == 0 {
        "✓ No conflicts detected.\n"@
    } else {
        "⚠ Conflicts detected:\n"@ + concat_all(cs.map_values(|c: ConflictSpec| conflict_block(c)))
    }
}

/// Strictly ascending texts.
pub open spec fn ascending_texts(s: Seq<Seq<char>>) -> bool {
    forall|i: int, j: int|
        0 <= i < j < s.len() ==> lex_order(#[trigger] s[i], #[trigger] s[j]) == Order::Less
}

/// `secs` are the sections of `deps`, each once, in ascending order.
pub open spec fn lists_sections(deps: Seq<DependencySpec>, secs: Seq<Seq<char>>) -> bool {
    &&& ascending_texts(secs)
    &&& secs.to_set() == deps.map_values(|d: DependencySpec| d.section).to_set()
}

/// The text report of an analysis, given its sections in order.
pub open spec fn report_text(
    file: Seq<char>,
    eco: Ecosystem,
    deps: Seq<DependencySpec>,
    cs: Seq<ConflictSpec>,
    secs: Seq<Seq<char>>,
) -> Seq<char> {
    "File: "@ + file + "\nEcosystem: "@ + ecosystem_name(eco) + "\nDependencies: "@ + decimal(
        deps.len(),
    ) + "\n\n"@ + if deps.len() == 0 {
        "No dependencies found.\n"@
    } else {
        concat_all(secs.map_values(|sec: Seq<char>| section_block(deps, sec))) + conflicts_text(cs)
    }
}

proof fn lemma_concat_push(parts: Seq<Seq<char>>, x: Seq<char>)
    ensures
        concat_all(parts.push(x)) == concat_all(parts) + x,
{
    assert(parts.push(x).drop_last() =~= parts);
}

/// Appends the lines of the dependencies of `deps` in section `sec`.
fn push_section(out: &mut Vec<char>, deps: &Vec<Dependency>, sec: &String)
    ensures
        final(out)@ == old(out)@ + section_block(deps_view(deps@), sec@),
{
    let ghost dv = deps_view(deps@);
    push_str(out, "[");
    push_str(out, sec.as_str());
    push_str(out, "]\n");
    let ghost start = out@;
    let mut k: usize = 0;
    assert(dv.take(0) =~= Seq::<DependencySpec>::empty());
    assert(section_members(dv.take(0), sec@).map_values(|d: DependencySpec| dep_line(d))
        =~= Seq::<Seq<char>>::empty());
    assert(out@ =~= start + concat_all(
        section_members(dv.take(0), sec@).map_values(|d: DependencySpec| dep_line(d)),
    ));
    while k < deps.len()
        invariant
            k <= deps.len(),
            dv == deps_view(deps@),
            out@ == start + concat_all(
                section_members(dv.take(k as int), sec@).map_values(|d: DependencySpec| dep_line(d)),
            ),
        decreases deps.len() - k,
    {
        assert(dv.take(k + 1).drop_last() =~= dv.take(k as int));
        assert(dv.take(k + 1).last() == deps@[k as int]@);
        if deps[k].section == *sec {
            let ghost before = section_members(dv.take(k as int), sec@);
            push_str(out, "  ");
            push_str(out, deps[k].name.as_str());
            push_str(out, " = \"");
            push_str(out, deps[k].constraint.as_str());
            push_str(out, "\"\n");
            assert(section_members(dv.take(k + 1), sec@) == before.push(deps@[k as int]@));
            assert(before.push(deps@[k as int]@).map_values(|d: DependencySpec| dep_line(d))
                =~= before.map_values(|d: DependencySpec| dep_line(d)).push(
                dep_line(deps@[k as int]@),
            ));
            proof {
                lemma_concat_push(
                    before.map_values(|d: DependencySpec| dep_line(d)),
                    dep_line(deps@[k as int]@),
                );
            }
            assert(out@ =~= start + concat_all(
                section_members(dv.take(k + 1), sec@).map_values(|d: DependencySpec| dep_line(d)),
            ));
        }
        k = k + 1;
    }
    assert(dv.take(deps.len() as int) =~= dv);
    push_str(out, "\n");
    assert(out@ =~= old(out)@ + section_block(dv, sec@));
}

/// Appends the block of one conflict.
fn push_conflict(out: &mut Vec<char>, c: &Conflict)
    ensures
        final(out)@ == old(out)@ + conflict_block(c@),
{
    push_str(out, "  ");
    push_str(out, c.package.as_str());
    push_str(out, ": incompatible constraints\n");
    let ghost start = out@;
    let ghost cv = c@.constraints;
    let mut k: usize = 0;
    assert(cv.take(0).map_values(|x: Seq<char>| "    - "@ + x + "\n"@) =~= Seq::<Seq<char>>::empty());
    assert(out@ =~= start + concat_all(
        cv.take(0).map_values(|x: Seq<char>| "    - "@ + x + "\n"@),
    ));
    while k < c.constraints.len()
        invariant
            k <= c.constraints.len(),
            cv == c@.constraints,
            cv.len() == c.constraints.len(),
            out@ == start + concat_all(
                cv.take(k as int).map_values(|x: Seq<char>| "    - "@ + x + "\n"@),
            ),
        decreases c.constraints.len() - k,
    {
        push_str(out, "    - ");
        push_str(out, c.constraints[k].as_str());
        push_str(out, "\n");
        assert(cv[k as int] == c.constraints@[k as int]@);
        assert(cv.take(k + 1).map_values(|x: Seq<char>| "    - "@ + x + "\n"@) =~= cv.take(
            k as int,
        ).map_values(|x: Seq<char>| "    - "@ + x + "\n"@).push("    - "@ + cv[k as int] + "\n"@));
        proof {
            lemma_concat_push(
                cv.take(k as int).map_values(|x: Seq<char>| "    - "@ + x + "\n"@),
                "    - "@ + cv[k as int] + "\n"@,
            );
        }
        assert(out@ =~= start + concat_all(
            cv.take(k + 1).map_values(|x: Seq<char>| "    - "@ + x + "\n"@),
        ));
        k = k + 1;
    }
    assert(cv.take(c.constraints.len() as int) =~= cv);
    assert(out@ =~= old(out)@ + conflict_block(c@));
}

/// Appends the conflicts part of the report.
fn push_conflicts(out: &mut Vec<char>, cs: &Vec<Conflict>)
    ensures
        final(out)@ == old(out)@ + conflicts_text(conflicts_view(cs@)),
{
    let ghost cv = conflicts_view(cs@);
    if cs.len() == 0 {
        push_str(out, "✓ No conflicts detected.\n");
        return;
    }
    push_str(out, "⚠ Conflicts detected:\n");
    let ghost start = out@;
    let mut k: usize = 0;
    assert(cv.take(0).map_values(|c: ConflictSpec| conflict_block(c)) =~= Seq::<Seq<char>>::empty());
    assert(out@ =~= start + concat_all(cv.take(0).map_values(|c: ConflictSpec| conflict_block(c))));
    while k < cs.len()
        invariant
            k <= cs.len(),
            cv == conflicts_view(cs@),
            out@ == start + concat_all(cv.take(k as int).map_values(|c: ConflictSpec| conflict_block(c))),
        decreases cs.len() - k,
    {
        push_conflict(out, &cs[k]);
        assert(cv.take(k + 1).map_values(|c: ConflictSpec| conflict_block(c)) =~= cv.take(
            k as int,
        ).map_values(|c: ConflictSpec| conflict_block(c)).push(conflict_block(cs@[k as int]@)));
        proof {
            lemma_concat_push(
                cv.take(k as int).map_values(|c: ConflictSpec| conflict_block(c)),
                conflict_block(cs@[k as int]@),
            );
        }
        k = k + 1;
    }
    assert(cv.take(cs.len() as int) =~= cv);
}

/// The text report of an analysis, as the command line prints it: the
/// file, the ecosystem and the number of dependencies; then each section
/// in ascending order with its dependencies; then the conflicts.
pub fn analysis_report(result: &AnalysisResult) -> (r: String)
    ensures
        exists|secs: Seq<Seq<char>>|
            #[trigger] lists_sections(deps_view(result.dependencies@), secs) && r@ == report_text(
                result.file@,
                result.ecosystem,
                deps_view(result.dependencies@),
                conflicts_view(result.conflicts@),
                secs,
            ),
{
    let deps = &result.dependencies;
    let ghost dv = deps_view(deps@);
    let mut out: Vec<char> = Vec::new();
    push_str(&mut out, "File: ");
    push_str(&mut out, result.file.as_str());
    push_str(&mut out, "\nEcosystem: ");
    push_str(&mut out, result.ecosystem.as_str());
    push_str(&mut out, "\nDependencies: ");
    push_decimal(&mut out, deps.len() as u64);
    push_str(&mut out, "\n\n");
    let ghost head = out@;
    let keys = dep_sections(deps.as_slice());
    let (secs, Ghost(wit), Ghost(pos)) = distinct_sorted(&keys);
    let ghost sv = secs@.map_values(|x: String| x@);
    if deps.len() == 0 {
        push_str(&mut out, "No dependencies found.\n");
    } else {
        let ghost blocks = sv.map_values(|sec: Seq<char>| section_block(dv, sec));
        let mut i: usize = 0;
        assert(blocks.take(0) =~= Seq::<Seq<char>>::empty());
        assert(out@ =~= head + concat_all(blocks.take(0)));
        while i < secs.len()
            invariant
                i <= secs.len(),
                dv == deps_view(deps@),
                sv == secs@.map_values(|x: String| x@),
                blocks == sv.map_values(|sec: Seq<char>| section_block(dv, sec)),
                out@ == head + concat_all(blocks.take(i as int)),
            decreases secs.len() - i,
        {
            push_section(&mut out, deps, &secs[i]);
            assert(blocks.take(i + 1) =~= blocks.take(i as int).push(blocks[i as int]));
            proof {
                lemma_concat_push(blocks.take(i as int), blocks[i as int]);
            }
            i = i + 1;
        }
        assert(blocks.take(secs.len() as int) =~= blocks);
        push_conflicts(&mut out, &result.conflicts);
    }
    proof {
        let ds = dv.map_values(|d: DependencySpec| d.section);
        assert forall|x: Seq<char>| sv.to_set().contains(x) implies ds.to_set().contains(x) by {
            let i = choose|i: int| 0 <= i < sv.len() && sv[i] == x;
            let k = wit[i];
            assert(keys@[k]@ == deps@[k].section@);
            assert(ds[k] == x);
        }
        assert forall|x: Seq<char>| ds.to_set().contains(x) implies sv.to_set().contains(x) by {
            let k = choose|k: int| 0 <= k < ds.len() && ds[k] == x;
            assert(keys@[k]@ == deps@[k].section@);
            assert(sv[pos[k]] == x);
        }
        assert(sv.to_set() =~= ds.to_set());
        assert(lists_sections(dv, sv));
        assert(out@ =~= report_text(
            result.file@,
            result.ecosystem,
            dv,
            conflicts_view(result.conflicts@),
            sv,
        ));
    }
    string_of(out.as_slice())
}

// ---------------------------------------------------------------------------
// A package file's content
// ---------------------------------------------------------------------------

/// The ecosystem an analysis of a kind of file reports (Go versions are
/// kept under Cargo's).
pub open spec fn kind_ecosystem(k: FileKind) -> Ecosystem {
    match k {
        FileKind::PackageJson => Ecosystem::Npm,
        FileKind::CargoToml => Ecosystem::Cargo,
        FileKind::PyprojectToml => Ecosystem::Pip,
        FileKind::GoMod => Ecosystem::Cargo,
    }
}

/// The dependencies a file of kind `k` with this content lists.
pub open spec fn content_deps(k: FileKind, content: Seq<char>) -> Seq<DependencySpec> {
    match k {
        FileKind::PackageJson => package_json_deps(json_document(content)),
        FileKind::CargoToml => cargo_deps(content),
        FileKind::PyprojectToml => pyproject_deps(content),
        FileKind::GoMod => go_deps(content),
    }
}

/// Analyze the content of a package file named `name` (with extension
/// `ext`), reporting it as `path`.
///
/// # Errors
/// `UnknownFormat` when the kind of file cannot be told; `Parse` when a
/// package.json is not JSON. `Ok(None)` where conflict detection would
/// meet a bound too large for `u64`.
pub fn analyze_content(name: &str, ext: &str, content: &str, path: &str) -> (r: Result<
    Option<AnalysisResult>,
    AnalyzeError,
>)
    ensures
        match r {
            Err(e) => match file_kind(name@, ext@, content@) {
                None => e matches AnalyzeError::UnknownFormat(m) && m@
                    == "could not determine file type"@,
                Some(k) => k == FileKind::PackageJson && !json_accepts(content@)
                    && e is Parse,
            },
            Ok(res) => file_kind(name@, ext@, content@) matches Some(k) && (k
                == FileKind::PackageJson ==> json_accepts(content@)) && match res {
                Some(a) => analysis_of(a, path@, kind_ecosystem(k), content_deps(k, content@)),
                None => !ranges_fit(content_deps(k, content@)),
            },
        },
{
    let kind = detect_file_kind(name, ext, content)?;
    match kind {
        FileKind::PackageJson => match parse_json(content) {
            Ok(json) => Ok(analyze_package_json(&json, path)),
            Err(message) => Err(AnalyzeError::Parse(message)),
        },
        FileKind::CargoToml => Ok(analyze_cargo_toml(content, path)),
        FileKind::PyprojectToml => Ok(analyze_pyproject_toml(content, path)),
        FileKind::GoMod => Ok(analyze_go_mod(content, path)),
    }
}

} // verus!
