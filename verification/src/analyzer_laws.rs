//! Laws of the analysis: which entries of package.json, Cargo.toml,
//! pyproject.toml and go.mod files are found as dependencies; how files are
//! told apart; a package is reported in conflict exactly when no version
//! satisfies all of its constraints, with the constraints of its
//! dependencies in order; the sections of the text report are determined by
//! the dependencies.

use crate::analyzer::{
    conflict_for, optional_deps, pip_array_deps, pip_deps_of, quoted_strings, file_kind, FileKind, constraint_start, pip_dep, go_dep, go_deps, go_scan, poetry_section, pyproject_deps, pyproject_scan, cargo_deps, cargo_scan, section_header, strip_lead_quotes, strip_trail_quotes, table_entry,
    trim_quotes, analysis_of, deps_view, dep_spec, entry_deps, json_get, json_section_deps, package_json_deps,
    AnalysisResult, JsonValue, ascending_texts, combined_range, dep_outcome, group_of, in_conflict, lists_sections,
    DependencySpec,
};
use crate::version::{lex_order, Order};
use crate::version_laws::{lemma_lex_equal, lemma_lex_reverse};
use crate::range::{everything, in_interval, in_range};
use crate::range_laws::{law_empty_holds_nothing, law_is_empty_exact, law_range_intersect};
use crate::version::VersionSpec;
use crate::ecosystem::{starts1, Ecosystem};
use crate::text::{contains, find_sub, matches_at, split_char, words, starts_with, is_ws, lemma_find_char_is, lemma_trim_unchanged, lines, trim, trim_end, trim_start};
use vstd::prelude::*;

verus! {

/// `v` satisfies the constraint of `d`, where that constraint parses.
pub open spec fn satisfies_parsed(d: DependencySpec, v: VersionSpec) -> bool {
    match dep_outcome(d) {
        Ok(r) => in_range(v, r),
        Err(_) => true,
    }
}

/// The combined range of a group holds exactly the versions that satisfy
/// every constraint of the group that parses.
pub proof fn law_combined_range(g: Seq<DependencySpec>, v: VersionSpec)
    ensures
        in_range(v, combined_range(g)) == forall|i: int|
            0 <= i < g.len() ==> #[trigger] satisfies_parsed(g[i], v),
    decreases g.len(),
{
    if g.len() == 0 {
        assert(in_interval(v, seq![everything()][0]));
    } else {
        let t = g.drop_last();
        law_combined_range(t, v);
        match dep_outcome(g.last()) {
            Ok(r) => {
                law_range_intersect(combined_range(t), r, v);
            },
            Err(_) => {},
        }
        if forall|i: int| 0 <= i < g.len() ==> #[trigger] satisfies_parsed(g[i], v) {
            assert forall|i: int| 0 <= i < t.len() implies #[trigger] satisfies_parsed(t[i], v) by {
                assert(satisfies_parsed(g[i], v));
            }
            assert(satisfies_parsed(g[g.len() - 1], v));
        }
        if in_range(v, combined_range(g)) {
            assert forall|i: int| 0 <= i < g.len() implies #[trigger] satisfies_parsed(g[i], v) by {
                if i < g.len() - 1 {
                    assert(satisfies_parsed(t[i], v));
                }
            }
        }
    }
}

/// No version satisfies every constraint (that parses) of a package that
/// conflict detection reports.
pub proof fn law_conflict_unsatisfiable(deps: Seq<DependencySpec>, name: Seq<char>, v: VersionSpec)
    requires
        in_conflict(deps, name),
    ensures
        exists|i: int|
            0 <= i < group_of(deps, name).len() && !#[trigger] satisfies_parsed(
                group_of(deps, name)[i],
                v,
            ),
{
    law_combined_range(group_of(deps, name), v);
    law_empty_holds_nothing(combined_range(group_of(deps, name)), v);
}

/// `v` satisfies every constraint (that parses) of the group.
pub open spec fn satisfies_all(g: Seq<DependencySpec>, v: VersionSpec) -> bool {
    forall|i: int| 0 <= i < g.len() ==> #[trigger] satisfies_parsed(g[i], v)
}

/// Of a package named by at least two dependencies, conflict detection
/// reports a conflict exactly when no version satisfies every constraint
/// (that parses) of the package.
pub proof fn law_conflict_exact(deps: Seq<DependencySpec>, name: Seq<char>)
    requires
        group_of(deps, name).len() >= 2,
    ensures
        in_conflict(deps, name) <==> !exists|v: VersionSpec|
            #[trigger] satisfies_all(group_of(deps, name), v),
{
    let g = group_of(deps, name);
    let r = combined_range(g);
    law_is_empty_exact(r);
    if exists|v: VersionSpec| #[trigger] satisfies_all(g, v) {
        let v = choose|v: VersionSpec| #[trigger] satisfies_all(g, v);
        law_combined_range(g, v);
        assert(in_range(v, r));
    }
    if exists|v: VersionSpec| in_range(v, r) {
        let v = choose|v: VersionSpec| in_range(v, r);
        law_combined_range(g, v);
        assert(satisfies_all(g, v));
    }
}

/// One of the four sections of a package.json document that list
/// dependencies.
pub open spec fn npm_section(s: Seq<char>) -> bool {
    ||| s == "dependencies"@
    ||| s == "devDependencies"@
    ||| s == "peerDependencies"@
    ||| s == "optionalDependencies"@
}

/// The entry has the name of `d` and the string value of its constraint.
pub open spec fn entry_gives(e: (String, JsonValue), d: DependencySpec) -> bool {
    &&& e.0@ == d.name
    &&& match e.1 {
        JsonValue::Str(v) => v@ == d.constraint,
        _ => false,
    }
}

/// Some entry of the object gives `d`.
pub open spec fn some_entry_gives(entries: Seq<(String, JsonValue)>, d: DependencySpec) -> bool {
    exists|k: int| 0 <= k < entries.len() && #[trigger] entry_gives(entries[k], d)
}

/// `d` is a string-valued entry of one of the four dependency sections of
/// the package.json document `json`, named by that section, for npm.
pub open spec fn listed_in_package_json(json: JsonValue, d: DependencySpec) -> bool {
    &&& npm_section(d.section)
    &&& d.ecosystem == Ecosystem::Npm
    &&& match json {
        JsonValue::Object(top) => match json_get(top@, d.section) {
            Some(JsonValue::Object(entries)) => some_entry_gives(entries@, d),
            _ => false,
        },
        _ => false,
    }
}

proof fn lemma_entry_deps(entries: Seq<(String, JsonValue)>, section: Seq<char>, d: DependencySpec)
    ensures
        entry_deps(entries, section).contains(d) <==> (d.section == section && d.ecosystem
            == Ecosystem::Npm && some_entry_gives(entries, d)),
    decreases entries.len(),
{
    if entries.len() > 0 {
        let init = entries.drop_last();
        let e = entries.last();
        lemma_entry_deps(init, section, d);
        let rest = entry_deps(init, section);
        if some_entry_gives(init, d) {
            let k = choose|k: int| 0 <= k < init.len() && #[trigger] entry_gives(init[k], d);
            assert(entries[k] == init[k]);
            assert(entry_gives(entries[k], d));
        }
        if some_entry_gives(entries, d) {
            let k = choose|k: int| 0 <= k < entries.len() && #[trigger] entry_gives(entries[k], d);
            if k < init.len() {
                assert(init[k] == entries[k]);
                assert(entry_gives(init[k], d));
            }
        }
        assert(entry_gives(entries[entries.len() - 1], d) == entry_gives(e, d));
        match e.1 {
            JsonValue::Str(v) => {
                let x = dep_spec(e.0@, v@, Ecosystem::Npm, section);
                assert(entry_deps(entries, section) == rest.push(x));
                if rest.push(x).contains(d) {
                    let i = choose|i: int| 0 <= i < rest.push(x).len() && rest.push(x)[i] == d;
                    if i < rest.len() {
                        assert(rest.contains(d));
                    }
                }
                if rest.contains(d) {
                    let i = choose|i: int| 0 <= i < rest.len() && rest[i] == d;
                    assert(rest.push(x)[i] == d);
                }
                if d == x {
                    assert(rest.push(x)[rest.len() as int] == d);
                }
            },
            _ => {
                assert(entry_deps(entries, section) == rest);
            },
        }
    }
}

proof fn lemma_section_deps(json: JsonValue, section: Seq<char>, d: DependencySpec)
    ensures
        json_section_deps(json, section).contains(d) <==> (d.section == section && d.ecosystem
            == Ecosystem::Npm && match json {
            JsonValue::Object(top) => match json_get(top@, section) {
                Some(JsonValue::Object(entries)) => some_entry_gives(entries@, d),
                _ => false,
            },
            _ => false,
        }),
{
    match json {
        JsonValue::Object(top) => match json_get(top@, section) {
            Some(JsonValue::Object(entries)) => {
                lemma_entry_deps(entries@, section, d);
            },
            _ => {},
        },
        _ => {},
    }
}

proof fn lemma_contains_concat(a: Seq<DependencySpec>, b: Seq<DependencySpec>, d: DependencySpec)
    ensures
        (a + b).contains(d) <==> a.contains(d) || b.contains(d),
{
    if (a + b).contains(d) {
        let i = choose|i: int| 0 <= i < (a + b).len() && (a + b)[i] == d;
        if i < a.len() {
            assert(a[i] == d);
        } else {
            assert(b[i - a.len()] == d);
        }
    }
    if a.contains(d) {
        let i = choose|i: int| 0 <= i < a.len() && a[i] == d;
        assert((a + b)[i] == d);
    }
    if b.contains(d) {
        let i = choose|i: int| 0 <= i < b.len() && b[i] == d;
        assert((a + b)[a.len() + i] == d);
    }
}

/// The dependencies found in a package.json document are exactly its
/// string-valued entries of `dependencies`, `devDependencies`,
/// `peerDependencies` and `optionalDependencies`, each with its name, its
/// constraint, npm and the name of its section: every such entry is found,
/// and nothing else is.
#[verifier::spinoff_prover]
#[verifier::rlimit(30)]
pub proof fn law_package_json_deps(json: JsonValue, d: DependencySpec)
    ensures
        package_json_deps(json).contains(d) <==> listed_in_package_json(json, d),
{
    let a = json_section_deps(json, "dependencies"@);
    let b = json_section_deps(json, "devDependencies"@);
    let c = json_section_deps(json, "peerDependencies"@);
    let e = json_section_deps(json, "optionalDependencies"@);
    lemma_section_deps(json, "dependencies"@, d);
    lemma_section_deps(json, "devDependencies"@, d);
    lemma_section_deps(json, "peerDependencies"@, d);
    lemma_section_deps(json, "optionalDependencies"@, d);
    lemma_contains_concat(a, b, d);
    lemma_contains_concat(a + b, c, d);
    lemma_contains_concat(a + b + c, e, d);
    assert(package_json_deps(json) == a + b + c + e);
}

/// What `analyze_package_json` finds is the list of `law_package_json_deps`:
/// each string-valued entry of the four sections appears, and nothing else.
pub proof fn law_package_json_analysis(
    json: JsonValue,
    res: AnalysisResult,
    path: Seq<char>,
    d: DependencySpec,
)
    requires
        analysis_of(res, path, Ecosystem::Npm, package_json_deps(json)),
    ensures
        deps_view(res.dependencies@).contains(d) <==> listed_in_package_json(json, d),
{
    law_package_json_deps(json, d);
}

/// A bare TOML key: ASCII letters, digits, `-` and `_`, at least one.
pub open spec fn bare_key(k: Seq<char>) -> bool {
    &&& k.len() > 0
    &&& forall|i: int|
        0 <= i < k.len() ==> ({
            let c = #[trigger] k[i];
            ('0' <= c && c <= '9') || ('a' <= c && c <= 'z') || ('A' <= c && c <= 'Z') || c == '-'
                || c == '_'
        })
}

/// A version requirement written inside double quotes: non-empty, without
/// a double quote.
pub open spec fn quoted_text(v: Seq<char>) -> bool {
    &&& v.len() > 0
    &&& forall|i: int| 0 <= i < v.len() ==> #[trigger] v[i] != '"'
}

/// The line `key = "version"`.
pub open spec fn key_line(key: Seq<char>, version: Seq<char>) -> Seq<char> {
    key + seq![' ', '=', ' ', '"'] + version + seq!['"']
}

#[verifier::spinoff_prover]
#[verifier::rlimit(30)]
proof fn lemma_key_line_entry(key: Seq<char>, version: Seq<char>, section: Seq<char>, eco: Ecosystem)
    requires
        bare_key(key),
        quoted_text(version),
    ensures
        trim(key_line(key, version)) == key_line(key, version),
        table_entry(key_line(key, version), section, eco) == Some(
            DependencySpec { name: key, constraint: version, ecosystem: eco, section },
        ),
{
    let l = key_line(key, version);
    let n: int = key.len() as int;
    assert(l[0] == key[0]);
    assert(l.last() == '"');
    lemma_trim_unchanged(l);
    assert forall|j: int| 0 <= j < n + 1 implies l[j] != '=' by {
        if j < n {
            assert(l[j] == key[j]);
        }
    }
    assert(l[n + 1] == '=');
    lemma_find_char_is(l, '=', n + 1);
    // The key.
    let left = l.subrange(0, n + 1);
    assert(left =~= key.push(' '));
    assert(left.last() == ' ');
    assert(is_ws(' '));
    assert(trim_start(left) == left);
    assert(left.drop_last() =~= key);
    assert(!is_ws(key.last()));
    assert(trim_end(key) == key);
    assert(trim_end(left) == key);
    assert(trim(left) == key);
    assert(strip_lead_quotes(key) == key);
    assert(strip_trail_quotes(key) == key);
    // The value.
    let right = l.subrange(n + 2, l.len() as int);
    let q = seq!['"'] + version + seq!['"'];
    assert(right =~= seq![' '] + q);
    assert(right.drop_first() =~= q);
    assert(trim_start(q) == q);
    assert(trim_start(right) == q);
    assert(trim_end(q) == q);
    assert(trim(right) == q);
    assert(q.drop_first() =~= version + seq!['"']);
    assert(strip_lead_quotes(version + seq!['"']) == version + seq!['"']) by {
        assert((version + seq!['"'])[0] == version[0]);
    }
    assert(strip_lead_quotes(q) == version + seq!['"']);
    assert((version + seq!['"']).drop_last() =~= version);
    assert(strip_trail_quotes(version) == version) by {
        assert(version.last() != '"');
    }
    assert(trim_quotes(q) == version);
}

proof fn lemma_cargo_scan_grows(ls: Seq<Seq<char>>, k: int, m: int, d: DependencySpec)
    requires
        0 <= k <= m <= ls.len(),
        cargo_scan(ls.take(k)).1.contains(d),
    ensures
        cargo_scan(ls.take(m)).1.contains(d),
    decreases m - k,
{
    if k < m {
        let a = cargo_scan(ls.take(k));
        assert(ls.take(k + 1).drop_last() =~= ls.take(k));
        assert(ls.take(k + 1).last() == ls[k]);
        let b = cargo_scan(ls.take(k + 1));
        let i = choose|i: int| 0 <= i < a.1.len() && a.1[i] == d;
        assert(b.1 == a.1 || b.1 == a.1.push(b.1.last()));
        if b.1 != a.1 {
            assert(b.1[i] == d);
        }
        lemma_cargo_scan_grows(ls, k + 1, m, d);
    }
}

proof fn lemma_cargo_section_kept(ls: Seq<Seq<char>>, j: int, k: int, sec: Seq<char>)
    requires
        0 <= j < k <= ls.len(),
        trim(ls[j]) == seq!['['] + sec + seq![']'],
        forall|m: int| j < m < k ==> !(#[trigger] trim(ls[m]).len() > 0 && trim(ls[m])[0] == '['),
    ensures
        cargo_scan(ls.take(k)).0 == sec,
    decreases k - j,
{
    assert(ls.take(k).drop_last() =~= ls.take(k - 1));
    assert(ls.take(k).last() == ls[k - 1]);
    if k == j + 1 {
        let h = trim(ls[j]);
        assert(h.subrange(1, h.len() - 1) =~= sec);
    } else {
        lemma_cargo_section_kept(ls, j, k - 1, sec);
        assert(!(trim(ls[k - 1]).len() > 0 && trim(ls[k - 1])[0] == '['));
    }
}

/// The line `key = { version = "version"...`, the inline table going on
/// with `rest`.
pub open spec fn inline_line(key: Seq<char>, version: Seq<char>, rest: Seq<char>) -> Seq<char> {
    key + " = { version = \""@ + version + seq!['"'] + rest
}

#[verifier::spinoff_prover]
#[verifier::rlimit(30)]
proof fn lemma_inline_line_entry(
    key: Seq<char>,
    version: Seq<char>,
    rest: Seq<char>,
    section: Seq<char>,
    eco: Ecosystem,
)
    requires
        bare_key(key),
        forall|i: int| 0 <= i < version.len() ==> #[trigger] version[i] != '"',
        rest.len() > 0,
        !is_ws(rest.last()),
    ensures
        trim(inline_line(key, version, rest)) == inline_line(key, version, rest),
        table_entry(inline_line(key, version, rest), section, eco) == Some(
            DependencySpec { name: key, constraint: version, ecosystem: eco, section },
        ),
{
    reveal_strlit(" = { version = \"");
    reveal_strlit("version");
    let mid = " = { version = \""@;
    assert(mid.len() == 16);
    let l = inline_line(key, version, rest);
    let n: int = key.len() as int;
    assert(l[0] == key[0]);
    assert(l.last() == rest.last());
    lemma_trim_unchanged(l);
    assert forall|j: int| 0 <= j < n + 1 implies l[j] != '=' by {
        if j < n {
            assert(l[j] == key[j]);
        } else {
            assert(l[j] == mid[0]);
        }
    }
    assert(l[n + 1] == mid[1]);
    lemma_find_char_is(l, '=', n + 1);
    // The key.
    let left = l.subrange(0, n + 1);
    assert(left =~= key.push(' '));
    assert(is_ws(' '));
    assert(trim_start(left) == left);
    assert(left.drop_last() =~= key);
    assert(!is_ws(key.last()));
    assert(trim_end(key) == key);
    assert(trim_end(left) == key);
    assert(strip_lead_quotes(key) == key);
    assert(strip_trail_quotes(key) == key);
    // The value.
    let right = l.subrange(n + 2, l.len() as int);
    let value = seq!['{', ' ', 'v', 'e', 'r', 's', 'i', 'o', 'n', ' ', '=', ' ', '"'] + version
        + seq!['"'] + rest;
    assert(right =~= seq![' '] + value);
    assert(right.drop_first() =~= value);
    assert(trim_start(value) == value);
    assert(trim_start(right) == value);
    assert(value.last() == rest.last());
    assert(trim_end(value) == value);
    assert(!starts1(value, '"'));
    assert(starts1(value, '{'));
    // `version` first occurs at 2.
    let w = "version"@;
    crate::text::lemma_find_sub(value, w);
    assert(value.subrange(2, 9) =~= w);
    assert(matches_at(value, w, 2));
    assert(!matches_at(value, w, 0)) by {
        assert(value.subrange(0, 7)[0] == '{');
    }
    assert(!matches_at(value, w, 1)) by {
        assert(value.subrange(1, 8)[0] == ' ');
    }
    assert(contains(value, w));
    assert(find_sub(value, w) == Some(2int));
    let r = value.subrange(2, value.len() as int);
    assert forall|j: int| 0 <= j < 10 implies r[j] != '"' by {
        assert(r[j] == value[j + 2]);
    }
    assert(r[10] == '"');
    lemma_find_char_is(r, '"', 10);
    let tl = r.subrange(11, r.len() as int);
    assert(tl =~= version + seq!['"'] + rest);
    assert forall|j: int| 0 <= j < version.len() implies tl[j] != '"' by {
        assert(tl[j] == version[j]);
    }
    assert(tl[version.len() as int] == '"');
    lemma_find_char_is(tl, '"', version.len() as int);
    assert(tl.subrange(0, version.len() as int) =~= version);
}

/// A `key = { version = "..." ... }` line of a Cargo manifest, under a
/// `[dependencies]`, `[dev-dependencies]` or `[build-dependencies]` header
/// with no other header between them, is found as a dependency with that
/// name, the version of the inline table and that section.
pub proof fn law_cargo_inline_entry(
    content: Seq<char>,
    j: int,
    i: int,
    sec: Seq<char>,
    key: Seq<char>,
    version: Seq<char>,
    rest: Seq<char>,
)
    requires
        0 <= j < i < lines(content).len(),
        sec == "dependencies"@ || sec == "dev-dependencies"@ || sec == "build-dependencies"@,
        trim(lines(content)[j]) == seq!['['] + sec + seq![']'],
        forall|m: int|
            j < m < i ==> !(#[trigger] trim(lines(content)[m]).len() > 0 && trim(
                lines(content)[m],
            )[0] == '['),
        lines(content)[i] == inline_line(key, version, rest),
        bare_key(key),
        forall|k: int| 0 <= k < version.len() ==> #[trigger] version[k] != '"',
        rest.len() > 0,
        !is_ws(rest.last()),
    ensures
        cargo_deps(content).contains(
            DependencySpec { name: key, constraint: version, ecosystem: Ecosystem::Cargo, section: sec },
        ),
{
    let ls = lines(content);
    let d = DependencySpec { name: key, constraint: version, ecosystem: Ecosystem::Cargo, section: sec };
    lemma_cargo_section_kept(ls, j, i, sec);
    lemma_inline_line_entry(key, version, rest, sec, Ecosystem::Cargo);
    assert(ls.take(i + 1).drop_last() =~= ls.take(i));
    assert(ls.take(i + 1).last() == ls[i]);
    assert(inline_line(key, version, rest)[0] == key[0]);
    assert(section_header(inline_line(key, version, rest)) is None);
    let after = cargo_scan(ls.take(i + 1));
    assert(after.1 == cargo_scan(ls.take(i)).1.push(d));
    assert(after.1[after.1.len() - 1] == d);
    lemma_cargo_scan_grows(ls, i + 1, ls.len() as int, d);
    assert(ls.take(ls.len() as int) =~= ls);
}

/// A `key = "version"` line of a Cargo manifest, under a `[dependencies]`,
/// `[dev-dependencies]` or `[build-dependencies]` header with no other
/// header between them, is found as a dependency with that name,
/// requirement and section.
pub proof fn law_cargo_entry(
    content: Seq<char>,
    j: int,
    i: int,
    sec: Seq<char>,
    key: Seq<char>,
    version: Seq<char>,
)
    requires
        0 <= j < i < lines(content).len(),
        sec == "dependencies"@ || sec == "dev-dependencies"@ || sec == "build-dependencies"@,
        trim(lines(content)[j]) == seq!['['] + sec + seq![']'],
        forall|m: int|
            j < m < i ==> !(#[trigger] trim(lines(content)[m]).len() > 0 && trim(
                lines(content)[m],
            )[0] == '['),
        lines(content)[i] == key_line(key, version),
        bare_key(key),
        quoted_text(version),
    ensures
        cargo_deps(content).contains(
            DependencySpec { name: key, constraint: version, ecosystem: Ecosystem::Cargo, section: sec },
        ),
{
    let ls = lines(content);
    let d = DependencySpec { name: key, constraint: version, ecosystem: Ecosystem::Cargo, section: sec };
    lemma_cargo_section_kept(ls, j, i, sec);
    lemma_key_line_entry(key, version, sec, Ecosystem::Cargo);
    assert(ls.take(i + 1).drop_last() =~= ls.take(i));
    assert(ls.take(i + 1).last() == ls[i]);
    assert(key_line(key, version)[0] == key[0]);
    assert(section_header(key_line(key, version)) is None);
    let after = cargo_scan(ls.take(i + 1));
    assert(after.1 == cargo_scan(ls.take(i)).1.push(d));
    assert(after.1[after.1.len() - 1] == d);
    lemma_cargo_scan_grows(ls, i + 1, ls.len() as int, d);
    assert(ls.take(ls.len() as int) =~= ls);
}

proof fn lemma_pyproject_scan_grows(ls: Seq<Seq<char>>, k: int, m: int, d: DependencySpec)
    requires
        0 <= k <= m <= ls.len(),
        pyproject_scan(ls.take(k)).1.contains(d),
    ensures
        pyproject_scan(ls.take(m)).1.contains(d),
    decreases m - k,
{
    if k < m {
        let a = pyproject_scan(ls.take(k));
        assert(ls.take(k + 1).drop_last() =~= ls.take(k));
        assert(ls.take(k + 1).last() == ls[k]);
        let b = pyproject_scan(ls.take(k + 1));
        let i = choose|i: int| 0 <= i < a.1.len() && a.1[i] == d;
        assert(b.1.len() >= a.1.len() && b.1.subrange(0, a.1.len() as int) == a.1) by {
            let line = trim(ls[k]);
            if section_header(line) is None {
                let rest = b.1.subrange(a.1.len() as int, b.1.len() as int);
                assert(b.1.subrange(0, a.1.len() as int) =~= a.1);
            }
        }
        assert(b.1[i] == b.1.subrange(0, a.1.len() as int)[i]);
        lemma_pyproject_scan_grows(ls, k + 1, m, d);
    }
}

proof fn lemma_pyproject_section_kept(ls: Seq<Seq<char>>, j: int, k: int, sec: Seq<char>)
    requires
        0 <= j < k <= ls.len(),
        trim(ls[j]) == seq!['['] + sec + seq![']'],
        forall|m: int| j < m < k ==> !(#[trigger] trim(ls[m]).len() > 0 && trim(ls[m])[0] == '['),
    ensures
        pyproject_scan(ls.take(k)).0 == sec,
    decreases k - j,
{
    assert(ls.take(k).drop_last() =~= ls.take(k - 1));
    assert(ls.take(k).last() == ls[k - 1]);
    if k == j + 1 {
        let h = trim(ls[j]);
        assert(h.subrange(1, h.len() - 1) =~= sec);
    } else {
        lemma_pyproject_section_kept(ls, j, k - 1, sec);
        assert(!(trim(ls[k - 1]).len() > 0 && trim(ls[k - 1])[0] == '['));
    }
}

/// A `key = "version"` line of a pyproject file under a
/// `[tool.poetry.dependencies]` or `[tool.poetry.group.<name>.dependencies]`
/// header, with no other header between them, is found as a pip
/// dependency with that name, requirement and section.
#[verifier::spinoff_prover]
#[verifier::rlimit(30)]
pub proof fn law_poetry_entry(
    content: Seq<char>,
    j: int,
    i: int,
    sec: Seq<char>,
    key: Seq<char>,
    version: Seq<char>,
)
    requires
        0 <= j < i < lines(content).len(),
        sec == "tool.poetry.dependencies"@ || exists|g: Seq<char>|
            sec == "tool.poetry.group."@ + g + ".dependencies"@,
        trim(lines(content)[j]) == seq!['['] + sec + seq![']'],
        forall|m: int|
            j < m < i ==> !(#[trigger] trim(lines(content)[m]).len() > 0 && trim(
                lines(content)[m],
            )[0] == '['),
        lines(content)[i] == key_line(key, version),
        bare_key(key),
        quoted_text(version),
    ensures
        pyproject_deps(content).contains(
            DependencySpec { name: key, constraint: version, ecosystem: Ecosystem::Pip, section: sec },
        ),
{
    let ls = lines(content);
    let d = DependencySpec { name: key, constraint: version, ecosystem: Ecosystem::Pip, section: sec };
    lemma_pyproject_section_kept(ls, j, i, sec);
    lemma_key_line_entry(key, version, sec, Ecosystem::Pip);
    reveal_strlit("tool.poetry");
    reveal_strlit("tool.poetry.group");
    reveal_strlit("tool.poetry.group.");
    reveal_strlit("tool.poetry.dependencies");
    reveal_strlit(".dependencies");
    reveal_strlit("project");
    reveal_strlit("project.optional-dependencies");
    assert(poetry_section(sec)) by {
        if sec != "tool.poetry.dependencies"@ {
            let g = choose|g: Seq<char>| sec == "tool.poetry.group."@ + g + ".dependencies"@;
            assert(starts_with(sec, "tool.poetry"@)) by {
                assert forall|k: int| 0 <= k < 11 implies sec[k] == "tool.poetry"@[k] by {
                    assert(sec[k] == "tool.poetry.group."@[k]);
                }
                assert(sec.subrange(0, 11) =~= "tool.poetry"@);
            }
            assert(starts_with(sec, "tool.poetry.group"@)) by {
                assert forall|k: int| 0 <= k < 17 implies sec[k] == "tool.poetry.group"@[k] by {
                    assert(sec[k] == "tool.poetry.group."@[k]);
                }
                assert(sec.subrange(0, 17) =~= "tool.poetry.group"@);
            }
        } else {
            assert(sec.subrange(0, 11) =~= "tool.poetry"@);
        }
    }
    assert(sec != "project"@) by {
        assert(sec[0] == 't');
    }
    assert(!starts_with(sec, "project.optional-dependencies"@)) by {
        let pp = "project.optional-dependencies"@;
        assert(sec[0] == 't');
        if starts_with(sec, pp) {
            assert(sec.subrange(0, pp.len() as int)[0] == sec[0]);
            assert(pp[0] == 'p');
        }
    }
    assert(ls.take(i + 1).drop_last() =~= ls.take(i));
    assert(ls.take(i + 1).last() == ls[i]);
    assert(key_line(key, version)[0] == key[0]);
    assert(section_header(key_line(key, version)) is None);
    let before = pyproject_scan(ls.take(i));
    let after = pyproject_scan(ls.take(i + 1));
    assert(after.1 =~= before.1 + seq![d]);
    assert(after.1[after.1.len() - 1] == d);
    lemma_pyproject_scan_grows(ls, i + 1, ls.len() as int, d);
    assert(ls.take(ls.len() as int) =~= ls);
}

/// A word without white space.
pub open spec fn solid(w: Seq<char>) -> bool {
    w.len() > 0 && forall|i: int| 0 <= i < w.len() ==> !is_ws(#[trigger] w[i])
}

proof fn lemma_words_one(a: Seq<char>)
    requires
        solid(a),
    ensures
        words(a) == seq![a],
        words(a + seq![' ']) == seq![a],
    decreases a.len(),
{
    assert(!is_ws(a[a.len() - 1]));
    if a.len() == 1 {
        assert(a.drop_last() =~= Seq::<char>::empty());
        assert(words(a.drop_last()) == Seq::<Seq<char>>::empty());
        assert(a =~= seq![a.last()]);
        assert(words(a) == Seq::<Seq<char>>::empty().push(seq![a.last()]));
        assert(Seq::<Seq<char>>::empty().push(seq![a.last()]) =~= seq![a]);
    } else {
        let p = a.drop_last();
        assert(solid(p)) by {
            assert forall|i: int| 0 <= i < p.len() implies !is_ws(#[trigger] p[i]) by {
                assert(p[i] == a[i]);
            }
        }
        lemma_words_one(p);
        assert(!is_ws(a[a.len() - 2]));
        let r = words(p);
        assert(words(a) == r.update(r.len() - 1, r.last().push(a.last())));
        assert(p.push(a.last()) =~= a);
        assert(seq![p].update(0, p.push(a.last())) =~= seq![a]);
    }
    let b = a + seq![' '];
    assert(b.drop_last() =~= a);
    assert(b.last() == ' ');
    assert(is_ws(' '));
    assert(words(b) == words(b.drop_last()));
}

proof fn lemma_words_two(a: Seq<char>, b: Seq<char>)
    requires
        solid(a),
        solid(b),
    ensures
        words(a + seq![' '] + b) == seq![a, b],
    decreases b.len(),
{
    let s = a + seq![' '] + b;
    lemma_words_one(a);
    assert(!is_ws(s.last())) by {
        assert(s.last() == b.last());
    }
    if b.len() == 1 {
        assert(s.drop_last() =~= a + seq![' ']);
        assert(s[s.len() - 2] == ' ');
        assert(is_ws(' '));
        assert(b =~= seq![s.last()]);
        assert(seq![a].push(seq![s.last()]) =~= seq![a, b]);
    } else {
        let p = b.drop_last();
        assert(solid(p)) by {
            assert forall|i: int| 0 <= i < p.len() implies !is_ws(#[trigger] p[i]) by {
                assert(p[i] == b[i]);
            }
        }
        lemma_words_two(a, p);
        assert(s.drop_last() =~= a + seq![' '] + p);
        assert(s[s.len() - 2] == b[b.len() - 2]);
        assert(p.push(b.last()) =~= b);
        assert(seq![a, p].update(1, p.push(b.last())) =~= seq![a, b]);
    }
}

proof fn lemma_go_scan_grows(ls: Seq<Seq<char>>, k: int, m: int, d: DependencySpec)
    requires
        0 <= k <= m <= ls.len(),
        go_scan(ls.take(k)).1.contains(d),
    ensures
        go_scan(ls.take(m)).1.contains(d),
    decreases m - k,
{
    if k < m {
        let a = go_scan(ls.take(k));
        assert(ls.take(k + 1).drop_last() =~= ls.take(k));
        assert(ls.take(k + 1).last() == ls[k]);
        let b = go_scan(ls.take(k + 1));
        let i = choose|i: int| 0 <= i < a.1.len() && a.1[i] == d;
        assert(b.1 == a.1 || b.1 == a.1.push(b.1.last()));
        if b.1 != a.1 {
            assert(b.1[i] == d);
        }
        lemma_go_scan_grows(ls, k + 1, m, d);
    }
}

proof fn lemma_go_block_open(ls: Seq<Seq<char>>, j: int, k: int)
    requires
        0 <= j < k <= ls.len(),
        trim(ls[j]) == "require ("@,
        forall|m: int| j < m < k ==> #[trigger] trim(ls[m]) != ")"@,
    ensures
        go_scan(ls.take(k)).0,
    decreases k - j,
{
    assert(ls.take(k).drop_last() =~= ls.take(k - 1));
    assert(ls.take(k).last() == ls[k - 1]);
    if k > j + 1 {
        lemma_go_block_open(ls, j, k - 1);
        assert(trim(ls[k - 1]) != ")"@);
    }
}

/// A module path of a go.mod file: ASCII letters and digits, `.`, `/`, `-`
/// and `_`, starting with a letter or digit, and not the word `require`.
pub open spec fn go_module_name(n: Seq<char>) -> bool {
    &&& n.len() > 0
    &&& forall|i: int|
        0 <= i < n.len() ==> ({
            let c = #[trigger] n[i];
            ('0' <= c && c <= '9') || ('a' <= c && c <= 'z') || ('A' <= c && c <= 'Z') || c == '.'
                || c == '/' || c == '-' || c == '_'
        })
    &&& n[0] != '.' && n[0] != '/' && n[0] != '-' && n[0] != '_'
    &&& n != "require"@
}

/// A line `path vVERSION` inside a `require (` block of a go.mod file (no
/// `)` line between them) is found as a dependency with that path, the
/// version without its `v`, and section `require`.
#[verifier::spinoff_prover]
#[verifier::rlimit(30)]
pub proof fn law_go_require_entry(content: Seq<char>, j: int, i: int, path: Seq<char>, version: Seq<char>)
    requires
        0 <= j < i < lines(content).len(),
        trim(lines(content)[j]) == "require ("@,
        forall|m: int| j < m < i ==> #[trigger] trim(lines(content)[m]) != ")"@,
        lines(content)[i] == path + seq![' ', 'v'] + version,
        go_module_name(path),
        solid(version),
    ensures
        go_deps(content).contains(
            DependencySpec {
                name: path,
                constraint: version,
                ecosystem: Ecosystem::Cargo,
                section: "require"@,
            },
        ),
{
    reveal_strlit("require (");
    reveal_strlit("require ");
    reveal_strlit("require");
    reveal_strlit(")");
    reveal_strlit("//");
    let ls = lines(content);
    let l = ls[i];
    let vv = seq!['v'] + version;
    let d = DependencySpec { name: path, constraint: version, ecosystem: Ecosystem::Cargo, section: "require"@ };
    assert(solid(path)) by {
        assert forall|k: int| 0 <= k < path.len() implies !is_ws(#[trigger] path[k]) by {
            assert(go_module_name(path));
        }
    }
    assert(solid(vv)) by {
        assert forall|k: int| 0 <= k < vv.len() implies !is_ws(#[trigger] vv[k]) by {
            if k > 0 {
                assert(vv[k] == version[k - 1]);
            }
        }
    }
    assert(l =~= path + seq![' '] + vv);
    lemma_words_two(path, vv);
    assert(l[0] == path[0]);
    assert(l.last() == vv.last());
    lemma_trim_unchanged(l);
    lemma_go_block_open(ls, j, i);
    // The line is not a block bracket, a `require ` line or a comment.
    assert(l != "require ("@) by {
        if l == "require ("@ {
            assert(l.len() == 9);
            assert(l[8] == '(');
            assert(!is_ws(l[8]));
            assert(l[7] == ' ');
            assert(path.len() == 7);
            assert(path =~= l.subrange(0, 7));
            assert(l.subrange(0, 7) =~= "require"@);
        }
    }
    assert(l != ")"@) by {
        assert(l.len() >= 3);
    }
    assert(!starts_with(l, "require "@)) by {
        if starts_with(l, "require "@) {
            let r = "require "@;
            assert(l.subrange(0, 8) == r);
            if path.len() < 7 {
                assert(l[path.len() as int] == ' ');
                assert(l.subrange(0, 8)[path.len() as int] == r[path.len() as int]);
            } else if path.len() > 7 {
                assert(l[7] == path[7]);
                assert(l.subrange(0, 8)[7] == ' ');
            } else {
                assert(path =~= l.subrange(0, 7));
                assert(l.subrange(0, 7) =~= "require"@);
            }
        }
    }
    assert(!starts_with(l, "//"@)) by {
        if starts_with(l, "//"@) {
            assert(l.subrange(0, 2)[0] == '/');
        }
    }
    assert(ls.take(i + 1).drop_last() =~= ls.take(i));
    assert(ls.take(i + 1).last() == ls[i]);
    assert(starts1(vv, 'v'));
    assert(vv.drop_first() =~= version);
    assert(go_dep(l) == Some(d));
    let after = go_scan(ls.take(i + 1));
    assert(after.1 == go_scan(ls.take(i)).1.push(d));
    assert(after.1[after.1.len() - 1] == d);
    lemma_go_scan_grows(ls, i + 1, ls.len() as int, d);
    assert(ls.take(ls.len() as int) =~= ls);
}

/// A character that starts a PEP 508 version operator.
pub open spec fn op_char(c: char) -> bool {
    c == '>' || c == '<' || c == '=' || c == '!' || c == '~'
}

/// A package name: ASCII letters and digits, `-`, `_` and `.`, starting
/// with a letter or digit.
pub open spec fn package_name(n: Seq<char>) -> bool {
    &&& n.len() > 0
    &&& forall|i: int|
        0 <= i < n.len() ==> ({
            let c = #[trigger] n[i];
            ('0' <= c && c <= '9') || ('a' <= c && c <= 'z') || ('A' <= c && c <= 'Z') || c == '-'
                || c == '_' || c == '.'
        })
    &&& !(n[0] == '-' || n[0] == '_' || n[0] == '.')
}

/// Extras such as `[security,socks]` (or none): in brackets, without white
/// space or operator characters.
pub open spec fn extras(e: Seq<char>) -> bool {
    e.len() == 0 || (e.len() >= 2 && e[0] == '[' && e.last() == ']' && forall|i: int|
        0 <= i < e.len() ==> !is_ws(#[trigger] e[i]) && !op_char(e[i]))
}

/// A version constraint: it starts with an operator (`>`, `<`, `=`, or
/// `~=` / `!=`) and has no white space at its end.
pub open spec fn pep_constraint(c: Seq<char>) -> bool {
    &&& c.len() > 0
    &&& !is_ws(c.last())
    &&& (c[0] == '>' || c[0] == '<' || c[0] == '=' || ((c[0] == '~' || c[0] == '!') && c.len()
        > 1 && c[1] == '='))
}

proof fn lemma_find_op(t: Seq<char>, pat: Seq<char>, pos: int)
    requires
        pat.len() > 0,
        op_char(pat[0]),
        0 <= pos <= t.len(),
        forall|k: int| 0 <= k < pos ==> !op_char(#[trigger] t[k]),
    ensures
        find_sub(t, pat) matches Some(k) ==> k >= pos,
        matches_at(t, pat, pos) ==> find_sub(t, pat) == Some(pos),
        (forall|k: int| 0 <= k < t.len() ==> !op_char(#[trigger] t[k])) ==> find_sub(t, pat) is None,
{
    crate::text::lemma_find_sub(t, pat);
    if let Some(k) = find_sub(t, pat) {
        assert(t.subrange(k, k + pat.len())[0] == t[k]);
        if matches_at(t, pat, pos) && k != pos {
            assert(!matches_at(t, pat, pos));
        }
    } else {
        if matches_at(t, pat, pos) {
            assert(contains(t, pat));
        }
    }
}

proof fn lemma_name_part(name: Seq<char>, e: Seq<char>)
    requires
        package_name(name),
        extras(e),
    ensures
        split_char(name + e, '[')[0] == name,
        forall|k: int| 0 <= k < (name + e).len() ==> !op_char(#[trigger] (name + e)[k]) && !is_ws(
            (name + e)[k],
        ),
{
    assert forall|k: int| 0 <= k < name.len() implies name[k] != '[' by {
        assert(package_name(name));
    }
    crate::text::lemma_split_char_none(name, '[');
    if e.len() == 0 {
        assert(name + e =~= name);
    } else {
        let rest = e.drop_first();
        assert(name + e =~= name + seq!['['] + rest);
        crate::text::lemma_split_char_concat(name, rest, '[');
        crate::text::lemma_split_char_nonempty(rest, '[');
    }
    assert forall|k: int| 0 <= k < (name + e).len() implies !op_char(#[trigger] (name + e)[k])
        && !is_ws((name + e)[k]) by {
        if k < name.len() {
            assert((name + e)[k] == name[k]);
            assert(package_name(name));
        } else {
            assert((name + e)[k] == e[k - name.len()]);
        }
    }
}

proof fn lemma_pip_bare(name: Seq<char>, e: Seq<char>)
    requires
        package_name(name),
        extras(e),
    ensures
        pip_dep(name + e) == Some((name, "*"@)),
{
    reveal_strlit(">=");
    reveal_strlit("<=");
    reveal_strlit("~=");
    reveal_strlit("==");
    reveal_strlit("!=");
    reveal_strlit(">");
    reveal_strlit("<");
    reveal_strlit("=");
    let ne = name + e;
    lemma_name_part(name, e);
    assert(ne[0] == name[0]);
    assert(!is_ws(ne.last()));
    lemma_trim_unchanged(ne);
    lemma_find_op(ne, ">="@, 0);
    lemma_find_op(ne, "<="@, 0);
    lemma_find_op(ne, "~="@, 0);
    lemma_find_op(ne, "=="@, 0);
    lemma_find_op(ne, "!="@, 0);
    lemma_find_op(ne, ">"@, 0);
    lemma_find_op(ne, "<"@, 0);
    lemma_find_op(ne, "="@, 0);
    assert(constraint_start(ne) is None);
    assert(trim(split_char(ne, '[')[0]) == name) by {
        assert(name[0] == ne[0]);
        lemma_trim_unchanged(name);
    }
}

#[verifier::spinoff_prover]
#[verifier::rlimit(40)]
proof fn lemma_pip_constrained(name: Seq<char>, e: Seq<char>, sp: Seq<char>, c: Seq<char>)
    requires
        package_name(name),
        extras(e),
        sp == Seq::<char>::empty() || sp == seq![' '],
        pep_constraint(c),
    ensures
        pip_dep(name + e + sp + c) == Some((name, c)),
{
    reveal_strlit(">=");
    reveal_strlit("<=");
    reveal_strlit("~=");
    reveal_strlit("==");
    reveal_strlit("!=");
    reveal_strlit(">");
    reveal_strlit("<");
    reveal_strlit("=");
    let ne = name + e;
    lemma_name_part(name, e);
    assert(ne[0] == name[0]);
    assert(!is_ws(ne.last()));
    lemma_trim_unchanged(ne);
    let t = ne + sp + c;
    let pos = (ne + sp).len() as int;
    assert(t[0] == ne[0]);
    assert(t.last() == c.last());
    lemma_trim_unchanged(t);
    assert forall|k: int| 0 <= k < pos implies !op_char(#[trigger] t[k]) by {
        if k < ne.len() {
            assert(t[k] == ne[k]);
        } else {
            assert(t[k] == ' ');
        }
    }
    assert(t[pos] == c[0]);
    if c.len() > 1 {
        assert(t[pos + 1] == c[1]);
    }
    lemma_find_op(t, ">="@, pos);
    lemma_find_op(t, "<="@, pos);
    lemma_find_op(t, "~="@, pos);
    lemma_find_op(t, "=="@, pos);
    lemma_find_op(t, "!="@, pos);
    lemma_find_op(t, ">"@, pos);
    lemma_find_op(t, "<"@, pos);
    lemma_find_op(t, "="@, pos);
    if c[0] == '>' {
        assert(t.subrange(pos, pos + 1) =~= ">"@);
    } else if c[0] == '<' {
        assert(t.subrange(pos, pos + 1) =~= "<"@);
    } else if c[0] == '=' {
        assert(t.subrange(pos, pos + 1) =~= "="@);
    } else if c[0] == '~' {
        assert(t.subrange(pos, pos + 2) =~= "~="@);
    } else {
        assert(t.subrange(pos, pos + 2) =~= "!="@);
    }
    assert(constraint_start(t) == Some(pos));
    assert(t.subrange(0, pos) =~= ne + sp);
    assert(trim(ne + sp) == ne) by {
        if sp.len() > 0 {
            assert((ne + sp).drop_last() =~= ne);
            assert((ne + sp)[0] == ne[0]);
            assert(is_ws(' '));
            assert(trim_start(ne + sp) == ne + sp);
            assert(trim_end(ne) == ne);
        } else {
            assert(ne + sp =~= ne);
        }
    }
    assert(t.subrange(pos, t.len() as int) =~= c);
    assert(c[0] == t[pos]);
    lemma_trim_unchanged(c);
}

/// A PEP 508 requirement `name[extras] constraint` (the extras and one
/// space before the constraint optional) gives that name, without the
/// extras, and that constraint; one without a constraint gives the name
/// and `*`.
pub proof fn law_pip_requirement(name: Seq<char>, e: Seq<char>, sp: Seq<char>, c: Seq<char>)
    requires
        package_name(name),
        extras(e),
        sp == Seq::<char>::empty() || sp == seq![' '],
    ensures
        pep_constraint(c) ==> pip_dep(name + e + sp + c) == Some((name, c)),
        pip_dep(name + e) == Some((name, "*"@)),
{
    lemma_pip_bare(name, e);
    if pep_constraint(c) {
        lemma_pip_constrained(name, e, sp, c);
    }
}

/// The kind of a package file: by its name `package.json`, `Cargo.toml`,
/// `pyproject.toml` or `go.mod` whatever its content; otherwise a `.json`
/// file is a package.json, a `.toml` file is a Cargo manifest when it has a
/// `[package]` or `[dependencies]` table and a pyproject file when it has
/// neither.
pub proof fn law_file_kind(name: Seq<char>, ext: Seq<char>, content: Seq<char>)
    ensures
        file_kind("package.json"@, ext, content) == Some(FileKind::PackageJson),
        file_kind("Cargo.toml"@, ext, content) == Some(FileKind::CargoToml),
        file_kind("pyproject.toml"@, ext, content) == Some(FileKind::PyprojectToml),
        file_kind("go.mod"@, ext, content) == Some(FileKind::GoMod),
        ({
            let named = name == "package.json"@ || name == "Cargo.toml"@ || name
                == "pyproject.toml"@ || name == "go.mod"@;
            &&& !named && ext == "json"@ ==> file_kind(name, ext, content) == Some(
                FileKind::PackageJson,
            )
            &&& !named && ext == "toml"@ && (contains(content, "[package]"@) || contains(
                content,
                "[dependencies]"@,
            )) ==> file_kind(name, ext, content) == Some(FileKind::CargoToml)
            &&& !named && ext == "toml"@ && !contains(content, "[package]"@) && !contains(
                content,
                "[dependencies]"@,
            ) ==> file_kind(name, ext, content) == Some(FileKind::PyprojectToml)
        }),
{
    reveal_strlit("package.json");
    reveal_strlit("Cargo.toml");
    reveal_strlit("pyproject.toml");
    reveal_strlit("go.mod");
    reveal_strlit("json");
    reveal_strlit("toml");
    assert("json"@ != "toml"@) by {
        assert("json"@[0] != "toml"@[0]);
    }
    assert("Cargo.toml"@ != "package.json"@) by {
        assert("Cargo.toml"@[0] != "package.json"@[0]);
    }
    assert("pyproject.toml"@ != "package.json"@) by {
        assert("pyproject.toml"@.len() != "package.json"@.len());
    }
    assert("pyproject.toml"@ != "Cargo.toml"@) by {
        assert("pyproject.toml"@.len() != "Cargo.toml"@.len());
    }
    assert("go.mod"@ != "package.json"@) by {
        assert("go.mod"@.len() != "package.json"@.len());
    }
    assert("go.mod"@ != "Cargo.toml"@) by {
        assert("go.mod"@.len() != "Cargo.toml"@.len());
    }
    assert("go.mod"@ != "pyproject.toml"@) by {
        assert("go.mod"@.len() != "pyproject.toml"@.len());
    }
}

/// Texts without a double quote.
pub open spec fn quote_free(t: Seq<char>) -> bool {
    forall|i: int| 0 <= i < t.len() ==> #[trigger] t[i] != '"'
}

/// `seps[0] "qs[0]" seps[1] "qs[1]" ... seps[n]`: the strings `qs` in
/// double quotes, with the separators `seps` around and between them.
pub open spec fn interleaved(seps: Seq<Seq<char>>, qs: Seq<Seq<char>>) -> Seq<char>
    decreases qs.len(),
{
    if qs.len() == 0 || seps.len() == 0 {
        if seps.len() > 0 {
            seps[0]
        } else {
            seq![]
        }
    } else {
        interleaved(seps.drop_last(), qs.drop_last()) + seq!['"'] + qs.last() + seq!['"']
            + seps.last()
    }
}

proof fn lemma_split_interleaved(seps: Seq<Seq<char>>, qs: Seq<Seq<char>>)
    requires
        seps.len() == qs.len() + 1,
        forall|k: int| 0 <= k < seps.len() ==> quote_free(#[trigger] seps[k]),
        forall|k: int| 0 <= k < qs.len() ==> quote_free(#[trigger] qs[k]),
    ensures
        split_char(interleaved(seps, qs), '"').len() == 2 * qs.len() + 1,
        forall|k: int|
            0 <= k < qs.len() ==> #[trigger] split_char(interleaved(seps, qs), '"')[2 * k + 1]
                == qs[k],
    decreases qs.len(),
{
    if qs.len() == 0 {
        crate::text::lemma_split_char_none(seps[0], '"');
    } else {
        let sd = seps.drop_last();
        let qd = qs.drop_last();
        assert forall|k: int| 0 <= k < sd.len() implies quote_free(#[trigger] sd[k]) by {
            assert(sd[k] == seps[k]);
        }
        assert forall|k: int| 0 <= k < qd.len() implies quote_free(#[trigger] qd[k]) by {
            assert(qd[k] == qs[k]);
        }
        lemma_split_interleaved(sd, qd);
        let x = interleaved(sd, qd);
        let q = qs.last();
        let t = seps.last();
        assert(quote_free(q));
        assert(quote_free(t));
        let whole = interleaved(seps, qs);
        assert(whole =~= x + seq!['"'] + (q + seq!['"'] + t));
        crate::text::lemma_split_char_concat(x, q + seq!['"'] + t, '"');
        crate::text::lemma_split_char_concat(q, t, '"');
        crate::text::lemma_split_char_none(q, '"');
        crate::text::lemma_split_char_none(t, '"');
        let sx = split_char(x, '"');
        assert(split_char(whole, '"') =~= sx + seq![q, t]);
        assert forall|k: int| 0 <= k < qs.len() implies #[trigger] split_char(whole, '"')[2 * k
            + 1] == qs[k] by {
            if k < qd.len() {
                assert(split_char(whole, '"')[2 * k + 1] == sx[2 * k + 1]);
                assert(qd[k] == qs[k]);
            }
        }
    }
}

proof fn lemma_pip_deps_of_has(qs: Seq<Seq<char>>, n: int, k: int, section: Seq<char>)
    requires
        0 <= k < n <= qs.len(),
        pip_dep(qs[k]) is Some,
    ensures
        pip_deps_of(qs, n, section).contains(
            DependencySpec {
                name: pip_dep(qs[k]).unwrap().0,
                constraint: pip_dep(qs[k]).unwrap().1,
                ecosystem: Ecosystem::Pip,
                section,
            },
        ),
    decreases n,
{
    let d = DependencySpec {
        name: pip_dep(qs[k]).unwrap().0,
        constraint: pip_dep(qs[k]).unwrap().1,
        ecosystem: Ecosystem::Pip,
        section,
    };
    let prev = pip_deps_of(qs, n - 1, section);
    let whole = pip_deps_of(qs, n, section);
    lemma_contains_concat(prev, whole.subrange(prev.len() as int, whole.len() as int), d);
    assert(whole =~= prev + whole.subrange(prev.len() as int, whole.len() as int));
    if k < n - 1 {
        lemma_pip_deps_of_has(qs, n - 1, k, section);
    } else {
        let (nm, c) = pip_dep(qs[k]).unwrap();
        assert(whole.subrange(prev.len() as int, whole.len() as int) =~= seq![d]);
        assert(seq![d][0] == d);
    }
}

/// A `dependencies = ["req", "req", ...]` line in the `[project]` table of
/// a pyproject file (no other header between them) gives, for each of its
/// quoted PEP 508 requirements `name[extras] constraint`, a pip dependency
/// in section `dependencies` with that name and constraint (`*` when it
/// has none).
#[verifier::spinoff_prover]
#[verifier::rlimit(30)]
pub proof fn law_pep621_entry(
    content: Seq<char>,
    j: int,
    i: int,
    seps: Seq<Seq<char>>,
    qs: Seq<Seq<char>>,
    k: int,
    name: Seq<char>,
    e: Seq<char>,
    sp: Seq<char>,
    c: Seq<char>,
)
    requires
        0 <= j < i < lines(content).len(),
        trim(lines(content)[j]) == "[project]"@,
        forall|m: int|
            j < m < i ==> !(#[trigger] trim(lines(content)[m]).len() > 0 && trim(
                lines(content)[m],
            )[0] == '['),
        seps.len() == qs.len() + 1,
        seps[0] == seq!['['],
        seps.last() == seq![']'],
        forall|m: int| 0 < m < seps.len() - 1 ==> #[trigger] seps[m] == seq![',', ' '],
        forall|m: int| 0 <= m < qs.len() ==> quote_free(#[trigger] qs[m]),
        lines(content)[i] == "dependencies = "@ + interleaved(seps, qs),
        0 <= k < qs.len(),
        qs[k] == name + e + sp + c,
        package_name(name),
        extras(e),
        sp == Seq::<char>::empty() || sp == seq![' '],
        pep_constraint(c) || (c.len() == 0 && sp.len() == 0),
    ensures
        pyproject_deps(content).contains(
            DependencySpec {
                name,
                constraint: if c.len() == 0 {
                    "*"@
                } else {
                    c
                },
                ecosystem: Ecosystem::Pip,
                section: "dependencies"@,
            },
        ),
{
    reveal_strlit("[project]");
    reveal_strlit("project");
    reveal_strlit("dependencies = ");
    reveal_strlit("dependencies");
    reveal_strlit("project.optional-dependencies");
    reveal_strlit("tool.poetry");
    let ls = lines(content);
    let sec = "project"@;
    assert(trim(ls[j]) =~= seq!['['] + sec + seq![']']);
    lemma_pyproject_section_kept(ls, j, i, sec);
    let d = DependencySpec {
        name,
        constraint: if c.len() == 0 {
            "*"@
        } else {
            c
        },
        ecosystem: Ecosystem::Pip,
        section: "dependencies"@,
    };
    // The requirement itself.
    if c.len() == 0 {
        assert(qs[k] =~= name + e);
        law_pip_requirement(name, e, sp, c);
    } else {
        law_pip_requirement(name, e, sp, c);
    }
    assert(pip_dep(qs[k]) == Some((d.name, d.constraint)));
    // The array.
    assert forall|m: int| 0 <= m < seps.len() implies quote_free(#[trigger] seps[m]) by {
        if m == 0 {
            assert(seps[0] == seq!['[']);
        } else if m == seps.len() - 1 {
            assert(seps[m] == seq![']']);
        } else {
            assert(seps[m] == seq![',', ' ']);
        }
    }
    lemma_split_interleaved(seps, qs);
    let arr = interleaved(seps, qs);
    let p = split_char(arr, '"');
    assert(quoted_strings(arr) =~= qs) by {
        assert forall|m: int| 0 <= m < qs.len() implies quoted_strings(arr)[m] == qs[m] by {
            assert(p[2 * m + 1] == qs[m]);
        }
    }
    lemma_pip_deps_of_has(qs, qs.len() as int, k, "dependencies"@);
    assert(pip_array_deps(arr, "dependencies"@).contains(d));
    // The line.
    let l = ls[i];
    let head = "dependencies = "@;
    assert(head.len() == 15);
    assert(arr[0] == '[') by {
        lemma_interleaved_starts(seps, qs);
    }
    assert(l.last() == ']') by {
        lemma_interleaved_ends(seps, qs);
        assert(l.last() == arr.last());
    }
    assert(l[0] == 'd');
    lemma_trim_unchanged(l);
    assert(starts_with(l, "dependencies"@)) by {
        assert(l.subrange(0, 12) =~= "dependencies"@) by {
            assert forall|m: int| 0 <= m < 12 implies l.subrange(0, 12)[m] == "dependencies"@[m] by {
                assert(l[m] == head[m]);
            }
        }
    }
    assert forall|m: int| 0 <= m < 15 implies l[m] != '[' by {
        assert(l[m] == head[m]);
    }
    assert(l[15] == arr[0]);
    lemma_find_char_is(l, '[', 15);
    assert(l.subrange(15, l.len() as int) =~= arr);
    assert(section_header(l) is None);
    assert(!poetry_section(sec)) by {
        if starts_with(sec, "tool.poetry"@) {
            assert(sec.subrange(0, 11).len() == 11);
        }
    }
    assert(!starts_with(sec, "project.optional-dependencies"@));
    assert(ls.take(i + 1).drop_last() =~= ls.take(i));
    assert(ls.take(i + 1).last() == ls[i]);
    let before = pyproject_scan(ls.take(i));
    let after = pyproject_scan(ls.take(i + 1));
    let listed = pip_array_deps(arr, "dependencies"@);
    assert(after.1 =~= before.1 + listed);
    lemma_contains_concat(before.1, listed, d);
    lemma_pyproject_scan_grows(ls, i + 1, ls.len() as int, d);
    assert(ls.take(ls.len() as int) =~= ls);
}

#[verifier::spinoff_prover]
proof fn lemma_requirement_array(
    seps: Seq<Seq<char>>,
    qs: Seq<Seq<char>>,
    k: int,
    name: Seq<char>,
    e: Seq<char>,
    sp: Seq<char>,
    c: Seq<char>,
    section: Seq<char>,
)
    requires
        seps.len() == qs.len() + 1,
        seps[0] == seq!['['],
        seps.last() == seq![']'],
        forall|m: int| 0 < m < seps.len() - 1 ==> #[trigger] seps[m] == seq![',', ' '],
        forall|m: int| 0 <= m < qs.len() ==> quote_free(#[trigger] qs[m]),
        0 <= k < qs.len(),
        qs[k] == name + e + sp + c,
        package_name(name),
        extras(e),
        sp == Seq::<char>::empty() || sp == seq![' '],
        pep_constraint(c) || (c.len() == 0 && sp.len() == 0),
    ensures
        interleaved(seps, qs).len() > 0,
        interleaved(seps, qs)[0] == '[',
        interleaved(seps, qs).last() == ']',
        pip_array_deps(interleaved(seps, qs), section).contains(
            DependencySpec {
                name,
                constraint: if c.len() == 0 {
                    "*"@
                } else {
                    c
                },
                ecosystem: Ecosystem::Pip,
                section,
            },
        ),
{
    let d = DependencySpec {
        name,
        constraint: if c.len() == 0 {
            "*"@
        } else {
            c
        },
        ecosystem: Ecosystem::Pip,
        section,
    };
    if c.len() == 0 {
        assert(qs[k] =~= name + e);
    }
    law_pip_requirement(name, e, sp, c);
    assert(pip_dep(qs[k]) == Some((d.name, d.constraint)));
    assert forall|m: int| 0 <= m < seps.len() implies quote_free(#[trigger] seps[m]) by {
        if m == 0 {
            assert(seps[0] == seq!['[']);
        } else if m == seps.len() - 1 {
            assert(seps[m] == seq![']']);
        } else {
            assert(seps[m] == seq![',', ' ']);
        }
    }
    lemma_split_interleaved(seps, qs);
    let arr = interleaved(seps, qs);
    let p = split_char(arr, '"');
    assert(quoted_strings(arr) =~= qs) by {
        assert forall|m: int| 0 <= m < qs.len() implies quoted_strings(arr)[m] == qs[m] by {
            assert(p[2 * m + 1] == qs[m]);
        }
    }
    lemma_pip_deps_of_has(qs, qs.len() as int, k, section);
    lemma_interleaved_starts(seps, qs);
    lemma_interleaved_ends(seps, qs);
}

/// A `group = ["req", ...]` line in the `[project.optional-dependencies]`
/// table of a pyproject file (no other header between them) gives, for
/// each of its quoted requirements `name[extras] constraint`, a pip
/// dependency in section `optional-dependencies.group` with that name and
/// constraint (`*` when it has none).
#[verifier::spinoff_prover]
#[verifier::rlimit(30)]
pub proof fn law_pep621_optional_entry(
    content: Seq<char>,
    j: int,
    i: int,
    group: Seq<char>,
    seps: Seq<Seq<char>>,
    qs: Seq<Seq<char>>,
    k: int,
    name: Seq<char>,
    e: Seq<char>,
    sp: Seq<char>,
    c: Seq<char>,
)
    requires
        0 <= j < i < lines(content).len(),
        trim(lines(content)[j]) == "[project.optional-dependencies]"@,
        forall|m: int|
            j < m < i ==> !(#[trigger] trim(lines(content)[m]).len() > 0 && trim(
                lines(content)[m],
            )[0] == '['),
        bare_key(group),
        seps.len() == qs.len() + 1,
        seps[0] == seq!['['],
        seps.last() == seq![']'],
        forall|m: int| 0 < m < seps.len() - 1 ==> #[trigger] seps[m] == seq![',', ' '],
        forall|m: int| 0 <= m < qs.len() ==> quote_free(#[trigger] qs[m]),
        lines(content)[i] == group + " = "@ + interleaved(seps, qs),
        0 <= k < qs.len(),
        qs[k] == name + e + sp + c,
        package_name(name),
        extras(e),
        sp == Seq::<char>::empty() || sp == seq![' '],
        pep_constraint(c) || (c.len() == 0 && sp.len() == 0),
    ensures
        pyproject_deps(content).contains(
            DependencySpec {
                name,
                constraint: if c.len() == 0 {
                    "*"@
                } else {
                    c
                },
                ecosystem: Ecosystem::Pip,
                section: "optional-dependencies."@ + group,
            },
        ),
{
    reveal_strlit("[project.optional-dependencies]");
    reveal_strlit("project.optional-dependencies");
    reveal_strlit(" = ");
    reveal_strlit("project");
    reveal_strlit("tool.poetry");
    let ls = lines(content);
    let sec = "project.optional-dependencies"@;
    assert(trim(ls[j]) =~= seq!['['] + sec + seq![']']);
    lemma_pyproject_section_kept(ls, j, i, sec);
    let section = "optional-dependencies."@ + group;
    let d = DependencySpec {
        name,
        constraint: if c.len() == 0 {
            "*"@
        } else {
            c
        },
        ecosystem: Ecosystem::Pip,
        section,
    };
    lemma_requirement_array(seps, qs, k, name, e, sp, c, section);
    let arr = interleaved(seps, qs);
    let l = ls[i];
    let n: int = group.len() as int;
    assert(l =~= group + seq![' ', '=', ' '] + arr);
    assert(l[0] == group[0]);
    assert(l.last() == arr.last());
    lemma_trim_unchanged(l);
    assert forall|m: int| 0 <= m < n + 1 implies l[m] != '=' by {
        if m < n {
            assert(l[m] == group[m]);
        }
    }
    assert(l[n + 1] == '=');
    lemma_find_char_is(l, '=', n + 1);
    let left = l.subrange(0, n + 1);
    assert(left =~= group.push(' '));
    assert(is_ws(' '));
    assert(trim_start(left) == left);
    assert(left.drop_last() =~= group);
    assert(!is_ws(group.last()));
    assert(trim_end(group) == group);
    assert(trim(left) == group);
    let right = l.subrange(n + 2, l.len() as int);
    assert(right =~= seq![' '] + arr);
    assert(right.drop_first() =~= arr);
    assert(trim_start(arr) == arr);
    assert(trim_start(right) == arr);
    assert(trim_end(arr) == arr);
    assert(optional_deps(l) == pip_array_deps(arr, section));
    assert(section_header(l) is None);
    assert(sec != "project"@) by {
        assert(sec.len() != "project"@.len());
    }
    assert(!poetry_section(sec)) by {
        if starts_with(sec, "tool.poetry"@) {
            assert(sec.subrange(0, 11)[0] == sec[0]);
        }
    }
    assert(starts_with(sec, "project.optional-dependencies"@)) by {
        assert(sec.subrange(0, sec.len() as int) =~= sec);
    }
    assert(ls.take(i + 1).drop_last() =~= ls.take(i));
    assert(ls.take(i + 1).last() == ls[i]);
    let before = pyproject_scan(ls.take(i));
    let after = pyproject_scan(ls.take(i + 1));
    let listed = pip_array_deps(arr, section);
    assert(after.1 =~= before.1 + listed);
    lemma_contains_concat(before.1, listed, d);
    lemma_pyproject_scan_grows(ls, i + 1, ls.len() as int, d);
    assert(ls.take(ls.len() as int) =~= ls);
}

proof fn lemma_interleaved_starts(seps: Seq<Seq<char>>, qs: Seq<Seq<char>>)
    requires
        seps.len() == qs.len() + 1,
        seps[0].len() > 0,
    ensures
        interleaved(seps, qs).len() > 0,
        interleaved(seps, qs)[0] == seps[0][0],
    decreases qs.len(),
{
    if qs.len() > 0 {
        assert(seps.drop_last()[0] == seps[0]);
        lemma_interleaved_starts(seps.drop_last(), qs.drop_last());
    }
}

proof fn lemma_interleaved_ends(seps: Seq<Seq<char>>, qs: Seq<Seq<char>>)
    requires
        seps.len() == qs.len() + 1,
        seps.last().len() > 0,
    ensures
        interleaved(seps, qs).len() > 0,
        interleaved(seps, qs).last() == seps.last().last(),
{
    if qs.len() == 0 {
        assert(seps[0] == seps.last());
    }
}

/// The dependencies of one package, as conflict detection groups them:
/// exactly those with that name, in the order they were found.
pub proof fn law_group_is_filter(deps: Seq<DependencySpec>, name: Seq<char>)
    ensures
        group_of(deps, name) == deps.filter(|d: DependencySpec| d.name == name),
    decreases deps.len(),
{
    reveal_with_fuel(Seq::filter, 2);
    if deps.len() > 0 {
        law_group_is_filter(deps.drop_last(), name);
    }
}

/// A reported conflict names its package and lists the constraints of
/// exactly the dependencies with that name, in the order they were found.
pub proof fn law_conflict_constraints(deps: Seq<DependencySpec>, name: Seq<char>)
    ensures
        conflict_for(deps, name).package == name,
        conflict_for(deps, name).constraints == deps.filter(|d: DependencySpec| d.name == name)
            .map_values(|d: DependencySpec| d.constraint),
        conflict_for(deps, name).intersection_empty,
{
    law_group_is_filter(deps, name);
}

/// Two strictly ascending sequences of texts with the same elements are
/// the same sequence.
proof fn lemma_ascending_unique(a: Seq<Seq<char>>, b: Seq<Seq<char>>)
    requires
        ascending_texts(a),
        ascending_texts(b),
        a.to_set() == b.to_set(),
    ensures
        a == b,
    decreases a.len() + b.len(),
{
    if a.len() == 0 || b.len() == 0 {
        if a.len() > 0 {
            assert(a.to_set().contains(a[0]));
        }
        if b.len() > 0 {
            assert(b.to_set().contains(b[0]));
        }
        assert(a =~= b);
    } else {
        let la = a.last();
        let lb = b.last();
        assert(a.to_set().contains(la));
        assert(b.to_set().contains(lb));
        let j = choose|j: int| 0 <= j < b.len() && b[j] == la;
        let i = choose|i: int| 0 <= i < a.len() && a[i] == lb;
        if la != lb {
            // la = b[j] lies below lb and lb = a[i] lies below la
            lemma_lex_equal(la, lb);
            if j < b.len() - 1 {
                assert(lex_order(b[j], b[b.len() - 1]) == Order::Less);
            }
            if i < a.len() - 1 {
                assert(lex_order(a[i], a[a.len() - 1]) == Order::Less);
            }
            assert(lex_order(la, lb) == Order::Less);
            assert(lex_order(lb, la) == Order::Less);
            lemma_lex_reverse(la, lb);
            assert(false);
        }
        let ta = a.drop_last();
        let tb = b.drop_last();
        assert forall|x: Seq<char>| ta.to_set().contains(x) implies tb.to_set().contains(x) by {
            let k = choose|k: int| 0 <= k < ta.len() && ta[k] == x;
            assert(lex_order(a[k], a[a.len() - 1]) == Order::Less);
            lemma_lex_equal(x, la);
            assert(a.to_set().contains(x));
            let m = choose|m: int| 0 <= m < b.len() && b[m] == x;
            assert(m != b.len() - 1);
            assert(tb[m] == x);
        }
        assert forall|x: Seq<char>| tb.to_set().contains(x) implies ta.to_set().contains(x) by {
            let k = choose|k: int| 0 <= k < tb.len() && tb[k] == x;
            assert(lex_order(b[k], b[b.len() - 1]) == Order::Less);
            lemma_lex_equal(x, lb);
            assert(b.to_set().contains(x));
            let m = choose|m: int| 0 <= m < a.len() && a[m] == x;
            assert(m != a.len() - 1);
            assert(ta[m] == x);
        }
        assert(ta.to_set() =~= tb.to_set());
        lemma_ascending_unique(ta, tb);
        assert(a =~= ta.push(la));
        assert(b =~= tb.push(lb));
    }
}

/// The sections of the text report are determined by the dependencies:
/// there is one way only to list them each once in ascending order.
pub proof fn law_report_sections_unique(
    deps: Seq<DependencySpec>,
    s1: Seq<Seq<char>>,
    s2: Seq<Seq<char>>,
)
    requires
        lists_sections(deps, s1),
        lists_sections(deps, s2),
    ensures
        s1 == s2,
{
    lemma_ascending_unique(s1, s2);
}

} // verus!
