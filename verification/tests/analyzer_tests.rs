use semverity::analyzer::{
    analysis_report, analyze_cargo_toml, analyze_content, analyze_go_mod, analyze_package_json, analyze_pyproject_toml,
    detect_conflicts, detect_file_kind, find_conflicts, parse_pip_dep_string, AnalysisResult,
    AnalyzeError, Dependency, FileKind, JsonValue,
};
use semverity::ecosystem::Ecosystem;

/// What analyzing a file with this name and content gives.
fn analyze(name: &str, content: &str) -> AnalysisResult {
    let ext = name.rsplit_once('.').map(|(_, e)| e).unwrap_or("");
    analyze_content(name, ext, content, name).unwrap().unwrap()
}

fn dep(name: &str, constraint: &str, ecosystem: Ecosystem, section: &str) -> Dependency {
    Dependency {
        name: name.to_string(),
        constraint: constraint.to_string(),
        ecosystem,
        section: section.to_string(),
    }
}

#[test]
fn test_analyze_package_json() {
    let content = r#"{
            "dependencies": {
                "express": "^4.18.0",
                "lodash": "~4.17.21"
            },
            "devDependencies": {
                "jest": ">=29.0.0 <30.0.0"
            }
        }"#;
    let result = analyze("test_package.json", content);
    assert_eq!(result.ecosystem, Ecosystem::Npm);
    assert_eq!(result.dependencies.len(), 3);
    assert!(result.dependencies.iter().any(|d| d.name == "express"));
    assert!(result.dependencies.iter().any(|d| d.name == "lodash"));
    assert!(result.dependencies.iter().any(|d| d.name == "jest"));
}

#[test]
fn test_analyze_cargo_toml() {
    let content = r#"
[package]
name = "myapp"
version = "1.0.0"

[dependencies]
serde = "1.0"
clap = { version = "4.5", features = ["derive"] }

[dev-dependencies]
pytest = "0.1"
"#;
    let result = analyze("test_Cargo.toml", content);
    assert_eq!(result.ecosystem, Ecosystem::Cargo);
    assert!(result
        .dependencies
        .iter()
        .any(|d| d.name == "serde" && d.constraint == "1.0"));
    assert!(result
        .dependencies
        .iter()
        .any(|d| d.name == "clap" && d.constraint == "4.5"));
    assert!(result.dependencies.iter().any(|d| d.name == "pytest"));
}

#[test]
fn test_analyze_go_mod() {
    let content = r#"
module github.com/example/myapp

go 1.21

require (
    github.com/pkg/errors v0.9.1
    github.com/spf13/cobra v1.8.0
)
"#;
    let result = analyze("test_go.mod", content);
    assert!(result
        .dependencies
        .iter()
        .any(|d| d.name == "github.com/pkg/errors"));
    assert!(result
        .dependencies
        .iter()
        .any(|d| d.name == "github.com/spf13/cobra"));
}

#[test]
fn test_parse_pip_dep_string() {
    let (name, constraint) = parse_pip_dep_string("requests>=2.28.0,<3.0.0").unwrap();
    assert_eq!(name, "requests");
    assert_eq!(constraint, ">=2.28.0,<3.0.0");

    let (name, constraint) = parse_pip_dep_string("numpy~=1.24").unwrap();
    assert_eq!(name, "numpy");
    assert_eq!(constraint, "~=1.24");

    let (name, constraint) = parse_pip_dep_string("flask").unwrap();
    assert_eq!(name, "flask");
    assert_eq!(constraint, "*");

    // With extras
    let (name, _) = parse_pip_dep_string("package[extra]>=1.0").unwrap();
    assert_eq!(name, "package");
}

#[test]
fn test_detect_conflicts() {
    let deps = vec![
        Dependency {
            name: "pkg".to_string(),
            constraint: ">=2.0.0".to_string(),
            ecosystem: Ecosystem::Npm,
            section: "dependencies".to_string(),
        },
        Dependency {
            name: "pkg".to_string(),
            constraint: "<1.0.0".to_string(),
            ecosystem: Ecosystem::Npm,
            section: "devDependencies".to_string(),
        },
    ];
    let conflicts = detect_conflicts(&deps, "test");
    assert_eq!(conflicts.len(), 1);
    assert_eq!(conflicts[0].package, "pkg");
    assert!(conflicts[0].intersection_empty);
}

#[test]
fn test_no_conflict() {
    let deps = vec![
        Dependency {
            name: "pkg".to_string(),
            constraint: ">=1.0.0".to_string(),
            ecosystem: Ecosystem::Npm,
            section: "dependencies".to_string(),
        },
        Dependency {
            name: "pkg".to_string(),
            constraint: "<2.0.0".to_string(),
            ecosystem: Ecosystem::Npm,
            section: "devDependencies".to_string(),
        },
    ];
    let conflicts = detect_conflicts(&deps, "test");
    assert!(conflicts.is_empty());
}

// ---------------------------------------------------------------------------
// Further cases
// ---------------------------------------------------------------------------

#[test]
fn package_json_order_sections_and_non_strings() {
    let json = JsonValue::Object(vec![
        (
            "devDependencies".to_string(),
            JsonValue::Object(vec![("b".to_string(), JsonValue::Str("^2.0.0".to_string()))]),
        ),
        (
            "dependencies".to_string(),
            JsonValue::Object(vec![
                ("a".to_string(), JsonValue::Str("1.0.0".to_string())),
                ("c".to_string(), JsonValue::Number("3".to_string())),
            ]),
        ),
        ("peerDependencies".to_string(), JsonValue::Str("x".to_string())),
    ]);
    let r = analyze_package_json(&json, "p.json").unwrap();
    assert_eq!(r.file, "p.json");
    let got: Vec<(String, String, String)> = r
        .dependencies
        .iter()
        .map(|d| (d.name.clone(), d.constraint.clone(), d.section.clone()))
        .collect();
    assert_eq!(
        got,
        vec![
            ("a".to_string(), "1.0.0".to_string(), "dependencies".to_string()),
            ("b".to_string(), "^2.0.0".to_string(), "devDependencies".to_string()),
        ]
    );
    assert!(analyze_package_json(&JsonValue::Array(vec![]), "x").unwrap().dependencies.is_empty());
}

#[test]
fn package_json_conflict() {
    let content = r#"{"dependencies": {"left": "^1.0.0", "x": "^2.0.0"},
                      "devDependencies": {"x": "^3.0.0", "left": "1.2.0"}}"#;
    let r = analyze("package.json", content);
    assert_eq!(r.conflicts.len(), 1);
    assert_eq!(r.conflicts[0].package, "x");
    assert_eq!(r.conflicts[0].constraints, vec!["^2.0.0", "^3.0.0"]);
}

#[test]
fn cargo_sections_and_entries() {
    let content = "[dependencies]\n\"quoted\" = \"=1.2.3\"\nempty = \"\"\nbare = 1\ntbl = { path = \"x\" }\n[dependencies.extra]\nversion = \"0.5\"\n[features]\nx = \"1\"\n[build-dependencies]\ncc = { version = \"1\" }\r\n";
    let r = analyze_cargo_toml(content, "Cargo.toml").unwrap();
    let got: Vec<(String, String, String)> = r
        .dependencies
        .iter()
        .map(|d| (d.name.clone(), d.constraint.clone(), d.section.clone()))
        .collect();
    assert_eq!(
        got,
        vec![
            ("quoted".to_string(), "=1.2.3".to_string(), "dependencies".to_string()),
            ("version".to_string(), "0.5".to_string(), "dependencies.extra".to_string()),
            ("cc".to_string(), "1".to_string(), "build-dependencies".to_string()),
        ]
    );
    assert!(r.dependencies.iter().all(|d| d.ecosystem == Ecosystem::Cargo));
}

#[test]
fn pyproject_all_three_forms() {
    let content = r#"
[project]
name = "demo"
dependencies = ["requests>=2.0", "flask", "numpy[fast]==1.26.0"]

[project.optional-dependencies]
dev = ["pytest>=7", "black"]

[tool.poetry.dependencies]
python = "^3.10"
django = { version = ">=4.0", optional = true }

[tool.poetry.group.dev.dependencies]
mypy = "1.0"
"#;
    let r = analyze("pyproject.toml", content);
    assert_eq!(r.ecosystem, Ecosystem::Pip);
    let got: Vec<(String, String, String)> = r
        .dependencies
        .iter()
        .map(|d| (d.name.clone(), d.constraint.clone(), d.section.clone()))
        .collect();
    assert_eq!(
        got,
        vec![
            ("requests".to_string(), ">=2.0".to_string(), "dependencies".to_string()),
            ("flask".to_string(), "*".to_string(), "dependencies".to_string()),
            ("numpy".to_string(), "==1.26.0".to_string(), "dependencies".to_string()),
            ("pytest".to_string(), ">=7".to_string(), "optional-dependencies.dev".to_string()),
            ("black".to_string(), "*".to_string(), "optional-dependencies.dev".to_string()),
            ("python".to_string(), "^3.10".to_string(), "tool.poetry.dependencies".to_string()),
            ("django".to_string(), ">=4.0".to_string(), "tool.poetry.dependencies".to_string()),
            ("mypy".to_string(), "1.0".to_string(), "tool.poetry.group.dev.dependencies".to_string()),
        ]
    );
}

#[test]
fn go_mod_single_line_and_comments() {
    let content = "module m\n\ngo 1.21\n\nrequire golang.org/x/text v0.14.0\nrequire (\n  // indirect below\n  a.b/c v1.2.3 // indirect\n  bad\n)\nnot/in v9.9.9\n";
    let r = analyze("go.mod", content);
    assert_eq!(r.ecosystem, Ecosystem::Cargo);
    let got: Vec<(String, String, String)> = r
        .dependencies
        .iter()
        .map(|d| (d.name.clone(), d.constraint.clone(), d.section.clone()))
        .collect();
    assert_eq!(
        got,
        vec![
            ("golang.org/x/text".to_string(), "0.14.0".to_string(), "require".to_string()),
            ("a.b/c".to_string(), "1.2.3".to_string(), "require".to_string()),
        ]
    );
}

#[test]
fn file_kind_detection() {
    assert_eq!(detect_file_kind("package.json", "json", "").unwrap(), FileKind::PackageJson);
    assert_eq!(detect_file_kind("Cargo.toml", "toml", "").unwrap(), FileKind::CargoToml);
    assert_eq!(detect_file_kind("pyproject.toml", "toml", "").unwrap(), FileKind::PyprojectToml);
    assert_eq!(detect_file_kind("go.mod", "mod", "").unwrap(), FileKind::GoMod);
    assert_eq!(detect_file_kind("x.json", "json", "").unwrap(), FileKind::PackageJson);
    assert_eq!(detect_file_kind("x.toml", "toml", "[dependencies]").unwrap(), FileKind::CargoToml);
    assert_eq!(detect_file_kind("x.toml", "toml", "[project]").unwrap(), FileKind::PyprojectToml);
    assert_eq!(detect_file_kind("x", "", "module a\ngo 1.2").unwrap(), FileKind::GoMod);
    match detect_file_kind("x.txt", "txt", "hello") {
        Err(AnalyzeError::UnknownFormat(m)) => assert_eq!(m, "could not determine file type"),
        _ => panic!("expected an unknown format"),
    }
}

#[test]
fn conflicts_sorted_and_overflow_refused() {
    let deps = vec![
        dep("zeta", ">=2.0.0", Ecosystem::Npm, "a"),
        dep("alpha", "<1.0.0", Ecosystem::Npm, "a"),
        dep("zeta", "<1.0.0", Ecosystem::Npm, "b"),
        dep("alpha", ">=3.0.0", Ecosystem::Npm, "b"),
        dep("solo", "^18446744073709551615.0.0", Ecosystem::Npm, "a"),
        dep("mid", "not a range", Ecosystem::Npm, "a"),
        dep("mid", "^1.0.0", Ecosystem::Npm, "b"),
    ];
    let conflicts = find_conflicts(&deps).unwrap();
    let names: Vec<&str> = conflicts.iter().map(|c| c.package.as_str()).collect();
    assert_eq!(names, vec!["alpha", "zeta"]);
    assert_eq!(conflicts[0].constraints, vec!["<1.0.0", ">=3.0.0"]);
    let mut over = deps;
    over.push(dep("solo", "1.0.0", Ecosystem::Npm, "b"));
    assert!(find_conflicts(&over).is_none());
}

#[test]
fn analyze_error_messages() {
    assert_eq!(AnalyzeError::Io("gone".to_string()).message(), "IO error: gone");
    assert_eq!(AnalyzeError::Parse("bad".to_string()).message(), "parse error: bad");
    assert_eq!(
        AnalyzeError::UnknownFormat("what".to_string()).message(),
        "unknown format: what"
    );
}

#[test]
fn pip_dep_string_edges() {
    assert_eq!(parse_pip_dep_string("   "), None);
    assert_eq!(parse_pip_dep_string(">=1.0"), None);
    assert_eq!(
        parse_pip_dep_string(" pkg = 1.0 "),
        Some(("pkg".to_string(), "= 1.0".to_string()))
    );
    assert_eq!(
        parse_pip_dep_string("a<2,>=1"),
        Some(("a".to_string(), "<2,>=1".to_string()))
    );
}

#[test]
fn report_text_exact() {
    let content = "[dev-dependencies]\nzz = \"1\"\n[dependencies]\nx = \">=2.0.0\"\n[dev-dependencies]\nx = \"<1.0.0\"\n";
    let r = analyze_cargo_toml(content, "Cargo.toml").unwrap();
    assert_eq!(
        analysis_report(&r),
        "File: Cargo.toml\nEcosystem: cargo\nDependencies: 3\n\n\
         [dependencies]\n  x = \">=2.0.0\"\n\n\
         [dev-dependencies]\n  zz = \"1\"\n  x = \"<1.0.0\"\n\n\
         ⚠ Conflicts detected:\n  x: incompatible constraints\n    - >=2.0.0\n    - <1.0.0\n"
    );
    let empty = analyze_go_mod("module m\n", "go.mod").unwrap();
    assert_eq!(
        analysis_report(&empty),
        "File: go.mod\nEcosystem: cargo\nDependencies: 0\n\nNo dependencies found.\n"
    );
    let fine = analyze_cargo_toml("[dependencies]\na = \"1\"\n", "C.toml").unwrap();
    assert_eq!(
        analysis_report(&fine),
        "File: C.toml\nEcosystem: cargo\nDependencies: 1\n\n[dependencies]\n  a = \"1\"\n\n✓ No conflicts detected.\n"
    );
}

#[test]
fn content_errors_and_json() {
    match analyze_content("package.json", "json", "{ not json", "p") {
        Err(AnalyzeError::Parse(m)) => assert!(!m.is_empty()),
        _ => panic!("expected a parse error"),
    }
    match analyze_content("notes.txt", "txt", "hello", "n") {
        Err(AnalyzeError::UnknownFormat(m)) => assert_eq!(m, "could not determine file type"),
        _ => panic!("expected an unknown format"),
    }
    let r = analyze_content("x.json", "json", r#"{"dependencies": {"b": "^1.0.0", "a": "2"}}"#, "p")
        .unwrap()
        .unwrap();
    let names: Vec<&str> = r.dependencies.iter().map(|d| d.name.as_str()).collect();
    assert_eq!(names, vec!["a", "b"]);
    assert_eq!(r.file, "p");
}

#[test]
fn constraints_with_no_version_between_them_conflict() {
    let deps = vec![
        dep("pkg", ">1.2.3", Ecosystem::Npm, "dependencies"),
        dep("pkg", "<1.2.4-0", Ecosystem::Npm, "devDependencies"),
        dep("other", ">1.2.3", Ecosystem::Npm, "dependencies"),
        dep("other", "<1.2.4-1", Ecosystem::Npm, "devDependencies"),
    ];
    let conflicts = detect_conflicts(&deps, "test");
    assert_eq!(conflicts.len(), 1);
    assert_eq!(conflicts[0].package, "pkg");
    assert!(conflicts[0].intersection_empty);
}
