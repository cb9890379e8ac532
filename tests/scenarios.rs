use takopack::database::{calculate_compat_version, CrateDatabase, CrateEntry};
use takopack::features::{collapse_features, normalize_features, reduce_provides, Feature};
use takopack::lockfile::{build_dependency_graph, parse_lockfile_text, LockError, LockPackage};
use takopack::naming::{base_deb_name, deb_feature_name, deb_name, toolchain_deps};
use takopack::range::{DepError, VRange, V};
use takopack::translate::{deb_dep, version_range, Comparator, Dependency, Op};
use takopack::version::Version;
use takopack::walker::{walk_table, DepKind, ManifestDep, Outcome, RecursivePackager};

fn cmp(op: Op, major: u64, minor: Option<u64>, patch: Option<u64>) -> Comparator {
    Comparator { op, major, minor, patch, pre: String::new() }
}

fn dep(name: &str, default: bool, features: &[&str], comparators: Vec<Comparator>) -> Dependency {
    Dependency {
        name: name.to_string(),
        uses_default_features: default,
        features: features.iter().map(|f| f.to_string()).collect(),
        comparators,
    }
}

fn feature(name: &str, features: &[&str], deps: &[&str]) -> Feature {
    Feature {
        name: name.to_string(),
        features: features.iter().map(|f| f.to_string()).collect(),
        deps: deps.iter().map(|d| d.to_string()).collect(),
    }
}

fn bounds(r: &VRange) -> (Option<String>, Option<String>) {
    (r.ge.as_ref().map(|v| v.to_text()), r.lt.as_ref().map(|v| v.to_text()))
}

#[test]
fn caret_on_zero_minor_gives_next_minor() {
    let d = dep("x", false, &[], vec![cmp(Op::Caret, 0, Some(2), Some(3))]);
    let r = version_range(&d).unwrap();
    assert_eq!(bounds(&r), (Some("0.2.3".to_string()), Some("0.3".to_string())));
}

#[test]
fn each_operator_gives_its_interval() {
    let cases: Vec<(Op, u64, Option<u64>, Option<u64>, Option<&str>, Option<&str>)> = vec![
        (Op::Exact, 1, Some(2), Some(3), Some("1.2.3"), Some("1.2.4")),
        (Op::Wildcard, 1, Some(2), None, Some("1.2"), Some("1.3")),
        (Op::Greater, 1, Some(2), Some(3), Some("1.2.4"), None),
        (Op::GreaterEq, 1, Some(2), Some(3), Some("1.2.3"), None),
        (Op::Less, 1, Some(2), Some(3), None, Some("1.2.3")),
        (Op::LessEq, 1, Some(2), Some(3), None, Some("1.2.4")),
        (Op::Tilde, 1, Some(2), Some(3), Some("1.2.3"), Some("1.3")),
        (Op::Tilde, 1, Some(2), None, Some("1.2"), Some("1.3")),
        (Op::Caret, 0, Some(0), Some(3), Some("0.0.3"), Some("0.0.4")),
        (Op::Caret, 1, Some(2), Some(3), Some("1.2.3"), Some("2")),
        (Op::GreaterEq, 0, None, None, Some("1"), None),
    ];
    for (op, a, b, c, ge, lt) in cases {
        let d = dep("x", false, &[], vec![cmp(op, a, b, c)]);
        let r = version_range(&d).unwrap();
        assert_eq!(bounds(&r), (ge.map(String::from), lt.map(String::from)), "{:?}", op);
    }
}

#[test]
fn range_of_one_major_renders_as_suffixed_name() {
    let r = VRange { ge: Some(V::M(1)), lt: Some(V::M(2)) };
    assert_eq!(r.to_deb_clause("pkg", "").unwrap(), vec!["pkg-1".to_string()]);
}

#[test]
fn range_within_zero_minor_renders_one_clause() {
    let r = VRange { ge: Some(V::MMP(0, 3, 2)), lt: Some(V::MM(0, 4)) };
    assert_eq!(
        r.to_deb_clause("pkg", "").unwrap(),
        vec!["pkg-0.3 (>= 0.3.2-~~)".to_string()]
    );
}

#[test]
fn range_across_majors_renders_two_clauses() {
    let r = VRange { ge: Some(V::MM(1, 2)), lt: Some(V::M(3)) };
    assert_eq!(
        r.to_deb_clause("pkg", "-dev").unwrap(),
        vec!["pkg-dev (>= 1.2-~~)".to_string(), "pkg-dev (<< 3-~~)".to_string()]
    );
}

#[test]
fn range_within_minor_drops_impossible_upper_clause() {
    let r = VRange { ge: Some(V::MMP(1, 2, 3)), lt: Some(V::MM(1, 3)) };
    assert_eq!(
        r.to_deb_clause("pkg", "").unwrap(),
        vec!["pkg-1 (>= 1.2.3-~~)".to_string(), "pkg-1 (<< 1.3-~~)".to_string()]
    );
    let r = VRange { ge: Some(V::MMP(1, 2, 3)), lt: Some(V::MMP(1, 2, 7)) };
    assert_eq!(
        r.to_deb_clause("pkg", "").unwrap(),
        vec!["pkg-1.2 (>= 1.2.3-~~)".to_string(), "pkg-1.2 (<< 1.2.7-~~)".to_string()]
    );
}

#[test]
fn open_ranges_render_single_bounds() {
    assert_eq!(VRange::new().to_deb_clause("pkg", "").unwrap(), vec!["pkg".to_string()]);
    let r = VRange { ge: Some(V::MM(0, 5)), lt: None };
    assert_eq!(r.to_deb_clause("pkg", "").unwrap(), vec!["pkg (>= 0.5-~~)".to_string()]);
    let r = VRange { ge: None, lt: Some(V::MMP(2, 0, 1)) };
    assert_eq!(r.to_deb_clause("pkg", "").unwrap(), vec!["pkg (<< 2.0.1-~~)".to_string()]);
}

#[test]
fn empty_range_is_an_error() {
    let r = VRange { ge: Some(V::M(2)), lt: Some(V::M(2)) };
    match r.to_deb_clause("pkg", "") {
        Err(DepError::BadRange { ge, lt }) => {
            assert_eq!(ge, "2");
            assert_eq!(lt, "2");
        }
        other => panic!("unexpected {:?}", other),
    }
}

#[test]
fn translate_caret_dependency_with_features() {
    let d = dep("Serde_Json", true, &["raw_value"], vec![cmp(Op::Caret, 1, Some(0), None)]);
    assert_eq!(
        deb_dep(false, false, &d).unwrap(),
        vec![
            "rust-serde-json-1+default-dev".to_string(),
            "rust-serde-json-1+raw-value-dev".to_string(),
        ]
    );
}

#[test]
fn translate_without_features_uses_dev_suffix() {
    let d = dep("foo", false, &[], vec![cmp(Op::Caret, 0, Some(3), Some(2))]);
    assert_eq!(deb_dep(false, true, &d).unwrap(), vec!["ruzt-foo-0.3-dev (>= 0.3.2-~~)".to_string()]);
}

#[test]
fn translate_two_comparators() {
    let d = dep(
        "bar",
        false,
        &[],
        vec![cmp(Op::GreaterEq, 1, Some(21), None), cmp(Op::Less, 2, Some(0), None)],
    );
    assert_eq!(deb_dep(false, false, &d).unwrap(), vec!["rust-bar-1-dev (>= 1.21-~~)".to_string()]);
}

#[test]
fn translate_prerelease_keeps_tag() {
    let mut c = cmp(Op::Exact, 0, Some(26), Some(0));
    c.pre = "beta.1".to_string();
    let d = dep("libbpf", false, &[], vec![c]);
    assert_eq!(
        deb_dep(false, false, &d).unwrap(),
        vec!["rust-libbpf-0.26-dev".to_string(), "rust-libbpf-0.26-dev (<< 0.26.1-beta.1-~~)".to_string()]
    );
}

#[test]
fn translate_errors() {
    let d = dep("z", false, &[], vec![cmp(Op::Less, 0, Some(0), Some(0))]);
    assert!(matches!(deb_dep(false, false, &d), Err(DepError::Unrepresentable { .. })));
    let d = dep("z", false, &[], vec![cmp(Op::Exact, 1, None, Some(2))]);
    assert!(matches!(deb_dep(false, false, &d), Err(DepError::PatchWithoutMinor)));
    let d = dep(
        "z",
        false,
        &[],
        vec![cmp(Op::GreaterEq, 2, None, None), cmp(Op::Less, 1, None, None)],
    );
    assert!(matches!(deb_dep(false, false, &d), Err(DepError::BadRange { .. })));
}

#[test]
fn package_names() {
    assert_eq!(base_deb_name("Foo_Bar"), "foo-bar");
    assert_eq!(deb_name(false, "Foo_Bar"), "rust-foo-bar");
    assert_eq!(deb_feature_name(false, "a_b", "Std_X"), "rust-a-b-std-x");
    assert_eq!(
        toolchain_deps(&Some("1.70".to_string())),
        vec!["cargo:native".to_string(), "rustc:native (>= 1.70)".to_string(), "libstd-rust-dev".to_string()]
    );
}

#[test]
fn single_dependency_feature_is_absorbed() {
    let g = vec![feature("", &[], &[]), feature("a", &[], &["dep X"]), feature("b", &["a"], &[])];
    let (provides, kept) = reduce_provides(&g);
    let names: Vec<&str> = kept.iter().map(|f| f.name.as_str()).collect();
    assert_eq!(names, vec!["", "a"]);
    assert_eq!(provides, vec![("".to_string(), vec![]), ("a".to_string(), vec!["b".to_string()])]);
}

#[test]
fn duplicate_features_merge_and_chains_flatten() {
    let g = vec![
        feature("", &[], &["d1"]),
        feature("a", &[""], &["d2"]),
        feature("b", &[""], &["d2"]),
        feature("c", &["b"], &[]),
    ];
    let (provides, kept) = reduce_provides(&g);
    let names: Vec<&str> = kept.iter().map(|f| f.name.as_str()).collect();
    assert_eq!(names, vec!["", "a"]);
    assert_eq!(
        provides,
        vec![("".to_string(), vec![]), ("a".to_string(), vec!["b".to_string(), "c".to_string()])]
    );
}

#[test]
fn collapse_puts_everything_in_base() {
    let g = vec![feature("", &[], &["d1"]), feature("a", &[""], &["d2"]), feature("b", &["a"], &[])];
    let (provides, kept) = collapse_features(&g);
    assert_eq!(provides, vec![("".to_string(), vec!["a".to_string(), "b".to_string()])]);
    assert_eq!(kept.len(), 1);
    assert_eq!(kept[0].deps, vec!["d1".to_string(), "d2".to_string()]);
}

#[test]
fn compat_versions() {
    let v = |s: &str| Version::parse(s).unwrap();
    assert_eq!(calculate_compat_version(&v("2.3.4")), "2.0");
    assert_eq!(calculate_compat_version(&v("0.3.4")), "0.3");
    assert_eq!(calculate_compat_version(&v("0.0.4")), "0.0.4");
    assert_eq!(calculate_compat_version(&v("1.2.3-beta.1")), "1.2.3-beta.1");
}

#[test]
fn compat_version_is_stable_when_reparsed() {
    for text in ["2.3.4", "0.3.4", "0.0.4", "17.0.1+build"] {
        let c = calculate_compat_version(&Version::parse(text).unwrap());
        let again = Version::parse(&format!("{}.0", c))
            .or_else(|| Version::parse(&c))
            .unwrap();
        assert_eq!(calculate_compat_version(&again), c);
    }
}

#[test]
fn line_round_trip() {
    for (name, ver, compatible) in [("serde", "1.0.200", true), ("libbpf-rs", "0.26.0-beta.1", false)] {
        let e = CrateEntry { name: name.to_string(), version: Version::parse(ver).unwrap(), compatible };
        let line = e.to_line();
        assert_eq!(CrateEntry::from_line(&line).unwrap(), e);
    }
    assert_eq!(
        CrateEntry { name: "a".to_string(), version: Version::parse("1.2.3").unwrap(), compatible: false }.to_line(),
        "a 1.2.3 false"
    );
}

#[test]
fn bad_lines_are_errors() {
    assert!(CrateEntry::from_line("   ").is_err());
    assert!(CrateEntry::from_line("# serde 1.0.0").is_err());
    assert!(CrateEntry::from_line("serde").is_err());
    assert!(CrateEntry::from_line("serde one").is_err());
}

#[test]
fn merge_with_itself_needs_nothing() {
    let mut db = CrateDatabase::new();
    db.add_entry(CrateEntry::new("serde".to_string(), Version::parse("1.0.1").unwrap()));
    db.add_entry(CrateEntry::new("toml".to_string(), Version::parse("0.8.2").unwrap()));
    let copy = db.clone();
    assert!(db.merge(&copy).is_empty());
    assert_eq!(db.len(), 2);
}

#[test]
fn merge_never_lowers_a_version() {
    let mut db = CrateDatabase::new();
    db.add_entry(CrateEntry::new("serde".to_string(), Version::parse("1.0.9").unwrap()));
    let mut older = CrateDatabase::new();
    older.add_entry(CrateEntry::new("serde".to_string(), Version::parse("1.0.2").unwrap()));
    assert!(db.merge(&older).is_empty());
    let kept = db.get("serde", &Version::parse("1.5.0").unwrap()).unwrap();
    assert_eq!(kept.version, Version::parse("1.0.9").unwrap());
}

fn lock(name: &str, version: &str, source: Option<&str>, deps: &[&str]) -> LockPackage {
    LockPackage {
        name: Some(name.to_string()),
        version: Some(version.to_string()),
        source: source.map(String::from),
        dependencies: Some(deps.iter().map(|d| Some(d.to_string())).collect()),
    }
}

#[test]
fn lockfile_keeps_registry_packages_only() {
    let ps = vec![
        lock("app", "0.1.0", None, &["serde"]),
        lock("serde", "1.0.1", Some("registry+https://example"), &[]),
        lock("local", "0.2.0", Some("path+file:///x"), &[]),
    ];
    let (graph, skipped) = build_dependency_graph(&ps).unwrap();
    assert_eq!(graph.len(), 1);
    assert!(graph.get_package("serde", &Version::parse("1.0.1").unwrap()).is_some());
    assert_eq!(skipped, vec!["app 0.1.0 (no source)".to_string(), "local 0.2.0 (source: path+file:///x)".to_string()]);
}

#[test]
fn lockfile_resolves_dependency_versions() {
    let reg = Some("registry+https://example");
    let ps = vec![
        lock("a", "1.0.0", reg, &["b", "c 0.1.0", "c", "b"]),
        lock("b", "2.0.0", reg, &[]),
        lock("c", "0.1.0", reg, &[]),
        lock("c", "0.2.0", reg, &[]),
    ];
    let (graph, _) = build_dependency_graph(&ps).unwrap();
    let deps = graph.get_dependencies_map("a", &Version::parse("1.0.0").unwrap()).unwrap();
    let got: Vec<(String, String)> = deps.iter().map(|(n, v)| (n.clone(), v.to_text())).collect();
    assert_eq!(
        got,
        vec![
            ("b".to_string(), "2.0.0".to_string()),
            ("c".to_string(), "0.1.0".to_string()),
            ("c".to_string(), "0.2.0".to_string()),
        ]
    );
}

#[test]
fn lockfile_errors() {
    let mut p = lock("a", "1.0.0", Some("registry+x"), &[]);
    p.name = None;
    assert!(matches!(build_dependency_graph(&vec![p]), Err(LockError::MissingName)));
    let mut p = lock("a", "1.0.0", Some("registry+x"), &[]);
    p.version = None;
    assert!(matches!(build_dependency_graph(&vec![p]), Err(LockError::MissingVersion)));
    let p = lock("a", "one", Some("registry+x"), &[]);
    assert!(matches!(build_dependency_graph(&vec![p]), Err(LockError::BadVersion { .. })));
    assert!(matches!(parse_lockfile_text("[[package"), Err(LockError::Toml)));
    assert!(matches!(parse_lockfile_text("x = 1"), Err(LockError::MissingPackages)));
}

#[test]
fn lockfile_text_is_parsed() {
    let text = "version = 3\n\n[[package]]\nname = \"app\"\nversion = \"0.1.0\"\ndependencies = [\"serde\"]\n\n[[package]]\nname = \"serde\"\nversion = \"1.0.1\"\nsource = \"registry+https://example\"\n";
    let (graph, skipped) = parse_lockfile_text(text).unwrap();
    assert_eq!(graph.len(), 1);
    assert_eq!(skipped.len(), 1);
}

fn walk(graph: &dyn Fn(&str) -> Option<Vec<String>>, root: &str) -> (RecursivePackager, usize) {
    let mut p = RecursivePackager::new("out".to_string());
    p.visit(root.to_string(), None);
    let mut steps = 0;
    while let Some(req) = p.next_action() {
        steps += 1;
        let outcome = match graph(&req.crate_name) {
            Some(deps) => Outcome::Success {
                real_name: req.crate_name.clone(),
                dependencies: deps.into_iter().map(|d| (d, None)).collect(),
            },
            None => Outcome::Failure { error: format!("no crate {}", req.crate_name) },
        };
        p.report(outcome);
    }
    (p, steps)
}

#[test]
fn walk_terminates_on_a_cycle() {
    let g = |n: &str| match n {
        "a" => Some(vec!["b".to_string()]),
        "b" => Some(vec!["a".to_string()]),
        _ => None,
    };
    let (p, steps) = walk(&g, "a");
    assert_eq!(steps, 2);
    let names: Vec<&str> = p.processed.iter().map(|k| k.0.as_str()).collect();
    assert_eq!(names, vec!["a", "b"]);
    assert!(p.in_progress.is_empty());
}

#[test]
fn walk_handles_a_long_chain() {
    let g = |n: &str| {
        let i: usize = n.trim_start_matches('c').parse().ok()?;
        if i + 1 < 10_000 { Some(vec![format!("c{}", i + 1)]) } else { Some(vec![]) }
    };
    let (p, steps) = walk(&g, "c0");
    assert_eq!(steps, 10_000);
    assert_eq!(p.processed.len(), 10_000);
}

#[test]
fn walk_retries_underscore_spelling_and_isolates_failures() {
    let g = |n: &str| match n {
        "root" => Some(vec!["my-crate".to_string(), "bad-one".to_string(), "leaf".to_string()]),
        "my_crate" => Some(vec![]),
        "leaf" => Some(vec![]),
        _ => None,
    };
    let (p, _) = walk(&g, "root");
    let names: Vec<&str> = p.processed.iter().map(|k| k.0.as_str()).collect();
    assert_eq!(names, vec!["root", "my-crate", "leaf"]);
    assert_eq!(p.failed.len(), 1);
    assert_eq!(p.failed[0].crate_name, "bad-one");
    assert_eq!(p.failed[0].version, "latest");
    assert_eq!(p.failed[0].error, "Both failed - 'bad-one': no crate bad-one, 'bad_one': no crate bad_one");
    assert_eq!(p.total_attempted, 4);
}

#[test]
fn normalization_merges_spellings() {
    let g = vec![feature("a-b", &[], &["X"]), feature("a_b", &["c"], &["Y"]), feature("c", &[], &[]), feature("d", &["a_b"], &[])];
    let out = normalize_features(&g).unwrap();
    let names: Vec<&str> = out.iter().map(|f| f.name.as_str()).collect();
    assert_eq!(names, vec!["a-b", "c", "d"]);
    assert_eq!(out[0].features, vec!["c".to_string()]);
    assert_eq!(out[0].deps, vec!["X".to_string(), "Y".to_string()]);
    assert_eq!(out[2].features, vec!["a-b".to_string()]);
}

#[test]
fn normalization_rejects_a_cycle() {
    let g = vec![feature("a-b", &[], &[]), feature("a_b", &["c"], &[]), feature("c", &["a_b"], &[])];
    let err = normalize_features(&g).unwrap_err();
    assert_eq!(err.kept, "a-b");
    assert_eq!(err.merged, "a_b");
    assert!(err.message().contains("cycle"));
}

#[test]
fn walk_follows_runtime_dependencies_only() {
    let d = |name: &str, kind: DepKind, optional: bool, req: &str| ManifestDep {
        name: name.to_string(),
        kind,
        optional,
        version_req: req.to_string(),
    };
    let deps = vec![
        d("serde", DepKind::Normal, false, "^1.0"),
        d("serde_derive", DepKind::Normal, false, "^1.0"),
        d("serde-derive", DepKind::Normal, false, "^1.0"),
        d("proptest", DepKind::Development, false, "^1"),
        d("cc", DepKind::Build, false, "^1"),
        d("compiler-builtins", DepKind::Normal, false, "*"),
        d("my-crate", DepKind::Normal, false, "*"),
        d("rayon", DepKind::Normal, true, "^1"),
        d("log", DepKind::Normal, false, "*"),
        d("serde", DepKind::Normal, false, "^1.0.100"),
    ];
    let got = RecursivePackager::extract_dependencies_from_crate_info(&deps, "my_crate");
    assert_eq!(
        got,
        vec![
            ("serde".to_string(), Some("^1.0".to_string())),
            ("serde_derive".to_string(), Some("^1.0".to_string())),
            ("log".to_string(), None),
        ]
    );
}

#[test]
fn table_walk_ends_on_a_cycle() {
    let table = vec![
        ("a".to_string(), vec!["b".to_string()]),
        ("b".to_string(), vec!["a".to_string(), "c".to_string()]),
    ];
    let p = walk_table(&table, "a");
    let names: Vec<&str> = p.processed.iter().map(|k| k.0.as_str()).collect();
    assert_eq!(names, vec!["a", "b"]);
    assert_eq!(p.failed.len(), 1);
    assert_eq!(p.failed[0].crate_name, "c");
}

#[test]
fn table_walk_handles_a_chain() {
    let n = 2_000;
    let table: Vec<(String, Vec<String>)> =
        (0..n).map(|i| (format!("c{}", i), if i + 1 < n { vec![format!("c{}", i + 1)] } else { vec![] })).collect();
    let p = walk_table(&table, "c0");
    assert_eq!(p.processed.len(), n);
}

#[test]
fn normalization_merges_self_reference() {
    let g = vec![feature("a-b", &[], &["X"]), feature("a_b", &["a-b", "c"], &["X"]), feature("c", &[], &[])];
    let out = normalize_features(&g).unwrap();
    assert_eq!(out[0].name, "a-b");
    assert_eq!(out[0].features, vec!["c".to_string()]);
    assert_eq!(out[0].deps, vec!["X".to_string()]);
}

#[test]
fn merge_reports_in_key_order() {
    let mut other = CrateDatabase::new();
    for (n, v) in [("toml", "0.8.1"), ("anyhow", "1.0.2"), ("serde", "1.0.3")] {
        other.add_entry(CrateEntry::new(n.to_string(), Version::parse(v).unwrap()));
    }
    let mut db = CrateDatabase::new();
    let names: Vec<String> = db.merge(&other).into_iter().map(|e| e.name).collect();
    assert_eq!(names, vec!["anyhow", "serde", "toml"]);
}
