use takopack::config::{package_field_for_feature, Config, PackageField, PackageKey, PackageOverride, SourceOverride};
use takopack::control::{
    deb_upstream_version, get_deb_author, AuthorError, BuildDeps, CrateDep, DebInfo, Description, Package, PkgTest,
    Source,
};
use takopack::database::{CrateDatabase, CrateEntry};
use takopack::translate::{deb_dep_add_nocheck, deb_deps, Comparator, Dependency, Op};
use takopack::util::{hint_file_for, rel_p, show_vec};
use takopack::version::Version;

fn caret(name: &str, major: u64, minor: u64) -> Dependency {
    Dependency {
        name: name.to_string(),
        uses_default_features: true,
        features: vec![],
        comparators: vec![Comparator { op: Op::Caret, major, minor: Some(minor), patch: None, pre: String::new() }],
    }
}

#[test]
fn deb_deps_sorts_and_dedups() {
    let deps = vec![caret("zed", 1, 0), caret("abc", 0, 4), caret("zed", 1, 2)];
    assert_eq!(
        deb_deps(false, false, &deps).unwrap(),
        vec![
            "rust-abc-0.4+default-dev".to_string(),
            "rust-zed-1+default-dev".to_string(),
            "rust-zed-1+default-dev (>= 1.2-~~)".to_string(),
        ]
    );
}

#[test]
fn deb_deps_reports_first_error() {
    let mut bad = caret("bad", 0, 0);
    bad.comparators[0].op = Op::Less;
    bad.comparators[0].minor = None;
    assert!(deb_deps(false, false, &vec![caret("ok", 1, 0), bad]).is_err());
}

#[test]
fn nocheck_marks_each_alternative() {
    assert_eq!(deb_dep_add_nocheck("a | b "), "a <!nocheck> | b <!nocheck>");
    assert_eq!(deb_dep_add_nocheck("single"), "single <!nocheck>");
}

#[test]
fn database_text_round_trip() {
    let text = "# comment\n\ntoml 0.8.2\nserde 1.0.1\nbroken\nlibbpf 0.26.0-beta.1 false\n";
    let (db, warnings) = CrateDatabase::from_text(text);
    assert_eq!(db.len(), 3);
    assert_eq!(warnings, vec!["Skipping invalid line 5: broken".to_string()]);
    assert_eq!(db.to_text(), "libbpf 0.26.0-beta.1 false\nserde 1.0.1\ntoml 0.8.2\n");
    assert_eq!(CrateDatabase::new().to_text(), "\n");
}

#[test]
fn database_from_lockfile_graph() {
    let text = "[[package]]\nname = \"serde\"\nversion = \"1.0.5\"\nsource = \"registry+https://example\"\n";
    let (graph, _) = takopack::lockfile::parse_lockfile_text(text).unwrap();
    let mut db = CrateDatabase::new();
    db.add_entry(CrateEntry::new("serde".to_string(), Version::parse("1.0.1").unwrap()));
    let needs = db.merge_dependency_graph(&graph);
    assert_eq!(needs.len(), 1);
    assert_eq!(needs[0].to_line(), "serde 1.0.5");
    assert_eq!(CrateDatabase::from_dependency_graph(&graph).len(), 1);
}

#[test]
fn lockfile_pins_replace_constraints() {
    let mut p = Package::new_extra("rust-x".to_string());
    p.crate_deps.push(CrateDep::new("serde_json".to_string(), None));
    p.crate_deps.push(CrateDep::new_with_version("toml".to_string(), Some("parse".to_string()), Some(">= 0.8".to_string())));
    p.crate_deps.push(CrateDep::new("missing".to_string(), None));
    let pins = vec![
        ("serde-json".to_string(), Version::parse("1.0.9").unwrap()),
        ("toml".to_string(), Version::parse("0.9.11+spec-1.1.0").unwrap()),
    ];
    p.apply_lockfile_deps(&pins);
    assert_eq!(p.crate_deps[0].version.as_deref(), Some(">= 1.0.9"));
    assert_eq!(p.crate_deps[1].version.as_deref(), Some(">= 0.9.11+spec-1.1.0"));
    assert_eq!(p.crate_deps[1].feature.as_deref(), Some("parse"));
    assert_eq!(p.crate_deps[2].version, None);
}

#[test]
fn package_keys() {
    assert!(matches!(PackageKey::from_key("bin"), Some(PackageKey::Bin)));
    assert!(matches!(PackageKey::from_key("lib"), Some(PackageKey::BareLib)));
    match PackageKey::from_key("lib+std") {
        Some(PackageKey::FeatureLib(f)) => assert_eq!(f, "std"),
        other => panic!("{:?}", other),
    }
    match PackageKey::from_key("extra+doc") {
        Some(PackageKey::Extra(p)) => assert_eq!(p, "doc"),
        other => panic!("{:?}", other),
    }
    assert!(PackageKey::from_key("other").is_none());
    assert_eq!(PackageKey::feature("").key_string(), "lib");
    assert_eq!(PackageKey::feature("std").key_string(), "lib+std");
}

#[test]
fn field_lookup_follows_provides() {
    let mut config = Config::default();
    let with_depends = |d: &[&str]| PackageOverride {
        depends: Some(d.iter().map(|x| x.to_string()).collect()),
        ..PackageOverride::default()
    };
    config.packages = vec![
        ("lib+std".to_string(), with_depends(&["a"])),
        ("lib".to_string(), with_depends(&["b"])),
        ("lib+alloc".to_string(), with_depends(&["c", "d"])),
        ("lib+std".to_string(), with_depends(&["ignored"])),
    ];
    let got = package_field_for_feature(
        &config,
        PackageField::Depends,
        &PackageKey::FeatureLib("std".to_string()),
        &vec!["".to_string(), "alloc".to_string(), "none".to_string()],
    );
    assert_eq!(got, vec!["a", "b", "c", "d"]);
    assert!(package_field_for_feature(&config, PackageField::Breaks, &PackageKey::Bin, &vec![]).is_empty());
}

#[test]
fn config_defaults() {
    let c = Config::default();
    assert!(c.build_bin_package());
    assert_eq!(c.maintainer(), "takopack Team <takopack@iscas.ac.cn>");
    let c = Config { semver_suffix: true, ..Config::default() };
    assert!(!c.build_bin_package());
}

#[test]
fn source_overrides() {
    let mut s = Source::new(
        false, "foo", "1.0.0", None, "foo", "", "", "MIT", true, "me".to_string(), vec![],
        BuildDeps { build_depends: vec!["a".to_string(), "x".to_string()], build_depends_indep: vec![], build_depends_arch: vec![] },
        None, "url".to_string(), "1.0.0".to_string(), None,
    );
    let mut c = Config::default();
    c.source = Some(SourceOverride::new(
        Some("devel".to_string()), Some("4.6".to_string()), None, Some("git:x".to_string()), None,
        Some(vec!["b".to_string(), "x".to_string()]), Some(vec!["x".to_string()]), None,
        Some(vec!["x".to_string()]), None,
    ));
    s.apply_overrides(&c);
    assert_eq!(s.section, "devel");
    assert_eq!(s.standards, "4.6");
    assert_eq!(s.vcs_git, "git:x");
    assert_eq!(s.build_deps.build_depends, vec!["a".to_string(), "b".to_string()]);
    assert!(s.build_deps.build_depends_arch.is_empty());
}

#[test]
fn package_overrides() {
    let mut p = Package::new_extra("rust-foo+std-devel".to_string());
    p.summary = Description::new("Summary".to_string(), " - extra".to_string());
    let mut c = Config::default();
    c.description = Some("All packages".to_string());
    c.packages = vec![
        (
            "lib+std".to_string(),
            PackageOverride {
                section: Some("libs".to_string()),
                summary: Some("Own summary".to_string()),
                architecture: Some(vec!["amd64".to_string(), "arm64".to_string()]),
                depends: Some(vec!["x".to_string()]),
                extra_lines: Some(vec!["X-Line: 1".to_string()]),
                ..PackageOverride::default()
            },
        ),
        ("lib+alloc".to_string(), PackageOverride { depends: Some(vec!["y".to_string()]), ..PackageOverride::default() }),
    ];
    p.apply_overrides(&c, &PackageKey::FeatureLib("std".to_string()), &vec!["alloc".to_string()]);
    assert_eq!(p.section.as_deref(), Some("libs"));
    assert_eq!(p.summary.text(), "Own summary");
    assert_eq!(p.description.text(), "All packages");
    assert_eq!(p.arch, "amd64 arm64");
    assert_eq!(p.depends, vec!["x".to_string(), "y".to_string()]);
    assert_eq!(p.extra_lines, vec!["X-Line: 1".to_string()]);
    assert_eq!(p.multi_arch, None);
}

#[test]
fn deb_info_names() {
    let v = Version::parse("0.26.3").unwrap();
    let d = DebInfo::new(false, "Foo_Bar", &v, "1.0", true);
    assert_eq!(d.upstream_name(), "Foo_Bar");
    assert_eq!(d.base_package_name(), "foo-bar");
    assert_eq!(d.name_suffix(), Some("-0.26"));
    assert_eq!(d.package_name(), "foo-bar-0.26");
    assert_eq!(d.deb_upstream_version(), "0.26.3");
    assert_eq!(d.takopack_version(), "1.0");
    assert_eq!(d.package_source_dir(), "rust-foo-bar-0.26-0.26.3");
    assert_eq!(d.orig_tarball_path(), "rust-foo-bar-0.26_0.26.3.orig.tar.gz");
    let d = DebInfo::new(true, "x", &Version::parse("1.2.3-rc.1").unwrap(), "1", false);
    assert_eq!(d.name_suffix(), None);
    assert_eq!(d.package_source_dir(), "ruzt-x-1.2.3-rc.1");
}

#[test]
fn upstream_version_drops_build() {
    assert_eq!(deb_upstream_version(&Version::parse("1.2.3+b").unwrap()), "1.2.3");
    assert_eq!(deb_upstream_version(&Version::parse("1.2.3-rc.1+b").unwrap()), "1.2.3-rc.1");
}

#[test]
fn source_fields() {
    let s = Source::new(
        false, "foo", "1.0.0", Some("-1"), "foo", "https://home", "https://git/x", "MIT", true,
        "me".to_string(), vec![], BuildDeps::default(), None, "url".to_string(), "1.0.0".to_string(), None,
    );
    assert_eq!(s.name(), "rust-foo-1");
    assert_eq!(s.vcs_git, "git:https://git/x");
    assert_eq!(s.section, "rust");
    assert_eq!(s.vcs_browser, "https://salsa.debian.org/rust-team/takopack-conf/tree/master/src/foo-1");
    assert_eq!(Source::pkg_prefix(true), "ruzt");
    assert_eq!(Package::pkg_prefix(false), "rust");
}

#[test]
fn binary_packages() {
    let d = || Description::new("a".to_string(), "b".to_string());
    let p = Package::new_bin("foo", Some("-1"), None, d(), d());
    assert_eq!(p.name(), "foo-1");
    assert_eq!(p.provides, vec!["foo (= ${binary:Version})".to_string(), "${cargo:Provides}".to_string()]);
    assert!(p.summary_check_len().is_ok());
    let long = Package::new_bin("foo", None, Some("utils"), Description::new("x".repeat(81), String::new()), d());
    assert!(long.summary_check_len().is_err());
    assert_eq!(long.section.as_deref(), Some("utils"));
    assert_eq!(d().text(), "ab");
}

#[test]
fn test_stanza() {
    let t = PkgTest::new("n", "c", "f", "1", &["--x"], &["dep".to_string()], &["r"], &["amd64"]);
    assert_eq!(t.extra_test_args, vec!["--x".to_string()]);
    assert_eq!(t.depends, vec!["dep".to_string()]);
    assert_eq!(t.architecture, vec!["amd64".to_string()]);
}

#[test]
fn author() {
    assert_eq!(get_deb_author(Some("A B".to_string()), Some("a@b".to_string())).unwrap(), "A B <a@b>");
    assert!(matches!(get_deb_author(None, Some("a@b".to_string())), Err(AuthorError::NoName)));
    assert!(matches!(get_deb_author(Some("A".to_string()), None), Err(AuthorError::NoEmail)));
}

#[test]
fn small_utilities() {
    assert_eq!(hint_file_for("a/b.rs.takopack.hint"), Some("a/b.rs".to_string()));
    assert_eq!(hint_file_for("a/b.rs"), None);
    assert_eq!(rel_p("/x/y/z", "/x/y"), "z");
    assert_eq!(rel_p("/x/yz", "/x/y"), "/x/yz");
    assert_eq!(show_vec(&vec!["a".to_string(), "b".to_string()]), "a, b");
    assert_eq!(show_vec(&vec![]), "");
}

#[test]
fn file_formats() {
    assert!(takopack::lockfile::is_cargo_lock_format("version = 3\n\n[[package]]\nname = \"a\"\n"));
    assert!(takopack::lockfile::is_cargo_lock_format("name = \"a\"\nversion = \"1\"\nchecksum = \"x\"\n"));
    assert!(!takopack::lockfile::is_cargo_lock_format("[package]\nname = \"a\"\n"));
    assert!(takopack::lockfile::is_cargo_toml_format("[package]\nname = \"a\"\n"));
    assert!(takopack::lockfile::is_cargo_toml_format("[workspace]\n"));
    assert!(!takopack::lockfile::is_cargo_toml_format("hello"));
}

fn strs(v: &[&str]) -> Vec<String> {
    v.iter().map(|s| s.to_string()).collect()
}

fn crate_deps_of(p: &Package) -> Vec<(String, Option<String>, Option<String>)> {
    p.crate_deps.iter().map(|d| (d.crate_name.clone(), d.feature.clone(), d.version.clone())).collect()
}

#[test]
fn base_package_from_relations() {
    let d = || Description::new("s".to_string(), String::new());
    let ori = vec![
        Dependency { name: "serde".to_string(), uses_default_features: true, features: vec![], comparators: vec![] },
        Dependency {
            name: "baz".to_string(),
            uses_default_features: true,
            features: vec![],
            comparators: vec![Comparator { op: Op::Caret, major: 1, minor: Some(2), patch: None, pre: String::new() }],
        },
    ];
    let o_deps = strs(&[
        "rust-serde-1+default-dev (>= 1.0.100-~~)",
        "rust-bar-0.3-dev (>= 0.3.2-~~)",
        "rust-bar-0.3-dev (<< 0.4-~~)",
        "rust-bar-0.3-dev (>= 0.3.10-~~)",
        "rust-baz-dev",
        "rust-foo-1-dev (>= 1.0-~~)",
    ]);
    let p = Package::new(
        false, "foo", None, &Version::parse("1.2.3").unwrap(), d(), d(), None, &vec![], &o_deps, &ori,
        &strs(&["std"]), &strs(&["std", "x"]), &vec![], vec![],
    );
    assert_eq!(p.name(), "rust-foo");
    assert_eq!(p.depends, o_deps);
    assert_eq!(p.recommended, strs(&["rust-foo-x"]));
    assert_eq!(p.provides, strs(&["rust-foo-std"]));
    assert!(p.breaks.is_empty());
    assert_eq!(p.multi_arch.as_deref(), Some("same"));
    assert_eq!(
        crate_deps_of(&p),
        vec![
            ("serde".to_string(), Some("default".to_string()), Some(">= 1.0.100".to_string())),
            ("bar".to_string(), None, Some(">= 0.3.10".to_string())),
            ("baz".to_string(), None, Some(">= 1.2.0".to_string())),
        ]
    );
}

#[test]
fn feature_and_suffixed_packages() {
    let d = || Description::new("s".to_string(), String::new());
    let v = Version::parse("1.2.3").unwrap();
    let p = Package::new(
        false, "foo", Some("-1"), &v, d(), d(), Some("std"), &strs(&["alloc"]), &vec![], &vec![],
        &vec![], &vec![], &vec![], vec![],
    );
    assert_eq!(p.name(), "rust-foo-1-std");
    assert_eq!(p.depends, strs(&["rust-foo-1", "rust-foo-1-alloc"]));
    assert_eq!(
        crate_deps_of(&p),
        vec![("%{pkgname}".to_string(), None, None), ("%{pkgname}".to_string(), Some("alloc".to_string()), None)]
    );
    assert!(p.provides.is_empty());
    assert!(p.breaks.is_empty());
    let base = Package::new(
        false, "foo", Some("-1"), &v, d(), d(), None, &vec![], &vec![], &vec![], &vec![], &vec![], &vec![], vec![],
    );
    assert_eq!(base.name(), "rust-foo-1");
    assert_eq!(base.breaks, strs(&["rust-foo (<< 1.2.4~)"]));
    assert_eq!(base.replaces, base.breaks);
}
