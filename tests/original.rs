use takopack::database::{CrateDatabase, CrateEntry};
use takopack::lockfile::{DependencyGraph, PackageInfo};
use takopack::naming::rustc_dep;
use takopack::version::Version;

#[test]
fn test_version_detection() {
    let v1 = Version::parse("1.0.0").unwrap();
    assert!(CrateEntry::is_standard_version(&v1));

    let v2 = Version::parse("0.9.11+spec-1.1.0").unwrap();
    assert!(CrateEntry::is_standard_version(&v2));

    let v3 = Version::parse("1.0.0-beta.1").unwrap();
    assert!(!CrateEntry::is_standard_version(&v3));
}

#[test]
fn test_compat_version() {
    let e1 = CrateEntry::new("serde".to_string(), Version::parse("1.0.0").unwrap());
    assert_eq!(e1.compat_version(), "1.0");
    assert_eq!(e1.key(), "serde@1.0");

    let e2 = CrateEntry::new("toml".to_string(), Version::parse("0.8.23").unwrap());
    assert_eq!(e2.compat_version(), "0.8");
    assert_eq!(e2.key(), "toml@0.8");

    let e3 = CrateEntry::new(
        "toml".to_string(),
        Version::parse("0.9.11+spec-1.1.0").unwrap(),
    );
    assert_eq!(e3.compat_version(), "0.9");
    assert_eq!(e3.key(), "toml@0.9");
}

#[test]
fn test_parse_line() {
    let line1 = "serde 1.0.0";
    let e1 = CrateEntry::from_line(line1).unwrap();
    assert_eq!(e1.name, "serde");
    assert_eq!(e1.version, Version::parse("1.0.0").unwrap());
    assert!(e1.compatible);

    let line2 = "toml 0.9.11+spec-1.1.0 false";
    let e2 = CrateEntry::from_line(line2).unwrap();
    assert_eq!(e2.name, "toml");
    assert!(!e2.compatible);
}

#[test]
fn test_database_merge() {
    let mut db1 = CrateDatabase::new();
    db1.add_entry(CrateEntry::new(
        "serde".to_string(),
        Version::parse("1.0.0").unwrap(),
    ));
    db1.add_entry(CrateEntry::new(
        "toml".to_string(),
        Version::parse("0.8.0").unwrap(),
    ));

    let mut db2 = CrateDatabase::new();
    db2.add_entry(CrateEntry::new(
        "serde".to_string(),
        Version::parse("1.0.200").unwrap(),
    ));
    db2.add_entry(CrateEntry::new(
        "anyhow".to_string(),
        Version::parse("1.0.0").unwrap(),
    ));

    let needs_action = db1.merge(&db2);

    assert_eq!(needs_action.len(), 2);
    assert_eq!(db1.len(), 3);
}

#[test]
fn test_dependency_graph_creation() {
    let mut graph = DependencyGraph::new();
    assert!(graph.is_empty());
    assert_eq!(graph.len(), 0);

    let package = PackageInfo {
        name: "test-crate".to_string(),
        version: Version::parse("1.0.0").unwrap(),
        dependencies: vec![],
    };

    graph.add_package(package.clone());
    assert_eq!(graph.len(), 1);
    assert!(!graph.is_empty());

    let retrieved = graph.get_package("test-crate", &Version::parse("1.0.0").unwrap());
    assert!(retrieved.is_some());
    assert_eq!(retrieved.unwrap().name, "test-crate");
}

#[test]
fn test_multiple_versions() {
    let mut graph = DependencyGraph::new();

    let package_v1 = PackageInfo {
        name: "test-crate".to_string(),
        version: Version::parse("1.0.0").unwrap(),
        dependencies: vec![],
    };

    let package_v2 = PackageInfo {
        name: "test-crate".to_string(),
        version: Version::parse("2.0.0").unwrap(),
        dependencies: vec![],
    };

    graph.add_package(package_v1);
    graph.add_package(package_v2);

    assert_eq!(graph.len(), 2);

    let versions = graph.get_versions("test-crate");
    assert_eq!(versions.len(), 2);
}

#[test]
fn rustc_dep_includes_minver() {
    assert_eq!(
        "rustc:native (>= 1.65)",
        rustc_dep(&Some("1.65".to_string()), true)
    );
}

#[test]
fn rustc_dep_excludes_minver() {
    assert_eq!("rustc:native", rustc_dep(&None, true));
}

#[test]
fn rustc_dep_includes_minver_autopkgtest() {
    assert_eq!(
        "rustc (>= 1.65)",
        rustc_dep(&Some("1.65".to_string()), false)
    );
}

#[test]
fn rustc_dep_excludes_minver_autopkgtest() {
    assert_eq!("rustc", rustc_dep(&None, false));
}
