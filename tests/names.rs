use takopack::control::CrateDep;
use takopack::pkgname::{
    clean_package_name, convert_to_crate_format, extract_feature_from_package_name, extract_version_from_pkg_name,
    parse_deb_package_to_crate_dep, parse_package_name_simple, parse_version_req_to_lower_bound,
};

fn parsed(s: &str) -> Option<(String, Option<String>)> {
    parse_package_name_simple(s).map(|d| (d.crate_name, d.feature))
}

#[test]
fn simple_package_names() {
    assert_eq!(parsed("rust-md-5-0.10+default-dev"), Some(("md-5".to_string(), Some("default".to_string()))));
    assert_eq!(parsed("rust-serde-1.0+derive-dev"), Some(("serde".to_string(), Some("derive".to_string()))));
    assert_eq!(parsed("rust-utf-8-0.7-dev"), Some(("utf-8".to_string(), None)));
    assert_eq!(parsed("  librust-proc-macro2-1-devel "), Some(("proc-macro2".to_string(), None)));
    assert_eq!(parsed("libfoo-dev"), None);
    assert_eq!(parsed("rust-+x"), None);
    assert!(parse_deb_package_to_crate_dep("rust-serde-1.0-dev").is_some());
}

#[test]
fn features_in_names() {
    assert_eq!(extract_feature_from_package_name("rust-serde-default", "serde"), Some("default".to_string()));
    assert_eq!(extract_feature_from_package_name("rust-serde", "serde"), None);
    assert_eq!(extract_feature_from_package_name("rust-serdex-std", "serde"), None);
    assert_eq!(extract_feature_from_package_name("lib-serde-std", "serde"), None);
}

#[test]
fn requirement_lower_bounds() {
    assert_eq!(parse_version_req_to_lower_bound("^0.9"), Some("0.9.0".to_string()));
    assert_eq!(parse_version_req_to_lower_bound(">=1.21, <2.0"), Some("1.21.0".to_string()));
    assert_eq!(parse_version_req_to_lower_bound("^0.2.62"), Some("0.2.62".to_string()));
    assert_eq!(parse_version_req_to_lower_bound("~ 3"), Some("3.0.0".to_string()));
    assert_eq!(parse_version_req_to_lower_bound("*"), None);
    assert_eq!(parse_version_req_to_lower_bound("  "), None);
}

#[test]
fn versions_in_names() {
    assert_eq!(extract_version_from_pkg_name("rust-pyo3-build-config-0.26+default-dev"), Some(">= 0.26.0".to_string()));
    assert_eq!(extract_version_from_pkg_name("rust-serde-1.0+default-dev"), Some(">= 1.0.0".to_string()));
    assert_eq!(extract_version_from_pkg_name("librust-foo-2-dev"), Some(">= 2.0.0".to_string()));
    assert_eq!(extract_version_from_pkg_name("rust-foo-dev"), None);
}

#[test]
fn clean_and_crate_forms() {
    assert_eq!(clean_package_name("librust-proc-macro2-1+default-dev"), "rust-proc-macro2-default");
    assert_eq!(clean_package_name("librust-heck-0.5+default-devel"), "rust-heck-default");
    assert_eq!(convert_to_crate_format("rust-serde-core-result"), "crate(serde-core/result)");
    assert_eq!(convert_to_crate_format("rust-serde"), "crate(serde)");
    assert_eq!(convert_to_crate_format("rust-serde-derive-default"), "crate(serde-derive/default)");
    assert_eq!(convert_to_crate_format("rust-foo-bar"), "crate(foo-bar)");
}

#[test]
fn crate_format_of_dependencies() {
    let d = |n: &str, f: Option<&str>, v: Option<&str>| {
        CrateDep::new_with_version(n.to_string(), f.map(String::from), v.map(String::from)).to_crate_format()
    };
    assert_eq!(d("serde", None, Some(">= 1.0.228")), "crate(serde-1.0) >= 1.0.228");
    assert_eq!(d("bytemuck", None, Some(">= 1.4")), "crate(bytemuck-1.0) >= 1.4");
    assert_eq!(d("x", None, Some(">= 0.4.*")), "crate(x-0.4) >= 0.4.0");
    assert_eq!(d("toml", None, Some(">= 0.9.11+spec-1.1.0")), "crate(toml-0.9) >= 0.9.11");
    assert_eq!(
        d("libbpf_rs", Some("_Std_X"), Some(">= 0.26.0-beta.1")),
        "crate(libbpf-rs-0.26.0-beta.1/std-x) >= 0.26.0-beta.1"
    );
    assert_eq!(d("foo_bar", Some("std"), None), "crate(foo-bar/std)");
    assert_eq!(d("foo", None, None), "crate(foo)");
}
