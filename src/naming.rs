//! Package names derived from crate and feature names.
use vstd::prelude::*;
use crate::text::{lower_of, lowercase, push_char, push_text, replace_char, replaced};

verus! {

/// Lower case, with `_` turned into `-`.
pub open spec fn base_name_of(s: Seq<char>) -> Seq<char> {
    lower_of(replaced(s, '_', '-'))
}

/// The crate name as it appears in package names.
pub fn base_deb_name(crate_name: &str) -> (r: String)
    ensures
        r@ == base_name_of(crate_name@),
{
    let dashed = replace_char(crate_name, '_', '-');
    lowercase(dashed.as_str())
}

/// The prefix of every package name; `ruzt` in testing mode, so that test
/// builds never install official packages.
pub open spec fn prefix_of(testing: bool) -> Seq<char> {
    if testing { "ruzt"@ } else { "rust"@ }
}

pub fn pkg_prefix(testing: bool) -> (r: &'static str)
    ensures
        r@ == prefix_of(testing),
{
    if testing { "ruzt" } else { "rust" }
}

/// `prefix-name`.
pub open spec fn deb_name_of(testing: bool, name: Seq<char>) -> Seq<char> {
    prefix_of(testing) + seq!['-'] + base_name_of(name)
}

/// The name of the binary package for a crate.
pub fn deb_name(testing: bool, name: &str) -> (r: String)
    ensures
        r@ == deb_name_of(testing, name@),
{
    let mut s = String::new();
    push_text(&mut s, pkg_prefix(testing));
    push_char(&mut s, '-');
    let b = base_deb_name(name);
    push_text(&mut s, b.as_str());
    s
}

/// The name of the source package for a crate.
pub fn dsc_name(testing: bool, name: &str) -> (r: String)
    ensures
        r@ == deb_name_of(testing, name@),
{
    deb_name(testing, name)
}

/// The name of the package for one feature of a crate.
pub fn deb_feature_name(testing: bool, name: &str, feature: &str) -> (r: String)
    ensures
        r@ == deb_name_of(testing, name@) + seq!['-'] + base_name_of(feature@),
{
    let mut s = deb_name(testing, name);
    push_char(&mut s, '-');
    let f = base_deb_name(feature);
    push_text(&mut s, f.as_str());
    s
}

/// `rustc`, with `:native` for build dependencies and a minimum version where
/// one is known.
pub open spec fn rustc_dep_of(min_ver: Option<Seq<char>>, native: bool) -> Seq<char> {
    let name = if native { "rustc:native"@ } else { "rustc"@ };
    match min_ver {
        Some(v) => name + " (>= "@ + v + ")"@,
        None => name,
    }
}

pub fn rustc_dep(min_ver: &Option<String>, native: bool) -> (r: String)
    ensures
        r@ == rustc_dep_of(
            match min_ver {
                Some(v) => Some(v@),
                None => None,
            },
            native,
        ),
{
    let mut s = String::new();
    if native {
        push_text(&mut s, "rustc:native");
    } else {
        push_text(&mut s, "rustc");
    }
    match min_ver {
        Some(v) => {
            push_text(&mut s, " (>= ");
            push_text(&mut s, v.as_str());
            push_text(&mut s, ")");
        },
        None => {},
    }
    s
}

/// The toolchain packages every build needs.
pub fn toolchain_deps(min_rust_version: &Option<String>) -> (r: Vec<String>)
    ensures
        r@.len() == 3,
        r@[0]@ == "cargo:native"@,
        r@[1]@ == rustc_dep_of(
            match min_rust_version {
                Some(v) => Some(v@),
                None => None,
            },
            true,
        ),
        r@[2]@ == "libstd-rust-dev"@,
{
    let rustc = rustc_dep(min_rust_version, true);
    let mut v: Vec<String> = Vec::new();
    v.push(String::from_str("cargo:native"));
    v.push(rustc);
    v.push(String::from_str("libstd-rust-dev"));
    v
}

} // verus!
