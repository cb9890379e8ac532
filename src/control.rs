//! Package descriptors: the source package, its binary packages, their
//! descriptions and test stanzas, and the names and versions they carry.
use vstd::prelude::*;
use vstd::string::StringSliceAdditionalSpecFns;
use crate::naming::{base_deb_name, base_name_of, deb_name_of, dsc_name, pkg_prefix, prefix_of};
use crate::range::texts;
use crate::text::{contains_char, dec, find_char, index_of, lower_of, lowercase, pieces, push_char, push_decimal, push_text, replace_char, replaced, split_at_char, starts_with, strip_all, strip_all_prefix, trim, trimmed};
use crate::version::semver_parse;
use crate::config::{fields_for, key_view, opt_texts, override_of, feature_key, package_field_for_feature, Config, PackageField, PackageKey, PackageOverride, SourceOverride};
use crate::text::{join_with, text_at, find_text, has_text, u64_of, parse_u64};
use crate::translate::{req_text, req_text_of, Dependency};
use crate::pkgname::{lower_bound_of, parse_deb_package_to_crate_dep, parse_version_req_to_lower_bound, simple_dep};
use crate::naming::{deb_name, deb_feature_name};
use crate::version::version_text;
use crate::lockfile::same_str;
use crate::version::{Version, VersionTuple};
use crate::database::{calculate_compat_version, compat_text};

verus! {

/// The build dependencies of a source package.
#[derive(Clone, Debug, Default)]
pub struct BuildDeps {
    pub build_depends: Vec<String>,
    pub build_depends_indep: Vec<String>,
    pub build_depends_arch: Vec<String>,
}

/// A description: a text with a suffix appended.
#[derive(Clone, Debug)]
pub struct Description {
    pub prefix: String,
    pub suffix: String,
}

impl Description {
    pub fn new(prefix: String, suffix: String) -> (r: Description)
        ensures
            r.prefix == prefix,
            r.suffix == suffix,
    {
        Description { prefix, suffix }
    }

    /// The full text.
    pub fn text(&self) -> (r: String)
        ensures
            r@ == self.prefix@ + self.suffix@,
    {
        let mut s = String::new();
        push_text(&mut s, self.prefix.as_str());
        push_text(&mut s, self.suffix.as_str());
        s
    }
}

/// A dependency on a crate, optionally on one feature and with a version
/// constraint such as `>= 1.0.228`.
#[derive(Clone, Debug)]
pub struct CrateDep {
    pub crate_name: String,
    pub feature: Option<String>,
    pub version: Option<String>,
}

impl CrateDep {
    pub fn new(crate_name: String, feature: Option<String>) -> (r: CrateDep)
        ensures
            r.crate_name == crate_name,
            r.feature == feature,
            r.version.is_none(),
    {
        CrateDep { crate_name, feature, version: None }
    }

    pub fn new_with_version(crate_name: String, feature: Option<String>, version: Option<String>) -> (r: CrateDep)
        ensures
            r.crate_name == crate_name,
            r.feature == feature,
            r.version == version,
    {
        CrateDep { crate_name, feature, version }
    }
}

/// A version constraint with wildcards read as zeros: `0.4.*` as `0.4.0`.
pub open spec fn unstarred(v: Seq<char>) -> Seq<char> {
    replaced(v, '*', '0')
}

/// The text before its first `sep`.
pub open spec fn before_char(s: Seq<char>, sep: char) -> Seq<char> {
    match index_of(s, sep, 0) {
        Some(i) => s.subrange(0, i),
        None => s,
    }
}

/// The version number of a constraint: operators and white space taken off
/// the front, build metadata off the end.
pub open spec fn constraint_number(v: Seq<char>) -> Seq<char> {
    let t = trim(strip_all_prefix(strip_all_prefix(strip_all_prefix(strip_all_prefix(trim(unstarred(v)), ">="@), "="@), ">"@), "<"@));
    before_char(t, '+')
}

/// The crate name with its compatibility version: the full version for a
/// pre-release, else the compatibility version of the number completed to
/// three parts, or the number as written where that does not parse.
pub open spec fn crate_with_compat(base: Seq<char>, version: Option<Seq<char>>) -> Seq<char> {
    match version {
        None => base,
        Some(v) => {
            let num = constraint_number(v);
            if num.contains('-') {
                base + seq!['-'] + num
            } else {
                let full = if pieces(num, '.').len() == 2 { num + ".0"@ } else { num };
                match semver_parse(full) {
                    Some(p) => base + seq!['-'] + compat_text(p),
                    None => base + seq!['-'] + full,
                }
            }
        },
    }
}

/// The RPM-style form of a dependency: `crate(name-compat)` or
/// `crate(name-compat/feature)`, then the constraint without wildcards and
/// build metadata.
pub open spec fn crate_format_of(d: CrateDep) -> Seq<char> {
    let base = replaced(d.crate_name@, '_', '-');
    let cwc = crate_with_compat(base, opt_view_string(d.version));
    let part = match d.feature {
        Some(f) => "crate("@ + cwc + seq!['/'] + strip_all_prefix(lower_of(replaced(f@, '_', '-')), "-"@) + seq![')'],
        None => "crate("@ + cwc + seq![')'],
    };
    match d.version {
        Some(v) => part + seq![' '] + before_char(unstarred(v@), '+'),
        None => part,
    }
}

fn before_char_exec(s: &str, sep: char) -> (r: String)
    ensures
        r@ == before_char(s@, sep),
{
    let mut t = String::new();
    match find_char(s, sep) {
        Some(i) => push_text(&mut t, s.substring_char(0, i)),
        None => push_text(&mut t, s),
    }
    t
}

impl CrateDep {
    /// The dependency in `crate(...)` form with its constraint.
    pub fn to_crate_format(&self) -> (r: String)
        ensures
            r@ == crate_format_of(*self),
    {
        let crate_base = replace_char(self.crate_name.as_str(), '_', '-');
        let cwc = match &self.version {
            None => {
                let mut t = String::new();
                push_text(&mut t, crate_base.as_str());
                t
            },
            Some(version_str) => {
                let cleaned = replace_char(version_str.as_str(), '*', '0');
                let t0 = trimmed(cleaned.as_str());
                let t1 = strip_all(t0.as_str(), ">=");
                let t2 = strip_all(t1.as_str(), "=");
                let t3 = strip_all(t2.as_str(), ">");
                let t4 = strip_all(t3.as_str(), "<");
                let t5 = trimmed(t4.as_str());
                let num = before_char_exec(t5.as_str(), '+');
                let mut out = String::new();
                push_text(&mut out, crate_base.as_str());
                push_char(&mut out, '-');
                if contains_char(num.as_str(), '-') {
                    push_text(&mut out, num.as_str());
                } else {
                    let dots = split_at_char(num.as_str(), '.');
                    assert(dots@.map_values(|w: String| w@).len() == dots@.len());
                    let mut full = String::new();
                    push_text(&mut full, num.as_str());
                    if dots.len() == 2 {
                        push_text(&mut full, ".0");
                    }
                    match Version::parse(full.as_str()) {
                        Some(p) => {
                            let c = calculate_compat_version(&p);
                            push_text(&mut out, c.as_str());
                        },
                        None => push_text(&mut out, full.as_str()),
                    }
                }
                out
            },
        };
        let mut part = String::new();
        push_text(&mut part, "crate(");
        push_text(&mut part, cwc.as_str());
        match &self.feature {
            Some(f) => {
                let dashed = replace_char(f.as_str(), '_', '-');
                let lower = lowercase(dashed.as_str());
                let trimmed_feature = strip_all(lower.as_str(), "-");
                push_char(&mut part, '/');
                push_text(&mut part, trimmed_feature.as_str());
            },
            None => {},
        }
        push_char(&mut part, ')');
        match &self.version {
            Some(v) => {
                let cleaned = replace_char(v.as_str(), '*', '0');
                let head = before_char_exec(cleaned.as_str(), '+');
                push_char(&mut part, ' ');
                push_text(&mut part, head.as_str());
            },
            None => {},
        }
        assert(part@ =~= crate_format_of(*self));
        part
    }
}

/// The source package.
#[derive(Clone, Debug)]
pub struct Source {
    pub name: String,
    pub version: String,
    /// The full version, build metadata included.
    pub full_version: String,
    pub section: String,
    pub priority: String,
    pub maintainer: String,
    pub uploaders: Vec<String>,
    pub standards: String,
    pub build_deps: BuildDeps,
    pub vcs_git: String,
    pub vcs_browser: String,
    pub homepage: String,
    pub crate_name: String,
    pub license: String,
    pub requires_root: Option<String>,
    pub download_url: String,
    pub sha256: Option<String>,
}

/// The package base: the base name with the suffix, if any.
pub open spec fn pkgbase_of(basename: Seq<char>, name_suffix: Option<Seq<char>>) -> Seq<char> {
    match name_suffix {
        Some(s) => basename + s,
        None => basename,
    }
}

/// The git location of a repository: `git:` before a web address.
pub open spec fn vcs_git_of(repository: Seq<char>) -> Seq<char> {
    if repository.len() == 0 {
        seq![]
    } else if (repository.len() >= 7 && repository.subrange(0, 7) == "http://"@)
        || (repository.len() >= 8 && repository.subrange(0, 8) == "https://"@) {
        "git:"@ + repository
    } else {
        repository
    }
}

pub open spec fn opt_view(o: Option<&str>) -> Option<Seq<char>> {
    match o {
        Some(s) => Some(s@),
        None => None,
    }
}

fn copy_str(s: &str) -> (r: String)
    ensures
        r@ == s@,
{
    let mut t = String::new();
    push_text(&mut t, s);
    t
}

impl Source {
    /// The prefix of source package names.
    pub fn pkg_prefix(testing: bool) -> (r: &'static str)
        ensures
            r@ == prefix_of(testing),
    {
        pkg_prefix(testing)
    }

    /// A source package for a crate.
    pub fn new(
        testing: bool,
        basename: &str,
        version: &str,
        name_suffix: Option<&str>,
        crate_name: &str,
        home: &str,
        repository: &str,
        license: &str,
        lib: bool,
        maintainer: String,
        uploaders: Vec<String>,
        build_deps: BuildDeps,
        requires_root: Option<String>,
        download_url: String,
        full_version: String,
        sha256: Option<String>,
    ) -> (r: Source)
        ensures
            r.name@ == deb_name_of(testing, pkgbase_of(basename@, opt_view(name_suffix))),
            r.version@ == version@,
            r.full_version == full_version,
            r.section@ == (if lib { "rust"@ } else { "FIXME-IN-THE-SOURCE-SECTION"@ }),
            r.priority@ == "optional"@,
            r.maintainer == maintainer,
            r.uploaders == uploaders,
            r.standards@ == "4.7.2"@,
            r.vcs_git@ == vcs_git_of(repository@),
            r.vcs_browser@ == "https://salsa.debian.org/rust-team/takopack-conf/tree/master/src/"@
                + pkgbase_of(basename@, opt_view(name_suffix)),
            r.homepage@ == home@,
            r.crate_name@ == crate_name@,
            r.license@ == license@,
            r.requires_root == requires_root,
            r.download_url == download_url,
            r.sha256 == sha256,
    {
        let mut pkgbase = copy_str(basename);
        match name_suffix {
            Some(suf) => push_text(&mut pkgbase, suf),
            None => {},
        }
        let section = if lib { copy_str("rust") } else { copy_str("FIXME-IN-THE-SOURCE-SECTION") };
        let mut vcs_browser = copy_str("https://salsa.debian.org/rust-team/takopack-conf/tree/master/src/");
        push_text(&mut vcs_browser, pkgbase.as_str());
        proof {
            reveal_strlit("http://");
            reveal_strlit("https://");
        }
        let vcs_git = if repository.unicode_len() > 0 {
            if starts_with(repository, "http://") || starts_with(repository, "https://") {
                let mut g = copy_str("git:");
                push_text(&mut g, repository);
                g
            } else {
                copy_str(repository)
            }
        } else {
            String::new()
        };
        Source {
            name: dsc_name(testing, pkgbase.as_str()),
            version: copy_str(version),
            full_version,
            section,
            priority: copy_str("optional"),
            maintainer,
            uploaders,
            standards: copy_str("4.7.2"),
            build_deps,
            vcs_git,
            vcs_browser,
            homepage: copy_str(home),
            crate_name: copy_str(crate_name),
            license: copy_str(license),
            requires_root,
            download_url,
            sha256,
        }
    }

    pub fn name(&self) -> (r: &str)
        ensures
            r@ == self.name@,
    {
        self.name.as_str()
    }
}

/// A binary package.
#[derive(Clone, Debug)]
pub struct Package {
    pub name: String,
    pub arch: String,
    pub multi_arch: Option<String>,
    pub section: Option<String>,
    pub depends: Vec<String>,
    /// Structured dependencies, one per crate and feature.
    pub crate_deps: Vec<CrateDep>,
    pub recommended: Vec<String>,
    pub suggests: Vec<String>,
    pub provides: Vec<String>,
    pub breaks: Vec<String>,
    pub replaces: Vec<String>,
    pub conflicts: Vec<String>,
    pub summary: Description,
    pub description: Description,
    pub extra_lines: Vec<String>,
    /// The feature this package stands for; `None` for the base package.
    pub feature: Option<String>,
    /// The crate, for telling features apart.
    pub crate_name: Option<String>,
    /// Every feature of the crate (base package only).
    pub all_features: Vec<String>,
}

fn texts_of(items: &[&str]) -> (r: Vec<String>)
    ensures
        texts(r@) == items@.map_values(|s: &str| s@),
{
    let mut out: Vec<String> = Vec::new();
    let mut i: usize = 0;
    while i < items.len()
        invariant
            i <= items@.len(),
            texts(out@) == items@.subrange(0, i as int).map_values(|s: &str| s@),
        decreases items@.len() - i,
    {
        let ghost prev = out@;
        let s = copy_str(items[i]);
        out.push(s);
        assert(texts(out@) =~= texts(prev).push(s@));
        assert(items@.subrange(0, i + 1).map_values(|s: &str| s@) =~= items@.subrange(0, i as int).map_values(|s: &str| s@).push(items@[i as int]@));
        i = i + 1;
    }
    assert(items@.subrange(0, i as int) =~= items@);
    out
}

impl Package {
    /// The prefix of binary package names.
    pub fn pkg_prefix(testing: bool) -> (r: &'static str)
        ensures
            r@ == prefix_of(testing),
    {
        pkg_prefix(testing)
    }

    /// The package of a crate's binaries. With a name suffix it also
    /// provides the unsuffixed name at the same version.
    pub fn new_bin(basename: &str, name_suffix: Option<&str>, section: Option<&str>, summary: Description, description: Description) -> (r: Package)
        ensures
            r.name@ == pkgbase_of(basename@, opt_view(name_suffix)),
            texts(r.provides@) == (match name_suffix {
                Some(_) => seq![basename@ + " (= ${binary:Version})"@, "${cargo:Provides}"@],
                None => seq!["${cargo:Provides}"@],
            }),
            r.arch@ == "any"@,
            opt_view_string(r.section) == opt_view(section),
            texts(r.depends@) == seq!["${misc:Depends}"@, "${shlibs:Depends}"@, "${cargo:Depends}"@],
            texts(r.recommended@) == seq!["${cargo:Recommends}"@],
            texts(r.suggests@) == seq!["${cargo:Suggests}"@],
            texts(r.extra_lines@) == seq!["Built-Using: ${cargo:Built-Using}"@, "Static-Built-Using: ${cargo:Static-Built-Using}"@],
            r.summary == summary,
            r.description == description,
            r.feature.is_none(),
            r.crate_name.is_none(),
    {
        let mut name = copy_str(basename);
        let mut provides: Vec<String> = Vec::new();
        match name_suffix {
            Some(suf) => {
                push_text(&mut name, suf);
                let mut p = copy_str(basename);
                push_text(&mut p, " (= ${binary:Version})");
                provides.push(p);
            },
            None => {},
        }
        provides.push(copy_str("${cargo:Provides}"));
        let ghost pv = texts(provides@);
        assert(pv =~= (match name_suffix {
            Some(_) => seq![basename@ + " (= ${binary:Version})"@, "${cargo:Provides}"@],
            None => seq!["${cargo:Provides}"@],
        }));
        let section = match section {
            Some(s) => Some(copy_str(s)),
            None => None,
        };
        let depends = texts_of(&["${misc:Depends}", "${shlibs:Depends}", "${cargo:Depends}"]);
        let recommended = texts_of(&["${cargo:Recommends}"]);
        let suggests = texts_of(&["${cargo:Suggests}"]);
        let extra_lines = texts_of(&["Built-Using: ${cargo:Built-Using}", "Static-Built-Using: ${cargo:Static-Built-Using}"]);
        Package {
            name,
            arch: copy_str("any"),
            multi_arch: None,
            section,
            depends,
            crate_deps: Vec::new(),
            recommended,
            suggests,
            provides,
            breaks: Vec::new(),
            replaces: Vec::new(),
            conflicts: Vec::new(),
            summary,
            description,
            extra_lines,
            feature: None,
            crate_name: None,
            all_features: Vec::new(),
        }
    }

    /// An extra package with nothing but its name.
    pub fn new_extra(name: String) -> (r: Package)
        ensures
            r.name == name,
            r.arch@.len() == 0,
            r.multi_arch.is_none(),
            r.section.is_none(),
            r.depends@.len() == 0,
            r.crate_deps@.len() == 0,
            r.recommended@.len() == 0,
            r.suggests@.len() == 0,
            r.provides@.len() == 0,
            r.breaks@.len() == 0,
            r.replaces@.len() == 0,
            r.conflicts@.len() == 0,
            r.summary.prefix@.len() == 0 && r.summary.suffix@.len() == 0,
            r.description.prefix@.len() == 0 && r.description.suffix@.len() == 0,
            r.extra_lines@.len() == 0,
            r.feature.is_none(),
            r.crate_name.is_none(),
            r.all_features@.len() == 0,
    {
        Package {
            name,
            arch: String::new(),
            multi_arch: None,
            section: None,
            depends: Vec::new(),
            crate_deps: Vec::new(),
            recommended: Vec::new(),
            suggests: Vec::new(),
            provides: Vec::new(),
            breaks: Vec::new(),
            replaces: Vec::new(),
            conflicts: Vec::new(),
            summary: Description::new(String::new(), String::new()),
            description: Description::new(String::new(), String::new()),
            extra_lines: Vec::new(),
            feature: None,
            crate_name: None,
            all_features: Vec::new(),
        }
    }

    pub fn name(&self) -> (r: &str)
        ensures
            r@ == self.name@,
    {
        self.name.as_str()
    }

    /// A summary may hold at most 80 bytes.
    pub fn summary_check_len(&self) -> (r: Result<(), ()>)
        ensures
            r.is_ok() == (vstd::utf8::encode_utf8(self.summary.prefix@).len() as usize <= 80),
    {
        let p = self.summary.prefix.as_str();
        assert(p.spec_bytes() == vstd::utf8::encode_utf8(self.summary.prefix@));
        if p.len() <= 80 {
            Ok(())
        } else {
            Err(())
        }
    }
}

/// The version text of a lockfile pin: `major.minor.patch`, then `+build`
/// where there is build metadata, else `-pre` where there is a pre-release
/// tag.
pub open spec fn pin_text(v: VersionTuple) -> Seq<char> {
    let core = dec(v.0 as nat) + seq!['.'] + dec(v.1 as nat) + seq!['.'] + dec(v.2 as nat);
    if v.4.len() > 0 {
        core + seq!['+'] + v.4
    } else if v.3.len() > 0 {
        core + seq!['-'] + v.3
    } else {
        core
    }
}

/// The first pin for `name` among the first `i`.
pub open spec fn pin_for(pins: Seq<(Seq<char>, VersionTuple)>, name: Seq<char>, i: int) -> Option<VersionTuple>
    decreases i,
{
    if i <= 0 {
        None
    } else {
        match pin_for(pins, name, i - 1) {
            Some(v) => Some(v),
            None => if pins[i - 1].0 == name { Some(pins[i - 1].1) } else { None },
        }
    }
}

/// The pin for a crate: under its own name, else under its name with `-`
/// for `_`.
pub open spec fn pin_of(pins: Seq<(Seq<char>, VersionTuple)>, name: Seq<char>) -> Option<VersionTuple> {
    match pin_for(pins, name, pins.len() as int) {
        Some(v) => Some(v),
        None => pin_for(pins, replaced(name, '_', '-'), pins.len() as int),
    }
}

pub open spec fn pins_view(p: Seq<(String, Version)>) -> Seq<(Seq<char>, VersionTuple)> {
    p.map_values(|e: (String, Version)| (e.0@, e.1@))
}

/// The constraint a dependency gets from the lockfile, if any.
pub open spec fn pinned_version(pins: Seq<(Seq<char>, VersionTuple)>, d: CrateDep) -> Option<Seq<char>> {
    match pin_of(pins, d.crate_name@) {
        Some(v) => Some(">= "@ + pin_text(v)),
        None => opt_view_string(d.version),
    }
}

fn find_pin(pins: &Vec<(String, Version)>, name: &str) -> (r: Option<usize>)
    ensures
        match pin_for(pins_view(pins@), name@, pins@.len() as int) {
            Some(v) => r.is_some() && r.unwrap() < pins@.len() && pins@[r.unwrap() as int].1@ == v,
            None => r.is_none(),
        },
{
    let ghost pv = pins_view(pins@);
    let mut i: usize = 0;
    while i < pins.len()
        invariant
            pv == pins_view(pins@),
            i <= pins@.len(),
            pin_for(pv, name@, i as int) is None,
        decreases pins@.len() - i,
    {
        if same_str(pins[i].0.as_str(), name) {
            proof { lemma_pin_found(pv, name@, i as int + 1, pins@.len() as int); }
            return Some(i);
        }
        i = i + 1;
    }
    None
}

proof fn lemma_pin_found(pins: Seq<(Seq<char>, VersionTuple)>, name: Seq<char>, i: int, n: int)
    requires
        0 < i <= n <= pins.len(),
        pin_for(pins, name, i) is Some,
    ensures
        pin_for(pins, name, n) == pin_for(pins, name, i),
    decreases n - i,
{
    if i < n {
        lemma_pin_found(pins, name, i, n - 1);
    }
}

fn pin_string(v: &Version) -> (r: String)
    ensures
        r@ == ">= "@ + pin_text(v@),
{
    let mut s = String::new();
    push_text(&mut s, ">= ");
    push_decimal(&mut s, v.major);
    push_char(&mut s, '.');
    push_decimal(&mut s, v.minor);
    push_char(&mut s, '.');
    push_decimal(&mut s, v.patch);
    if v.build.as_str().unicode_len() > 0 {
        push_char(&mut s, '+');
        push_text(&mut s, v.build.as_str());
    } else if v.pre.as_str().unicode_len() > 0 {
        push_char(&mut s, '-');
        push_text(&mut s, v.pre.as_str());
    }
    assert(s@ =~= ">= "@ + pin_text(v@));
    s
}

impl Package {
    /// Pins each crate dependency found in the lockfile to `>= ` its locked
    /// version; the others keep their constraint.
    pub fn apply_lockfile_deps(&mut self, lockfile_deps: &Vec<(String, Version)>)
        ensures
            final(self).name == old(self).name,
            final(self).depends == old(self).depends,
            final(self).provides == old(self).provides,
            final(self).crate_deps@.len() == old(self).crate_deps@.len(),
            forall|i: int| 0 <= i < final(self).crate_deps@.len() ==> {
                &&& (#[trigger] final(self).crate_deps@[i]).crate_name == old(self).crate_deps@[i].crate_name
                &&& final(self).crate_deps@[i].feature == old(self).crate_deps@[i].feature
                &&& opt_view_string(final(self).crate_deps@[i].version)
                    == pinned_version(pins_view(lockfile_deps@), old(self).crate_deps@[i])
            },
    {
        let ghost old_deps = self.crate_deps@;
        let mut i: usize = 0;
        while i < self.crate_deps.len()
            invariant
                i <= self.crate_deps@.len(),
                self.crate_deps@.len() == old_deps.len(),
                self.name == old(self).name,
                self.depends == old(self).depends,
                self.provides == old(self).provides,
                old_deps == old(self).crate_deps@,
                forall|j: int| i <= j < self.crate_deps@.len() ==> self.crate_deps@[j] == old_deps[j],
                forall|j: int| 0 <= j < i ==> {
                    &&& (#[trigger] self.crate_deps@[j]).crate_name == old_deps[j].crate_name
                    &&& self.crate_deps@[j].feature == old_deps[j].feature
                    &&& opt_view_string(self.crate_deps@[j].version)
                        == pinned_version(pins_view(lockfile_deps@), old_deps[j])
                },
            decreases self.crate_deps@.len() - i,
        {
            let name_dash = replace_char(self.crate_deps[i].crate_name.as_str(), '_', '-');
            let found = match find_pin(lockfile_deps, self.crate_deps[i].crate_name.as_str()) {
                Some(k) => Some(k),
                None => find_pin(lockfile_deps, name_dash.as_str()),
            };
            match found {
                Some(k) => {
                    let d = &self.crate_deps[i];
                    let feature = match &d.feature {
                        Some(f) => Some(f.clone()),
                        None => None,
                    };
                    let updated = CrateDep {
                        crate_name: d.crate_name.clone(),
                        feature,
                        version: Some(pin_string(&lockfile_deps[k].1)),
                    };
                    self.crate_deps.set(i, updated);
                },
                None => {},
            }
            i = i + 1;
        }
    }
}

pub open spec fn opt_view_string(o: Option<String>) -> Option<Seq<char>> {
    match o {
        Some(s) => Some(s@),
        None => None,
    }
}

/// A test stanza for one feature of a crate.
#[derive(Clone, Debug)]
pub struct PkgTest {
    pub name: String,
    pub crate_name: String,
    pub feature: String,
    pub version: String,
    pub extra_test_args: Vec<String>,
    pub depends: Vec<String>,
    pub extra_restricts: Vec<String>,
    pub architecture: Vec<String>,
}

impl PkgTest {
    pub fn new(
        name: &str,
        crate_name: &str,
        feature: &str,
        version: &str,
        extra_test_args: &[&str],
        depends: &[String],
        extra_restricts: &[&str],
        architecture: &[&str],
    ) -> (r: PkgTest)
        ensures
            r.name@ == name@,
            r.crate_name@ == crate_name@,
            r.feature@ == feature@,
            r.version@ == version@,
            texts(r.extra_test_args@) == extra_test_args@.map_values(|s: &str| s@),
            texts(r.depends@) == texts(depends@),
            texts(r.extra_restricts@) == extra_restricts@.map_values(|s: &str| s@),
            texts(r.architecture@) == architecture@.map_values(|s: &str| s@),
    {
        let mut deps: Vec<String> = Vec::new();
        let mut i: usize = 0;
        while i < depends.len()
            invariant
                i <= depends@.len(),
                texts(deps@) == texts(depends@).subrange(0, i as int),
            decreases depends@.len() - i,
        {
            let ghost prev = deps@;
            let s = copy_str(depends[i].as_str());
            deps.push(s);
            assert(texts(deps@) =~= texts(prev).push(s@));
            assert(texts(depends@).subrange(0, i + 1) =~= texts(depends@).subrange(0, i as int).push(depends@[i as int]@));
            i = i + 1;
        }
        assert(texts(depends@).subrange(0, i as int) =~= texts(depends@));
        PkgTest {
            name: copy_str(name),
            crate_name: copy_str(crate_name),
            feature: copy_str(feature),
            version: copy_str(version),
            extra_test_args: texts_of(extra_test_args),
            depends: deps,
            extra_restricts: texts_of(extra_restricts),
            architecture: texts_of(architecture),
        }
    }
}

/// The upstream version in package form: `major.minor.patch`, then
/// `-pre` for a pre-release; build metadata is left out.
pub open spec fn upstream_version_of(v: VersionTuple) -> Seq<char> {
    let core = dec(v.0 as nat) + seq!['.'] + dec(v.1 as nat) + seq!['.'] + dec(v.2 as nat);
    if v.3.len() > 0 { core + seq!['-'] + v.3 } else { core }
}

pub fn deb_upstream_version(v: &Version) -> (r: String)
    ensures
        r@ == upstream_version_of(v@),
{
    let mut s = String::new();
    push_decimal(&mut s, v.major);
    push_char(&mut s, '.');
    push_decimal(&mut s, v.minor);
    push_char(&mut s, '.');
    push_decimal(&mut s, v.patch);
    if v.pre.as_str().unicode_len() > 0 {
        push_char(&mut s, '-');
        push_text(&mut s, v.pre.as_str());
    }
    s
}

/// Why no author could be named.
#[derive(Clone, Debug)]
pub enum AuthorError {
    NoName,
    NoEmail,
}

/// `name <email>` from the configured name and address.
pub fn get_deb_author(name: Option<String>, email: Option<String>) -> (r: Result<String, AuthorError>)
    ensures
        match (name, email) {
            (Some(n), Some(e)) => r.is_ok() && r.unwrap()@ == n@ + " <"@ + e@ + ">"@,
            (None, _) => r matches Err(AuthorError::NoName),
            (Some(_), None) => r matches Err(AuthorError::NoEmail),
        },
{
    let n = match name {
        Some(n) => n,
        None => return Err(AuthorError::NoName),
    };
    let e = match email {
        Some(e) => e,
        None => return Err(AuthorError::NoEmail),
    };
    let mut s = String::new();
    push_text(&mut s, n.as_str());
    push_text(&mut s, " <");
    push_text(&mut s, e.as_str());
    push_text(&mut s, ">");
    Ok(s)
}


/// Names, versions and paths of one crate's packaging.
#[derive(Clone, Debug)]
pub struct DebInfo {
    pub upstream_name: String,
    /// The package name without prefix or version suffix.
    pub base_package_name: String,
    /// `-compat` where packages carry the compatibility version.
    pub name_suffix: Option<String>,
    pub uscan_version_pattern: Option<String>,
    /// The package name without prefix.
    pub package_name: String,
    pub deb_upstream_version: String,
    pub takopack_version: String,
    pub package_source_dir: String,
    pub orig_tarball_path: String,
}

/// The package name without prefix: the base name, followed by
/// `-compat` where packages carry the compatibility version.
pub open spec fn package_name_of(upstream: Seq<char>, v: VersionTuple, semver_suffix: bool) -> Seq<char> {
    let base = lower_of(base_name_of(upstream));
    if semver_suffix { base + seq!['-'] + compat_text(v) } else { base }
}

impl DebInfo {
    /// The packaging names of crate `upstream_name` at `version`.
    pub fn new(testing: bool, upstream_name: &str, version: &Version, takopack_version: &str, semver_suffix: bool) -> (r: DebInfo)
        ensures
            r.upstream_name@ == upstream_name@,
            r.base_package_name@ == lower_of(base_name_of(upstream_name@)),
            r.package_name@ == package_name_of(upstream_name@, version@, semver_suffix),
            opt_view_string(r.name_suffix) == (if semver_suffix { Some(seq!['-'] + compat_text(version@)) } else { None }),
            opt_view_string(r.uscan_version_pattern) == (if semver_suffix {
                Some("[-_]?("@ + compat_text(version@) + "\\.\\d[\\-+\\.:\\~\\da-zA-Z]*)"@)
            } else {
                None
            }),
            r.deb_upstream_version@ == upstream_version_of(version@),
            r.takopack_version@ == takopack_version@,
            r.package_source_dir@ == prefix_of(testing) + seq!['-'] + package_name_of(upstream_name@, version@, semver_suffix)
                + seq!['-'] + upstream_version_of(version@),
            r.orig_tarball_path@ == prefix_of(testing) + seq!['-'] + package_name_of(upstream_name@, version@, semver_suffix)
                + seq!['_'] + upstream_version_of(version@) + ".orig.tar.gz"@,
    {
        let name_dashed = base_deb_name(upstream_name);
        let base_package_name = lowercase(name_dashed.as_str());
        let deb_upstream = deb_upstream_version(version);
        let (name_suffix, uscan, package_name) = if semver_suffix {
            let semver = calculate_compat_version(version);
            let mut suffix = String::new();
            push_char(&mut suffix, '-');
            push_text(&mut suffix, semver.as_str());
            let mut uscan = copy_str("[-_]?(");
            push_text(&mut uscan, semver.as_str());
            push_text(&mut uscan, "\\.\\d[\\-+\\.:\\~\\da-zA-Z]*)");
            let mut pkgname = copy_str(base_package_name.as_str());
            push_text(&mut pkgname, suffix.as_str());
            (Some(suffix), Some(uscan), pkgname)
        } else {
            (None, None, copy_str(base_package_name.as_str()))
        };
        let mut source_dir = copy_str(pkg_prefix(testing));
        push_char(&mut source_dir, '-');
        push_text(&mut source_dir, package_name.as_str());
        push_char(&mut source_dir, '-');
        push_text(&mut source_dir, deb_upstream.as_str());
        let mut tarball = copy_str(pkg_prefix(testing));
        push_char(&mut tarball, '-');
        push_text(&mut tarball, package_name.as_str());
        push_char(&mut tarball, '_');
        push_text(&mut tarball, deb_upstream.as_str());
        push_text(&mut tarball, ".orig.tar.gz");
        DebInfo {
            upstream_name: copy_str(upstream_name),
            base_package_name,
            name_suffix,
            uscan_version_pattern: uscan,
            package_name,
            deb_upstream_version: deb_upstream,
            takopack_version: copy_str(takopack_version),
            package_source_dir: source_dir,
            orig_tarball_path: tarball,
        }
    }

    pub fn upstream_name(&self) -> (r: &str)
        ensures
            r@ == self.upstream_name@,
    {
        self.upstream_name.as_str()
    }

    pub fn base_package_name(&self) -> (r: &str)
        ensures
            r@ == self.base_package_name@,
    {
        self.base_package_name.as_str()
    }

    pub fn name_suffix(&self) -> (r: Option<&str>)
        ensures
            opt_view(r) == opt_view_string(self.name_suffix),
    {
        match &self.name_suffix {
            Some(s) => Some(s.as_str()),
            None => None,
        }
    }

    pub fn package_name(&self) -> (r: &str)
        ensures
            r@ == self.package_name@,
    {
        self.package_name.as_str()
    }

    pub fn deb_upstream_version(&self) -> (r: &str)
        ensures
            r@ == self.deb_upstream_version@,
    {
        self.deb_upstream_version.as_str()
    }

    pub fn takopack_version(&self) -> (r: &str)
        ensures
            r@ == self.takopack_version@,
    {
        self.takopack_version.as_str()
    }

    pub fn package_source_dir(&self) -> (r: &str)
        ensures
            r@ == self.package_source_dir@,
    {
        self.package_source_dir.as_str()
    }

    pub fn orig_tarball_path(&self) -> (r: &str)
        ensures
            r@ == self.orig_tarball_path@,
    {
        self.orig_tarball_path.as_str()
    }
}

fn extend_texts(dst: &mut Vec<String>, src: &Vec<String>)
    ensures
        texts(final(dst)@) == texts(old(dst)@) + texts(src@),
{
    let ghost start = texts(dst@);
    let mut i: usize = 0;
    while i < src.len()
        invariant
            i <= src@.len(),
            texts(dst@) == start + texts(src@).subrange(0, i as int),
        decreases src@.len() - i,
    {
        let s = copy_str(src[i].as_str());
        let ghost prev = dst@;
        dst.push(s);
        assert(texts(dst@) =~= texts(prev).push(s@));
        assert(texts(src@).subrange(0, i + 1) =~= texts(src@).subrange(0, i as int).push(src@[i as int]@));
        i = i + 1;
    }
    assert(texts(src@).subrange(0, i as int) =~= texts(src@));
}

fn extend_opt(dst: &mut Vec<String>, src: &Option<Vec<String>>)
    ensures
        texts(final(dst)@) == texts(old(dst)@) + opt_texts(*src),
{
    match src {
        Some(v) => extend_texts(dst, v),
        None => {
            assert(texts(dst@) =~= texts(dst@) + Seq::<Seq<char>>::empty());
        },
    }
}

/// The texts of `s` that `ex` does not hold, in order.
pub open spec fn without(s: Seq<Seq<char>>, ex: Seq<Seq<char>>) -> Seq<Seq<char>>
    decreases s.len(),
{
    if s.len() == 0 {
        seq![]
    } else if ex.contains(s.last()) {
        without(s.drop_last(), ex)
    } else {
        without(s.drop_last(), ex).push(s.last())
    }
}

fn contains_text(v: &Vec<String>, x: &String) -> (r: bool)
    ensures
        r == texts(v@).contains(x@),
{
    let mut i: usize = 0;
    while i < v.len()
        invariant
            i <= v@.len(),
            forall|j: int| 0 <= j < i ==> v@[j]@ != x@,
        decreases v@.len() - i,
    {
        if v[i] == *x {
            assert(texts(v@)[i as int] == x@);
            return true;
        }
        i = i + 1;
    }
    false
}

fn retain_without(v: &mut Vec<String>, ex: &Vec<String>)
    ensures
        texts(final(v)@) == without(texts(old(v)@), texts(ex@)),
{
    let ghost s = texts(v@);
    let mut out: Vec<String> = Vec::new();
    let mut i: usize = 0;
    assert(texts(out@) =~= seq![]);
    while i < v.len()
        invariant
            s == texts(v@),
            i <= v@.len(),
            texts(out@) == without(s.subrange(0, i as int), texts(ex@)),
        decreases v@.len() - i,
    {
        assert(s.subrange(0, i + 1).drop_last() =~= s.subrange(0, i as int));
        assert(s.subrange(0, i + 1).last() == v@[i as int]@);
        if !contains_text(ex, &v[i]) {
            let c = copy_str(v[i].as_str());
            let ghost prev = out@;
            out.push(c);
            assert(texts(out@) =~= texts(prev).push(c@));
        }
        i = i + 1;
    }
    assert(s.subrange(0, i as int) =~= s);
    *v = out;
}

/// A setting of the source package, where there is one.
pub open spec fn source_text(c: Config, pick: spec_fn(SourceOverride) -> Option<String>) -> Option<Seq<char>> {
    match c.source {
        Some(so) => opt_view_string(pick(so)),
        None => None,
    }
}

/// A list setting of the source package, empty where there is none.
pub open spec fn source_list(c: Config, pick: spec_fn(SourceOverride) -> Option<Vec<String>>) -> Seq<Seq<char>> {
    match c.source {
        Some(so) => opt_texts(pick(so)),
        None => seq![],
    }
}

/// A text that a setting replaces where it is set.
pub open spec fn overridden(old: Seq<char>, setting: Option<Seq<char>>) -> Seq<char> {
    match setting {
        Some(v) => v,
        None => old,
    }
}

fn override_text(field: &mut String, setting: &Option<String>)
    ensures
        final(field)@ == overridden(old(field)@, opt_view_string(*setting)),
{
    match setting {
        Some(v) => {
            *field = copy_str(v.as_str());
        },
        None => {},
    }
}

impl Description {
    /// A description for one package replaces the text and drops the suffix;
    /// else a description for all packages replaces the text.
    pub fn apply_overrides(&mut self, global: &Option<String>, per_package: &Option<String>)
        ensures
            match *per_package {
                Some(p) => final(self).prefix@ == p@ && final(self).suffix@.len() == 0,
                None => final(self).suffix == old(self).suffix
                    && final(self).prefix@ == overridden(old(self).prefix@, opt_view_string(*global)),
            },
    {
        match per_package {
            Some(p) => {
                self.prefix = copy_str(p.as_str());
                self.suffix = String::new();
            },
            None => override_text(&mut self.prefix, global),
        }
    }
}

impl Source {
    /// Applies the source settings: section, policy version, homepage and
    /// version control locations are replaced where set; the build
    /// dependencies get the configured ones appended and then lose every
    /// excluded one.
    pub fn apply_overrides(&mut self, config: &Config)
        ensures
            final(self).section@ == overridden(old(self).section@, source_text(*config, |so: SourceOverride| so.section)),
            final(self).standards@ == overridden(old(self).standards@, source_text(*config, |so: SourceOverride| so.policy)),
            final(self).homepage@ == overridden(old(self).homepage@, source_text(*config, |so: SourceOverride| so.homepage)),
            final(self).vcs_git@ == overridden(old(self).vcs_git@, source_text(*config, |so: SourceOverride| so.vcs_git)),
            final(self).vcs_browser@ == overridden(old(self).vcs_browser@, source_text(*config, |so: SourceOverride| so.vcs_browser)),
            texts(final(self).build_deps.build_depends@) == without(
                texts(old(self).build_deps.build_depends@) + source_list(*config, |so: SourceOverride| so.build_depends),
                source_list(*config, |so: SourceOverride| so.build_depends_excludes),
            ),
            texts(final(self).build_deps.build_depends_arch@) == without(
                texts(old(self).build_deps.build_depends_arch@) + source_list(*config, |so: SourceOverride| so.build_depends_arch),
                source_list(*config, |so: SourceOverride| so.build_depends_excludes),
            ),
            texts(final(self).build_deps.build_depends_indep@) == without(
                texts(old(self).build_deps.build_depends_indep@) + source_list(*config, |so: SourceOverride| so.build_depends_indep),
                source_list(*config, |so: SourceOverride| so.build_depends_excludes),
            ),
            final(self).name == old(self).name,
            final(self).version == old(self).version,
    {
        let none: Option<String> = None;
        let no_list: Option<Vec<String>> = None;
        let so = match &config.source {
            Some(so) => so,
            None => {
                let mut ex: Vec<String> = Vec::new();
                assert(texts(ex@) =~= seq![]);
                extend_opt(&mut self.build_deps.build_depends, &no_list);
                extend_opt(&mut self.build_deps.build_depends_arch, &no_list);
                extend_opt(&mut self.build_deps.build_depends_indep, &no_list);
                retain_without(&mut self.build_deps.build_depends, &ex);
                retain_without(&mut self.build_deps.build_depends_arch, &ex);
                retain_without(&mut self.build_deps.build_depends_indep, &ex);
                override_text(&mut self.section, &none);
                return;
            },
        };
        override_text(&mut self.section, &so.section);
        override_text(&mut self.standards, &so.policy);
        extend_opt(&mut self.build_deps.build_depends, &so.build_depends);
        extend_opt(&mut self.build_deps.build_depends_arch, &so.build_depends_arch);
        extend_opt(&mut self.build_deps.build_depends_indep, &so.build_depends_indep);
        let mut ex: Vec<String> = Vec::new();
        extend_opt(&mut ex, &so.build_depends_excludes);
        assert(texts(ex@) =~= opt_texts(so.build_depends_excludes));
        retain_without(&mut self.build_deps.build_depends, &ex);
        retain_without(&mut self.build_deps.build_depends_arch, &ex);
        retain_without(&mut self.build_deps.build_depends_indep, &ex);
        override_text(&mut self.homepage, &so.homepage);
        override_text(&mut self.vcs_git, &so.vcs_git);
        override_text(&mut self.vcs_browser, &so.vcs_browser);
    }
}

/// The keys whose settings a package takes: its own, then those of the
/// features it provides.
pub open spec fn provided_keys(key: PackageKey, f_provides: Seq<String>) -> Seq<(u8, Seq<char>)> {
    seq![key_view(key)] + texts(f_provides).map_values(|n: Seq<char>| feature_key(n))
}

/// A setting of the package with key `key`, where there is one.
pub open spec fn package_text(c: Config, key: PackageKey, pick: spec_fn(PackageOverride) -> Option<String>) -> Option<Seq<char>> {
    match override_of(c, key_view(key)) {
        Some(o) => opt_view_string(pick(o)),
        None => None,
    }
}

impl Package {
    /// Applies the settings of the package with key `key`: section,
    /// architecture and multi-arch are replaced where set, summary and
    /// description as `Description::apply_overrides` says, extra lines are
    /// appended, and each relation list gets the configured values of the
    /// package and of every feature it provides appended.
    pub fn apply_overrides(&mut self, config: &Config, key: &PackageKey, f_provides: &Vec<String>)
        ensures
            opt_view_string(final(self).section) == match package_text(*config, *key, |o: PackageOverride| o.section) {
                Some(s) => Some(s),
                None => opt_view_string(old(self).section),
            },
            opt_view_string(final(self).multi_arch) == match package_text(*config, *key, |o: PackageOverride| o.multi_arch) {
                Some(s) => Some(s),
                None => opt_view_string(old(self).multi_arch),
            },
            final(self).arch@ == match override_of(*config, key_view(*key)) {
                Some(o) => match o.architecture {
                    Some(a) => join_with(texts(a@), ' '),
                    None => old(self).arch@,
                },
                None => old(self).arch@,
            },
            texts(final(self).depends@) == texts(old(self).depends@)
                + fields_for(*config, PackageField::Depends, provided_keys(*key, f_provides@)),
            texts(final(self).recommended@) == texts(old(self).recommended@)
                + fields_for(*config, PackageField::Recommends, provided_keys(*key, f_provides@)),
            texts(final(self).suggests@) == texts(old(self).suggests@)
                + fields_for(*config, PackageField::Suggests, provided_keys(*key, f_provides@)),
            texts(final(self).provides@) == texts(old(self).provides@)
                + fields_for(*config, PackageField::Provides, provided_keys(*key, f_provides@)),
            texts(final(self).breaks@) == texts(old(self).breaks@)
                + fields_for(*config, PackageField::Breaks, provided_keys(*key, f_provides@)),
            texts(final(self).replaces@) == texts(old(self).replaces@)
                + fields_for(*config, PackageField::Replaces, provided_keys(*key, f_provides@)),
            texts(final(self).conflicts@) == texts(old(self).conflicts@)
                + fields_for(*config, PackageField::Conflicts, provided_keys(*key, f_provides@)),
            texts(final(self).extra_lines@) == texts(old(self).extra_lines@) + match override_of(*config, key_view(*key)) {
                Some(o) => opt_texts(o.extra_lines),
                None => seq![],
            },
            match package_text(*config, *key, |o: PackageOverride| o.summary) {
                Some(p) => final(self).summary.prefix@ == p && final(self).summary.suffix@.len() == 0,
                None => final(self).summary.suffix == old(self).summary.suffix
                    && final(self).summary.prefix@ == overridden(old(self).summary.prefix@, opt_view_string(config.summary)),
            },
            match package_text(*config, *key, |o: PackageOverride| o.description) {
                Some(p) => final(self).description.prefix@ == p && final(self).description.suffix@.len() == 0,
                None => final(self).description.suffix == old(self).description.suffix
                    && final(self).description.prefix@ == overridden(old(self).description.prefix@, opt_view_string(config.description)),
            },
            final(self).name == old(self).name,
    {
        let o = config.package(key);
        let none: Option<String> = None;
        let (section, summary, description, multi_arch) = match o {
            Some(p) => (&p.section, &p.summary, &p.description, &p.multi_arch),
            None => (&none, &none, &none, &none),
        };
        match section {
            Some(s) => self.section = Some(copy_str(s.as_str())),
            None => {},
        }
        self.summary.apply_overrides(&config.summary, summary);
        self.description.apply_overrides(&config.description, description);
        let d = package_field_for_feature(config, PackageField::Depends, key, f_provides);
        extend_texts(&mut self.depends, &d);
        let d = package_field_for_feature(config, PackageField::Recommends, key, f_provides);
        extend_texts(&mut self.recommended, &d);
        let d = package_field_for_feature(config, PackageField::Suggests, key, f_provides);
        extend_texts(&mut self.suggests, &d);
        let d = package_field_for_feature(config, PackageField::Provides, key, f_provides);
        extend_texts(&mut self.provides, &d);
        let d = package_field_for_feature(config, PackageField::Breaks, key, f_provides);
        extend_texts(&mut self.breaks, &d);
        let d = package_field_for_feature(config, PackageField::Replaces, key, f_provides);
        extend_texts(&mut self.replaces, &d);
        let d = package_field_for_feature(config, PackageField::Conflicts, key, f_provides);
        extend_texts(&mut self.conflicts, &d);
        match o {
            Some(p) => {
                extend_opt(&mut self.extra_lines, &p.extra_lines);
                match &p.architecture {
                    Some(a) => {
                        let n = a.len();
                        self.arch = crate::text::join_texts(a, n, ' ');
                        assert(a@.subrange(0, n as int) =~= a@);
                    },
                    None => {},
                }
            },
            None => {
                assert(texts(self.extra_lines@) =~= texts(self.extra_lines@) + Seq::<Seq<char>>::empty());
            },
        }
        match multi_arch {
            Some(m) => self.multi_arch = Some(copy_str(m.as_str())),
            None => {},
        }
    }
}

/// The package of feature `f` of package base `p`: the base package for the
/// empty feature.
pub open spec fn feat_name(testing: bool, p: Seq<char>, f: Seq<char>) -> Seq<char> {
    if f.len() == 0 { deb_name_of(testing, p) } else { deb_name_of(testing, p) + seq!['-'] + base_name_of(f) }
}

pub open spec fn names_of(testing: bool, p: Seq<char>, fs: Seq<Seq<char>>) -> Seq<Seq<char>> {
    fs.map_values(|f: Seq<char>| feat_name(testing, p, f))
}

/// The features a feature package depends on: its own, and the base
/// package first where a feature does not list it itself.
pub open spec fn internal_feats(f_deps: Seq<Seq<char>>, feature: Option<Seq<char>>) -> Seq<Seq<char>> {
    (if feature is Some && !f_deps.contains(Seq::<char>::empty()) { seq![Seq::<char>::empty()] } else { seq![] }) + f_deps
}

/// The first index at or after `from` of `'-'` or `')'`.
pub open spec fn version_end(s: Seq<char>, from: int) -> Option<int>
    decreases s.len() - from,
{
    if from < 0 || from >= s.len() {
        None
    } else if s[from] == '-' || s[from] == ')' {
        Some(from)
    } else {
        version_end(s, from + 1)
    }
}

/// The package name and lower bound of a rendered relation such as
/// `rust-serde-1+default-dev (>= 1.0.228-~~)`; `None` for a relation that
/// gives an upper bound alone.
pub open spec fn relation_parts(o: Seq<char>) -> Option<(Seq<char>, Option<Seq<char>>)> {
    match text_at(o, " ("@, 0) {
        None => Some((trim(o), None)),
        Some(i) => {
            let pkg = trim(o.subrange(0, i));
            let vp = o.subrange(i + 2, o.len() as int);
            match text_at(vp, ">= "@, 0) {
                Some(st) => {
                    let vs = vp.subrange(st + 3, vp.len() as int);
                    Some((pkg, match version_end(vs, 0) {
                        Some(e) => Some(">= "@ + vs.subrange(0, e)),
                        None => None,
                    }))
                },
                None => if has_text(vp, "<< "@) { None } else { Some((pkg, None)) },
            }
        },
    }
}

/// The first index at or after `from` of a dependency whose name equals
/// `norm` with `-` read as `_`.
pub open spec fn ori_match(ori: Seq<Dependency>, norm: Seq<char>, from: int) -> Option<int>
    decreases ori.len() - from,
{
    if from < 0 || from >= ori.len() {
        None
    } else if replaced(ori[from].name@, '-', '_') == norm {
        Some(from)
    } else {
        ori_match(ori, norm, from + 1)
    }
}

/// The lower bound a requirement gives, as a `>=` constraint.
pub open spec fn req_bound(d: Dependency) -> Option<Seq<char>> {
    let rs = req_text_of(d.comparators@);
    if rs.len() > 0 && rs != "*"@ {
        match lower_bound_of(rs) {
            Some(v) => Some(">= "@ + v),
            None => None,
        }
    } else {
        None
    }
}

/// The crate, feature and constraint a rendered relation stands for: the
/// crate named as the manifest spells it where the manifest lists it, the
/// constraint from the relation or else from the manifest's requirement.
/// `None` for relations that name no crate, give only an upper bound, or
/// name the crate being packaged.
pub open spec fn crate_entry(o: Seq<char>, ori: Seq<Dependency>, basename: Seq<char>) -> Option<(Seq<char>, Option<Seq<char>>, Option<Seq<char>>)> {
    match relation_parts(o) {
        None => None,
        Some((pkg, vc)) => match simple_dep(pkg) {
            None => None,
            Some((cname, feat)) => {
                let name = match ori_match(ori, replaced(cname, '-', '_'), 0) {
                    Some(k) => ori[k].name@,
                    None => cname,
                };
                let version = match ori_match(ori, replaced(cname, '-', '_'), 0) {
                    Some(k) => if vc is None { req_bound(ori[k]) } else { vc },
                    None => vc,
                };
                if replaced(name, '_', '-') == replaced(basename, '_', '-') { None } else { Some((name, feat, version)) }
            },
        },
    }
}

/// A crate and feature with the constraints collected for it.
pub type DepGroup = (Seq<char>, Option<Seq<char>>, Seq<Seq<char>>);

pub open spec fn group_index(gs: Seq<DepGroup>, name: Seq<char>, feat: Option<Seq<char>>, from: int) -> Option<int>
    decreases gs.len() - from,
{
    if from < 0 || from >= gs.len() {
        None
    } else if gs[from].0 == name && gs[from].1 == feat {
        Some(from)
    } else {
        group_index(gs, name, feat, from + 1)
    }
}

pub open spec fn opt_seq(v: Option<Seq<char>>) -> Seq<Seq<char>> {
    match v { Some(x) => seq![x], None => seq![] }
}

/// The groups after the relations among the first `i`: one group per crate
/// and feature, in order of first appearance.
pub open spec fn groups_of(os: Seq<Seq<char>>, ori: Seq<Dependency>, basename: Seq<char>, i: int) -> Seq<DepGroup>
    decreases i,
{
    if i <= 0 {
        seq![]
    } else {
        let gs = groups_of(os, ori, basename, i - 1);
        match crate_entry(os[i - 1], ori, basename) {
            None => gs,
            Some(e) => match group_index(gs, e.0, e.1, 0) {
                Some(k) => gs.update(k, (gs[k].0, gs[k].1, gs[k].2 + opt_seq(e.2))),
                None => gs.push((e.0, e.1, opt_seq(e.2))),
            },
        }
    }
}

/// The lower bounds among the first `i` constraints.
pub open spec fn lower_parts(vs: Seq<Seq<char>>, i: int) -> Seq<Seq<char>>
    decreases i,
{
    if i <= 0 {
        seq![]
    } else if vs[i - 1].len() >= 3 && vs[i - 1].subrange(0, 3) == ">= "@ {
        lower_parts(vs, i - 1).push(trim(vs[i - 1].subrange(3, vs[i - 1].len() as int)))
    } else {
        lower_parts(vs, i - 1)
    }
}

/// The numbers of a version text's dot-separated parts, parts that are no
/// number left out.
pub open spec fn numeric_key(v: Seq<char>, i: int) -> Seq<u64>
    decreases i,
{
    if i <= 0 {
        seq![]
    } else {
        match u64_of(pieces(v, '.')[i - 1]) {
            Some(x) => numeric_key(v, i - 1).push(x),
            None => numeric_key(v, i - 1),
        }
    }
}

pub open spec fn key_of_version(v: Seq<char>) -> Seq<u64> {
    numeric_key(v, pieces(v, '.').len() as int)
}

/// `a` comes before `b` in lexicographic order of numbers.
pub open spec fn key_lt(a: Seq<u64>, b: Seq<u64>) -> bool
    decreases a.len(),
{
    if a.len() == 0 {
        b.len() > 0
    } else if b.len() == 0 {
        false
    } else if a[0] != b[0] {
        a[0] < b[0]
    } else {
        key_lt(a.drop_first(), b.drop_first())
    }
}

/// The highest of the first `i` bounds, the last one among equals.
pub open spec fn highest_bound(ls: Seq<Seq<char>>, i: int) -> Seq<char>
    decreases i,
{
    if i <= 1 {
        ls[0]
    } else if key_lt(key_of_version(ls[i - 1]), key_of_version(highest_bound(ls, i - 1))) {
        highest_bound(ls, i - 1)
    } else {
        ls[i - 1]
    }
}

/// The constraint of a group: the highest of its lower bounds.
pub open spec fn merged_bound(vs: Seq<Seq<char>>) -> Option<Seq<char>> {
    let ls = lower_parts(vs, vs.len() as int);
    if ls.len() == 0 { None } else { Some(">= "@ + highest_bound(ls, ls.len() as int)) }
}

/// The crate dependencies of a package as plain values.
pub open spec fn crate_dep_views(s: Seq<CrateDep>) -> Seq<(Seq<char>, Option<Seq<char>>, Option<Seq<char>>)> {
    s.map_values(|d: CrateDep| (d.crate_name@, opt_view_string(d.feature), opt_view_string(d.version)))
}

/// The crate dependencies of a package: one on the crate itself per
/// internal feature, then one per crate and feature that the relations name,
/// with the highest lower bound given for it.
pub open spec fn crate_deps_of(
    f_deps: Seq<Seq<char>>, feature: Option<Seq<char>>, os: Seq<Seq<char>>, ori: Seq<Dependency>, basename: Seq<char>,
) -> Seq<(Seq<char>, Option<Seq<char>>, Option<Seq<char>>)> {
    internal_feats(f_deps, feature).map_values(|f: Seq<char>|
        ("%{pkgname}"@, if f.len() == 0 { None::<Seq<char>> } else { Some(f) }, None::<Seq<char>>))
    + groups_of(os, ori, basename, os.len() as int).map_values(|g: DepGroup| (g.0, g.1, merged_bound(g.2)))
}

fn first_end(s: &str) -> (r: Option<usize>)
    ensures
        match version_end(s@, 0) {
            Some(i) => r.is_some() && r.unwrap() as int == i && i < s@.len(),
            None => r.is_none(),
        },
{
    proof { lemma_version_end(s@, 0); }
    let n = s.unicode_len();
    let mut i: usize = 0;
    while i < n
        invariant
            n == s@.len(),
            i <= n,
            version_end(s@, 0) == version_end(s@, i as int),
        decreases n - i,
    {
        let c = s.get_char(i);
        if c == '-' || c == ')' {
            return Some(i);
        }
        i = i + 1;
    }
    None
}

proof fn lemma_version_end(s: Seq<char>, from: int)
    requires
        0 <= from,
    ensures
        match version_end(s, from) {
            Some(i) => from <= i < s.len(),
            None => true,
        },
    decreases s.len() - from,
{
    if from < s.len() && !(s[from] == '-' || s[from] == ')') {
        lemma_version_end(s, from + 1);
    }
}

fn relation_parts_exec(o: &str) -> (r: Option<(String, Option<String>)>)
    ensures
        match relation_parts(o@) {
            None => r.is_none(),
            Some((p, v)) => r.is_some() && r.unwrap().0@ == p && opt_view_string(r.unwrap().1) == v,
        },
{
    proof {
        reveal_strlit(" (");
        reveal_strlit(">= ");
        reveal_strlit("<< ");
    }
    let n = o.unicode_len();
    match find_text(o, " (") {
        None => Some((trimmed(o), None)),
        Some(i) => {
            let head = copy_str(o.substring_char(0, i));
            let pkg = trimmed(head.as_str());
            let vp = copy_str(o.substring_char(i + 2, n));
            match find_text(vp.as_str(), ">= ") {
                Some(st) => {
                    let vs = copy_str(vp.as_str().substring_char(st + 3, vp.as_str().unicode_len()));
                    let v = match first_end(vs.as_str()) {
                        Some(e) => {
                            let mut t = copy_str(">= ");
                            push_text(&mut t, vs.as_str().substring_char(0, e));
                            Some(t)
                        },
                        None => None,
                    };
                    Some((pkg, v))
                },
                None => if crate::text::contains_text(vp.as_str(), "<< ") { None } else { Some((pkg, None)) },
            }
        },
    }
}

fn ori_match_exec(ori: &Vec<Dependency>, norm: &String) -> (r: Option<usize>)
    ensures
        match ori_match(ori@, norm@, 0) {
            Some(k) => r.is_some() && r.unwrap() as int == k && k < ori@.len(),
            None => r.is_none(),
        },
{
    proof { lemma_ori_match(ori@, norm@, 0); }
    let mut i: usize = 0;
    while i < ori.len()
        invariant
            i <= ori@.len(),
            ori_match(ori@, norm@, 0) == ori_match(ori@, norm@, i as int),
        decreases ori@.len() - i,
    {
        let d = replace_char(ori[i].name.as_str(), '-', '_');
        if d == *norm {
            return Some(i);
        }
        i = i + 1;
    }
    None
}

proof fn lemma_ori_match(ori: Seq<Dependency>, norm: Seq<char>, from: int)
    requires
        0 <= from,
    ensures
        match ori_match(ori, norm, from) {
            Some(k) => from <= k < ori.len(),
            None => true,
        },
    decreases ori.len() - from,
{
    if from < ori.len() && replaced(ori[from].name@, '-', '_') != norm {
        lemma_ori_match(ori, norm, from + 1);
    }
}

fn req_bound_exec(d: &Dependency) -> (r: Option<String>)
    ensures
        opt_view_string(r) == req_bound(*d),
{
    proof { reveal_strlit("*"); }
    let rs = req_text(d);
    if rs.as_str().unicode_len() > 0 && !same_str(rs.as_str(), "*") {
        match parse_version_req_to_lower_bound(rs.as_str()) {
            Some(v) => {
                let mut t = copy_str(">= ");
                push_text(&mut t, v.as_str());
                Some(t)
            },
            None => None,
        }
    } else {
        None
    }
}

fn crate_entry_exec(o: &str, ori: &Vec<Dependency>, basename: &str) -> (r: Option<(String, Option<String>, Option<String>)>)
    ensures
        match crate_entry(o@, ori@, basename@) {
            None => r.is_none(),
            Some(e) => r.is_some() && r.unwrap().0@ == e.0 && opt_view_string(r.unwrap().1) == e.1
                && opt_view_string(r.unwrap().2) == e.2,
        },
{
    let (pkg, vc) = match relation_parts_exec(o) {
        None => return None,
        Some(x) => x,
    };
    let dep = match parse_deb_package_to_crate_dep(pkg.as_str()) {
        None => return None,
        Some(d) => d,
    };
    let norm = replace_char(dep.crate_name.as_str(), '-', '_');
    let (name, version) = match ori_match_exec(ori, &norm) {
        Some(k) => {
            let v = match vc {
                None => req_bound_exec(&ori[k]),
                Some(x) => Some(x),
            };
            (copy_str(ori[k].name.as_str()), v)
        },
        None => (copy_str(dep.crate_name.as_str()), vc),
    };
    let a = replace_char(name.as_str(), '_', '-');
    let b = replace_char(basename, '_', '-');
    if a == b {
        None
    } else {
        Some((name, dep.feature, version))
    }
}

fn highest_exec(ls: &Vec<String>) -> (r: String)
    requires
        ls@.len() > 0,
    ensures
        r@ == highest_bound(texts(ls@), ls@.len() as int),
{
    let mut best = copy_str(ls[0].as_str());
    let mut best_key = key_exec(ls[0].as_str());
    let mut i: usize = 1;
    while i < ls.len()
        invariant
            1 <= i <= ls@.len(),
            best@ == highest_bound(texts(ls@), i as int),
            best_key@ == key_of_version(best@),
        decreases ls@.len() - i,
    {
        let k = key_exec(ls[i].as_str());
        assert(texts(ls@)[i as int] == ls@[i as int]@);
        if !key_lt_exec(&k, &best_key) {
            best = copy_str(ls[i].as_str());
            best_key = k;
        }
        i = i + 1;
    }
    best
}

fn key_exec(v: &str) -> (r: Vec<u64>)
    ensures
        r@ == key_of_version(v@),
{
    let parts = crate::text::split_at_char(v, '.');
    let ghost pv = parts@.map_values(|w: String| w@);
    let mut out: Vec<u64> = Vec::new();
    let mut i: usize = 0;
    while i < parts.len()
        invariant
            pv == parts@.map_values(|w: String| w@),
            pv == pieces(v@, '.'),
            i <= parts@.len(),
            out@ == numeric_key(v@, i as int),
        decreases parts@.len() - i,
    {
        assert(pv[i as int] == parts@[i as int]@);
        match parse_u64(parts[i].as_str()) {
            Some(x) => out.push(x),
            None => {},
        }
        i = i + 1;
    }
    out
}

fn key_lt_exec(a: &Vec<u64>, b: &Vec<u64>) -> (r: bool)
    ensures
        r == key_lt(a@, b@),
{
    let mut i: usize = 0;
    assert(a@.subrange(0, a@.len() as int) =~= a@);
    assert(b@.subrange(0, b@.len() as int) =~= b@);
    while i < a.len() && i < b.len()
        invariant
            i <= a@.len(),
            i <= b@.len(),
            key_lt(a@, b@) == key_lt(a@.subrange(i as int, a@.len() as int), b@.subrange(i as int, b@.len() as int)),
        decreases a@.len() - i,
    {
        assert(a@.subrange(i as int, a@.len() as int)[0] == a@[i as int]);
        assert(b@.subrange(i as int, b@.len() as int)[0] == b@[i as int]);
        if a[i] != b[i] {
            return a[i] < b[i];
        }
        assert(a@.subrange(i as int, a@.len() as int).drop_first() =~= a@.subrange(i + 1, a@.len() as int));
        assert(b@.subrange(i as int, b@.len() as int).drop_first() =~= b@.subrange(i + 1, b@.len() as int));
        i = i + 1;
    }
    i == a.len() && i < b.len()
}

fn merged_exec(vs: &Vec<String>) -> (r: Option<String>)
    ensures
        opt_view_string(r) == merged_bound(texts(vs@)),
{
    proof { reveal_strlit(">= "); }
    let mut ls: Vec<String> = Vec::new();
    let mut i: usize = 0;
    while i < vs.len()
        invariant
            i <= vs@.len(),
            texts(ls@) == lower_parts(texts(vs@), i as int),
        decreases vs@.len() - i,
    {
        let v = vs[i].as_str();
        assert(texts(vs@)[i as int] == v@);
        proof { reveal_strlit(">= "); }
        if starts_with(v, ">= ") {
            let rest = copy_str(v.substring_char(3, v.unicode_len()));
            let t = trimmed(rest.as_str());
            let ghost prev = texts(ls@);
            ls.push(t);
            assert(texts(ls@) =~= prev.push(t@));
        }
        i = i + 1;
    }
    if ls.len() == 0 {
        return None;
    }
    let h = highest_exec(&ls);
    let mut out = copy_str(">= ");
    push_text(&mut out, h.as_str());
    Some(out)
}

fn feat_name_exec(testing: bool, p: &str, f: &str) -> (r: String)
    ensures
        r@ == feat_name(testing, p@, f@),
{
    if f.unicode_len() == 0 { deb_name(testing, p) } else { deb_feature_name(testing, p, f) }
}

fn names_exec(testing: bool, p: &str, fs: &Vec<String>) -> (r: Vec<String>)
    ensures
        texts(r@) == names_of(testing, p@, texts(fs@)),
{
    let mut out: Vec<String> = Vec::new();
    let mut i: usize = 0;
    while i < fs.len()
        invariant
            i <= fs@.len(),
            texts(out@) == names_of(testing, p@, texts(fs@).subrange(0, i as int)),
        decreases fs@.len() - i,
    {
        let x = feat_name_exec(testing, p, fs[i].as_str());
        let ghost prev = texts(out@);
        out.push(x);
        assert(texts(out@) =~= prev.push(x@));
        assert(names_of(testing, p@, texts(fs@).subrange(0, i + 1)) =~= names_of(testing, p@, texts(fs@).subrange(0, i as int)).push(feat_name(testing, p@, fs@[i as int]@)));
        i = i + 1;
    }
    assert(texts(fs@).subrange(0, i as int) =~= texts(fs@));
    out
}

fn without_exec(fs: &Vec<String>, ex: &Vec<String>) -> (r: Vec<String>)
    ensures
        texts(r@) == without(texts(fs@), texts(ex@)),
{
    let mut out: Vec<String> = Vec::new();
    let mut i: usize = 0;
    assert(texts(out@) =~= without(texts(fs@).subrange(0, 0), texts(ex@)));
    while i < fs.len()
        invariant
            i <= fs@.len(),
            texts(out@) == without(texts(fs@).subrange(0, i as int), texts(ex@)),
        decreases fs@.len() - i,
    {
        assert(texts(fs@).subrange(0, i + 1).drop_last() =~= texts(fs@).subrange(0, i as int));
        assert(texts(fs@).subrange(0, i + 1).last() == fs@[i as int]@);
        if !contains_text(ex, &fs[i]) {
            let c = copy_str(fs[i].as_str());
            let ghost prev = texts(out@);
            out.push(c);
            assert(texts(out@) =~= prev.push(c@));
        }
        i = i + 1;
    }
    assert(texts(fs@).subrange(0, i as int) =~= texts(fs@));
    out
}

pub open spec fn group_views(gs: Seq<(String, Option<String>, Vec<String>)>) -> Seq<DepGroup> {
    gs.map_values(|g: (String, Option<String>, Vec<String>)| (g.0@, opt_view_string(g.1), texts(g.2@)))
}

fn same_opt(a: &Option<String>, b: &Option<String>) -> (r: bool)
    ensures
        r == (opt_view_string(*a) == opt_view_string(*b)),
{
    match (a, b) {
        (Some(x), Some(y)) => *x == *y,
        (None, None) => true,
        _ => false,
    }
}

fn copy_opt(a: &Option<String>) -> (r: Option<String>)
    ensures
        opt_view_string(r) == opt_view_string(*a),
{
    match a {
        Some(x) => Some(copy_str(x.as_str())),
        None => None,
    }
}

fn groups_exec(o_deps: &Vec<String>, ori: &Vec<Dependency>, basename: &str) -> (r: Vec<(String, Option<String>, Vec<String>)>)
    ensures
        group_views(r@) == groups_of(texts(o_deps@), ori@, basename@, o_deps@.len() as int),
{
    let ghost os = texts(o_deps@);
    let mut gs: Vec<(String, Option<String>, Vec<String>)> = Vec::new();
    let mut i: usize = 0;
    assert(group_views(gs@) =~= Seq::<DepGroup>::empty());
    while i < o_deps.len()
        invariant
            os == texts(o_deps@),
            i <= o_deps@.len(),
            group_views(gs@) == groups_of(os, ori@, basename@, i as int),
        decreases o_deps@.len() - i,
    {
        assert(os[i as int] == o_deps@[i as int]@);
        let ghost gv = group_views(gs@);
        match crate_entry_exec(o_deps[i].as_str(), ori, basename) {
            None => {},
            Some((name, feat, version)) => {
                let mut k: usize = 0;
                let mut found: Option<usize> = None;
                proof { lemma_group_index(gv, name@, opt_view_string(feat), 0); }
                while k < gs.len()
                    invariant_except_break
                        found.is_none(),
                    invariant
                        gv == group_views(gs@),
                        k <= gs@.len(),
                        group_index(gv, name@, opt_view_string(feat), 0) == group_index(gv, name@, opt_view_string(feat), k as int),
                    ensures
                        match found {
                            Some(k2) => k2 < gs@.len() && group_index(gv, name@, opt_view_string(feat), 0) == Some(k2 as int),
                            None => group_index(gv, name@, opt_view_string(feat), 0) is None,
                        },
                    decreases gs@.len() - k,
                {
                    assert(gv[k as int] == (gs@[k as int].0@, opt_view_string(gs@[k as int].1), texts(gs@[k as int].2@)));
                    if gs[k].0 == name && same_opt(&gs[k].1, &feat) {
                        found = Some(k);
                        break;
                    }
                    k = k + 1;
                }
                match found {
                    Some(k) => {
                        assert(group_index(gv, name@, opt_view_string(feat), 0) == Some(k as int));
                        assert(gv[k as int] == (gs@[k as int].0@, opt_view_string(gs@[k as int].1), texts(gs@[k as int].2@)));
                        let mut vs: Vec<String> = Vec::new();
                        let mut t: usize = 0;
                        while t < gs[k].2.len()
                            invariant
                                k < gs@.len(),
                                t <= gs@[k as int].2@.len(),
                                texts(vs@) == texts(gs@[k as int].2@).subrange(0, t as int),
                            decreases gs@[k as int].2@.len() - t,
                        {
                            let c = copy_str(gs[k].2[t].as_str());
                            let ghost prev = texts(vs@);
                            vs.push(c);
                            assert(texts(vs@) =~= prev.push(c@));
                            assert(texts(gs@[k as int].2@).subrange(0, t + 1) =~= texts(gs@[k as int].2@).subrange(0, t as int).push(gs@[k as int].2@[t as int]@));
                            t = t + 1;
                        }
                        assert(texts(gs@[k as int].2@).subrange(0, t as int) =~= texts(gs@[k as int].2@));
                        let ghost before_v = texts(vs@);
                        match &version {
                            Some(v) => vs.push(copy_str(v.as_str())),
                            None => {},
                        }
                        assert(texts(vs@) =~= before_v + opt_seq(opt_view_string(version)));
                        let entry = (copy_str(gs[k].0.as_str()), copy_opt(&gs[k].1), vs);
                        gs.set(k, entry);
                        assert(group_views(gs@) =~= gv.update(k as int, (gv[k as int].0, gv[k as int].1, gv[k as int].2 + opt_seq(opt_view_string(version)))));
                    },
                    None => {
                        let mut vs: Vec<String> = Vec::new();
                        match &version {
                            Some(v) => vs.push(copy_str(v.as_str())),
                            None => {},
                        }
                        assert(texts(vs@) =~= opt_seq(opt_view_string(version)));
                        let ghost e = (name@, opt_view_string(feat), texts(vs@));
                        gs.push((name, feat, vs));
                        assert(group_views(gs@) =~= gv.push(e));
                    },
                }
            },
        }
        i = i + 1;
    }
    gs
}

proof fn lemma_group_index(gs: Seq<DepGroup>, name: Seq<char>, feat: Option<Seq<char>>, from: int)
    requires
        0 <= from,
    ensures
        match group_index(gs, name, feat, from) {
            Some(k) => from <= k < gs.len(),
            None => true,
        },
    decreases gs.len() - from,
{
    if from < gs.len() && !(gs[from].0 == name && gs[from].1 == feat) {
        lemma_group_index(gs, name, feat, from + 1);
    }
}

impl Package {
    /// The binary package for one feature of a crate (the base package for
    /// `None`): its name and fixed fields, the relations on the packages of
    /// the features it needs and on the external packages `o_deps`, the
    /// provides of the features `f_provides` it stands for, recommends and
    /// suggests on the base package only, and the crate dependencies read
    /// from the relations with the manifest's dependencies `ori_deps`.
    pub fn new(
        testing: bool,
        basename: &str,
        name_suffix: Option<&str>,
        version: &Version,
        summary: Description,
        description: Description,
        feature: Option<&str>,
        f_deps: &Vec<String>,
        o_deps: &Vec<String>,
        ori_deps: &Vec<Dependency>,
        f_provides: &Vec<String>,
        f_recommends: &Vec<String>,
        f_suggests: &Vec<String>,
        all_features: Vec<String>,
    ) -> (r: Package)
        requires
            version.patch < u64::MAX,
        ensures
            r.name@ == match feature {
                None => deb_name_of(testing, pkgbase_of(basename@, opt_view(name_suffix))),
                Some(f) => deb_name_of(testing, pkgbase_of(basename@, opt_view(name_suffix))) + seq!['-'] + base_name_of(f@),
            },
            r.arch@ == "any"@,
            opt_view_string(r.multi_arch) == Some("same"@),
            r.section.is_none(),
            texts(r.depends@) == names_of(testing, pkgbase_of(basename@, opt_view(name_suffix)),
                internal_feats(texts(f_deps@), opt_view(feature))) + texts(o_deps@),
            crate_dep_views(r.crate_deps@) == crate_deps_of(texts(f_deps@), opt_view(feature), texts(o_deps@), ori_deps@, basename@),
            texts(r.recommended@) == (if feature is None {
                names_of(testing, pkgbase_of(basename@, opt_view(name_suffix)), without(texts(f_recommends@), texts(f_provides@)))
            } else { seq![] }),
            texts(r.suggests@) == (if feature is None {
                names_of(testing, pkgbase_of(basename@, opt_view(name_suffix)), without(texts(f_suggests@), texts(f_provides@)))
            } else { seq![] }),
            texts(r.provides@) == (if name_suffix is None { names_of(testing, basename@, texts(f_provides@)) } else { seq![] }),
            texts(r.breaks@) == (if name_suffix is Some && feature is None {
                seq![deb_name_of(testing, basename@) + " (<< "@
                    + version_text((version.major, version.minor, (version.patch + 1) as u64, version.pre@, version.build@)) + "~)"@]
            } else { seq![] }),
            texts(r.replaces@) == texts(r.breaks@),
            r.conflicts@.len() == 0,
            r.summary == summary,
            r.description == description,
            r.extra_lines@.len() == 0,
            opt_view_string(r.feature) == opt_view(feature),
            opt_view_string(r.crate_name) == Some(basename@),
            r.all_features == all_features,
    {
        let mut pkgbase = copy_str(basename);
        match name_suffix {
            Some(suf) => push_text(&mut pkgbase, suf),
            None => {},
        }
        let name = match feature {
            None => deb_name(testing, pkgbase.as_str()),
            Some(f) => deb_feature_name(testing, pkgbase.as_str(), f),
        };
        let (recommended, suggests) = match feature {
            Some(_) => {
                let a: Vec<String> = Vec::new();
                let b: Vec<String> = Vec::new();
                assert(texts(a@) =~= Seq::<Seq<char>>::empty());
                assert(texts(b@) =~= Seq::<Seq<char>>::empty());
                (a, b)
            },
            None => {
                let r = without_exec(f_recommends, f_provides);
                let s = without_exec(f_suggests, f_provides);
                (names_exec(testing, pkgbase.as_str(), &r), names_exec(testing, pkgbase.as_str(), &s))
            },
        };
        let provides = match name_suffix {
            None => names_exec(testing, basename, f_provides),
            Some(_) => {
                let a: Vec<String> = Vec::new();
                assert(texts(a@) =~= Seq::<Seq<char>>::empty());
                a
            },
        };
        let mut feats: Vec<String> = Vec::new();
        let empty = String::new();
        if feature.is_some() && !contains_text(f_deps, &empty) {
            feats.push(String::new());
        }
        extend_texts(&mut feats, f_deps);
        assert(texts(feats@) =~= internal_feats(texts(f_deps@), opt_view(feature)));
        let mut depends = names_exec(testing, pkgbase.as_str(), &feats);
        extend_texts(&mut depends, o_deps);
        let mut crate_deps: Vec<CrateDep> = Vec::new();
        let ghost fv = texts(feats@);
        let mut i: usize = 0;
        while i < feats.len()
            invariant
                fv == texts(feats@),
                i <= feats@.len(),
                crate_dep_views(crate_deps@) == fv.subrange(0, i as int).map_values(|f: Seq<char>|
                    ("%{pkgname}"@, if f.len() == 0 { None::<Seq<char>> } else { Some(f) }, None::<Seq<char>>)),
            decreases feats@.len() - i,
        {
            let f = feats[i].as_str();
            let feat = if f.unicode_len() == 0 { None } else { Some(copy_str(f)) };
            let d = CrateDep { crate_name: copy_str("%{pkgname}"), feature: feat, version: None };
            let ghost prev = crate_dep_views(crate_deps@);
            crate_deps.push(d);
            assert(crate_dep_views(crate_deps@) =~= prev.push((d.crate_name@, opt_view_string(d.feature), opt_view_string(d.version))));
            assert(fv.subrange(0, i + 1) =~= fv.subrange(0, i as int).push(fv[i as int]));
            i = i + 1;
        }
        assert(fv.subrange(0, i as int) =~= fv);
        let gs = groups_exec(o_deps, ori_deps, basename);
        let ghost head = crate_dep_views(crate_deps@);
        let mut k: usize = 0;
        while k < gs.len()
            invariant
                k <= gs@.len(),
                crate_dep_views(crate_deps@) == head + group_views(gs@).subrange(0, k as int).map_values(|g: DepGroup| (g.0, g.1, merged_bound(g.2))),
            decreases gs@.len() - k,
        {
            let g = &gs[k];
            let v = merged_exec(&g.2);
            let d = CrateDep { crate_name: copy_str(g.0.as_str()), feature: copy_opt(&g.1), version: v };
            let ghost prev = crate_dep_views(crate_deps@);
            crate_deps.push(d);
            assert(crate_dep_views(crate_deps@) =~= prev.push((d.crate_name@, opt_view_string(d.feature), opt_view_string(d.version))));
            assert(group_views(gs@).subrange(0, k + 1) =~= group_views(gs@).subrange(0, k as int).push(group_views(gs@)[k as int]));
            k = k + 1;
        }
        assert(group_views(gs@).subrange(0, k as int) =~= group_views(gs@));
        let mut breaks: Vec<String> = Vec::new();
        let mut replaces: Vec<String> = Vec::new();
        if name_suffix.is_some() && feature.is_none() {
            let next = Version {
                major: version.major,
                minor: version.minor,
                patch: version.patch + 1,
                pre: copy_str(version.pre.as_str()),
                build: copy_str(version.build.as_str()),
            };
            let mut b = deb_name(testing, basename);
            push_text(&mut b, " (<< ");
            let nt = next.to_text();
            push_text(&mut b, nt.as_str());
            push_text(&mut b, "~)");
            let c = copy_str(b.as_str());
            breaks.push(b);
            replaces.push(c);
        }
        Package {
            name,
            arch: copy_str("any"),
            multi_arch: Some(copy_str("same")),
            section: None,
            depends,
            crate_deps,
            recommended,
            suggests,
            provides,
            breaks,
            replaces,
            conflicts: Vec::new(),
            summary,
            description,
            extra_lines: Vec::new(),
            feature: match feature { Some(f) => Some(copy_str(f)), None => None },
            crate_name: Some(copy_str(basename)),
            all_features,
        }
    }
}
} // verus!
