//! Keys of per-package settings and the lookup of a setting for a package
//! and the features it provides.
use vstd::prelude::*;
use crate::lockfile::same_str;
use crate::range::texts;
use crate::text::{push_text, starts_with};

verus! {

/// Which package a setting is for.
#[derive(Clone, Debug)]
pub enum PackageKey {
    Bin,
    BareLib,
    FeatureLib(String),
    Extra(String),
}

/// A key as plain values: `0` bin, `1` bare library, `2` feature library,
/// `3` extra package, with the feature or package name.
pub open spec fn key_view(k: PackageKey) -> (u8, Seq<char>) {
    match k {
        PackageKey::Bin => (0, seq![]),
        PackageKey::BareLib => (1, seq![]),
        PackageKey::FeatureLib(f) => (2, f@),
        PackageKey::Extra(p) => (3, p@),
    }
}

/// The text of a key: `bin`, `lib`, `lib+feature` or `extra+package`.
pub open spec fn key_text(k: (u8, Seq<char>)) -> Seq<char> {
    if k.0 == 0 {
        "bin"@
    } else if k.0 == 1 {
        "lib"@
    } else if k.0 == 2 {
        "lib+"@ + k.1
    } else {
        "extra+"@ + k.1
    }
}

/// The key a text names.
pub open spec fn parse_key(k: Seq<char>) -> Option<(u8, Seq<char>)> {
    if k == "bin"@ {
        Some((0, seq![]))
    } else if k == "lib"@ {
        Some((1, seq![]))
    } else if k.len() >= 4 && k.subrange(0, 4) == "lib+"@ {
        Some((2, k.subrange(4, k.len() as int)))
    } else if k.len() >= 6 && k.subrange(0, 6) == "extra+"@ {
        Some((3, k.subrange(6, k.len() as int)))
    } else {
        None
    }
}

/// The key of a feature: the bare library for the empty feature.
pub open spec fn feature_key(f: Seq<char>) -> (u8, Seq<char>) {
    if f.len() == 0 { (1, seq![]) } else { (2, f) }
}

impl PackageKey {
    /// The key of the package for feature `f`.
    pub fn feature(f: &str) -> (r: PackageKey)
        ensures
            key_view(r) == feature_key(f@),
    {
        if f.unicode_len() == 0 {
            PackageKey::BareLib
        } else {
            let mut s = String::new();
            push_text(&mut s, f);
            PackageKey::FeatureLib(s)
        }
    }

    /// The key a text names, if any.
    pub fn from_key(k: &str) -> (r: Option<PackageKey>)
        ensures
            match parse_key(k@) {
                Some(v) => r.is_some() && key_view(r.unwrap()) == v,
                None => r.is_none(),
            },
    {
        proof {
            reveal_strlit("bin");
            reveal_strlit("lib");
            reveal_strlit("lib+");
            reveal_strlit("extra+");
        }
        if same_str(k, "bin") {
            return Some(PackageKey::Bin);
        }
        if same_str(k, "lib") {
            return Some(PackageKey::BareLib);
        }
        let n = k.unicode_len();
        if starts_with(k, "lib+") {
            let mut s = String::new();
            push_text(&mut s, k.substring_char(4, n));
            return Some(PackageKey::FeatureLib(s));
        }
        if starts_with(k, "extra+") {
            let mut s = String::new();
            push_text(&mut s, k.substring_char(6, n));
            return Some(PackageKey::Extra(s));
        }
        None
    }

    /// The text of the key.
    pub fn key_string(&self) -> (r: String)
        ensures
            r@ == key_text(key_view(*self)),
    {
        let mut s = String::new();
        match self {
            PackageKey::Bin => push_text(&mut s, "bin"),
            PackageKey::BareLib => push_text(&mut s, "lib"),
            PackageKey::FeatureLib(f) => {
                push_text(&mut s, "lib+");
                push_text(&mut s, f.as_str());
            },
            PackageKey::Extra(p) => {
                push_text(&mut s, "extra+");
                push_text(&mut s, p.as_str());
            },
        }
        s
    }
}

/// Reading a key's text gives the key back.
pub proof fn lemma_key_round_trip(k: PackageKey)
    ensures
        parse_key(key_text(key_view(k))) == Some(key_view(k)),
{
    reveal_strlit("bin");
    reveal_strlit("lib");
    reveal_strlit("lib+");
    reveal_strlit("extra+");
    let t = key_text(key_view(k));
    match k {
        PackageKey::FeatureLib(f) => {
            assert(t == "lib+"@ + f@);
            assert(t.len() >= 4);
            assert(t.subrange(0, 4) =~= "lib+"@);
            assert(t.subrange(4, t.len() as int) =~= f@);
            assert(t != "bin"@);
            assert(t != "lib"@);
            assert(parse_key(t) == Some((2u8, f@)));
        },
        PackageKey::Extra(p) => {
            assert(t == "extra+"@ + p@);
            assert(t.len() >= 6);
            assert(t.subrange(0, 6) =~= "extra+"@);
            assert(t.subrange(6, t.len() as int) =~= p@);
            assert(t != "bin"@) by { assert(t[0] != "bin"@[0]); }
            assert(t != "lib"@) by { assert(t[0] != "lib"@[0]); }
            assert(t.subrange(0, 4) != "lib+"@) by { assert(t.subrange(0, 4)[0] != "lib+"@[0]); }
            assert(parse_key(t) == Some((3u8, p@)));
        },
        PackageKey::Bin => {
            assert(parse_key(t) == Some((0u8, Seq::<char>::empty())));
        },
        PackageKey::BareLib => {
            assert(t != "bin"@) by { assert(t[0] != "bin"@[0]); }
            assert(parse_key(t) == Some((1u8, Seq::<char>::empty())));
        },
    }
}

/// Settings of the source package.
#[derive(Clone, Debug, Default)]
pub struct SourceOverride {
    pub section: Option<String>,
    pub policy: Option<String>,
    pub homepage: Option<String>,
    pub vcs_git: Option<String>,
    pub vcs_browser: Option<String>,
    pub build_depends: Option<Vec<String>>,
    pub build_depends_arch: Option<Vec<String>>,
    pub build_depends_indep: Option<Vec<String>>,
    pub build_depends_excludes: Option<Vec<String>>,
    pub skip_nocheck: Option<bool>,
}

impl SourceOverride {
    pub fn new(
        section: Option<String>,
        policy: Option<String>,
        homepage: Option<String>,
        vcs_git: Option<String>,
        vcs_browser: Option<String>,
        build_depends: Option<Vec<String>>,
        build_depends_arch: Option<Vec<String>>,
        build_depends_indep: Option<Vec<String>>,
        build_depends_excludes: Option<Vec<String>>,
        skip_nocheck: Option<bool>,
    ) -> (r: SourceOverride)
        ensures
            r == (SourceOverride {
                section, policy, homepage, vcs_git, vcs_browser, build_depends, build_depends_arch,
                build_depends_indep, build_depends_excludes, skip_nocheck,
            }),
    {
        SourceOverride {
            section, policy, homepage, vcs_git, vcs_browser, build_depends, build_depends_arch,
            build_depends_indep, build_depends_excludes, skip_nocheck,
        }
    }
}

/// Settings of one binary package.
#[derive(Clone, Debug, Default)]
pub struct PackageOverride {
    pub section: Option<String>,
    pub summary: Option<String>,
    pub description: Option<String>,
    pub architecture: Option<Vec<String>>,
    pub multi_arch: Option<String>,
    pub depends: Option<Vec<String>>,
    pub recommended: Option<Vec<String>>,
    pub suggests: Option<Vec<String>>,
    pub provides: Option<Vec<String>>,
    pub breaks: Option<Vec<String>>,
    pub replaces: Option<Vec<String>>,
    pub conflicts: Option<Vec<String>>,
    pub extra_lines: Option<Vec<String>>,
    pub test_is_broken: Option<bool>,
    pub test_architecture: Option<Vec<String>>,
    pub test_depends: Option<Vec<String>>,
}

/// The maintainer named when the settings name none.
pub const RUST_MAINT: &'static str = "takopack Team <takopack@iscas.ac.cn>";

/// The settings of one crate's packaging, passed explicitly to what needs
/// them.
#[derive(Clone, Debug)]
pub struct Config {
    pub bin: Option<bool>,
    pub bin_name: String,
    pub semver_suffix: bool,
    pub overlay: Option<String>,
    pub excludes: Option<Vec<String>>,
    pub whitelist: Option<Vec<String>>,
    pub allow_prerelease_deps: bool,
    pub crate_src_path: Option<String>,
    pub summary: Option<String>,
    pub description: Option<String>,
    pub maintainer: String,
    pub uploaders: Option<Vec<String>>,
    pub collapse_features: bool,
    pub requires_root: Option<String>,
    pub source: Option<SourceOverride>,
    /// Package settings by key text (`bin`, `lib`, `lib+feature`,
    /// `extra+package`); the first entry of a key counts.
    pub packages: Vec<(String, PackageOverride)>,
}

impl Default for Config {
    fn default() -> (r: Config)
        ensures
            r.bin.is_none(),
            r.bin_name@ == "<default>"@,
            !r.semver_suffix,
            r.overlay.is_none(),
            r.excludes.is_none(),
            r.whitelist.is_none(),
            !r.allow_prerelease_deps,
            r.crate_src_path.is_none(),
            r.summary.is_none(),
            r.description.is_none(),
            r.maintainer@ == RUST_MAINT@,
            r.uploaders.is_none(),
            !r.collapse_features,
            r.requires_root.is_none(),
            r.source.is_none(),
            r.packages@.len() == 0,
    {
        let mut bin_name = String::new();
        push_text(&mut bin_name, "<default>");
        let mut maintainer = String::new();
        push_text(&mut maintainer, RUST_MAINT);
        Config {
            bin: None,
            bin_name,
            semver_suffix: false,
            overlay: None,
            excludes: None,
            whitelist: None,
            allow_prerelease_deps: false,
            crate_src_path: None,
            summary: None,
            description: None,
            maintainer,
            uploaders: None,
            collapse_features: false,
            requires_root: None,
            source: None,
            packages: Vec::new(),
        }
    }
}

/// The first package settings stored under key text `k` among the first `i`.
pub open spec fn override_at(packages: Seq<(String, PackageOverride)>, k: Seq<char>, i: int) -> Option<PackageOverride>
    decreases i,
{
    if i <= 0 {
        None
    } else {
        match override_at(packages, k, i - 1) {
            Some(o) => Some(o),
            None => if packages[i - 1].0@ == k { Some(packages[i - 1].1) } else { None },
        }
    }
}

/// The settings of the package with key `k`, if any.
pub open spec fn override_of(c: Config, k: (u8, Seq<char>)) -> Option<PackageOverride> {
    override_at(c.packages@, key_text(k), c.packages@.len() as int)
}

/// A list-valued package setting.
#[derive(Clone, Copy, Debug, PartialEq, Eq, Structural)]
pub enum PackageField {
    Depends,
    Recommends,
    Suggests,
    Provides,
    Breaks,
    Replaces,
    Conflicts,
}

pub open spec fn opt_texts(o: Option<Vec<String>>) -> Seq<Seq<char>> {
    match o {
        Some(v) => texts(v@),
        None => seq![],
    }
}

/// The values of one list setting, none where it is not set.
pub open spec fn field_values(o: PackageOverride, f: PackageField) -> Seq<Seq<char>> {
    match f {
        PackageField::Depends => opt_texts(o.depends),
        PackageField::Recommends => opt_texts(o.recommended),
        PackageField::Suggests => opt_texts(o.suggests),
        PackageField::Provides => opt_texts(o.provides),
        PackageField::Breaks => opt_texts(o.breaks),
        PackageField::Replaces => opt_texts(o.replaces),
        PackageField::Conflicts => opt_texts(o.conflicts),
    }
}

/// The values of a list setting for each key in turn.
pub open spec fn fields_for(c: Config, f: PackageField, keys: Seq<(u8, Seq<char>)>) -> Seq<Seq<char>>
    decreases keys.len(),
{
    if keys.len() == 0 {
        seq![]
    } else {
        fields_for(c, f, keys.drop_last()) + match override_of(c, keys.last()) {
            Some(o) => field_values(o, f),
            None => seq![],
        }
    }
}

fn copy_texts_into(out: &mut Vec<String>, src: &Option<Vec<String>>)
    ensures
        texts(final(out)@) == texts(old(out)@) + opt_texts(*src),
{
    match src {
        Some(v) => {
            let ghost start = texts(out@);
            let mut i: usize = 0;
            while i < v.len()
                invariant
                    i <= v@.len(),
                    texts(out@) == start + texts(v@).subrange(0, i as int),
                decreases v@.len() - i,
            {
                let mut s = String::new();
                push_text(&mut s, v[i].as_str());
                let ghost prev = out@;
                out.push(s);
                assert(texts(out@) =~= texts(prev).push(s@));
                assert(texts(v@).subrange(0, i + 1) =~= texts(v@).subrange(0, i as int).push(v@[i as int]@));
                i = i + 1;
            }
            assert(texts(v@).subrange(0, i as int) =~= texts(v@));
        },
        None => {
            assert(texts(out@) =~= texts(out@) + Seq::<Seq<char>>::empty());
        },
    }
}

impl Config {
    /// Whether a binary package is built: as set, else unless packages
    /// carry a version suffix.
    pub fn build_bin_package(&self) -> (r: bool)
        ensures
            r == (match self.bin { Some(b) => b, None => !self.semver_suffix }),
    {
        match self.bin {
            Some(b) => b,
            None => !self.semver_suffix,
        }
    }

    pub fn maintainer(&self) -> (r: &str)
        ensures
            r@ == self.maintainer@,
    {
        self.maintainer.as_str()
    }

    /// The settings of the package with key `key`.
    pub fn package(&self, key: &PackageKey) -> (r: Option<&PackageOverride>)
        ensures
            match override_of(*self, key_view(*key)) {
                Some(o) => r.is_some() && *r.unwrap() == o,
                None => r.is_none(),
            },
    {
        let k = key.key_string();
        let mut i: usize = 0;
        while i < self.packages.len()
            invariant
                k@ == key_text(key_view(*key)),
                i <= self.packages@.len(),
                override_at(self.packages@, k@, i as int) is None,
            decreases self.packages@.len() - i,
        {
            if self.packages[i].0 == k {
                proof { lemma_override_found(self.packages@, k@, i as int + 1, self.packages@.len() as int); }
                return Some(&self.packages[i].1);
            }
            i = i + 1;
        }
        None
    }

    /// Appends the values of list setting `f` of the package with key `key`.
    pub fn push_field(&self, f: PackageField, key: &PackageKey, out: &mut Vec<String>)
        ensures
            texts(final(out)@) == texts(old(out)@) + match override_of(*self, key_view(*key)) {
                Some(o) => field_values(o, f),
                None => seq![],
            },
    {
        match self.package(key) {
            Some(o) => {
                let src = match f {
                    PackageField::Depends => &o.depends,
                    PackageField::Recommends => &o.recommended,
                    PackageField::Suggests => &o.suggests,
                    PackageField::Provides => &o.provides,
                    PackageField::Breaks => &o.breaks,
                    PackageField::Replaces => &o.replaces,
                    PackageField::Conflicts => &o.conflicts,
                };
                copy_texts_into(out, src);
            },
            None => {
                assert(texts(out@) =~= texts(out@) + Seq::<Seq<char>>::empty());
            },
        }
    }
}

proof fn lemma_override_found(packages: Seq<(String, PackageOverride)>, k: Seq<char>, i: int, n: int)
    requires
        0 < i <= n <= packages.len(),
        override_at(packages, k, i) is Some,
    ensures
        override_at(packages, k, n) == override_at(packages, k, i),
    decreases n - i,
{
    if i < n {
        lemma_override_found(packages, k, i, n - 1);
    }
}

/// The values of list setting `f` for a package and then for each feature
/// it provides.
pub fn package_field_for_feature(config: &Config, f: PackageField, feature: &PackageKey, f_provides: &Vec<String>) -> (r: Vec<String>)
    ensures
        texts(r@) == fields_for(
            *config,
            f,
            seq![key_view(*feature)] + texts(f_provides@).map_values(|n: Seq<char>| feature_key(n)),
        ),
{
    let ghost keys = seq![key_view(*feature)] + texts(f_provides@).map_values(|n: Seq<char>| feature_key(n));
    let mut out: Vec<String> = Vec::new();
    assert(texts(out@) =~= seq![]);
    config.push_field(f, feature, &mut out);
    assert(keys.subrange(0, 1).drop_last() =~= Seq::<(u8, Seq<char>)>::empty());
    assert(keys.subrange(0, 1).last() == key_view(*feature));
    assert(fields_for(*config, f, Seq::<(u8, Seq<char>)>::empty()) == Seq::<Seq<char>>::empty());
    assert(texts(out@) =~= fields_for(*config, f, keys.subrange(0, 1)));
    let mut i: usize = 0;
    while i < f_provides.len()
        invariant
            i <= f_provides@.len(),
            keys == seq![key_view(*feature)] + texts(f_provides@).map_values(|n: Seq<char>| feature_key(n)),
            texts(out@) == fields_for(*config, f, keys.subrange(0, i + 1)),
        decreases f_provides@.len() - i,
    {
        let k = PackageKey::feature(f_provides[i].as_str());
        config.push_field(f, &k, &mut out);
        assert(keys.subrange(0, i + 2).drop_last() =~= keys.subrange(0, i + 1));
        assert(keys.subrange(0, i + 2).last() == feature_key(f_provides@[i as int]@));
        i = i + 1;
    }
    assert(keys.subrange(0, i + 1) =~= keys);
    out
}

} // verus!
