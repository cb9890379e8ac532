//! The dependency graph of a pinned lockfile: each registry package at its
//! exact version, with the exact versions of its dependencies.
use vstd::prelude::*;
use crate::text::{contains_text, has_text, less_text, text_lt, push_char, push_text, split_words, starts_with, words};
use crate::version::{parse_version, semver_cmp, semver_parse, version_cmp, Version, VersionTuple};

verus! {

/// A dependency pinned to an exact version.
#[derive(Clone, Debug, PartialEq, Eq, PartialOrd, Ord)]
pub struct DependencyInfo {
    pub name: String,
    pub version: Version,
}

pub type DepView = (Seq<char>, VersionTuple);

impl View for DependencyInfo {
    type V = DepView;

    open spec fn view(&self) -> DepView {
        (self.name@, self.version@)
    }
}

/// A package at an exact version and its pinned dependencies.
#[derive(Clone, Debug, PartialEq, Eq, PartialOrd, Ord)]
pub struct PackageInfo {
    pub name: String,
    pub version: Version,
    pub dependencies: Vec<DependencyInfo>,
}

pub type PackageView = (Seq<char>, VersionTuple, Seq<DepView>);

pub open spec fn dep_views(s: Seq<DependencyInfo>) -> Seq<DepView> {
    s.map_values(|d: DependencyInfo| d@)
}

impl View for PackageInfo {
    type V = PackageView;

    open spec fn view(&self) -> PackageView {
        (self.name@, self.version@, dep_views(self.dependencies@))
    }
}

pub open spec fn package_views(s: Seq<PackageInfo>) -> Seq<PackageView> {
    s.map_values(|p: PackageInfo| p@)
}

/// The first index at or after `from` of the package `name` at `version`.
pub open spec fn find_package(s: Seq<PackageView>, name: Seq<char>, version: VersionTuple, from: int) -> Option<int>
    decreases s.len() - from,
{
    if from < 0 || from >= s.len() {
        None
    } else if s[from].0 == name && s[from].1 == version {
        Some(from)
    } else {
        find_package(s, name, version, from + 1)
    }
}

/// No two packages share a name and a version.
pub open spec fn packages_unique(s: Seq<PackageView>) -> bool {
    forall|i: int, j: int| 0 <= i < s.len() && 0 <= j < s.len() && i != j
        ==> (#[trigger] s[i]).0 != (#[trigger] s[j]).0 || s[i].1 != s[j].1
}

/// The packages after adding `p`: it replaces the package of the same name
/// and version, or comes last.
pub open spec fn graph_add(s: Seq<PackageView>, p: PackageView) -> Seq<PackageView> {
    match find_package(s, p.0, p.1, 0) {
        Some(i) => s.update(i, p),
        None => s.push(p),
    }
}

proof fn lemma_find_package(s: Seq<PackageView>, name: Seq<char>, version: VersionTuple, from: int)
    requires
        0 <= from,
    ensures
        match find_package(s, name, version, from) {
            Some(i) => from <= i < s.len() && s[i].0 == name && s[i].1 == version,
            None => forall|j: int| from <= j < s.len() ==> (#[trigger] s[j]).0 != name || s[j].1 != version,
        },
    decreases s.len() - from,
{
    if from < s.len() && !(s[from].0 == name && s[from].1 == version) {
        lemma_find_package(s, name, version, from + 1);
    }
}

proof fn lemma_graph_add_unique(s: Seq<PackageView>, p: PackageView)
    requires
        packages_unique(s),
    ensures
        packages_unique(graph_add(s, p)),
{
    lemma_find_package(s, p.0, p.1, 0);
    let t = graph_add(s, p);
    match find_package(s, p.0, p.1, 0) {
        Some(i) => {
            assert forall|a: int, b: int| 0 <= a < t.len() && 0 <= b < t.len() && a != b
                implies (#[trigger] t[a]).0 != (#[trigger] t[b]).0 || t[a].1 != t[b].1 by {
                assert(t[a].0 == s[a].0 && t[a].1 == s[a].1);
                assert(t[b].0 == s[b].0 && t[b].1 == s[b].1);
            }
        },
        None => {
            assert forall|a: int, b: int| 0 <= a < t.len() && 0 <= b < t.len() && a != b
                implies (#[trigger] t[a]).0 != (#[trigger] t[b]).0 || t[a].1 != t[b].1 by {
                if a < s.len() && b < s.len() {
                    assert(t[a] == s[a] && t[b] == s[b]);
                }
            }
        },
    }
}

/// Packages keyed by name and version.
#[derive(Clone, Debug)]
pub struct DependencyGraph {
    packages: Vec<PackageInfo>,
}

impl View for DependencyGraph {
    type V = Seq<PackageView>;

    closed spec fn view(&self) -> Seq<PackageView> {
        package_views(self.packages@)
    }
}

/// The versions of the packages named `name` among the first `i`.
pub open spec fn versions_named(s: Seq<PackageView>, name: Seq<char>, i: int) -> Seq<VersionTuple>
    decreases i,
{
    if i <= 0 {
        seq![]
    } else if s[i - 1].0 == name {
        versions_named(s, name, i - 1).push(s[i - 1].1)
    } else {
        versions_named(s, name, i - 1)
    }
}

impl DependencyGraph {
    pub closed spec fn wf(&self) -> bool {
        packages_unique(self@)
    }

    /// An empty graph.
    pub fn new() -> (r: DependencyGraph)
        ensures
            r.wf(),
            r@ == Seq::<PackageView>::empty(),
    {
        let r = DependencyGraph { packages: Vec::new() };
        assert(r@ =~= Seq::<PackageView>::empty());
        r
    }

    fn find(&self, name: &str, version: &Version) -> (r: Option<usize>)
        ensures
            match find_package(self@, name@, version@, 0) {
                Some(i) => r.is_some() && r.unwrap() as int == i,
                None => r.is_none(),
            },
            r.is_some() ==> r.unwrap() < self.packages@.len(),
    {
        proof { lemma_find_package(self@, name@, version@, 0); }
        let mut i: usize = 0;
        while i < self.packages.len()
            invariant
                i <= self.packages@.len(),
                find_package(self@, name@, version@, 0) == find_package(self@, name@, version@, i as int),
            decreases self.packages@.len() - i,
        {
            assert(self@[i as int] == self.packages@[i as int]@);
            if self.packages[i].name.as_str().unicode_len() == name.unicode_len()
                && same_str(self.packages[i].name.as_str(), name)
                && self.packages[i].version.same(version) {
                return Some(i);
            }
            i = i + 1;
        }
        None
    }

    /// Adds a package, replacing one of the same name and version.
    pub fn add_package(&mut self, package: PackageInfo)
        requires
            old(self).wf(),
        ensures
            final(self).wf(),
            final(self)@ == graph_add(old(self)@, package@),
    {
        proof { lemma_graph_add_unique(self@, package@); }
        let ghost s = self@;
        let ghost pv = package@;
        match self.find(package.name.as_str(), &package.version) {
            Some(i) => {
                self.packages.set(i, package);
                assert(self@ =~= graph_add(s, pv));
            },
            None => {
                self.packages.push(package);
                assert(self@ =~= graph_add(s, pv));
            },
        }
    }

    /// All packages.
    pub fn packages(&self) -> (r: &Vec<PackageInfo>)
        ensures
            package_views(r@) == self@,
    {
        &self.packages
    }

    /// The package `name` at `version`.
    pub fn get_package(&self, name: &str, version: &Version) -> (r: Option<&PackageInfo>)
        ensures
            match find_package(self@, name@, version@, 0) {
                Some(i) => r.is_some() && r.unwrap()@ == self@[i],
                None => r.is_none(),
            },
    {
        proof { lemma_find_package(self@, name@, version@, 0); }
        match self.find(name, version) {
            Some(i) => {
                assert(self@[i as int] == self.packages@[i as int]@);
                Some(&self.packages[i])
            },
            None => None,
        }
    }

    /// The versions of every package named `name`, in order.
    pub fn get_versions(&self, name: &str) -> (r: Vec<Version>)
        ensures
            r@.map_values(|v: Version| v@) == versions_named(self@, name@, self@.len() as int),
    {
        let mut out: Vec<Version> = Vec::new();
        let mut i: usize = 0;
        while i < self.packages.len()
            invariant
                i <= self.packages@.len(),
                out@.map_values(|v: Version| v@) == versions_named(self@, name@, i as int),
            decreases self.packages@.len() - i,
        {
            assert(self@[i as int] == self.packages@[i as int]@);
            if same_str(self.packages[i].name.as_str(), name) {
                out.push(self.packages[i].version.copy());
            }
            i = i + 1;
            assert(out@.map_values(|v: Version| v@) =~= versions_named(self@, name@, i as int));
        }
        out
    }

    /// The number of packages.
    pub fn len(&self) -> (r: usize)
        ensures
            r == self@.len(),
    {
        self.packages.len()
    }

    /// Whether the graph holds no package.
    pub fn is_empty(&self) -> (r: bool)
        ensures
            r == (self@.len() == 0),
    {
        self.packages.len() == 0
    }

    /// The pinned dependencies of the package `name` at `version`.
    pub fn get_dependencies_map(&self, name: &str, version: &Version) -> (r: Option<Vec<(String, Version)>>)
        ensures
            match find_package(self@, name@, version@, 0) {
                Some(i) => r.is_some() && r.unwrap()@.map_values(|d: (String, Version)| (d.0@, d.1@)) == self@[i].2,
                None => r.is_none(),
            },
    {
        proof { lemma_find_package(self@, name@, version@, 0); }
        match self.find(name, version) {
            Some(i) => {
                let p = &self.packages[i];
                assert(self@[i as int] == p@);
                let mut out: Vec<(String, Version)> = Vec::new();
                let mut j: usize = 0;
                while j < p.dependencies.len()
                    invariant
                        j <= p.dependencies@.len(),
                        out@.map_values(|d: (String, Version)| (d.0@, d.1@)) == dep_views(p.dependencies@).subrange(0, j as int),
                    decreases p.dependencies@.len() - j,
                {
                    let mut n = String::new();
                    push_text(&mut n, p.dependencies[j].name.as_str());
                    let x = (n, p.dependencies[j].version.copy());
                    let ghost prev = out@;
                    out.push(x);
                    assert(out@.map_values(|d: (String, Version)| (d.0@, d.1@)) =~= prev.map_values(|d: (String, Version)| (d.0@, d.1@)).push((x.0@, x.1@)));
                    assert(dep_views(p.dependencies@).subrange(0, j + 1) =~= dep_views(p.dependencies@).subrange(0, j as int).push(p.dependencies@[j as int]@));
                    j = j + 1;
                    assert(out@.map_values(|d: (String, Version)| (d.0@, d.1@)) =~= dep_views(p.dependencies@).subrange(0, j as int));
                }
                assert(dep_views(p.dependencies@).subrange(0, j as int) =~= dep_views(p.dependencies@));
                Some(out)
            },
            None => None,
        }
    }
}

/// Whether two texts are equal.
pub fn same_str(a: &str, b: &str) -> (r: bool)
    ensures
        r == (a@ == b@),
{
    let n = a.unicode_len();
    if n != b.unicode_len() {
        return false;
    }
    let mut i: usize = 0;
    while i < n
        invariant
            n == a@.len(),
            n == b@.len(),
            i <= n,
            forall|j: int| 0 <= j < i ==> a@[j] == b@[j],
        decreases n - i,
    {
        if a.get_char(i) != b.get_char(i) {
            return false;
        }
        i = i + 1;
    }
    assert(a@ =~= b@);
    true
}

/// One `[[package]]` table of a lockfile, as far as the graph needs it. A
/// dependency item that is not a string is `None`.
#[derive(Clone, Debug)]
pub struct LockPackage {
    pub name: Option<String>,
    pub version: Option<String>,
    pub source: Option<String>,
    pub dependencies: Option<Vec<Option<String>>>,
}

pub open spec fn opt_text(o: Option<String>) -> Option<Seq<char>> {
    match o {
        Some(s) => Some(s@),
        None => None,
    }
}

/// Name, version, source and dependency items as plain values.
pub type LockView = (Option<Seq<char>>, Option<Seq<char>>, Option<Seq<char>>, Seq<Option<Seq<char>>>);

impl View for LockPackage {
    type V = LockView;

    open spec fn view(&self) -> LockView {
        (
            opt_text(self.name),
            opt_text(self.version),
            opt_text(self.source),
            match self.dependencies {
                Some(d) => d@.map_values(|x: Option<String>| opt_text(x)),
                None => seq![],
            },
        )
    }
}

pub open spec fn lock_views(s: Seq<LockPackage>) -> Seq<LockView> {
    s.map_values(|p: LockPackage| p@)
}

/// A package comes from the public registry.
pub open spec fn from_registry(p: LockView) -> bool {
    match p.2 {
        Some(s) => s.len() >= 9 && s.subrange(0, 9) == "registry+"@,
        None => false,
    }
}

/// The name index of the first pass over the first `i` packages: name and
/// version of each registry package, or the kind of the first failure
/// (`0`: no name, `1`: no version, `2`: unreadable version).
pub open spec fn index_of(ps: Seq<LockView>, i: int) -> Result<Seq<(Seq<char>, VersionTuple)>, u8>
    decreases i,
{
    if i <= 0 {
        Ok(seq![])
    } else {
        match index_of(ps, i - 1) {
            Err(k) => Err(k),
            Ok(idx) => {
                let p = ps[i - 1];
                if p.0 is None {
                    Err(0)
                } else if p.1 is None {
                    Err(1)
                } else if !from_registry(p) {
                    Ok(idx)
                } else {
                    match semver_parse(p.1->Some_0) {
                        None => Err(2),
                        Some(v) => Ok(idx.push((p.0->Some_0, v))),
                    }
                }
            },
        }
    }
}

/// The versions listed for `name` in the first `i` index entries.
pub open spec fn candidates(idx: Seq<(Seq<char>, VersionTuple)>, name: Seq<char>, i: int) -> Seq<VersionTuple>
    decreases i,
{
    if i <= 0 {
        seq![]
    } else if idx[i - 1].0 == name {
        candidates(idx, name, i - 1).push(idx[i - 1].1)
    } else {
        candidates(idx, name, i - 1)
    }
}

/// The highest of the first `i` versions, the later one among equals.
pub open spec fn highest(vs: Seq<VersionTuple>, i: int) -> VersionTuple
    decreases i,
{
    if i <= 1 {
        vs[0]
    } else if semver_cmp(highest(vs, i - 1), vs[i - 1]) > 0 {
        highest(vs, i - 1)
    } else {
        vs[i - 1]
    }
}

/// The version a bare dependency name stands for: the only candidate, or the
/// highest where there are several.
pub open spec fn lookup(idx: Seq<(Seq<char>, VersionTuple)>, name: Seq<char>) -> Option<VersionTuple> {
    let c = candidates(idx, name, idx.len() as int);
    if c.len() == 0 { None } else { Some(highest(c, c.len() as int)) }
}

/// What a dependency item `name [version]` resolves to.
pub open spec fn resolve(idx: Seq<(Seq<char>, VersionTuple)>, item: Option<Seq<char>>) -> Option<DepView> {
    match item {
        None => None,
        Some(s) => {
            let w = words(s);
            if w.len() == 0 {
                None
            } else {
                let inline = if w.len() > 1 { semver_parse(w[1]) } else { None };
                match inline {
                    Some(v) => Some((w[0], v)),
                    None => match lookup(idx, w[0]) {
                        Some(v) => Some((w[0], v)),
                        None => None,
                    },
                }
            }
        },
    }
}

/// Everything the first `i` dependency items resolve to.
pub open spec fn resolved(idx: Seq<(Seq<char>, VersionTuple)>, items: Seq<Option<Seq<char>>>, i: int) -> Set<DepView>
    decreases i,
{
    if i <= 0 {
        Set::empty()
    } else {
        match resolve(idx, items[i - 1]) {
            Some(d) => resolved(idx, items, i - 1).insert(d),
            None => resolved(idx, items, i - 1),
        }
    }
}

/// No dependency is listed twice.
pub open spec fn deps_distinct(s: Seq<DepView>) -> bool {
    forall|a: int, b: int| 0 <= a < s.len() && 0 <= b < s.len() && a != b ==> s[a] != s[b]
}

/// The graph after the second pass over the first `i` packages, where
/// `ds[j]` stands for the dependency list stored for package `j`.
pub open spec fn graph_of(ps: Seq<LockView>, idx: Seq<(Seq<char>, VersionTuple)>, i: int, ds: Seq<Seq<DepView>>) -> Seq<PackageView>
    decreases i,
{
    if i <= 0 {
        seq![]
    } else {
        let g = graph_of(ps, idx, i - 1, ds);
        let p = ps[i - 1];
        if from_registry(p) {
            graph_add(g, (p.0->Some_0, semver_parse(p.1->Some_0)->Some_0, ds[i - 1]))
        } else {
            g
        }
    }
}

proof fn lemma_graph_of_prefix(ps: Seq<LockView>, idx: Seq<(Seq<char>, VersionTuple)>, i: int, a: Seq<Seq<DepView>>, b: Seq<Seq<DepView>>)
    requires
        forall|j: int| 0 <= j < i ==> a[j] == b[j],
    ensures
        graph_of(ps, idx, i, a) == graph_of(ps, idx, i, b),
    decreases i,
{
    if i > 0 {
        lemma_graph_of_prefix(ps, idx, i - 1, a, b);
    }
}

/// What building the graph from tables `ps` gives: the kind of the first
/// failure of the first pass, or a graph whose packages are those of the
/// second pass, each with its resolved dependencies once, and the notes for
/// the packages left out.
pub open spec fn built_from(ps: Seq<LockView>, r: Result<(DependencyGraph, Vec<String>), LockError>) -> bool {
    &&& match index_of(ps, ps.len() as int) {
        Err(k) => r.is_err() && lock_error_kind(r->Err_0) == k,
        Ok(_) => r.is_ok(),
    }
    &&& r.is_ok() ==> r.unwrap().0.wf()
    &&& r.is_ok() ==> crate::range::texts(r.unwrap().1@) == skipped_of(ps, ps.len() as int)
    &&& r.is_ok() ==> exists|ds: Seq<Seq<DepView>>| {
        &&& ds.len() == ps.len()
        &&& #[trigger] graph_of(ps, index_of(ps, ps.len() as int)->Ok_0, ps.len() as int, ds) == r.unwrap().0@
        &&& forall|j: int| 0 <= j < ds.len() ==> deps_distinct(#[trigger] ds[j]) && names_sorted(ds[j])
            && ds[j].to_set() == resolved(index_of(ps, ps.len() as int)->Ok_0, ps[j].3, ps[j].3.len() as int)
    }
}

/// Failures of lockfile parsing.
#[derive(Clone, Debug)]
pub enum LockError {
    /// The text is not a TOML document.
    Toml,
    /// The document has no `package` array.
    MissingPackages,
    /// A package has no name.
    MissingName,
    /// A package has no version.
    MissingVersion,
    /// A registry package's version does not parse.
    BadVersion { name: String },
}

pub open spec fn lock_error_kind(e: LockError) -> u8 {
    match e {
        LockError::MissingName => 0,
        LockError::MissingVersion => 1,
        LockError::BadVersion { .. } => 2,
        LockError::MissingPackages => 3,
        LockError::Toml => 4,
    }
}

/// Adds a dependency in sorted position unless an equal one is there.
/// The dependencies are in order of their names.
pub open spec fn names_sorted(s: Seq<DepView>) -> bool {
    forall|a: int, b: int| 0 <= a < b < s.len() ==> !text_lt((#[trigger] s[b]).0, (#[trigger] s[a]).0)
}

fn insert_dep(v: &mut Vec<DependencyInfo>, d: DependencyInfo)
    requires
        deps_distinct(dep_views(old(v)@)),
        names_sorted(dep_views(old(v)@)),
    ensures
        deps_distinct(dep_views(final(v)@)),
        names_sorted(dep_views(final(v)@)),
        dep_views(final(v)@).to_set() == dep_views(old(v)@).to_set().insert(d@),
{
    let ghost s = dep_views(v@);
    let mut i: usize = 0;
    while i < v.len()
        invariant
            s == dep_views(v@),
            deps_distinct(s),
            names_sorted(s),
            i <= v@.len(),
            forall|j: int| 0 <= j < i ==> s[j] != d@,
        decreases v@.len() - i,
    {
        assert(s[i as int] == v@[i as int]@);
        if same_str(v[i].name.as_str(), d.name.as_str()) && v[i].version.same(&d.version) {
            assert(s.to_set().insert(d@) =~= s.to_set());
            return;
        }
        i = i + 1;
    }
    let mut pos: usize = 0;
    while pos < v.len()
        invariant
            s == dep_views(v@),
            deps_distinct(s),
            forall|j: int| 0 <= j < s.len() ==> s[j] != d@,
            names_sorted(s),
            pos <= v@.len(),
            forall|j: int| 0 <= j < pos ==> !text_lt(d@.0, (#[trigger] s[j]).0),
        ensures
            pos <= v@.len(),
            forall|j: int| 0 <= j < pos ==> !text_lt(d@.0, (#[trigger] s[j]).0),
            pos < v@.len() ==> !text_lt(s[pos as int].0, d@.0),
        decreases v@.len() - pos,
    {
        assert(s[pos as int] == v@[pos as int]@);
        let before = less_text(d.name.as_str(), v[pos].name.as_str())
            || (same_str(d.name.as_str(), v[pos].name.as_str()) && version_cmp(&d.version, &v[pos].version) < 0);
        if before {
            proof {
                crate::text::lemma_text_lt_irreflexive(d@.0);
                if text_lt(d@.0, s[pos as int].0) && text_lt(s[pos as int].0, d@.0) {
                    crate::text::lemma_text_lt_transitive(d@.0, s[pos as int].0, d@.0);
                }
            }
            break;
        }
        pos = pos + 1;
    }
    let ghost dv = d@;
    v.insert(pos, d);
    assert(dep_views(v@) =~= s.insert(pos as int, dv));
    proof {
        let t = s.insert(pos as int, dv);
        assert forall|k: int| pos <= k < s.len() implies !text_lt((#[trigger] s[k]).0, dv.0) by {
            if text_lt(s[k].0, dv.0) {
                if k > pos {
                    assert(!text_lt(s[k].0, s[pos as int].0));
                    if s[pos as int].0 == dv.0 {
                    } else {
                        crate::text::lemma_text_lt_total(s[pos as int].0, dv.0);
                        crate::text::lemma_text_lt_transitive(s[k].0, dv.0, s[pos as int].0);
                    }
                }
            }
        }
        assert forall|a: int, b: int| 0 <= a < b < t.len() implies !text_lt((#[trigger] t[b]).0, (#[trigger] t[a]).0) by {
            let a2 = if a < pos { a } else { a - 1 };
            let b2 = if b < pos { b } else { b - 1 };
            if a == pos {
                assert(t[b] == s[b2]);
            } else if b == pos {
                assert(t[a] == s[a2]);
            } else {
                assert(t[a] == s[a2] && t[b] == s[b2]);
            }
        }
        assert forall|a: int, b: int| 0 <= a < t.len() && 0 <= b < t.len() && a != b implies t[a] != t[b] by {
            if a != pos && b != pos {
                let a2 = if a < pos { a } else { a - 1 };
                let b2 = if b < pos { b } else { b - 1 };
                assert(t[a] == s[a2] && t[b] == s[b2]);
            } else if a == pos {
                let b2 = if b < pos { b } else { b - 1 };
                assert(t[b] == s[b2]);
            } else {
                let a2 = if a < pos { a } else { a - 1 };
                assert(t[a] == s[a2]);
            }
        }
        assert forall|x: DepView| t.to_set().contains(x) <==> s.to_set().insert(dv).contains(x) by {
            if t.contains(x) {
                let k = choose|k: int| 0 <= k < t.len() && t[k] == x;
                if k != pos {
                    let k2 = if k < pos { k } else { k - 1 };
                    assert(s[k2] == x);
                }
            }
            if s.contains(x) {
                let k = choose|k: int| 0 <= k < s.len() && s[k] == x;
                let k2 = if k < pos { k } else { k + 1 };
                assert(t[k2] == x);
            }
            if x == dv {
                assert(t[pos as int] == dv);
            }
        }
        assert(t.to_set() =~= s.to_set().insert(dv));
    }
}


/// The note for a package left out of the graph.
pub open spec fn skip_note(p: LockView) -> Seq<char> {
    let head = p.0->Some_0 + seq![' '] + p.1->Some_0;
    match p.2 {
        Some(src) => head + " (source: "@ + src + ")"@,
        None => head + " (no source)"@,
    }
}

/// The notes for the packages among the first `i` that are not from the
/// registry: path and git sources, and workspace members with no source.
pub open spec fn skipped_of(ps: Seq<LockView>, i: int) -> Seq<Seq<char>>
    decreases i,
{
    if i <= 0 {
        seq![]
    } else if from_registry(ps[i - 1]) {
        skipped_of(ps, i - 1)
    } else {
        skipped_of(ps, i - 1).push(skip_note(ps[i - 1]))
    }
}

proof fn lemma_index_stops(ps: Seq<LockView>, i: int)
    requires
        0 < i <= ps.len(),
        index_of(ps, i) is Err,
    ensures
        index_of(ps, ps.len() as int) == index_of(ps, i),
    decreases ps.len() - i,
{
    if i < ps.len() {
        lemma_index_stops(ps, i + 1);
    }
}

proof fn lemma_index_ok(ps: Seq<LockView>, i: int, j: int)
    requires
        0 <= j < i <= ps.len(),
        index_of(ps, i) is Ok,
    ensures
        ps[j].0 is Some,
        ps[j].1 is Some,
        from_registry(ps[j]) ==> semver_parse(ps[j].1->Some_0) is Some,
    decreases i,
{
    if j < i - 1 {
        lemma_index_ok(ps, i - 1, j);
    }
}

/// The index entries as plain values.
pub open spec fn index_view(v: Seq<(String, Version)>) -> Seq<(Seq<char>, VersionTuple)> {
    v.map_values(|e: (String, Version)| (e.0@, e.1@))
}

fn lookup_exec(idx: &Vec<(String, Version)>, name: &str) -> (r: Option<Version>)
    ensures
        match lookup(index_view(idx@), name@) {
            Some(v) => r.is_some() && r.unwrap()@ == v,
            None => r.is_none(),
        },
{
    let ghost iv = index_view(idx@);
    let mut c: Vec<Version> = Vec::new();
    let mut i: usize = 0;
    while i < idx.len()
        invariant
            iv == index_view(idx@),
            i <= idx@.len(),
            c@.map_values(|v: Version| v@) == candidates(iv, name@, i as int),
        decreases idx@.len() - i,
    {
        assert(iv[i as int] == (idx@[i as int].0@, idx@[i as int].1@));
        if same_str(idx[i].0.as_str(), name) {
            let ghost prev = c@;
            let x = idx[i].1.copy();
            c.push(x);
            assert(c@.map_values(|v: Version| v@) =~= prev.map_values(|v: Version| v@).push(x@));
        }
        i = i + 1;
    }
    let ghost cv = c@.map_values(|v: Version| v@);
    if c.len() == 0 {
        return None;
    }
    let mut best = c[0].copy();
    let mut k: usize = 1;
    while k < c.len()
        invariant
            cv == c@.map_values(|v: Version| v@),
            1 <= k <= c@.len(),
            best@ == highest(cv, k as int),
        decreases c@.len() - k,
    {
        if version_cmp(&best, &c[k]) <= 0 {
            best = c[k].copy();
        }
        k = k + 1;
    }
    Some(best)
}

fn resolve_exec(idx: &Vec<(String, Version)>, item: &Option<String>) -> (r: Option<DependencyInfo>)
    ensures
        match resolve(index_view(idx@), opt_text(*item)) {
            Some(d) => r.is_some() && r.unwrap()@ == d,
            None => r.is_none(),
        },
{
    match item {
        None => None,
        Some(s) => {
            let parts = split_words(s.as_str());
            proof {
                assert(parts@.len() == words(s@).len());
                if parts@.len() > 0 {
                    assert(parts@[0]@ == words(s@)[0]);
                }
                if parts@.len() > 1 {
                    assert(parts@[1]@ == words(s@)[1]);
                }
            }
            if parts.len() == 0 {
                return None;
            }
            let inline = if parts.len() > 1 { parse_version(parts[1].as_str()) } else { None };
            let mut name = String::new();
            push_text(&mut name, parts[0].as_str());
            match inline {
                Some(v) => Some(DependencyInfo { name, version: v }),
                None => match lookup_exec(idx, parts[0].as_str()) {
                    Some(v) => Some(DependencyInfo { name, version: v }),
                    None => None,
                },
            }
        },
    }
}

/// Builds the graph from the `[[package]]` tables of a lockfile.
///
/// A first pass lists every registry package by name and version; a
/// package without a name or a version, or a registry package whose version
/// does not parse, is an error. A second pass stores each registry package
/// with its dependencies: a dependency item `name version` is pinned to that
/// version, a bare `name` to the only listed version of that crate, or the
/// highest where there are several. Dependency lists hold each resolved
/// dependency once, ordered by name and then version. Also returns a note
/// for each package that was left out as not coming from the registry.
pub fn build_dependency_graph(packages: &Vec<LockPackage>) -> (r: Result<(DependencyGraph, Vec<String>), LockError>)
    ensures
        built_from(lock_views(packages@), r),
{
    let ghost ps = lock_views(packages@);
    let n = packages.len();
    let mut idx: Vec<(String, Version)> = Vec::new();
    let mut skipped: Vec<String> = Vec::new();
    let mut i: usize = 0;
    assert(index_view(idx@) =~= seq![]);
    assert(crate::range::texts(skipped@) =~= seq![]);
    while i < n
        invariant
            ps == lock_views(packages@),
            n == packages@.len(),
            i <= n,
            index_of(ps, i as int) == Ok::<Seq<(Seq<char>, VersionTuple)>, u8>(index_view(idx@)),
            crate::range::texts(skipped@) == skipped_of(ps, i as int),
        decreases n - i,
    {
        let p = &packages[i];
        assert(ps[i as int] == p@);
        let name = match &p.name {
            Some(x) => x,
            None => {
                proof { lemma_index_stops(ps, i as int + 1); }
                return Err(LockError::MissingName);
            },
        };
        let version = match &p.version {
            Some(x) => x,
            None => {
                proof { lemma_index_stops(ps, i as int + 1); }
                return Err(LockError::MissingVersion);
            },
        };
        let registry = match &p.source {
            Some(src) => starts_with(src.as_str(), "registry+"),
            None => false,
        };
        proof { reveal_strlit("registry+"); }
        assert(registry == from_registry(p@));
        if !registry {
            let mut note = String::new();
            push_text(&mut note, name.as_str());
            push_char(&mut note, ' ');
            push_text(&mut note, version.as_str());
            match &p.source {
                Some(src) => {
                    push_text(&mut note, " (source: ");
                    push_text(&mut note, src.as_str());
                    push_text(&mut note, ")");
                },
                None => push_text(&mut note, " (no source)"),
            }
            assert(note@ =~= skip_note(ps[i as int]));
            let ghost prev = skipped@;
            skipped.push(note);
            assert(crate::range::texts(skipped@) =~= crate::range::texts(prev).push(note@));
        } else {
            match parse_version(version.as_str()) {
                None => {
                    let mut nm = String::new();
                    push_text(&mut nm, name.as_str());
                    proof { lemma_index_stops(ps, i as int + 1); }
                    return Err(LockError::BadVersion { name: nm });
                },
                Some(v) => {
                    let mut nm = String::new();
                    push_text(&mut nm, name.as_str());
                    let ghost prev = idx@;
                    let ghost e = (nm@, v@);
                    idx.push((nm, v));
                    assert(index_view(idx@) =~= index_view(prev).push(e));
                },
            }
        }
        i = i + 1;
    }
    let ghost iv = index_view(idx@);
    let mut graph = DependencyGraph::new();
    let ghost mut ds: Seq<Seq<DepView>> = seq![];
    let mut i: usize = 0;
    while i < n
        invariant
            ps == lock_views(packages@),
            n == packages@.len(),
            i <= n,
            index_of(ps, n as int) == Ok::<Seq<(Seq<char>, VersionTuple)>, u8>(iv),
            iv == index_view(idx@),
            crate::range::texts(skipped@) == skipped_of(ps, n as int),
            graph.wf(),
            ds.len() == i,
            graph@ == graph_of(ps, iv, i as int, ds),
            forall|j: int| 0 <= j < ds.len() ==> deps_distinct(#[trigger] ds[j]) && names_sorted(ds[j])
                && ds[j].to_set() == resolved(iv, ps[j].3, ps[j].3.len() as int),
        decreases n - i,
    {
        let p = &packages[i];
        assert(ps[i as int] == p@);
        proof { lemma_index_ok(ps, n as int, i as int); }
        let mut deps: Vec<DependencyInfo> = Vec::new();
        let empty: Vec<Option<String>> = Vec::new();
        let items: &Vec<Option<String>> = match &p.dependencies {
            Some(d) => d,
            None => &empty,
        };
        assert(items@.map_values(|x: Option<String>| opt_text(x)) =~= ps[i as int].3);
        let mut k: usize = 0;
        while k < items.len()
            invariant
                k <= items@.len(),
                iv == index_view(idx@),
                items@.map_values(|x: Option<String>| opt_text(x)) == ps[i as int].3,
                deps_distinct(dep_views(deps@)),
                names_sorted(dep_views(deps@)),
                dep_views(deps@).to_set() == resolved(iv, ps[i as int].3, k as int),
            decreases items@.len() - k,
        {
            assert(opt_text(items@[k as int]) == ps[i as int].3[k as int]);
            match resolve_exec(&idx, &items[k]) {
                Some(d) => insert_dep(&mut deps, d),
                None => {},
            }
            k = k + 1;
        }
        let ghost dv = dep_views(deps@);
        let registry = match &p.source {
            Some(src) => starts_with(src.as_str(), "registry+"),
            None => false,
        };
        proof { reveal_strlit("registry+"); }
        let ghost g0 = graph@;
        if registry {
            let mut name = String::new();
            match &p.name {
                Some(x) => push_text(&mut name, x.as_str()),
                None => {},
            }
            let version = match &p.version { Some(x) => parse_version(x.as_str()), None => None };
            match version {
                Some(v) => {
                    let info = PackageInfo { name, version: v, dependencies: deps };
                    graph.add_package(info);
                },
                None => {},
            }
        }
        proof {
            let ds2 = ds.push(dv);
            lemma_graph_of_prefix(ps, iv, i as int, ds, ds2);
            assert(ds2[i as int] == dv);
            assert(registry == from_registry(ps[i as int]));
            assert(graph_of(ps, iv, i as int + 1, ds2) == (if from_registry(ps[i as int]) {
                graph_add(graph_of(ps, iv, i as int, ds2), (ps[i as int].0->Some_0, semver_parse(ps[i as int].1->Some_0)->Some_0, ds2[i as int]))
            } else {
                graph_of(ps, iv, i as int, ds2)
            }));
            ds = ds2;
        }
        i = i + 1;
    }
    let ghost ds_final = ds;
    assert(exists|ds: Seq<Seq<DepView>>| {
        &&& ds.len() == packages@.len()
        &&& #[trigger] graph_of(lock_views(packages@), index_of(lock_views(packages@), packages@.len() as int)->Ok_0, packages@.len() as int, ds) == graph@
        &&& forall|j: int| 0 <= j < ds.len() ==> deps_distinct(#[trigger] ds[j]) && names_sorted(ds[j])
            && ds[j].to_set() == resolved(index_of(lock_views(packages@), packages@.len() as int)->Ok_0, lock_views(packages@)[j].3, lock_views(packages@)[j].3.len() as int)
    }) by {
        assert(index_of(lock_views(packages@), packages@.len() as int)->Ok_0 == iv);
        assert(graph_of(lock_views(packages@), index_of(lock_views(packages@), packages@.len() as int)->Ok_0, packages@.len() as int, ds_final) == graph@);
        assert(forall|j: int| 0 <= j < ds_final.len() ==> deps_distinct(#[trigger] ds_final[j]) && names_sorted(ds_final[j])
            && ds_final[j].to_set() == resolved(iv, lock_views(packages@)[j].3, lock_views(packages@)[j].3.len() as int));
    }
    Ok((graph, skipped))
}

/// The `[[package]]` tables of a text as plain values: `None` where the text
/// is not a TOML document, `Some(None)` where it has no `package` array.
pub uninterp spec fn lock_tables(content: Seq<char>) -> Option<Option<Seq<LockView>>>;

/// Relies on `toml::from_str` to read the document, and on
/// `toml::Value::get`, `as_array` and `as_str` to pick the `name`, `version`,
/// `source` and `dependencies` of each table.
#[verifier::external_body]
fn read_lock_tables(content: &str) -> (r: Result<Vec<LockPackage>, LockError>)
    ensures
        match lock_tables(content@) {
            None => r matches Err(LockError::Toml),
            Some(None) => r matches Err(LockError::MissingPackages),
            Some(Some(ps)) => r.is_ok() && lock_views(r->Ok_0@) == ps,
        },
{
    let doc: toml::Value = toml::from_str(content).map_err(|_| LockError::Toml)?;
    let text = |v: &toml::Value, k: &str| v.get(k).and_then(|x| x.as_str()).map(String::from);
    let items = doc.get("package").and_then(|p| p.as_array()).ok_or(LockError::MissingPackages)?;
    Ok(items.iter().map(|p| LockPackage {
        name: text(p, "name"),
        version: text(p, "version"),
        source: text(p, "source"),
        dependencies: p.get("dependencies").and_then(|d| d.as_array())
            .map(|a| a.iter().map(|x| x.as_str().map(String::from)).collect()),
    }).collect())
}

/// Parses the text of a lockfile into its dependency graph, with a note for
/// each package left out; see `build_dependency_graph`.
pub fn parse_lockfile_text(content: &str) -> (r: Result<(DependencyGraph, Vec<String>), LockError>)
    ensures
        match lock_tables(content@) {
            None => r matches Err(LockError::Toml),
            Some(None) => r matches Err(LockError::MissingPackages),
            Some(Some(ps)) => built_from(ps, r),
        },
{
    let packages = match read_lock_tables(content) {
        Ok(p) => p,
        Err(e) => return Err(e),
    };
    build_dependency_graph(&packages)
}

/// Text that looks like a lockfile: a `[[package]]` table, or `version =`,
/// `name =` and `checksum =` lines.
pub open spec fn looks_like_lockfile(c: Seq<char>) -> bool {
    has_text(c, "[[package]]"@)
        || (has_text(c, "version ="@) && has_text(c, "name ="@) && has_text(c, "checksum ="@))
}

/// Text that looks like a manifest: one of its usual section headers.
pub open spec fn looks_like_manifest(c: Seq<char>) -> bool {
    has_text(c, "[package]"@) || has_text(c, "[dependencies]"@) || has_text(c, "[dev-dependencies]"@)
        || has_text(c, "[workspace]"@) || has_text(c, "[build-dependencies]"@)
}

/// Whether the text looks like a lockfile.
pub fn is_cargo_lock_format(content: &str) -> (r: bool)
    ensures
        r == looks_like_lockfile(content@),
{
    contains_text(content, "[[package]]")
        || (contains_text(content, "version =") && contains_text(content, "name =")
            && contains_text(content, "checksum ="))
}

/// Whether the text looks like a manifest.
pub fn is_cargo_toml_format(content: &str) -> (r: bool)
    ensures
        r == looks_like_manifest(content@),
{
    contains_text(content, "[package]") || contains_text(content, "[dependencies]")
        || contains_text(content, "[dev-dependencies]") || contains_text(content, "[workspace]")
        || contains_text(content, "[build-dependencies]")
}
} // verus!
