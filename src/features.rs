//! Reduction of a crate's feature graph to a small set of installable
//! packages connected by "provides" relations.
use vstd::prelude::*;
use crate::range::texts;
use crate::text::{push_text, replace_char, replaced};

verus! {

/// One feature: its name (empty for the base package), the features it
/// enables and the external dependencies it adds.
#[derive(Clone, Debug)]
pub struct Feature {
    pub name: String,
    pub features: Vec<String>,
    pub deps: Vec<String>,
}

/// Name, enabled features and external dependencies as plain values.
pub type FeatureView = (Seq<char>, Seq<Seq<char>>, Seq<Seq<char>>);

impl View for Feature {
    type V = FeatureView;

    open spec fn view(&self) -> FeatureView {
        (self.name@, texts(self.features@), texts(self.deps@))
    }
}

/// The views of a feature list.
pub open spec fn graph_view(g: Seq<Feature>) -> Seq<FeatureView> {
    g.map_values(|f: Feature| f@)
}

/// Two features pull in exactly the same things.
pub open spec fn same_deps(a: FeatureView, b: FeatureView) -> bool {
    a.1 == b.1 && a.2 == b.2
}

/// The first index `j` in `from..=i` whose feature pulls in the same things
/// as feature `i`.
pub open spec fn first_same_from(g: Seq<FeatureView>, i: int, from: int) -> int
    decreases i - from,
{
    if from >= i {
        i
    } else if same_deps(g[from], g[i]) {
        from
    } else {
        first_same_from(g, i, from + 1)
    }
}

/// Every feature that duplicates an earlier one is rewritten to depend on
/// that earlier one alone.
pub open spec fn dedup_entry(g: Seq<FeatureView>, i: int) -> FeatureView {
    let j = first_same_from(g, i, 0);
    if j < i { (g[i].0, seq![g[j].0], seq![]) } else { g[i] }
}

pub open spec fn dedup(g: Seq<FeatureView>) -> Seq<FeatureView> {
    Seq::new(g.len(), |i: int| dedup_entry(g, i))
}

/// A feature that adds nothing but one other feature is provided by it.
pub open spec fn is_provided(f: FeatureView) -> bool {
    f.2.len() == 0 && f.1.len() == 1
}

/// The first index at or after `from` of a feature named `name`.
pub open spec fn find_from(g: Seq<FeatureView>, name: Seq<char>, from: int) -> Option<int>
    decreases g.len() - from,
{
    if from < 0 || from >= g.len() {
        None
    } else if g[from].0 == name {
        Some(from)
    } else {
        find_from(g, name, from + 1)
    }
}

/// Where `m` steps up the provides relation from feature `j` lead.
pub open spec fn ancestor(g: Seq<FeatureView>, j: int, m: nat) -> Option<int>
    decreases m,
{
    if m == 0 {
        Some(j)
    } else {
        match ancestor(g, j, (m - 1) as nat) {
            None => None,
            Some(x) => if 0 <= x < g.len() && is_provided(g[x]) {
                find_from(g, g[x].1[0], 0)
            } else {
                None
            },
        }
    }
}

/// Feature `k` provides feature `j`, directly or through a chain of provided
/// features.
pub open spec fn provides(g: Seq<FeatureView>, k: int, j: int) -> bool {
    exists|m: nat| 1 <= m <= g.len() && #[trigger] ancestor(g, j, m) == Some(k)
}

/// The features among the first `i` that are not provided by another.
pub open spec fn survivors(g: Seq<FeatureView>, i: int) -> Seq<FeatureView>
    decreases i,
{
    if i <= 0 {
        seq![]
    } else if is_provided(g[i - 1]) {
        survivors(g, i - 1)
    } else {
        survivors(g, i - 1).push(g[i - 1])
    }
}

/// The names among the first `i` features that feature `k` provides.
pub open spec fn provided_names(g: Seq<FeatureView>, k: int, i: int) -> Seq<Seq<char>>
    decreases i,
{
    if i <= 0 {
        seq![]
    } else if provides(g, k, i - 1) {
        provided_names(g, k, i - 1).push(g[i - 1].0)
    } else {
        provided_names(g, k, i - 1)
    }
}

/// The provides table: each surviving feature with the features it provides.
pub open spec fn provides_table(g: Seq<FeatureView>, i: int) -> Seq<(Seq<char>, Seq<Seq<char>>)>
    decreases i,
{
    if i <= 0 {
        seq![]
    } else if is_provided(g[i - 1]) {
        provides_table(g, i - 1)
    } else {
        provides_table(g, i - 1).push((g[i - 1].0, provided_names(g, i - 1, g.len() as int)))
    }
}

/// The views of a provides table.
pub open spec fn table_view(t: Seq<(String, Vec<String>)>) -> Seq<(Seq<char>, Seq<Seq<char>>)> {
    t.map_values(|e: (String, Vec<String>)| (e.0@, texts(e.1@)))
}

/// A copy of a list of strings.
pub fn copy_texts(v: &Vec<String>) -> (r: Vec<String>)
    ensures
        texts(r@) == texts(v@),
{
    let mut out: Vec<String> = Vec::new();
    let mut i: usize = 0;
    while i < v.len()
        invariant
            i <= v@.len(),
            texts(out@) == texts(v@).subrange(0, i as int),
        decreases v@.len() - i,
    {
        let mut s = String::new();
        push_text(&mut s, v[i].as_str());
        let ghost prev = out@;
        out.push(s);
        assert(texts(out@) =~= texts(prev).push(s@));
        assert(texts(v@).subrange(0, i + 1) =~= texts(v@).subrange(0, i as int).push(v@[i as int]@));
        i = i + 1;
    }
    assert(texts(v@).subrange(0, v@.len() as int) =~= texts(v@));
    out
}

/// Whether two lists of strings are equal.
pub fn same_texts(a: &Vec<String>, b: &Vec<String>) -> (r: bool)
    ensures
        r == (texts(a@) == texts(b@)),
{
    if a.len() != b.len() {
        assert(texts(a@).len() != texts(b@).len());
        return false;
    }
    let mut i: usize = 0;
    while i < a.len()
        invariant
            a@.len() == b@.len(),
            i <= a@.len(),
            forall|j: int| 0 <= j < i ==> a@[j]@ == b@[j]@,
        decreases a@.len() - i,
    {
        if a[i] != b[i] {
            assert(texts(a@)[i as int] != texts(b@)[i as int]);
            return false;
        }
        i = i + 1;
    }
    assert(texts(a@) =~= texts(b@));
    true
}

fn copy_feature(f: &Feature) -> (r: Feature)
    ensures
        r@ == f@,
{
    let mut name = String::new();
    push_text(&mut name, f.name.as_str());
    Feature { name, features: copy_texts(&f.features), deps: copy_texts(&f.deps) }
}

/// Rewrites every feature that pulls in the same things as an earlier one to
/// depend on that earlier one alone.
pub fn dedup_features(g: &Vec<Feature>) -> (r: Vec<Feature>)
    ensures
        graph_view(r@) == dedup(graph_view(g@)),
{
    let ghost gv = graph_view(g@);
    let mut out: Vec<Feature> = Vec::new();
    let mut i: usize = 0;
    while i < g.len()
        invariant
            gv == graph_view(g@),
            i <= g@.len(),
            graph_view(out@) == dedup(gv).subrange(0, i as int),
        decreases g@.len() - i,
    {
        let mut j: usize = 0;
        while j < i
            invariant
                gv == graph_view(g@),
                j <= i < g@.len(),
                first_same_from(gv, i as int, 0) == first_same_from(gv, i as int, j as int),
            ensures
                j <= i,
                first_same_from(gv, i as int, 0) == first_same_from(gv, i as int, j as int),
                j < i ==> same_deps(gv[j as int], gv[i as int]),
            decreases i - j,
        {
            assert(gv[i as int] == g@[i as int]@);
            assert(gv[j as int] == g@[j as int]@);
            if same_texts(&g[j].features, &g[i].features) && same_texts(&g[j].deps, &g[i].deps) {
                break;
            }
            j = j + 1;
        }
        assert(gv[i as int] == g@[i as int]@);
        assert(j < i ==> gv[j as int] == g@[j as int]@);
        assert(first_same_from(gv, i as int, j as int) == j);
        let f = if j < i {
            let mut name = String::new();
            push_text(&mut name, g[i].name.as_str());
            let mut first = String::new();
            push_text(&mut first, g[j].name.as_str());
            let mut fs: Vec<String> = Vec::new();
            fs.push(first);
            let f = Feature { name, features: fs, deps: Vec::new() };
            assert(texts(f.features@) =~= seq![gv[j as int].0]);
            assert(texts(f.deps@) =~= seq![]);
            f
        } else {
            copy_feature(&g[i])
        };
        assert(f@ == dedup_entry(gv, i as int));
        let ghost prev = out@;
        out.push(f);
        assert(graph_view(out@) =~= graph_view(prev).push(f@));
        assert(dedup(gv).subrange(0, i + 1) =~= dedup(gv).subrange(0, i as int).push(dedup(gv)[i as int]));
        i = i + 1;
        assert(graph_view(out@) =~= dedup(gv).subrange(0, i as int));
    }
    assert(dedup(gv).subrange(0, g@.len() as int) =~= dedup(gv));
    out
}

fn find_feature(g: &Vec<Feature>, name: &String) -> (r: Option<usize>)
    ensures
        match find_from(graph_view(g@), name@, 0) {
            Some(k) => r.is_some() && r.unwrap() as int == k,
            None => r.is_none(),
        },
{
    let ghost gv = graph_view(g@);
    let mut i: usize = 0;
    while i < g.len()
        invariant
            gv == graph_view(g@),
            i <= g@.len(),
            find_from(gv, name@, 0) == find_from(gv, name@, i as int),
        decreases g@.len() - i,
    {
        if g[i].name == *name {
            return Some(i);
        }
        i = i + 1;
    }
    None
}

fn provided_flag(f: &Feature) -> (r: bool)
    ensures
        r == is_provided(f@),
{
    f.deps.len() == 0 && f.features.len() == 1
}

/// Whether feature `k` provides feature `j`.
fn provides_exec(g: &Vec<Feature>, k: usize, j: usize) -> (r: bool)
    requires
        k < g@.len(),
        j < g@.len(),
    ensures
        r == provides(graph_view(g@), k as int, j as int),
{
    let ghost gv = graph_view(g@);
    let n = g.len();
    let mut cur: Option<usize> = Some(j);
    let mut found = false;
    let mut m: usize = 0;
    while m < n
        invariant
            gv == graph_view(g@),
            n == g@.len(),
            k < n,
            m <= n,
            match ancestor(gv, j as int, m as nat) {
                Some(x) => cur == Some(x as usize) && 0 <= x < n,
                None => cur.is_none(),
            },
            found == exists|m2: nat| 1 <= m2 <= m && #[trigger] ancestor(gv, j as int, m2) == Some(k as int),
        decreases n - m,
    {
        let next = match cur {
            Some(x) => {
                assert(gv[x as int] == g@[x as int]@);
                if provided_flag(&g[x]) {
                    assert(gv[x as int].1[0] == g@[x as int].features@[0]@);
                    proof { lemma_find_bounds(gv, gv[x as int].1[0], 0); }
                    find_feature(g, &g[x].features[0])
                } else {
                    None
                }
            },
            None => None,
        };
        assert(ancestor(gv, j as int, (m + 1) as nat) == match ancestor(gv, j as int, m as nat) {
            None => None,
            Some(x) => if 0 <= x < gv.len() && is_provided(gv[x]) {
                find_from(gv, gv[x].1[0], 0)
            } else {
                None
            },
        });
        cur = next;
        m = m + 1;
        if cur == Some(k) {
            found = true;
        }
        assert(found == exists|m2: nat| 1 <= m2 <= m && #[trigger] ancestor(gv, j as int, m2) == Some(k as int)) by {
            if found {
                if cur == Some(k) {
                    assert(ancestor(gv, j as int, m as nat) == Some(k as int));
                }
            } else {
                assert forall|m2: nat| 1 <= m2 <= m implies #[trigger] ancestor(gv, j as int, m2) != Some(k as int) by {
                    if m2 == m {
                    }
                }
            }
        }
    }
    found
}

proof fn lemma_find_bounds(g: Seq<FeatureView>, name: Seq<char>, from: int)
    ensures
        match find_from(g, name, from) {
            Some(x) => 0 <= x < g.len(),
            None => true,
        },
    decreases g.len() - from,
{
    if from < 0 || from >= g.len() {
    } else if g[from].0 == name {
    } else {
        lemma_find_bounds(g, name, from + 1);
    }
}

/// Reduces the feature graph: duplicate features are merged into the first
/// of them, features that only enable one other feature are absorbed into
/// it, and each remaining feature lists every feature it provides, through
/// chains too. Both results keep the order of the graph.
pub fn reduce_provides(features_with_deps: &Vec<Feature>) -> (r: (Vec<(String, Vec<String>)>, Vec<Feature>))
    ensures
        graph_view(r.1@) == survivors(dedup(graph_view(features_with_deps@)), features_with_deps@.len() as int),
        table_view(r.0@) == provides_table(dedup(graph_view(features_with_deps@)), features_with_deps@.len() as int),
{
    let d = dedup_features(features_with_deps);
    let ghost dv = graph_view(d@);
    let n = d.len();
    assert(dv.len() == n);
    assert(n == features_with_deps@.len());
    let mut table: Vec<(String, Vec<String>)> = Vec::new();
    let mut kept: Vec<Feature> = Vec::new();
    let mut k: usize = 0;
    while k < n
        invariant
            dv == graph_view(d@),
            n == d@.len(),
            k <= n,
            graph_view(kept@) == survivors(dv, k as int),
            table_view(table@) == provides_table(dv, k as int),
        decreases n - k,
    {
        if !provided_flag(&d[k]) {
            let mut names: Vec<String> = Vec::new();
            let mut j: usize = 0;
            while j < n
                invariant
                    dv == graph_view(d@),
                    n == d@.len(),
                    k < n,
                    j <= n,
                    texts(names@) == provided_names(dv, k as int, j as int),
                decreases n - j,
            {
                if provides_exec(&d, k, j) {
                    let mut s = String::new();
                    push_text(&mut s, d[j].name.as_str());
                    names.push(s);
                }
                j = j + 1;
                assert(texts(names@) =~= provided_names(dv, k as int, j as int));
            }
            let mut name = String::new();
            push_text(&mut name, d[k].name.as_str());
            table.push((name, names));
            kept.push(copy_feature(&d[k]));
        }
        k = k + 1;
        assert(graph_view(kept@) =~= survivors(dv, k as int));
        assert(table_view(table@) =~= provides_table(dv, k as int));
    }
    (table, kept)
}

/// All non-base feature names, in order.
pub open spec fn non_base_names(g: Seq<FeatureView>, i: int) -> Seq<Seq<char>>
    decreases i,
{
    if i <= 0 {
        seq![]
    } else if g[i - 1].0.len() == 0 {
        non_base_names(g, i - 1)
    } else {
        non_base_names(g, i - 1).push(g[i - 1].0)
    }
}

/// Every external dependency of the first `i` features, in order.
pub open spec fn all_deps(g: Seq<FeatureView>, i: int) -> Seq<Seq<char>>
    decreases i,
{
    if i <= 0 { seq![] } else { all_deps(g, i - 1) + g[i - 1].2 }
}

/// Collapses every feature into the base package: the base provides every
/// other feature and carries all external dependencies.
pub fn collapse_features(orig_features_with_deps: &Vec<Feature>) -> (r: (Vec<(String, Vec<String>)>, Vec<Feature>))
    ensures
        table_view(r.0@) == seq![(Seq::<char>::empty(), non_base_names(graph_view(orig_features_with_deps@), orig_features_with_deps@.len() as int))],
        graph_view(r.1@) == seq![(Seq::<char>::empty(), Seq::<Seq<char>>::empty(), all_deps(graph_view(orig_features_with_deps@), orig_features_with_deps@.len() as int))],
{
    let g = orig_features_with_deps;
    let ghost gv = graph_view(g@);
    let mut provides: Vec<String> = Vec::new();
    let mut deps: Vec<String> = Vec::new();
    let mut i: usize = 0;
    while i < g.len()
        invariant
            gv == graph_view(g@),
            i <= g@.len(),
            texts(provides@) == non_base_names(gv, i as int),
            texts(deps@) == all_deps(gv, i as int),
        decreases g@.len() - i,
    {
        if g[i].name.as_str().unicode_len() > 0 {
            let mut s = String::new();
            push_text(&mut s, g[i].name.as_str());
            provides.push(s);
        }
        let mut j: usize = 0;
        let ghost before = texts(deps@);
        while j < g[i].deps.len()
            invariant
                gv == graph_view(g@),
                i < g@.len(),
                j <= g@[i as int].deps@.len(),
                texts(deps@) == before + texts(g@[i as int].deps@).subrange(0, j as int),
            decreases g@[i as int].deps@.len() - j,
        {
            let mut s = String::new();
            push_text(&mut s, g[i].deps[j].as_str());
            let ghost prev = deps@;
            deps.push(s);
            assert(texts(deps@) =~= texts(prev).push(s@));
            assert(texts(g@[i as int].deps@).subrange(0, j + 1) =~= texts(g@[i as int].deps@).subrange(0, j as int).push(g@[i as int].deps@[j as int]@));
            j = j + 1;
            assert(texts(deps@) =~= before + texts(g@[i as int].deps@).subrange(0, j as int));
        }
        assert(texts(g@[i as int].deps@).subrange(0, j as int) =~= texts(g@[i as int].deps@));
        i = i + 1;
        assert(texts(provides@) =~= non_base_names(gv, i as int));
        assert(texts(deps@) =~= all_deps(gv, i as int));
    }
    let mut table: Vec<(String, Vec<String>)> = Vec::new();
    table.push((String::new(), provides));
    let mut out: Vec<Feature> = Vec::new();
    out.push(Feature { name: String::new(), features: Vec::new(), deps });
    assert(table_view(table@) =~= seq![(Seq::<char>::empty(), non_base_names(gv, g@.len() as int))]);
    assert(texts(out@[0].features@) =~= Seq::<Seq<char>>::empty());
    assert(graph_view(out@) =~= seq![(Seq::<char>::empty(), Seq::<Seq<char>>::empty(), all_deps(gv, g@.len() as int))]);
    (table, out)
}


/// A feature name with `_` and `-` collapsed.
pub open spec fn norm_name(n: Seq<char>) -> Seq<char> {
    replaced(n, '_', '-')
}

/// The first index at or after `from` of a feature whose name normalizes
/// to `key`.
pub open spec fn find_norm(g: Seq<FeatureView>, key: Seq<char>, from: int) -> Option<int>
    decreases g.len() - from,
{
    if from < 0 || from >= g.len() {
        None
    } else if norm_name(g[from].0) == key {
        Some(from)
    } else {
        find_norm(g, key, from + 1)
    }
}

/// The features after merging the first `i` of `g`: a feature whose name
/// normalizes like an earlier one's is merged into that one (its enabled
/// features and dependencies appended), and recorded as `(merged, kept)`.
pub open spec fn merge_upto(g: Seq<FeatureView>, i: int) -> (Seq<FeatureView>, Seq<(Seq<char>, Seq<char>)>)
    decreases i,
{
    if i <= 0 {
        (seq![], seq![])
    } else {
        let (out, aliases) = merge_upto(g, i - 1);
        let f = g[i - 1];
        match find_norm(out, norm_name(f.0), 0) {
            None => (out.push(f), aliases),
            Some(j) => (
                out.update(j, (out[j].0, out[j].1 + f.1, out[j].2 + f.2)),
                aliases.push((f.0, out[j].0)),
            ),
        }
    }
}

/// The name a reference stands for once merged names are replaced.
pub open spec fn alias_target(aliases: Seq<(Seq<char>, Seq<char>)>, n: Seq<char>, i: int) -> Seq<char>
    decreases aliases.len() - i,
{
    if i < 0 || i >= aliases.len() {
        n
    } else if aliases[i].0 == n {
        aliases[i].1
    } else {
        alias_target(aliases, n, i + 1)
    }
}

/// The features with every reference to a merged name replaced.
pub open spec fn rewritten(out: Seq<FeatureView>, aliases: Seq<(Seq<char>, Seq<char>)>) -> Seq<FeatureView> {
    out.map_values(|f: FeatureView| rewrite_one(f, aliases))
}

/// Another feature was merged into feature `n`.
pub open spec fn is_kept(aliases: Seq<(Seq<char>, Seq<char>)>, n: Seq<char>) -> bool {
    exists|i: int| 0 <= i < aliases.len() && (#[trigger] aliases[i]).1 == n
}

/// The first `i` texts, each once, without `skip`.
pub open spec fn tidy(s: Seq<Seq<char>>, skip: Option<Seq<char>>, i: int) -> Seq<Seq<char>>
    decreases i,
{
    if i <= 0 {
        seq![]
    } else {
        let t = tidy(s, skip, i - 1);
        if skip == Some(s[i - 1]) || t.contains(s[i - 1]) { t } else { t.push(s[i - 1]) }
    }
}

/// One feature with references to merged names redirected; a feature that
/// others were merged into lists each feature and dependency once and no
/// longer refers to itself.
pub open spec fn rewrite_one(f: FeatureView, aliases: Seq<(Seq<char>, Seq<char>)>) -> FeatureView {
    let refs = f.1.map_values(|n: Seq<char>| alias_target(aliases, n, 0));
    if is_kept(aliases, f.0) {
        (f.0, tidy(refs, Some(f.0), refs.len() as int), tidy(f.2, None, f.2.len() as int))
    } else {
        (f.0, refs, f.2)
    }
}

fn tidy_exec(v: &Vec<String>, skip: &Option<String>) -> (r: Vec<String>)
    ensures
        texts(r@) == tidy(texts(v@), match skip { Some(x) => Some(x@), None => None }, v@.len() as int),
{
    let ghost sk = match skip { Some(x) => Some(x@), None => None::<Seq<char>> };
    let mut out: Vec<String> = Vec::new();
    let mut i: usize = 0;
    assert(texts(out@) =~= Seq::<Seq<char>>::empty());
    while i < v.len()
        invariant
            i <= v@.len(),
            sk == match skip { Some(x) => Some(x@), None => None::<Seq<char>> },
            texts(out@) == tidy(texts(v@), sk, i as int),
        decreases v@.len() - i,
    {
        assert(texts(v@)[i as int] == v@[i as int]@);
        let is_skip = match skip { Some(x) => *x == v[i], None => false };
        let mut seen = false;
        let mut k: usize = 0;
        while k < out.len()
            invariant
                i < v@.len(),
                k <= out@.len(),
                seen == exists|j: int| 0 <= j < k && out@[j]@ == v@[i as int]@,
            decreases out@.len() - k,
        {
            if out[k] == v[i] {
                seen = true;
            }
            k = k + 1;
        }
        proof {
            if seen {
                let j = choose|j: int| 0 <= j < k && out@[j]@ == v@[i as int]@;
                assert(texts(out@)[j] == v@[i as int]@);
            }
            if texts(out@).contains(v@[i as int]@) {
                let j = choose|j: int| 0 <= j < texts(out@).len() && texts(out@)[j] == v@[i as int]@;
                assert(out@[j]@ == v@[i as int]@);
            }
        }
        if !is_skip && !seen {
            let mut c = String::new();
            push_text(&mut c, v[i].as_str());
            let ghost prev = texts(out@);
            out.push(c);
            assert(texts(out@) =~= prev.push(c@));
        }
        i = i + 1;
    }
    out
}

fn copy_texts_one(s: &String) -> (r: String)
    ensures
        r@ == s@,
{
    let mut t = String::new();
    push_text(&mut t, s.as_str());
    t
}

fn kept_exec(aliases: &Vec<(String, String)>, n: &String) -> (r: bool)
    ensures
        r == is_kept(aliases@.map_values(|a: (String, String)| (a.0@, a.1@)), n@),
{
    let ghost av = aliases@.map_values(|a: (String, String)| (a.0@, a.1@));
    let mut i: usize = 0;
    while i < aliases.len()
        invariant
            av == aliases@.map_values(|a: (String, String)| (a.0@, a.1@)),
            i <= aliases@.len(),
            forall|j: int| 0 <= j < i ==> av[j].1 != n@,
        decreases aliases@.len() - i,
    {
        assert(av[i as int] == (aliases@[i as int].0@, aliases@[i as int].1@));
        if aliases[i].1 == *n {
            return true;
        }
        i = i + 1;
    }
    false
}

/// Feature `x` enables feature `y` directly.
pub open spec fn enables(g: Seq<FeatureView>, x: int, y: int) -> bool {
    0 <= x < g.len() && exists|t: int| 0 <= t < g[x].1.len() && find_from(g, #[trigger] g[x].1[t], 0) == Some(y)
}

/// The features reachable from `w` in one to `k + 1` steps.
pub open spec fn reach(g: Seq<FeatureView>, w: int, k: nat) -> Set<int>
    decreases k,
{
    if k == 0 {
        Set::new(|y: int| enables(g, w, y))
    } else {
        let r = reach(g, w, (k - 1) as nat);
        r.union(Set::new(|z: int| exists|y: int| r.contains(y) && enables(g, y, z)))
    }
}

/// Feature `w` can reach itself again.
pub open spec fn on_cycle(g: Seq<FeatureView>, w: int) -> bool {
    reach(g, w, g.len()).contains(w)
}

/// The first merge among the first `i` whose kept feature lies on a cycle.
pub open spec fn first_cycle(g: Seq<FeatureView>, aliases: Seq<(Seq<char>, Seq<char>)>, i: int) -> Option<int>
    decreases i,
{
    if i <= 0 {
        None
    } else {
        match first_cycle(g, aliases, i - 1) {
            Some(a) => Some(a),
            None => match find_from(g, aliases[i - 1].1, 0) {
                Some(w) => if on_cycle(g, w) { Some(i - 1) } else { None },
                None => None,
            },
        }
    }
}

/// A feature merge that made the graph cyclic.
#[derive(Clone, Debug)]
pub struct FeatureCycle {
    /// The feature that was kept.
    pub kept: String,
    /// The feature merged into it.
    pub merged: String,
}

impl FeatureCycle {
    /// The error's message.
    pub fn message(&self) -> (r: String)
        ensures
            r@ == "merging feature "@ + self.merged@ + " into "@ + self.kept@ + " creates a cycle; resolve it by hand"@,
    {
        let mut s = String::new();
        push_text(&mut s, "merging feature ");
        push_text(&mut s, self.merged.as_str());
        push_text(&mut s, " into ");
        push_text(&mut s, self.kept.as_str());
        push_text(&mut s, " creates a cycle; resolve it by hand");
        s
    }
}

fn find_norm_exec(out: &Vec<Feature>, key: &String) -> (r: Option<usize>)
    ensures
        match find_norm(graph_view(out@), key@, 0) {
            Some(j) => r.is_some() && r.unwrap() as int == j && j < out@.len(),
            None => r.is_none(),
        },
{
    let ghost gv = graph_view(out@);
    proof { lemma_find_norm_bounds(gv, key@, 0); }
    let mut i: usize = 0;
    while i < out.len()
        invariant
            gv == graph_view(out@),
            i <= out@.len(),
            find_norm(gv, key@, 0) == find_norm(gv, key@, i as int),
        decreases out@.len() - i,
    {
        assert(gv[i as int] == out@[i as int]@);
        let n = replace_char(out[i].name.as_str(), '_', '-');
        if n == *key {
            return Some(i);
        }
        i = i + 1;
    }
    None
}

proof fn lemma_find_norm_bounds(g: Seq<FeatureView>, key: Seq<char>, from: int)
    requires
        0 <= from,
    ensures
        match find_norm(g, key, from) {
            Some(j) => from <= j < g.len(),
            None => true,
        },
    decreases g.len() - from,
{
    if from < g.len() && norm_name(g[from].0) != key {
        lemma_find_norm_bounds(g, key, from + 1);
    }
}

fn append_texts(dst: &mut Vec<String>, src: &Vec<String>)
    ensures
        texts(final(dst)@) == texts(old(dst)@) + texts(src@),
{
    let ghost start = texts(dst@);
    let mut i: usize = 0;
    while i < src.len()
        invariant
            i <= src@.len(),
            texts(dst@) == start + texts(src@).subrange(0, i as int),
        decreases src@.len() - i,
    {
        let mut s = String::new();
        push_text(&mut s, src[i].as_str());
        let ghost prev = dst@;
        dst.push(s);
        assert(texts(dst@) =~= texts(prev).push(s@));
        assert(texts(src@).subrange(0, i + 1) =~= texts(src@).subrange(0, i as int).push(src@[i as int]@));
        i = i + 1;
    }
    assert(texts(src@).subrange(0, i as int) =~= texts(src@));
}

fn alias_exec(aliases: &Vec<(String, String)>, n: &String) -> (r: String)
    ensures
        r@ == alias_target(aliases@.map_values(|a: (String, String)| (a.0@, a.1@)), n@, 0),
{
    let ghost av = aliases@.map_values(|a: (String, String)| (a.0@, a.1@));
    let mut i: usize = 0;
    while i < aliases.len()
        invariant
            av == aliases@.map_values(|a: (String, String)| (a.0@, a.1@)),
            i <= aliases@.len(),
            alias_target(av, n@, 0) == alias_target(av, n@, i as int),
        decreases aliases@.len() - i,
    {
        assert(av[i as int] == (aliases@[i as int].0@, aliases@[i as int].1@));
        if aliases[i].0 == *n {
            let mut s = String::new();
            push_text(&mut s, aliases[i].1.as_str());
            return s;
        }
        i = i + 1;
    }
    let mut s = String::new();
    push_text(&mut s, n.as_str());
    s
}

/// Whether feature `w` can reach itself again.
fn on_cycle_exec(g: &Vec<Feature>, w: usize) -> (r: bool)
    requires
        w < g@.len(),
    ensures
        r == on_cycle(graph_view(g@), w as int),
{
    let ghost gv = graph_view(g@);
    let n = g.len();
    let mut inr: Vec<bool> = Vec::new();
    let mut i: usize = 0;
    while i < n
        invariant
            i <= n,
            n == g@.len(),
            inr@.len() == i,
            forall|y: int| 0 <= y < i ==> inr@[y] == false,
        decreases n - i,
    {
        inr.push(false);
        i = i + 1;
    }
    mark_enabled(g, w, &mut inr);
    assert forall|y: int| #[trigger] reach(gv, w as int, 0).contains(y) <==> (0 <= y < n && inr@[y]) by {
        if reach(gv, w as int, 0).contains(y) {
            lemma_enables_bounds(gv, w as int, y);
        }
    }
    let mut k: usize = 0;
    while k < n
        invariant
            gv == graph_view(g@),
            n == g@.len(),
            w < n,
            k <= n,
            inr@.len() == n,
            forall|y: int| #[trigger] reach(gv, w as int, k as nat).contains(y) <==> (0 <= y < n && inr@[y]),
        decreases n - k,
    {
        let old_inr = inr.clone();
        let ghost r0 = reach(gv, w as int, k as nat);
        let mut y: usize = 0;
        while y < n
            invariant
                gv == graph_view(g@),
                n == g@.len(),
                y <= n,
                inr@.len() == n,
                old_inr@.len() == n,
                forall|z: int| #[trigger] r0.contains(z) <==> (0 <= z < n && old_inr@[z]),
                forall|z: int| 0 <= z < n ==> (#[trigger] inr@[z] <==> (old_inr@[z]
                    || exists|x: int| 0 <= x < y && old_inr@[x] && enables(gv, x, z))),
            decreases n - y,
        {
            if old_inr[y] {
                let ghost before = inr@;
                mark_enabled(g, y, &mut inr);
                assert forall|z: int| 0 <= z < n implies (#[trigger] inr@[z] <==> (old_inr@[z]
                    || exists|x: int| 0 <= x < y + 1 && old_inr@[x] && enables(gv, x, z))) by {
                    if inr@[z] && !before[z] {
                        assert(enables(gv, y as int, z));
                    }
                    if exists|x: int| 0 <= x < y + 1 && old_inr@[x] && enables(gv, x, z) {
                        let x = choose|x: int| 0 <= x < y + 1 && old_inr@[x] && enables(gv, x, z);
                        if x < y {
                            assert(exists|x2: int| 0 <= x2 < y && old_inr@[x2] && enables(gv, x2, z));
                        }
                    }
                }
            } else {
                assert forall|z: int| 0 <= z < n implies (#[trigger] inr@[z] <==> (old_inr@[z]
                    || exists|x: int| 0 <= x < y + 1 && old_inr@[x] && enables(gv, x, z))) by {
                    if exists|x: int| 0 <= x < y + 1 && old_inr@[x] && enables(gv, x, z) {
                        let x = choose|x: int| 0 <= x < y + 1 && old_inr@[x] && enables(gv, x, z);
                        assert(x != y);
                        assert(exists|x2: int| 0 <= x2 < y && old_inr@[x2] && enables(gv, x2, z));
                    }
                }
            }
            y = y + 1;
        }
        assert forall|z: int| #[trigger] reach(gv, w as int, (k + 1) as nat).contains(z) <==> (0 <= z < n && inr@[z]) by {
            if reach(gv, w as int, (k + 1) as nat).contains(z) {
                if !r0.contains(z) {
                    let x = choose|x: int| r0.contains(x) && enables(gv, x, z);
                    lemma_enables_bounds(gv, x, z);
                    assert(0 <= x < n && old_inr@[x]);
                }
            }
            if 0 <= z < n && inr@[z] && !old_inr@[z] {
                let x = choose|x: int| 0 <= x < n && old_inr@[x] && enables(gv, x, z);
                assert(r0.contains(x));
            }
        }
        k = k + 1;
    }
    inr[w]
}

proof fn lemma_enables_bounds(g: Seq<FeatureView>, x: int, y: int)
    requires
        enables(g, x, y),
    ensures
        0 <= y < g.len(),
{
    let t = choose|t: int| 0 <= t < g[x].1.len() && find_from(g, #[trigger] g[x].1[t], 0) == Some(y);
    lemma_find_bounds(g, g[x].1[t], 0);
}

/// Marks every feature that feature `x` enables.
fn mark_enabled(g: &Vec<Feature>, x: usize, inr: &mut Vec<bool>)
    requires
        x < g@.len(),
        old(inr)@.len() == g@.len(),
    ensures
        final(inr)@.len() == g@.len(),
        forall|z: int| 0 <= z < g@.len() ==> (#[trigger] final(inr)@[z] <==> (old(inr)@[z] || enables(graph_view(g@), x as int, z))),
{
    let ghost gv = graph_view(g@);
    assert(gv[x as int] == g@[x as int]@);
    let ghost start = inr@;
    let fs = &g[x].features;
    let mut t: usize = 0;
    while t < fs.len()
        invariant
            gv == graph_view(g@),
            gv[x as int] == g@[x as int]@,
            fs@ == g@[x as int].features@,
            t <= fs@.len(),
            inr@.len() == g@.len(),
            forall|z: int| 0 <= z < g@.len() ==> (#[trigger] inr@[z] <==> (start[z]
                || exists|t2: int| 0 <= t2 < t && find_from(gv, #[trigger] gv[x as int].1[t2], 0) == Some(z))),
        decreases fs@.len() - t,
    {
        assert(gv[x as int].1[t as int] == fs@[t as int]@);
        proof { lemma_find_bounds(gv, gv[x as int].1[t as int], 0); }
        let ghost before = inr@;
        let found = find_feature(g, &fs[t]);
        match found {
            Some(z) => {
                inr.set(z, true);
            },
            None => {},
        }
        assert forall|z: int| 0 <= z < g@.len() implies (#[trigger] inr@[z] <==> (start[z]
            || exists|t2: int| 0 <= t2 < t + 1 && find_from(gv, #[trigger] gv[x as int].1[t2], 0) == Some(z))) by {
            if found.is_some() && found.unwrap() as int == z {
                assert(find_from(gv, gv[x as int].1[t as int], 0) == Some(z));
            } else {
                assert(inr@[z] == before[z]);
                if find_from(gv, gv[x as int].1[t as int], 0) == Some(z) {
                    assert(false);
                }
            }
            if exists|t2: int| 0 <= t2 < t + 1 && find_from(gv, #[trigger] gv[x as int].1[t2], 0) == Some(z) {
                let t2 = choose|t2: int| 0 <= t2 < t + 1 && find_from(gv, #[trigger] gv[x as int].1[t2], 0) == Some(z);
                if t2 < t {
                    assert(exists|t3: int| 0 <= t3 < t && find_from(gv, #[trigger] gv[x as int].1[t3], 0) == Some(z));
                }
            }
        }
        t = t + 1;
    }
}

/// Merges features whose names differ only in `-` against `_`: the later
/// one is merged into the first, every reference to it is redirected to the
/// first, and a merge that puts the kept feature on a cycle is an error
/// naming both features.
pub fn normalize_features(g: &Vec<Feature>) -> (r: Result<Vec<Feature>, FeatureCycle>)
    ensures
        ({
            let (out, aliases) = merge_upto(graph_view(g@), g@.len() as int);
            let rg = rewritten(out, aliases);
            match first_cycle(rg, aliases, aliases.len() as int) {
                Some(a) => r.is_err() && r->Err_0.merged@ == aliases[a].0 && r->Err_0.kept@ == aliases[a].1,
                None => r.is_ok() && graph_view(r->Ok_0@) == rg,
            }
        }),
{
    let ghost gv = graph_view(g@);
    let mut out: Vec<Feature> = Vec::new();
    let mut aliases: Vec<(String, String)> = Vec::new();
    let mut i: usize = 0;
    while i < g.len()
        invariant
            gv == graph_view(g@),
            i <= g@.len(),
            (graph_view(out@), aliases@.map_values(|a: (String, String)| (a.0@, a.1@))) == merge_upto(gv, i as int),
        decreases g@.len() - i,
    {
        assert(gv[i as int] == g@[i as int]@);
        let key = replace_char(g[i].name.as_str(), '_', '-');
        let ghost ov = graph_view(out@);
        let ghost av = aliases@.map_values(|a: (String, String)| (a.0@, a.1@));
        match find_norm_exec(&out, &key) {
            None => {
                out.push(copy_feature(&g[i]));
                assert(graph_view(out@) =~= ov.push(gv[i as int]));
            },
            Some(j) => {
                assert(ov[j as int] == out@[j as int]@);
                let mut merged = copy_feature(&out[j]);
                append_texts(&mut merged.features, &g[i].features);
                append_texts(&mut merged.deps, &g[i].deps);
                let mut loser = String::new();
                push_text(&mut loser, g[i].name.as_str());
                let mut winner = String::new();
                push_text(&mut winner, out[j].name.as_str());
                let ghost e = (loser@, winner@);
                aliases.push((loser, winner));
                assert(aliases@.map_values(|a: (String, String)| (a.0@, a.1@)) =~= av.push(e));
                out.set(j, merged);
                assert(graph_view(out@) =~= ov.update(j as int, (ov[j as int].0, ov[j as int].1 + gv[i as int].1, ov[j as int].2 + gv[i as int].2)));
            },
        }
        i = i + 1;
    }
    let ghost av = aliases@.map_values(|a: (String, String)| (a.0@, a.1@));
    let ghost ov = graph_view(out@);
    let mut rg: Vec<Feature> = Vec::new();
    let mut k: usize = 0;
    while k < out.len()
        invariant
            ov == graph_view(out@),
            av == aliases@.map_values(|a: (String, String)| (a.0@, a.1@)),
            gv == graph_view(g@),
            merge_upto(gv, g@.len() as int) == (ov, av),
            k <= out@.len(),
            graph_view(rg@) == rewritten(ov, av).subrange(0, k as int),
        decreases out@.len() - k,
    {
        assert(ov[k as int] == out@[k as int]@);
        let f = &out[k];
        let mut fs: Vec<String> = Vec::new();
        let mut t: usize = 0;
        while t < f.features.len()
            invariant
                t <= f.features@.len(),
                av == aliases@.map_values(|a: (String, String)| (a.0@, a.1@)),
                texts(fs@) == texts(f.features@).subrange(0, t as int).map_values(|n: Seq<char>| alias_target(av, n, 0)),
            decreases f.features@.len() - t,
        {
            let x = alias_exec(&aliases, &f.features[t]);
            let ghost prev = fs@;
            fs.push(x);
            assert(texts(fs@) =~= texts(prev).push(x@));
            assert(texts(f.features@).subrange(0, t + 1).map_values(|n: Seq<char>| alias_target(av, n, 0))
                =~= texts(f.features@).subrange(0, t as int).map_values(|n: Seq<char>| alias_target(av, n, 0)).push(alias_target(av, f.features@[t as int]@, 0)));
            t = t + 1;
        }
        assert(texts(f.features@).subrange(0, t as int) =~= texts(f.features@));
        let mut name = String::new();
        push_text(&mut name, f.name.as_str());
        let nf = if kept_exec(&aliases, &f.name) {
            let own = Some(copy_texts_one(&f.name));
            let none: Option<String> = None;
            Feature { name, features: tidy_exec(&fs, &own), deps: tidy_exec(&f.deps, &none) }
        } else {
            Feature { name, features: fs, deps: copy_texts(&f.deps) }
        };
        assert(nf@ == rewrite_one(ov[k as int], av));
        let ghost prev = graph_view(rg@);
        rg.push(nf);
        assert(graph_view(rg@) =~= prev.push(nf@));
        assert(rewritten(ov, av).subrange(0, k + 1) =~= rewritten(ov, av).subrange(0, k as int).push(rewritten(ov, av)[k as int]));
        k = k + 1;
    }
    assert(rewritten(ov, av).subrange(0, k as int) =~= rewritten(ov, av));
    let ghost rv = graph_view(rg@);
    let mut a: usize = 0;
    while a < aliases.len()
        invariant
            rv == graph_view(rg@),
            av == aliases@.map_values(|a: (String, String)| (a.0@, a.1@)),
            gv == graph_view(g@),
            merge_upto(gv, g@.len() as int) == (ov, av),
            rewritten(ov, av) == rv,
            a <= aliases@.len(),
            first_cycle(rv, av, a as int) is None,
        decreases aliases@.len() - a,
    {
        assert(av[a as int] == (aliases@[a as int].0@, aliases@[a as int].1@));
        proof { lemma_find_bounds(rv, av[a as int].1, 0); }
        match find_feature(&rg, &aliases[a].1) {
            Some(w) => {
                if on_cycle_exec(&rg, w) {
                    let mut kept = String::new();
                    push_text(&mut kept, aliases[a].1.as_str());
                    let mut merged = String::new();
                    push_text(&mut merged, aliases[a].0.as_str());
                    proof { lemma_first_cycle_stays(rv, av, a as int + 1); }
                    return Err(FeatureCycle { kept, merged });
                }
            },
            None => {},
        }
        a = a + 1;
    }
    Ok(rg)
}

proof fn lemma_first_cycle_stays(g: Seq<FeatureView>, aliases: Seq<(Seq<char>, Seq<char>)>, i: int)
    requires
        0 < i <= aliases.len(),
        first_cycle(g, aliases, i) is Some,
    ensures
        first_cycle(g, aliases, aliases.len() as int) == first_cycle(g, aliases, i),
    decreases aliases.len() - i,
{
    if i < aliases.len() {
        lemma_first_cycle_stays(g, aliases, i + 1);
    }
}
} // verus!
