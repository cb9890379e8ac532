//! The recursive walk over a crate's runtime dependencies, as a state
//! machine: the caller asks for the next crate to package, runs the
//! packaging pipeline, and reports the outcome back.
use vstd::prelude::*;
use crate::text::{contains_char, ends_with, ends_with_text, push_text, replace_char, replaced};
use crate::lockfile::same_str;

verus! {

/// A crate whose packaging failed, with the error text.
#[derive(Clone, Debug)]
pub struct FailedPackage {
    pub crate_name: String,
    pub version: String,
    pub error: String,
}

/// A request to package one crate.
#[derive(Clone, Debug)]
pub struct Request {
    /// The spelling to try: the requested name, or on the second attempt
    /// the name with `-` turned into `_`.
    pub crate_name: String,
    pub version: Option<String>,
}

/// What the packaging pipeline reports for a request.
#[derive(Clone, Debug)]
pub enum Outcome {
    /// The crate was packaged; its real name and runtime dependencies.
    Success { real_name: String, dependencies: Vec<(String, Option<String>)> },
    /// The crate could not be packaged.
    Failure { error: String },
}

/// The crate being packaged, between a request and its outcome.
#[derive(Clone, Debug)]
pub struct Attempt {
    pub crate_name: String,
    pub version: Option<String>,
    pub version_str: String,
    /// The error of the first spelling, once it has failed.
    pub first_error: Option<String>,
}

proof fn lemma_reversed_names_len(deps: Seq<(String, Option<String>)>, n: int)
    requires
        0 <= n,
    ensures
        reversed_names(deps, n).len() == n,
    decreases n,
{
    if n > 0 {
        lemma_reversed_names_len(deps, n - 1);
    }
}

/// The name at position `k` of the reversed list is that of dependency
/// `n - 1 - k`.
proof fn lemma_reversed_names_at(deps: Seq<(String, Option<String>)>, n: int, k: int)
    requires
        0 <= k < n,
    ensures
        reversed_names(deps, n).len() == n,
        reversed_names(deps, n)[k] == deps[n - 1 - k].0@,
    decreases n,
{
    lemma_reversed_names_len(deps, n);
    if k > 0 {
        lemma_reversed_names_at(deps, n - 1, k - 1);
    }
}

/// Pushing dependency `i` extends the reversed prefix by one.
proof fn lemma_reversed_names(deps: Seq<(String, Option<String>)>, n: int, i: int)
    requires
        0 <= i < n,
    ensures
        reversed_names(deps, n).subrange(0, n - i) == reversed_names(deps, n).subrange(0, n - i - 1).push(deps[i].0@),
{
    lemma_reversed_names_at(deps, n, n - 1 - i);
    assert(reversed_names(deps, n).subrange(0, n - i) =~= reversed_names(deps, n).subrange(0, n - i - 1).push(deps[i].0@));
}

/// The state of one walk.
pub struct RecursivePackager {
    /// Where the packages are written.
    pub base_dir: String,
    /// `(name, version)` of every crate packaged.
    pub processed: Vec<(String, String)>,
    /// `(name, version)` of the crate being packaged.
    pub in_progress: Vec<(String, String)>,
    pub failed: Vec<FailedPackage>,
    pub total_attempted: usize,
    /// Requested name with `-` for `_`, to the crate's real name.
    pub crate_name_map: Vec<(String, String)>,
    /// Crates still to visit, the next one last.
    pub pending: Vec<(String, Option<String>)>,
    /// The crate between request and outcome.
    pub current: Option<Attempt>,
}

pub open spec fn pair_views(s: Seq<(String, String)>) -> Seq<(Seq<char>, Seq<char>)> {
    s.map_values(|p: (String, String)| (p.0@, p.1@))
}

/// No two keys share a crate name.
pub open spec fn names_distinct(s: Seq<(Seq<char>, Seq<char>)>) -> bool {
    forall|i: int, j: int| 0 <= i < s.len() && 0 <= j < s.len() && i != j ==> (#[trigger] s[i]).0 != (#[trigger] s[j]).0
}

proof fn lemma_distinct_prefix(a: Seq<(Seq<char>, Seq<char>)>, b: Seq<(Seq<char>, Seq<char>)>)
    requires
        names_distinct(a + b),
    ensures
        names_distinct(a),
{
    assert forall|i: int, j: int| 0 <= i < a.len() && 0 <= j < a.len() && i != j implies (#[trigger] a[i]).0 != (#[trigger] a[j]).0 by {
        assert((a + b)[i] == a[i] && (a + b)[j] == a[j]);
    }
}

/// Some key of `s` has crate name `name`.
pub open spec fn has_name(s: Seq<(Seq<char>, Seq<char>)>, name: Seq<char>) -> bool {
    exists|i: int| 0 <= i < s.len() && (#[trigger] s[i]).0 == name
}

/// The crate names of queued requests, in queue order.
pub open spec fn pending_names(s: Seq<(String, Option<String>)>) -> Seq<Seq<char>> {
    s.map_values(|p: (String, Option<String>)| p.0@)
}

/// The names of the first `i` dependencies, last one first.
pub open spec fn reversed_names(deps: Seq<(String, Option<String>)>, i: int) -> Seq<Seq<char>>
    decreases i,
{
    if i <= 0 {
        seq![]
    } else {
        seq![deps[i - 1].0@] + reversed_names(deps, i - 1)
    }
}

/// The version text of a request: `latest` when none is given.
pub open spec fn version_text_of(v: Option<String>) -> Seq<char> {
    match v {
        Some(t) => t@,
        None => "latest"@,
    }
}

/// The error recorded for a crate whose packaging failed: the one error, or
/// after a second spelling was tried, both.
pub open spec fn failure_text(name: Seq<char>, first: Option<String>, error: Seq<char>) -> Seq<char> {
    match first {
        Some(e1) => "Both failed - '"@ + name + "': "@ + e1@ + ", '"@ + replaced(name, '-', '_') + "': "@ + error,
        None => error,
    }
}

pub open spec fn failed_views(s: Seq<FailedPackage>) -> Seq<(Seq<char>, Seq<char>)> {
    s.map_values(|f: FailedPackage| (f.crate_name@, f.version@))
}

impl RecursivePackager {
    /// Every crate name is packaged or being packaged at most once, and only
    /// a crate under way is marked in progress.
    pub open spec fn wf(&self) -> bool {
        &&& names_distinct(pair_views(self.processed@) + pair_views(self.in_progress@))
        &&& self.in_progress@.len() <= 1
        &&& (self.in_progress@.len() == 1) == self.busy()
        &&& self.busy() ==> self.current->Some_0.crate_name@ == self.in_progress@[0].0@
            && self.current->Some_0.version_str@ == self.in_progress@[0].1@
    }

    /// A request has been handed out and waits for its outcome.
    pub open spec fn busy(&self) -> bool {
        self.current is Some
    }

    /// A request is handed out again for a second spelling.
    pub open spec fn retrying(&self) -> bool {
        self.current is Some && self.current->Some_0.first_error is Some
    }

    /// Nothing is left to visit.
    pub open spec fn done(&self) -> bool {
        self.pending@.len() == 0 && self.current is None
    }

    /// The walk skips a crate that is packaged or under way under any
    /// version, or that failed before at this version.
    pub open spec fn skips(&self, name: Seq<char>, version: Seq<char>) -> bool {
        has_name(pair_views(self.processed@), name)
            || has_name(pair_views(self.in_progress@), name)
            || failed_views(self.failed@).contains((name, version))
    }

    /// A walk with nothing visited yet.
    pub fn new(base_dir: String) -> (r: RecursivePackager)
        ensures
            r.wf(),
            r.done(),
            r.processed@.len() == 0,
            r.failed@.len() == 0,
            r.total_attempted == 0,
    {
        let r = RecursivePackager {
            base_dir,
            processed: Vec::new(),
            in_progress: Vec::new(),
            failed: Vec::new(),
            total_attempted: 0,
            crate_name_map: Vec::new(),
            pending: Vec::new(),
            current: None,
        };
        assert(pair_views(r.processed@) + pair_views(r.in_progress@) =~= seq![]);
        r
    }

    /// Queues a crate to visit next.
    pub fn visit(&mut self, crate_name: String, version: Option<String>)
        requires
            old(self).wf(),
        ensures
            final(self).wf(),
            !final(self).done(),
            final(self).busy() == old(self).busy(),
            final(self).processed == old(self).processed,
            final(self).failed == old(self).failed,
            final(self).pending@ == old(self).pending@.push((crate_name, version)),
    {
        self.pending.push((crate_name, version));
    }

    fn pair_has_name(s: &Vec<(String, String)>, name: &String) -> (r: bool)
        ensures
            r == has_name(pair_views(s@), name@),
    {
        let mut i: usize = 0;
        while i < s.len()
            invariant
                i <= s@.len(),
                forall|j: int| 0 <= j < i ==> s@[j].0@ != name@,
            decreases s@.len() - i,
        {
            if s[i].0 == *name {
                assert(pair_views(s@)[i as int].0 == name@);
                return true;
            }
            i = i + 1;
        }
        proof {
            if has_name(pair_views(s@), name@) {
                let j = choose|j: int| 0 <= j < s@.len() && (#[trigger] pair_views(s@)[j]).0 == name@;
                assert(s@[j].0@ == name@);
            }
        }
        false
    }

    fn failed_before(&self, name: &String, version: &String) -> (r: bool)
        ensures
            r == failed_views(self.failed@).contains((name@, version@)),
    {
        let mut i: usize = 0;
        while i < self.failed.len()
            invariant
                i <= self.failed@.len(),
                forall|j: int| 0 <= j < i ==> failed_views(self.failed@)[j] != (name@, version@),
            decreases self.failed@.len() - i,
        {
            if self.failed[i].crate_name == *name && self.failed[i].version == *version {
                assert(failed_views(self.failed@)[i as int] == (name@, version@));
                return true;
            }
            i = i + 1;
        }
        false
    }

    /// The next crate to package: pops queued crates, skipping each that
    /// the walk has seen (see `skips`), and marks the first other one in
    /// progress. While a first spelling has failed, hands out the second one
    /// instead. `None` once nothing is left.
    pub fn next_action(&mut self) -> (r: Option<Request>)
        requires
            old(self).wf(),
            !old(self).busy() || old(self).retrying(),
        ensures
            final(self).wf(),
            final(self).processed == old(self).processed,
            final(self).failed == old(self).failed,
            final(self).crate_name_map == old(self).crate_name_map,
            r.is_none() ==> final(self).total_attempted == old(self).total_attempted
                && final(self).in_progress == old(self).in_progress,
            !old(self).retrying() ==> forall|k: int| #![trigger old(self).pending@[k]]
                final(self).pending@.len() + (if r.is_some() { 1int } else { 0int }) <= k < old(self).pending@.len()
                ==> old(self).skips(old(self).pending@[k].0@, version_text_of(old(self).pending@[k].1)),
            r.is_none() <==> final(self).done(),
            r.is_some() ==> final(self).busy(),
            old(self).retrying() ==> r.is_some() && final(self).in_progress == old(self).in_progress
                && final(self).total_attempted == old(self).total_attempted,
            final(self).pending@.len() <= old(self).pending@.len(),
            final(self).pending@ == old(self).pending@.subrange(0, final(self).pending@.len() as int),
            old(self).retrying() ==> final(self).pending == old(self).pending && final(self).retrying(),
            !old(self).retrying() && r.is_some() ==> {
                &&& final(self).pending@.len() < old(self).pending@.len()
                &&& final(self).in_progress@[0].0@ == old(self).pending@[final(self).pending@.len() as int].0@
                &&& !final(self).retrying()
                &&& final(self).in_progress@.len() == 1
                &&& !old(self).skips(final(self).in_progress@[0].0@, final(self).in_progress@[0].1@)
                &&& final(self).in_progress@[0].0@ == r.unwrap().crate_name@
                &&& final(self).in_progress@[0].1@
                    == version_text_of(old(self).pending@[final(self).pending@.len() as int].1)
                &&& final(self).current->Some_0.version == old(self).pending@[final(self).pending@.len() as int].1
                &&& (final(self).total_attempted == old(self).total_attempted + 1
                    || final(self).total_attempted == usize::MAX)
            },
    {
        match &self.current {
            Some(a) => {
                let alt = replace_char(a.crate_name.as_str(), '-', '_');
                let version = match &a.version {
                    Some(v) => {
                        let mut t = String::new();
                        push_text(&mut t, v.as_str());
                        Some(t)
                    },
                    None => None,
                };
                return Some(Request { crate_name: alt, version });
            },
            None => {},
        }
        while self.pending.len() > 0
            invariant
                self.wf(),
                !self.busy(),
                self.pending@.len() <= old(self).pending@.len(),
                self.pending@ == old(self).pending@.subrange(0, self.pending@.len() as int),
                self.processed == old(self).processed,
                self.failed == old(self).failed,
                self.total_attempted == old(self).total_attempted,
                self.crate_name_map == old(self).crate_name_map,
                self.in_progress == old(self).in_progress,
                self.in_progress@.len() == 0,
                !old(self).retrying(),
                forall|k: int| #![trigger old(self).pending@[k]] self.pending@.len() <= k < old(self).pending@.len()
                    ==> old(self).skips(old(self).pending@[k].0@, version_text_of(old(self).pending@[k].1)),
                forall|n: Seq<char>, v: Seq<char>| self.skips(n, v) == old(self).skips(n, v),
            decreases self.pending@.len(),
        {
            let ghost before_pop = self.pending@;
            let (name, version) = self.pending.pop().unwrap();
            assert(self.pending@ =~= old(self).pending@.subrange(0, self.pending@.len() as int));
            assert(name@ == old(self).pending@[self.pending@.len() as int].0@);
            let mut version_str = String::new();
            match &version {
                Some(v) => push_text(&mut version_str, v.as_str()),
                None => push_text(&mut version_str, "latest"),
            }
            assert(version_str@ == version_text_of(version));
            assert(version == old(self).pending@[self.pending@.len() as int].1);
            let skip = Self::pair_has_name(&self.processed, &name)
                || Self::pair_has_name(&self.in_progress, &name)
                || self.failed_before(&name, &version_str);
            if !skip {
                if self.total_attempted < usize::MAX {
                    self.total_attempted = self.total_attempted + 1;
                }
                let mut key_name = String::new();
                push_text(&mut key_name, name.as_str());
                let mut key_version = String::new();
                push_text(&mut key_version, version_str.as_str());
                let ghost before = self.in_progress@;
                self.in_progress.push((key_name, key_version));
                assert(self.in_progress@[0].0@ == name@);
                assert(self.in_progress@[0].1@ == version_str@);
                proof {
                    let all = pair_views(self.processed@) + pair_views(self.in_progress@);
                    assert(pair_views(self.in_progress@) =~= seq![(name@, version_str@)]);
                    assert forall|i: int, j: int| 0 <= i < all.len() && 0 <= j < all.len() && i != j
                        implies (#[trigger] all[i]).0 != (#[trigger] all[j]).0 by {
                        let pl = pair_views(self.processed@).len();
                        if i < pl && j < pl {
                            assert(all[i] == pair_views(self.processed@)[i]);
                            assert(all[j] == pair_views(self.processed@)[j]);
                        } else if i < pl {
                            assert(all[i] == pair_views(self.processed@)[i]);
                        } else if j < pl {
                            assert(all[j] == pair_views(self.processed@)[j]);
                        }
                    }
                }
                let mut request_name = String::new();
                push_text(&mut request_name, name.as_str());
                self.current = Some(Attempt { crate_name: name, version, version_str, first_error: None });
                let version_out = match &self.current {
                    Some(a) => match &a.version {
                        Some(v) => {
                            let mut t = String::new();
                            push_text(&mut t, v.as_str());
                            Some(t)
                        },
                        None => None,
                    },
                    None => None,
                };
                return Some(Request { crate_name: request_name, version: version_out });
            }
        }
        None
    }

    /// Takes the outcome of the request handed out last. On success the
    /// crate moves from in progress to processed and its dependencies are
    /// queued so that the first is visited next, depth first. On a first
    /// failure of a name with `-`, the `_` spelling is tried next; otherwise
    /// the failure is recorded, with both errors after two attempts, and the
    /// walk goes on.
    pub fn report(&mut self, outcome: Outcome)
        requires
            old(self).wf(),
            old(self).busy(),
        ensures
            final(self).wf(),
            final(self).total_attempted == old(self).total_attempted,
            (outcome is Success) ==> pending_names(final(self).pending@) == pending_names(old(self).pending@)
                + reversed_names(outcome->dependencies@, outcome->dependencies@.len() as int),
            (outcome is Failure) ==> final(self).pending == old(self).pending,
            (outcome is Failure) ==> final(self).retrying() || !final(self).busy(),
            final(self).retrying() ==> !old(self).retrying() && final(self).in_progress == old(self).in_progress,
            (outcome is Success) ==> {
                &&& !final(self).busy()
                &&& pair_views(final(self).processed@) == pair_views(old(self).processed@) + pair_views(old(self).in_progress@)
                &&& final(self).failed == old(self).failed
            },
            (outcome is Failure) ==> final(self).processed == old(self).processed,
            final(self).crate_name_map@.len() == old(self).crate_name_map@.len() + (if outcome is Success { 1int } else { 0int }),
            (outcome is Success) ==> {
                &&& pair_views(final(self).crate_name_map@) == pair_views(old(self).crate_name_map@).push(
                    (replaced(old(self).in_progress@[0].0@, '_', '-'), outcome->real_name@))
            },
            (outcome is Failure) ==> {
                let a = old(self).current->Some_0;
                let retry = a.first_error is None && old(self).in_progress@[0].0@.contains('-');
                if retry {
                    &&& final(self).retrying()
                    &&& final(self).failed == old(self).failed
                    &&& final(self).current->Some_0.first_error == Some(outcome->error)
                    &&& final(self).current->Some_0.version == a.version
                } else {
                    &&& !final(self).busy()
                    &&& final(self).in_progress@.len() == 0
                    &&& final(self).failed@.len() == old(self).failed@.len() + 1
                    &&& final(self).failed@.subrange(0, old(self).failed@.len() as int) == old(self).failed@
                    &&& final(self).failed@.last().crate_name@ == old(self).in_progress@[0].0@
                    &&& final(self).failed@.last().version@ == old(self).in_progress@[0].1@
                    &&& final(self).failed@.last().error@
                        == failure_text(old(self).in_progress@[0].0@, a.first_error, outcome->error@)
                }
            },
    {
        let attempt = match self.current.take() {
            Some(a) => a,
            None => {
                return;
            },
        };
        match outcome {
            Outcome::Success { real_name, dependencies } => {
                let normalized = replace_char(attempt.crate_name.as_str(), '_', '-');
                let ghost map_before = pair_views(self.crate_name_map@);
                let ghost entry = (normalized@, real_name@);
                self.crate_name_map.push((normalized, real_name));
                assert(pair_views(self.crate_name_map@) =~= map_before.push(entry));
                let ghost map_now = self.crate_name_map;
                let key = self.in_progress.pop().unwrap();
                let ghost before = pair_views(self.processed@);
                self.processed.push(key);
                assert(pair_views(self.processed@) =~= before.push((key.0@, key.1@)));
                assert(pair_views(self.in_progress@) =~= seq![]);
                assert(pair_views(self.processed@) + pair_views(self.in_progress@) =~= pair_views(old(self).processed@) + pair_views(old(self).in_progress@));
                let mut i = dependencies.len();
                let ghost processed_now = self.processed;
                let ghost failed_now = self.failed;
                let ghost in_progress_now = self.in_progress;
                let ghost attempted_now = self.total_attempted;
                let ghost pending_now = pending_names(self.pending@);
                let n_deps = dependencies.len();
                assert(pending_names(self.pending@) =~= pending_now + reversed_names(dependencies@, n_deps as int).subrange(0, (n_deps - i) as int));
                while i > 0
                    invariant
                        n_deps == dependencies@.len(),
                        pending_names(self.pending@) == pending_now
                            + reversed_names(dependencies@, n_deps as int).subrange(0, (n_deps - i) as int),
                        i <= dependencies@.len(),
                        self.wf(),
                        !self.busy(),
                        self.processed == processed_now,
                        self.failed == failed_now,
                        self.in_progress == in_progress_now,
                        self.total_attempted == attempted_now,
                        self.crate_name_map == map_now,
                    decreases i,
                {
                    i = i - 1;
                    let (n, v) = &dependencies[i];
                    let mut name = String::new();
                    push_text(&mut name, n.as_str());
                    let version = match v {
                        Some(t) => {
                            let mut x = String::new();
                            push_text(&mut x, t.as_str());
                            Some(x)
                        },
                        None => None,
                    };
                    let ghost prev = pending_names(self.pending@);
                    self.pending.push((name, version));
                    assert(pending_names(self.pending@) =~= prev.push(dependencies@[i as int].0@));
                    proof { lemma_reversed_names(dependencies@, n_deps as int, i as int); }
                    assert(pending_names(self.pending@) =~= pending_now
                        + reversed_names(dependencies@, n_deps as int).subrange(0, (n_deps - i) as int));
                }
                proof { lemma_reversed_names_len(dependencies@, n_deps as int); }
                assert(reversed_names(dependencies@, n_deps as int).subrange(0, n_deps as int) =~= reversed_names(dependencies@, n_deps as int));
            },
            Outcome::Failure { error } => {
                let retry = attempt.first_error.is_none() && contains_char(attempt.crate_name.as_str(), '-');
                if retry {
                    self.current = Some(Attempt {
                        crate_name: attempt.crate_name,
                        version: attempt.version,
                        version_str: attempt.version_str,
                        first_error: Some(error),
                    });
                } else {
                    let message = match &attempt.first_error {
                        Some(first) => {
                            let alt = replace_char(attempt.crate_name.as_str(), '-', '_');
                            let mut m = String::new();
                            push_text(&mut m, "Both failed - '");
                            push_text(&mut m, attempt.crate_name.as_str());
                            push_text(&mut m, "': ");
                            push_text(&mut m, first.as_str());
                            push_text(&mut m, ", '");
                            push_text(&mut m, alt.as_str());
                            push_text(&mut m, "': ");
                            push_text(&mut m, error.as_str());
                            m
                        },
                        None => error,
                    };
                    self.in_progress.pop();
                    proof { lemma_distinct_prefix(pair_views(old(self).processed@), pair_views(old(self).in_progress@)); }
                    assert(pair_views(self.processed@) + pair_views(self.in_progress@) =~= pair_views(self.processed@));
                    let ghost fb = self.failed@;
                    self.failed.push(FailedPackage {
                        crate_name: attempt.crate_name,
                        version: attempt.version_str,
                        error: message,
                    });
                    assert(self.failed@.subrange(0, fb.len() as int) =~= fb);
                }
            },
        }
    }
}


/// The kind of a manifest dependency.
#[derive(Clone, Copy, Debug, PartialEq, Eq, Structural)]
pub enum DepKind {
    Normal,
    Development,
    Build,
}

/// A dependency as a crate's manifest declares it.
#[derive(Clone, Debug)]
pub struct ManifestDep {
    pub name: String,
    pub kind: DepKind,
    pub optional: bool,
    /// The version requirement as written, `*` for any.
    pub version_req: String,
}

/// Internal crates of the Rust toolchain, never packaged on their own.
pub open spec fn is_toolchain_crate(n: Seq<char>) -> bool {
    n == "rustc_std_workspace_core"@ || n == "rustc_std_workspace_alloc"@
        || n == "rustc_std_workspace_std"@ || n == "compiler_builtins"@
}

/// A name that marks a procedural macro crate.
pub open spec fn is_macro_name(n: Seq<char>) -> bool {
    ends_with(n, "-derive"@) || ends_with(n, "-macro"@) || ends_with(n, "-macros"@)
}

/// Whether the walk follows a dependency of crate `current`: a runtime,
/// non-optional dependency on another crate that is neither part of the
/// toolchain nor a procedural macro.
pub open spec fn followed(current: Seq<char>, d: ManifestDep) -> bool {
    &&& d.kind == DepKind::Normal
    &&& replaced(d.name@, '-', '_') != replaced(current, '-', '_')
    &&& !is_toolchain_crate(replaced(d.name@, '-', '_'))
    &&& !is_macro_name(d.name@)
    &&& !d.optional
}

/// The request for a followed dependency: no version for `*`.
pub open spec fn request_of(d: ManifestDep) -> (Seq<char>, Option<Seq<char>>) {
    (d.name@, if d.version_req@ == "*"@ { None } else { Some(d.version_req@) })
}

/// The requests for the followed dependencies among the first `i`, each
/// crate name once, first one first.
pub open spec fn followed_upto(current: Seq<char>, ds: Seq<ManifestDep>, i: int) -> Seq<(Seq<char>, Option<Seq<char>>)>
    decreases i,
{
    if i <= 0 {
        seq![]
    } else {
        let prev = followed_upto(current, ds, i - 1);
        let d = ds[i - 1];
        if followed(current, d) && !(exists|k: int| 0 <= k < prev.len() && (#[trigger] prev[k]).0 == d.name@) {
            prev.push(request_of(d))
        } else {
            prev
        }
    }
}

pub open spec fn request_views(v: Seq<(String, Option<String>)>) -> Seq<(Seq<char>, Option<Seq<char>>)> {
    v.map_values(|r: (String, Option<String>)| (r.0@, match r.1 { Some(t) => Some(t@), None => None }))
}

fn toolchain_crate(n: &str) -> (r: bool)
    ensures
        r == is_toolchain_crate(n@),
{
    same_str(n, "rustc_std_workspace_core") || same_str(n, "rustc_std_workspace_alloc")
        || same_str(n, "rustc_std_workspace_std") || same_str(n, "compiler_builtins")
}

impl RecursivePackager {
    /// The dependencies the walk goes on to from crate `current_crate`:
    /// runtime dependencies only, without the crate itself (`-` and `_`
    /// alike), toolchain crates, procedural macro crates (`-derive`,
    /// `-macro`, `-macros`) and optional dependencies, each crate once, with
    /// its requirement unless that is `*`.
    pub fn extract_dependencies_from_crate_info(dependencies: &Vec<ManifestDep>, current_crate: &str) -> (r: Vec<(String, Option<String>)>)
        ensures
            request_views(r@) == followed_upto(current_crate@, dependencies@, dependencies@.len() as int),
    {
        proof {
            reveal_strlit("-derive");
            reveal_strlit("-macro");
            reveal_strlit("-macros");
            reveal_strlit("*");
        }
        let current = replace_char(current_crate, '-', '_');
        let mut out: Vec<(String, Option<String>)> = Vec::new();
        let mut i: usize = 0;
        while i < dependencies.len()
            invariant
                i <= dependencies@.len(),
                current@ == replaced(current_crate@, '-', '_'),
                request_views(out@) == followed_upto(current_crate@, dependencies@, i as int),
            decreases dependencies@.len() - i,
        {
            let d = &dependencies[i];
            let norm = replace_char(d.name.as_str(), '-', '_');
            let follow = d.kind == DepKind::Normal
                && norm != current
                && !toolchain_crate(norm.as_str())
                && !(ends_with_text(d.name.as_str(), "-derive") || ends_with_text(d.name.as_str(), "-macro")
                    || ends_with_text(d.name.as_str(), "-macros"))
                && !d.optional;
            if follow {
                let ghost prev = request_views(out@);
                let mut seen = false;
                let mut k: usize = 0;
                while k < out.len()
                    invariant
                        k <= out@.len(),
                        prev == request_views(out@),
                        seen == exists|k2: int| 0 <= k2 < k && (#[trigger] prev[k2]).0 == d.name@,
                    decreases out@.len() - k,
                {
                    assert(prev[k as int].0 == out@[k as int].0@);
                    if out[k].0 == d.name {
                        seen = true;
                    }
                    k = k + 1;
                }
                if !seen {
                    let mut name = String::new();
                    push_text(&mut name, d.name.as_str());
                    let version = if same_str(d.version_req.as_str(), "*") {
                        None
                    } else {
                        let mut v = String::new();
                        push_text(&mut v, d.version_req.as_str());
                        Some(v)
                    };
                    let ghost e = (name@, match version { Some(ref t) => Some(t@), None => None::<Seq<char>> });
                    out.push((name, version));
                    assert(request_views(out@) =~= prev.push(e));
                }
            }
            i = i + 1;
        }
        out
    }
}

/// Crates whose names are pairwise different number at most as many as the
/// names they are drawn from.
pub proof fn lemma_distinct_names_bounded(s: Seq<(Seq<char>, Seq<char>)>, names: Set<Seq<char>>)
    requires
        names.finite(),
        names_distinct(s),
        forall|k: int| 0 <= k < s.len() ==> names.contains(#[trigger] s[k].0),
    ensures
        s.len() <= names.len(),
{
    let t = s.map_values(|p: (Seq<char>, Seq<char>)| p.0);
    assert(t.no_duplicates()) by {
        assert forall|a: int, b: int| 0 <= a < t.len() && 0 <= b < t.len() && a != b implies t[a] != t[b] by {
            assert(t[a] == s[a].0 && t[b] == s[b].0);
        }
    }
    t.unique_seq_to_set();
    assert(t.to_set().subset_of(names)) by {
        assert forall|x: Seq<char>| t.to_set().contains(x) implies names.contains(x) by {
            let k = choose|k: int| 0 <= k < t.len() && t[k] == x;
            assert(s[k].0 == x);
        }
    }
    vstd::set_lib::lemma_len_subset(t.to_set(), names);
}

/// Every crate name a dependency table mentions, and the root.
pub open spec fn table_names(table: Seq<(String, Vec<String>)>, root: Seq<char>) -> Set<Seq<char>> {
    Set::new(|n: Seq<char>| n == root || exists|i: int, j: int|
        0 <= i < table.len() && 0 <= j < table[i].1@.len() && (#[trigger] table[i].1@[j])@ == n)
}

proof fn lemma_table_names_finite(table: Seq<(String, Vec<String>)>, root: Seq<char>)
    ensures
        table_names(table, root).finite(),
    decreases table.len(),
{
    if table.len() == 0 {
        assert(table_names(table, root) =~= set![root]);
    } else {
        let rest = table.drop_last();
        lemma_table_names_finite(rest, root);
        let lv = table.last().1@.map_values(|x: String| x@);
        let last = lv.to_set();
        assert(table_names(table, root) =~= table_names(rest, root).union(last)) by {
            assert forall|n: Seq<char>| table_names(table, root).contains(n) implies table_names(rest, root).union(last).contains(n) by {
                if n != root {
                    let (i, j) = choose|i: int, j: int|
                        0 <= i < table.len() && 0 <= j < table[i].1@.len() && (#[trigger] table[i].1@[j])@ == n;
                    if i < table.len() - 1 {
                        assert(rest[i].1@[j]@ == n);
                    } else {
                        assert(lv[j] == n);
                    }
                }
            }
            assert forall|n: Seq<char>| table_names(rest, root).union(last).contains(n) implies table_names(table, root).contains(n) by {
                if last.contains(n) && n != root {
                    let j = choose|j: int| 0 <= j < lv.len() && #[trigger] lv[j] == n;
                    assert(table[table.len() - 1].1@[j]@ == n);
                }
                if table_names(rest, root).contains(n) && n != root {
                    let (i, j) = choose|i: int, j: int|
                        0 <= i < rest.len() && 0 <= j < rest[i].1@.len() && (#[trigger] rest[i].1@[j])@ == n;
                    assert(table[i].1@[j]@ == n);
                }
            }
        }
    }
}

/// The first entry at or after `from` of the table listing crate `name`.
pub open spec fn first_entry(table: Seq<(String, Vec<String>)>, name: Seq<char>, from: int) -> Option<int>
    decreases table.len() - from,
{
    if from < 0 || from >= table.len() {
        None
    } else if table[from].0@ == name {
        Some(from)
    } else {
        first_entry(table, name, from + 1)
    }
}

/// Some failure was recorded for crate `n`.
pub open spec fn has_failed(f: Seq<FailedPackage>, n: Seq<char>) -> bool {
    exists|k: int| 0 <= k < f.len() && (#[trigger] f[k]).crate_name@ == n
}

/// The walk has packaged crate `n` or recorded its failure.
pub open spec fn handled(p: RecursivePackager, n: Seq<char>) -> bool {
    has_name(pair_views(p.processed@), n) || has_failed(p.failed@, n)
}

/// The walk has dealt with crate `n`, is dealing with it, or has it queued.
pub open spec fn covered(p: RecursivePackager, n: Seq<char>) -> bool {
    handled(p, n) || pending_names(p.pending@).contains(n) || (p.in_progress@.len() > 0 && p.in_progress@[0].0@ == n)
}

/// Every dependency that the table lists for a packaged crate satisfies `f`.
pub open spec fn deps_of_packaged(table: Seq<(String, Vec<String>)>, p: RecursivePackager, f: spec_fn(Seq<char>) -> bool) -> bool {
    forall|i: int, j: int| 0 <= i < table.len() && first_entry(table, table[i].0@, 0) == Some(i)
        && has_name(pair_views(p.processed@), table[i].0@) && 0 <= j < table[i].1@.len()
        ==> f(#[trigger] table[i].1@[j]@)
}

proof fn lemma_first_entry(table: Seq<(String, Vec<String>)>, name: Seq<char>, from: int)
    requires
        0 <= from,
    ensures
        match first_entry(table, name, from) {
            Some(i) => from <= i < table.len() && table[i].0@ == name,
            None => forall|k: int| from <= k < table.len() ==> (#[trigger] table[k]).0@ != name,
        },
    decreases table.len() - from,
{
    if from < table.len() && table[from].0@ != name {
        lemma_first_entry(table, name, from + 1);
    }
}

fn lookup_table(table: &Vec<(String, Vec<String>)>, name: &String) -> (r: Option<usize>)
    ensures
        match first_entry(table@, name@, 0) {
            Some(i) => r.is_some() && r.unwrap() as int == i && i < table@.len(),
            None => r.is_none(),
        },
{
    proof { lemma_first_entry(table@, name@, 0); }
    let mut i: usize = 0;
    while i < table.len()
        invariant
            i <= table@.len(),
            first_entry(table@, name@, 0) == first_entry(table@, name@, i as int),
        decreases table@.len() - i,
    {
        if table[i].0 == *name {
            return Some(i);
        }
        i = i + 1;
    }
    None
}

/// Runs a whole walk from `root` where packaging a crate means looking it
/// up in `table`: a listed crate succeeds with its listed dependencies, any
/// other fails. The walk ends for every table, cycles included, and
/// packages at most as many crates as the table names.
pub fn walk_table(table: &Vec<(String, Vec<String>)>, root: &str) -> (r: RecursivePackager)
    ensures
        r.wf(),
        r.done(),
        forall|k: int| 0 <= k < r.processed@.len()
            ==> table_names(table@, root@).contains(#[trigger] r.processed@[k].0@),
        r.processed@.len() <= table_names(table@, root@).len(),
        handled(r, root@),
        deps_of_packaged(table@, r, |n: Seq<char>| handled(r, n)),
{
    let ghost names = table_names(table@, root@);
    proof { lemma_table_names_finite(table@, root@); }
    let mut p = RecursivePackager::new(String::new());
    let mut root_name = String::new();
    push_text(&mut root_name, root);
    p.visit(root_name, None);
    assert(pending_names(p.pending@) =~= seq![root@]);
    assert(pending_names(p.pending@)[0] == root@);
    assert(!has_name(pair_views(p.processed@), root@) ==> true);
    assert forall|i: int, j: int| 0 <= i < table@.len() && first_entry(table@, table@[i].0@, 0) == Some(i)
        && has_name(pair_views(p.processed@), table@[i].0@) && 0 <= j < table@[i].1@.len()
        implies covered(p, #[trigger] table@[i].1@[j]@) by {
        let k = choose|k: int| 0 <= k < pair_views(p.processed@).len() && (#[trigger] pair_views(p.processed@)[k]).0 == table@[i].0@;
    }
    loop
        invariant
            names == table_names(table@, root@),
            names.finite(),
            p.wf(),
            !p.busy() || p.retrying(),
            forall|k: int| 0 <= k < p.pending@.len() ==> names.contains(#[trigger] p.pending@[k].0@),
            forall|k: int| 0 <= k < p.processed@.len() ==> names.contains(#[trigger] p.processed@[k].0@),
            p.busy() ==> names.contains(p.in_progress@[0].0@),
            p.processed@.len() <= names.len(),
            covered(p, root@),
            deps_of_packaged(table@, p, |n: Seq<char>| covered(p, n)),
            p.retrying() ==> first_entry(table@, p.in_progress@[0].0@, 0) is None,
        ensures
            p.wf(),
            p.done(),
            forall|k: int| 0 <= k < p.processed@.len() ==> names.contains(#[trigger] p.processed@[k].0@),
            p.processed@.len() <= names.len(),
            covered(p, root@),
            deps_of_packaged(table@, p, |n: Seq<char>| covered(p, n)),
        decreases names.len() - p.processed@.len(), p.pending@.len(), if p.retrying() { 1int } else { 0int },
    {
        let ghost before = p;
        let req = match p.next_action() {
            Some(req) => req,
            None => break,
        };
        proof {
            if !before.retrying() {
                let m = p.pending@.len() as int;
                assert(p.in_progress@[0].0@ == before.pending@[m].0@);
            }
            assert forall|k: int| 0 <= k < p.pending@.len() implies names.contains(#[trigger] p.pending@[k].0@) by {
                assert(p.pending@[k] == before.pending@[k]);
            }
            assert forall|n: Seq<char>| covered(before, n) implies covered(p, n) by {
                if pending_names(before.pending@).contains(n) && !before.retrying() {
                    let k = choose|k: int| 0 <= k < pending_names(before.pending@).len() && pending_names(before.pending@)[k] == n;
                    assert(before.pending@[k].0@ == n);
                    let m = p.pending@.len() as int;
                    if k < m {
                        assert(p.pending@[k] == before.pending@[k]);
                        assert(pending_names(p.pending@)[k] == n);
                    } else if k == m {
                    } else {
                        assert(before.skips(before.pending@[k].0@, version_text_of(before.pending@[k].1)));
                        if failed_views(before.failed@).contains((n, version_text_of(before.pending@[k].1))) {
                            let f = choose|f: int| 0 <= f < failed_views(before.failed@).len()
                                && failed_views(before.failed@)[f] == (n, version_text_of(before.pending@[k].1));
                            assert(before.failed@[f].crate_name@ == n);
                        }
                        if has_name(pair_views(before.in_progress@), n) {
                            let f = choose|f: int| 0 <= f < pair_views(before.in_progress@).len() && (#[trigger] pair_views(before.in_progress@)[f]).0 == n;
                        }
                    }
                }
            }
        }
        let ghost mid = p;
        let found = lookup_table(table, &req.crate_name);
        let outcome = match found {
            Some(i) => {
                let listed = &table[i].1;
                let mut deps: Vec<(String, Option<String>)> = Vec::new();
                let mut j: usize = 0;
                while j < listed.len()
                    invariant
                        i < table@.len(),
                        listed == &table@[i as int].1,
                        j <= listed@.len(),
                        deps@.len() == j,
                        forall|t: int| 0 <= t < j ==> (#[trigger] deps@[t]).0@ == listed@[t]@,
                    decreases listed@.len() - j,
                {
                    let mut n = String::new();
                    push_text(&mut n, listed[j].as_str());
                    deps.push((n, None));
                    j = j + 1;
                }
                proof {
                    assert forall|t: int| 0 <= t < deps@.len() implies names.contains(#[trigger] deps@[t].0@) by {
                        assert(table@[i as int].1@[t]@ == deps@[t].0@);
                    }
                }
                let mut real_name = String::new();
                push_text(&mut real_name, req.crate_name.as_str());
                Outcome::Success { real_name, dependencies: deps }
            },
            None => {
                let mut error = String::new();
                push_text(&mut error, "not found: ");
                push_text(&mut error, req.crate_name.as_str());
                Outcome::Failure { error }
            },
        };
        let ghost out = outcome;
        let ghost looked = first_entry(table@, req.crate_name@, 0);
        proof {
            if !mid.retrying() {
                assert(req.crate_name@ == mid.in_progress@[0].0@);
            }
            assert((out is Failure) ==> looked is None);
            match out {
                Outcome::Success { real_name, dependencies } => {
                    lemma_first_entry(table@, req.crate_name@, 0);
                },
                Outcome::Failure { .. } => {},
            }
        }
        p.report(outcome);
        proof {
            assert forall|n: Seq<char>| covered(mid, n) implies covered(p, n) by {
                lemma_covered_after_report(mid, p, out, n);
            }
            assert forall|i: int, j: int| 0 <= i < table@.len() && first_entry(table@, table@[i].0@, 0) == Some(i)
                && has_name(pair_views(p.processed@), table@[i].0@) && 0 <= j < table@[i].1@.len()
                implies covered(p, #[trigger] table@[i].1@[j]@) by {
                let nm = table@[i].0@;
                if has_name(pair_views(mid.processed@), nm) {
                    assert(covered(mid, table@[i].1@[j]@));
                } else {
                    match out {
                        Outcome::Success { real_name, dependencies } => {
                            let k = choose|k: int| 0 <= k < pair_views(p.processed@).len() && (#[trigger] pair_views(p.processed@)[k]).0 == nm;
                            assert(pair_views(p.processed@) == pair_views(mid.processed@) + pair_views(mid.in_progress@));
                            if k < pair_views(mid.processed@).len() {
                                assert(pair_views(mid.processed@)[k].0 == nm);
                                assert(false);
                            }
                            assert(mid.in_progress@[0].0@ == nm);
                            assert(!mid.retrying());
                            assert(req.crate_name@ == nm);
                            let n = dependencies@.len() as int;
                            lemma_reversed_names_len(dependencies@, n);
                            lemma_reversed_names_at(dependencies@, n, n - 1 - j);
                            let pos = pending_names(mid.pending@).len() + (n - 1 - j);
                            assert(pending_names(p.pending@)[pos] == dependencies@[j].0@);
                            assert(dependencies@[j].0@ == table@[i].1@[j]@);
                        },
                        Outcome::Failure { .. } => {
                            assert(pair_views(p.processed@) == pair_views(mid.processed@));
                        },
                    }
                }
            }
            if p.retrying() {
                assert(!mid.retrying());
                assert(p.in_progress@[0].0@ == mid.in_progress@[0].0@);
            }
            let all = pair_views(p.processed@) + pair_views(p.in_progress@);
            match out {
                Outcome::Success { real_name, dependencies } => {
                    let n = dependencies@.len() as int;
                    assert(p.processed@.len() == mid.processed@.len() + 1) by {
                        assert(pair_views(p.processed@).len() == p.processed@.len());
                    }
                    assert forall|k: int| 0 <= k < p.processed@.len() implies names.contains(#[trigger] p.processed@[k].0@) by {
                        assert(pair_views(p.processed@)[k] == (p.processed@[k].0@, p.processed@[k].1@));
                        if k < mid.processed@.len() {
                            assert(pair_views(mid.processed@)[k] == (mid.processed@[k].0@, mid.processed@[k].1@));
                        } else {
                            assert(pair_views(mid.in_progress@)[0] == (mid.in_progress@[0].0@, mid.in_progress@[0].1@));
                        }
                    }
                    lemma_reversed_names_len(dependencies@, n);
                    assert(pending_names(p.pending@).len() == p.pending@.len());
                    assert(pending_names(mid.pending@).len() == mid.pending@.len());
                    assert(p.pending@.len() == mid.pending@.len() + n);
                    assert forall|k: int| 0 <= k < p.pending@.len() implies names.contains(#[trigger] p.pending@[k].0@) by {
                        assert(pending_names(p.pending@)[k] == p.pending@[k].0@);
                        if k < mid.pending@.len() {
                            assert(pending_names(mid.pending@)[k] == mid.pending@[k].0@);
                        } else {
                            lemma_reversed_names_at(dependencies@, n, k - mid.pending@.len());
                        }
                    }
                    assert forall|k: int| 0 <= k < all.len() implies names.contains(#[trigger] all[k].0) by {
                        assert(pair_views(p.processed@)[k] == (p.processed@[k].0@, p.processed@[k].1@));
                    }
                    lemma_distinct_names_bounded(all, names);
                },
                Outcome::Failure { .. } => {},
            }
        }
    }
    proof {
        assert forall|i: int, j: int| 0 <= i < table@.len() && first_entry(table@, table@[i].0@, 0) == Some(i)
            && has_name(pair_views(p.processed@), table@[i].0@) && 0 <= j < table@[i].1@.len()
            implies handled(p, #[trigger] table@[i].1@[j]@) by {
            assert(covered(p, table@[i].1@[j]@));
            assert(pending_names(p.pending@).len() == 0);
        }
        assert(pending_names(p.pending@).len() == 0);
    }
    p
}

/// What holds of a crate the walk covered still holds after a report.
proof fn lemma_covered_after_report(mid: RecursivePackager, p: RecursivePackager, out: Outcome, n: Seq<char>)
    requires
        mid.wf(),
        mid.busy(),
        covered(mid, n),
        p.total_attempted == mid.total_attempted,
        (out is Success) ==> pending_names(p.pending@) == pending_names(mid.pending@)
            + reversed_names(out->dependencies@, out->dependencies@.len() as int),
        (out is Failure) ==> p.pending == mid.pending,
        (out is Success) ==> pair_views(p.processed@) == pair_views(mid.processed@) + pair_views(mid.in_progress@)
            && p.failed == mid.failed,
        (out is Failure) ==> p.processed == mid.processed,
        (out is Failure) ==> {
            let a = mid.current->Some_0;
            let retry = a.first_error is None && mid.in_progress@[0].0@.contains('-');
            if retry {
                &&& p.failed == mid.failed
                &&& p.in_progress == mid.in_progress
            } else {
                &&& p.failed@.len() == mid.failed@.len() + 1
                &&& p.failed@.subrange(0, mid.failed@.len() as int) == mid.failed@
                &&& p.failed@.last().crate_name@ == mid.in_progress@[0].0@
            }
        },
    ensures
        covered(p, n),
{
    if has_name(pair_views(mid.processed@), n) {
        let k = choose|k: int| 0 <= k < pair_views(mid.processed@).len() && (#[trigger] pair_views(mid.processed@)[k]).0 == n;
        if out is Success {
            assert(pair_views(p.processed@)[k] == pair_views(mid.processed@)[k]);
        }
    } else if has_failed(mid.failed@, n) {
        let k = choose|k: int| 0 <= k < mid.failed@.len() && (#[trigger] mid.failed@[k]).crate_name@ == n;
        if out is Failure {
            if p.failed != mid.failed {
                assert(p.failed@.subrange(0, mid.failed@.len() as int)[k] == p.failed@[k]);
            }
        }
    } else if pending_names(mid.pending@).contains(n) {
        let k = choose|k: int| 0 <= k < pending_names(mid.pending@).len() && pending_names(mid.pending@)[k] == n;
        if out is Success {
            assert(pending_names(p.pending@)[k] == n);
        }
    } else {
        assert(mid.in_progress@[0].0@ == n);
        if out is Success {
            let m = pair_views(mid.processed@).len();
            assert(pair_views(mid.in_progress@)[0].0 == n);
            assert(pair_views(p.processed@)[m as int].0 == n);
        } else {
            if p.failed != mid.failed {
                assert(p.failed@[p.failed@.len() - 1].crate_name@ == n);
            }
        }
    }
}
} // verus!
