//! Version requirements of dependencies, rendered as package relations.
use vstd::prelude::*;
use crate::naming::{base_deb_name, base_name_of, pkg_prefix, prefix_of};
use crate::range::{deb_clauses, inclast_of, texts, DepError, VRange, V};
use crate::text::{dec, less_text, lemma_text_lt_total, lemma_text_lt_transitive, text_lt, texts_sorted, pieces_upto, push_char, push_decimal, push_text, trim_end, trimmed_end};

verus! {

/// A comparison operator of a version requirement.
#[derive(Clone, Copy, Debug, PartialEq, Eq, Structural)]
pub enum Op {
    Exact,
    Greater,
    GreaterEq,
    Less,
    LessEq,
    Tilde,
    Caret,
    Wildcard,
}

/// One operator and version of a requirement, such as `^1.2`.
#[derive(Clone, Debug)]
pub struct Comparator {
    pub op: Op,
    pub major: u64,
    pub minor: Option<u64>,
    pub patch: Option<u64>,
    /// Pre-release tag, empty when absent.
    pub pre: String,
}

/// A dependency as the manifest reader hands it over.
#[derive(Clone, Debug)]
pub struct Dependency {
    pub name: String,
    pub uses_default_features: bool,
    pub features: Vec<String>,
    pub comparators: Vec<Comparator>,
}

/// No component of the comparator is at its largest value, so every bound
/// derived from it can be formed.
pub open spec fn comparator_ok(c: Comparator) -> bool {
    &&& c.major < u64::MAX
    &&& (match c.minor { Some(m) => m < u64::MAX, None => true })
    &&& (match c.patch { Some(p) => p < u64::MAX, None => true })
}

pub open spec fn dependency_ok(d: Dependency) -> bool {
    forall|i: int| 0 <= i < d.comparators@.len() ==> comparator_ok(#[trigger] d.comparators@[i])
}

/// The partial version a comparator names; `None` for a patch level without
/// a minor version.
pub open spec fn v_of(c: Comparator) -> Option<V> {
    if c.pre@.len() > 0 {
        Some(V::Prerelease(
            c.major,
            match c.minor { Some(m) => m, None => 0 },
            match c.patch { Some(p) => p, None => 0 },
            c.pre,
        ))
    } else {
        match (c.minor, c.patch) {
            (None, None) => Some(V::M(c.major)),
            (Some(m), None) => Some(V::MM(c.major, m)),
            (Some(m), Some(p)) => Some(V::MMP(c.major, m, p)),
            (None, Some(_)) => None,
        }
    }
}

/// `>= 0` cannot be told apart from "any version" in the target syntax and is
/// read as `> 0`.
pub open spec fn coerced_op(op: Op, v: V) -> Op {
    match (op, v) {
        (Op::GreaterEq, V::M(0)) => Op::Greater,
        _ => op,
    }
}

pub open spec fn lower(r: VRange, v: V) -> VRange {
    VRange {
        ge: match r.ge {
            Some(g) => if crate::range::v_lt(v, g) { Some(g) } else { Some(v) },
            None => Some(v),
        },
        lt: r.lt,
    }
}

pub open spec fn upper(r: VRange, v: V) -> VRange {
    VRange {
        ge: r.ge,
        lt: match r.lt {
            Some(l) => if !crate::range::v_lt(v, l) { Some(l) } else { Some(v) },
            None => Some(v),
        },
    }
}

/// `< 0`, `< 0.0` and `< 0.0.0` admit no version.
pub open spec fn below_zero(v: V) -> bool {
    match v {
        V::M(0) => true,
        V::MM(0, 0) => true,
        V::MMP(0, 0, 0) => true,
        _ => false,
    }
}

/// The range after applying one operator: `None` where the bound cannot be
/// expressed.
pub open spec fn step(r: VRange, op: Op, v: V) -> Option<VRange> {
    match op {
        Op::Less => if below_zero(v) { None } else { Some(upper(r, v)) },
        Op::LessEq => Some(upper(r, inclast_of(v))),
        Op::Greater => Some(lower(r, inclast_of(v))),
        Op::GreaterEq => Some(lower(r, v)),
        Op::Exact | Op::Wildcard => Some(lower(upper(r, inclast_of(v)), v)),
        Op::Tilde => match v {
            V::M(_) | V::MM(_, _) => Some(lower(upper(r, inclast_of(v)), v)),
            V::MMP(a, b, _) => Some(lower(upper(r, V::MM(a, (b + 1) as u64)), v)),
            V::Prerelease(a, b, _, _) => Some(lower(upper(r, V::MM(a, (b + 1) as u64)), v)),
        },
        Op::Caret => match v {
            V::MMP(0, 0, _) | V::Prerelease(0, 0, _, _) => Some(lower(upper(r, inclast_of(v)), v)),
            V::MMP(0, b, _) | V::MM(0, b) | V::Prerelease(0, b, _, _) =>
                Some(lower(upper(r, V::MM(0, (b + 1) as u64)), v)),
            V::MMP(a, _, _) | V::MM(a, _) | V::M(a) | V::Prerelease(a, _, _, _) =>
                Some(lower(upper(r, V::M((a + 1) as u64)), v)),
        },
    }
}

/// The outcome of folding comparators into a range: the range, or the kind
/// of the first failure (`0`: patch without minor, `1`: unrepresentable).
pub open spec fn fold_range(cs: Seq<Comparator>) -> Result<VRange, u8>
    decreases cs.len(),
{
    if cs.len() == 0 {
        Ok(VRange { ge: None, lt: None })
    } else {
        match fold_range(cs.drop_last()) {
            Err(k) => Err(k),
            Ok(r) => {
                let c = cs.last();
                match v_of(c) {
                    None => Err(0),
                    Some(v) => match step(r, coerced_op(c.op, v), v) {
                        None => Err(1),
                        Some(r2) => Ok(r2),
                    },
                }
            },
        }
    }
}

/// The package suffix for one enabled feature.
pub open spec fn feature_suffix(f: Seq<char>) -> Seq<char> {
    seq!['+'] + base_name_of(f) + "-dev"@
}

/// One suffix per enabled feature set: `+default-dev` when default features
/// are used, `+f-dev` for each named feature, and `-dev` when there is none.
pub open spec fn suffixes_of(d: Dependency) -> Seq<Seq<char>> {
    let all = (if d.uses_default_features { seq!["+default-dev"@] } else { seq![] })
        + d.features@.map_values(|f: String| feature_suffix(f@));
    if all.len() == 0 { seq!["-dev"@] } else { all }
}

/// The relations of a range for each suffix, in order.
pub open spec fn clauses_for(r: VRange, base: Seq<char>, sufs: Seq<Seq<char>>) -> Seq<Seq<char>>
    decreases sufs.len(),
{
    if sufs.len() == 0 {
        seq![]
    } else {
        clauses_for(r, base, sufs.drop_last()) + deb_clauses(r, base, sufs.last()).unwrap()
    }
}

/// The package a dependency's relations name.
pub open spec fn dep_base(testing: bool, d: Dependency) -> Seq<char> {
    prefix_of(testing) + seq!['-'] + base_name_of(d.name@)
}

/// The relations for a dependency, or the kind of error
/// (`0`: patch without minor, `1`: unrepresentable, `2`: empty range).
pub open spec fn deb_dep_spec(testing: bool, d: Dependency) -> Result<Seq<Seq<char>>, u8> {
    match fold_range(d.comparators@) {
        Err(k) => Err(k),
        Ok(r) => match deb_clauses(r, dep_base(testing, d), "-dev"@) {
            None => Err(2),
            Some(_) => Ok(clauses_for(r, dep_base(testing, d), suffixes_of(d))),
        },
    }
}

/// The kind of a translation error, as `deb_dep_spec` numbers them.
pub open spec fn error_kind(e: DepError) -> u8 {
    match e {
        DepError::PatchWithoutMinor => 0,
        DepError::Unrepresentable { .. } => 1,
        DepError::BadRange { .. } => 2,
    }
}

impl V {
    /// The partial version a comparator names.
    pub fn new(p: &Comparator) -> (r: Result<V, DepError>)
        ensures
            match v_of(*p) {
                Some(v) => r == Ok::<V, DepError>(v),
                None => r.is_err() && error_kind(r->Err_0) == 0,
            },
    {
        if p.pre.as_str().unicode_len() > 0 {
            let minor = match p.minor { Some(m) => m, None => 0 };
            let patch = match p.patch { Some(x) => x, None => 0 };
            return Ok(V::Prerelease(p.major, minor, patch, p.pre.clone()));
        }
        match (p.minor, p.patch) {
            (None, None) => Ok(V::M(p.major)),
            (Some(minor), None) => Ok(V::MM(p.major, minor)),
            (Some(minor), Some(patch)) => Ok(V::MMP(p.major, minor, patch)),
            (None, Some(_)) => Err(DepError::PatchWithoutMinor),
        }
    }
}

/// The text of an operator.
pub open spec fn op_text(op: Op) -> Seq<char> {
    match op {
        Op::Exact => "="@,
        Op::Greater => ">"@,
        Op::GreaterEq => ">="@,
        Op::Less => "<"@,
        Op::LessEq => "<="@,
        Op::Tilde => "~"@,
        Op::Caret => "^"@,
        Op::Wildcard => seq![],
    }
}

/// A comparator as written in a requirement: operator, then the given parts,
/// `.*` where a wildcard stands for the rest, and a pre-release tag after a
/// full version.
pub open spec fn comparator_text_of(c: Comparator) -> Seq<char> {
    op_text(c.op) + dec(c.major as nat) + match c.minor {
        Some(m) => seq!['.'] + dec(m as nat) + match c.patch {
            Some(x) => seq!['.'] + dec(x as nat) + (if c.pre@.len() > 0 { seq!['-'] + c.pre@ } else { seq![] }),
            None => if c.op == Op::Wildcard { ".*"@ } else { seq![] },
        },
        None => if c.op == Op::Wildcard { ".*"@ } else { seq![] },
    }
}

/// A requirement as written: its comparators separated by `, `, or `*`
/// where there is none.
pub open spec fn req_text_of(cs: Seq<Comparator>) -> Seq<char>
    decreases cs.len(),
{
    if cs.len() == 0 {
        "*"@
    } else if cs.len() == 1 {
        comparator_text_of(cs[0])
    } else {
        req_text_of(cs.drop_last()) + ", "@ + comparator_text_of(cs.last())
    }
}

/// The text of a comparator.
pub fn comparator_text(p: &Comparator) -> (r: String)
    ensures
        r@ == comparator_text_of(*p),
{
    let mut s = String::new();
    match p.op {
        Op::Exact => push_text(&mut s, "="),
        Op::Greater => push_text(&mut s, ">"),
        Op::GreaterEq => push_text(&mut s, ">="),
        Op::Less => push_text(&mut s, "<"),
        Op::LessEq => push_text(&mut s, "<="),
        Op::Tilde => push_text(&mut s, "~"),
        Op::Caret => push_text(&mut s, "^"),
        Op::Wildcard => {},
    }
    assert(s@ =~= op_text(p.op));
    push_decimal(&mut s, p.major);
    match p.minor {
        Some(m) => {
            push_char(&mut s, '.');
            push_decimal(&mut s, m);
            match p.patch {
                Some(x) => {
                    push_char(&mut s, '.');
                    push_decimal(&mut s, x);
                    if p.pre.as_str().unicode_len() > 0 {
                        push_char(&mut s, '-');
                        push_text(&mut s, p.pre.as_str());
                    }
                },
                None => if p.op == Op::Wildcard { push_text(&mut s, ".*") },
            }
        },
        None => if p.op == Op::Wildcard { push_text(&mut s, ".*") },
    }
    assert(s@ =~= comparator_text_of(*p));
    s
}

/// The text of a dependency's requirement.
pub fn req_text(d: &Dependency) -> (r: String)
    ensures
        r@ == req_text_of(d.comparators@),
{
    let cs = &d.comparators;
    if cs.len() == 0 {
        let mut s = String::new();
        push_text(&mut s, "*");
        return s;
    }
    let mut s = comparator_text(&cs[0]);
    let mut i: usize = 1;
    assert(cs@.subrange(0, 1).len() == 1);
    assert(req_text_of(cs@.subrange(0, 1)) == comparator_text_of(cs@.subrange(0, 1)[0]));
    while i < cs.len()
        invariant
            1 <= i <= cs@.len(),
            s@ == req_text_of(cs@.subrange(0, i as int)),
        decreases cs@.len() - i,
    {
        push_text(&mut s, ", ");
        let t = comparator_text(&cs[i]);
        push_text(&mut s, t.as_str());
        assert(cs@.subrange(0, i + 1).drop_last() =~= cs@.subrange(0, i as int));
        i = i + 1;
    }
    assert(cs@.subrange(0, i as int) =~= cs@);
    s
}

/// The operator to apply for a comparator: `>= 0` becomes `> 0`.
pub fn coerce_unacceptable_predicate(p: &Comparator) -> (r: Result<Op, DepError>)
    ensures
        match v_of(*p) {
            Some(v) => r == Ok::<Op, DepError>(coerced_op(p.op, v)),
            None => r.is_err() && error_kind(r->Err_0) == 0,
        },
{
    let v = V::new(p)?;
    match (p.op, &v) {
        (Op::GreaterEq, V::M(0)) => Ok(Op::Greater),
        _ => Ok(p.op),
    }
}

/// Narrows the range by one comparator under operator `op`.
pub fn generate_version_constraints(vr: &mut VRange, dep_name: &str, p: &Comparator, op: Op) -> (r: Result<(), DepError>)
    requires
        comparator_ok(*p),
    ensures
        match v_of(*p) {
            None => r.is_err() && error_kind(r->Err_0) == 0,
            Some(v) => match step(*old(vr), op, v) {
                None => r.is_err() && error_kind(r->Err_0) == 1 && *final(vr) == *old(vr),
                Some(n) => r.is_ok() && *final(vr) == n,
            },
        },
{
    let mmp = V::new(p)?;
    match op {
        Op::Less => {
            let zero = match &mmp {
                V::M(a) => *a == 0,
                V::MM(a, b) => *a == 0 && *b == 0,
                V::MMP(a, b, c) => *a == 0 && *b == 0 && *c == 0,
                V::Prerelease(..) => false,
            };
            if zero {
                let mut name = String::new();
                push_text(&mut name, dep_name);
                return Err(DepError::Unrepresentable { name, comparator: comparator_text(p) });
            }
            vr.constrain_lt(mmp);
        },
        Op::LessEq => {
            vr.constrain_lt(mmp.inclast());
        },
        Op::Greater => {
            vr.constrain_ge(mmp.inclast());
        },
        Op::GreaterEq => {
            vr.constrain_ge(mmp);
        },
        Op::Exact | Op::Wildcard => {
            vr.constrain_lt(mmp.inclast());
            vr.constrain_ge(mmp);
        },
        Op::Tilde => {
            let hi = match &mmp {
                V::M(_) | V::MM(_, _) => mmp.inclast(),
                V::MMP(a, b, _) => V::MM(*a, *b + 1),
                V::Prerelease(a, b, _, _) => V::MM(*a, *b + 1),
            };
            vr.constrain_lt(hi);
            vr.constrain_ge(mmp);
        },
        Op::Caret => {
            let hi = match &mmp {
                V::MMP(0, 0, _) | V::Prerelease(0, 0, _, _) => mmp.inclast(),
                V::MMP(0, b, _) | V::MM(0, b) | V::Prerelease(0, b, _, _) => V::MM(0, *b + 1),
                V::MMP(a, _, _) | V::MM(a, _) | V::M(a) | V::Prerelease(a, _, _, _) => V::M(*a + 1),
            };
            vr.constrain_lt(hi);
            vr.constrain_ge(mmp);
        },
    }
    Ok(())
}

/// The range that all comparators of a dependency allow.
pub fn version_range(dep: &Dependency) -> (r: Result<VRange, DepError>)
    requires
        dependency_ok(*dep),
    ensures
        match fold_range(dep.comparators@) {
            Ok(v) => r.is_ok() && r.unwrap() == v,
            Err(k) => r.is_err() && error_kind(r->Err_0) == k,
        },
{
    let mut vr = VRange::new();
    let mut i: usize = 0;
    let n = dep.comparators.len();
    while i < n
        invariant
            n == dep.comparators@.len(),
            i <= n,
            dependency_ok(*dep),
            fold_range(dep.comparators@.subrange(0, i as int)) == Ok::<VRange, u8>(vr),
        decreases n - i,
    {
        let p = &dep.comparators[i];
        assert(dep.comparators@.subrange(0, i + 1).drop_last() =~= dep.comparators@.subrange(0, i as int));
        assert(comparator_ok(dep.comparators@[i as int]));
        let op = match coerce_unacceptable_predicate(p) {
            Ok(op) => op,
            Err(e) => {
                proof { lemma_fold_stops(dep.comparators@, (i + 1) as int); }
                return Err(e);
            },
        };
        match generate_version_constraints(&mut vr, dep.name.as_str(), p, op) {
            Ok(()) => {},
            Err(e) => {
                proof { lemma_fold_stops(dep.comparators@, (i + 1) as int); }
                return Err(e);
            },
        }
        i = i + 1;
    }
    assert(dep.comparators@.subrange(0, n as int) =~= dep.comparators@);
    Ok(vr)
}

/// Once the fold fails it stays failed with the same kind.
proof fn lemma_fold_stops(cs: Seq<Comparator>, i: int)
    requires
        0 < i <= cs.len(),
        fold_range(cs.subrange(0, i)) is Err,
    ensures
        fold_range(cs) == fold_range(cs.subrange(0, i)),
    decreases cs.len() - i,
{
    if i == cs.len() {
        assert(cs.subrange(0, i) =~= cs);
    } else {
        assert(cs.subrange(0, i + 1).drop_last() =~= cs.subrange(0, i));
        lemma_fold_stops(cs, i + 1);
    }
}

/// The package suffixes of a dependency, one per enabled feature set.
pub fn dep_suffixes(dep: &Dependency) -> (r: Vec<String>)
    ensures
        texts(r@) == suffixes_of(*dep),
{
    let mut out: Vec<String> = Vec::new();
    if dep.uses_default_features {
        let mut s = String::new();
        push_text(&mut s, "+default-dev");
        out.push(s);
    }
    let ghost head = texts(out@);
    let mut i: usize = 0;
    let n = dep.features.len();
    while i < n
        invariant
            n == dep.features@.len(),
            i <= n,
            head == (if dep.uses_default_features { seq!["+default-dev"@] } else { seq![] }),
            texts(out@) == head + dep.features@.subrange(0, i as int).map_values(|f: String| feature_suffix(f@)),
        decreases n - i,
    {
        let mut s = String::new();
        push_char(&mut s, '+');
        let b = base_deb_name(dep.features[i].as_str());
        push_text(&mut s, b.as_str());
        push_text(&mut s, "-dev");
        let ghost prev = out@;
        out.push(s);
        assert(out@ == prev.push(s));
        assert(texts(out@) =~= texts(prev).push(s@));
        assert(dep.features@.subrange(0, i + 1) =~= dep.features@.subrange(0, i as int).push(dep.features@[i as int]));
        i = i + 1;
        assert(texts(out@) =~= head + dep.features@.subrange(0, i as int).map_values(|f: String| feature_suffix(f@)));
    }
    assert(dep.features@.subrange(0, n as int) =~= dep.features@);
    if out.len() == 0 {
        let mut s = String::new();
        push_text(&mut s, "-dev");
        out.push(s);
    }
    assert(texts(out@) =~= suffixes_of(*dep));
    out
}

/// Translates a dependency into package relations: for each enabled feature
/// set, the relations that its version range renders to.
pub fn deb_dep(allow_prerelease_deps: bool, testing: bool, dep: &Dependency) -> (r: Result<Vec<String>, DepError>)
    requires
        dependency_ok(*dep),
    ensures
        match deb_dep_spec(testing, *dep) {
            Ok(c) => r.is_ok() && texts(r.unwrap()@) == c,
            Err(k) => r.is_err() && error_kind(r->Err_0) == k,
        },
{
    let vr = version_range(dep)?;
    let dep_dashed = base_deb_name(dep.name.as_str());
    let mut base = String::new();
    push_text(&mut base, pkg_prefix(testing));
    push_char(&mut base, '-');
    push_text(&mut base, dep_dashed.as_str());
    assert(base@ == dep_base(testing, *dep));
    let sufs = dep_suffixes(dep);
    let mut deps: Vec<String> = Vec::new();
    let mut i: usize = 0;
    let n = sufs.len();
    while i < n
        invariant
            n == sufs@.len(),
            i <= n,
            texts(sufs@) == suffixes_of(*dep),
            fold_range(dep.comparators@) == Ok::<VRange, u8>(vr),
            base@ == dep_base(testing, *dep),
            texts(deps@) == clauses_for(vr, base@, texts(sufs@).subrange(0, i as int)),
            i > 0 ==> deb_clauses(vr, base@, "-dev"@) is Some,
        decreases n - i,
    {
        let c = match vr.to_deb_clause(base.as_str(), sufs[i].as_str()) {
            Ok(c) => c,
            Err(e) => {
                proof { lemma_bad_range_any_suffix(vr, base@, sufs@[i as int]@, "-dev"@); }
                return Err(e);
            },
        };
        proof { lemma_bad_range_any_suffix(vr, base@, sufs@[i as int]@, "-dev"@); }
        let ghost before = texts(deps@);
        let mut j: usize = 0;
        while j < c.len()
            invariant
                j <= c@.len(),
                texts(deps@) == before + texts(c@).subrange(0, j as int),
            decreases c@.len() - j,
        {
            let ghost prev = deps@;
            let x = c[j].clone();
            deps.push(x);
            assert(texts(deps@) =~= texts(prev).push(x@));
            assert(texts(c@).subrange(0, j + 1) =~= texts(c@).subrange(0, j as int).push(c@[j as int]@));
            j = j + 1;
            assert(texts(deps@) =~= before + texts(c@).subrange(0, j as int));
        }
        assert(texts(c@).subrange(0, c@.len() as int) =~= texts(c@));
        assert(texts(sufs@).subrange(0, i + 1).drop_last() =~= texts(sufs@).subrange(0, i as int));
        i = i + 1;
    }
    assert(texts(sufs@).subrange(0, n as int) =~= texts(sufs@));
    assert(texts(sufs@).len() > 0);
    Ok(deps)
}

/// Whether a range renders does not depend on the suffix.
proof fn lemma_bad_range_any_suffix(r: VRange, base: Seq<char>, s1: Seq<char>, s2: Seq<char>)
    ensures
        (deb_clauses(r, base, s1) is None) == (deb_clauses(r, base, s2) is None),
{
}


/// The interval a single comparator allows, as the requirement syntax
/// documents it: `=v` and `v.*` allow `[v, v+)`, `>v` allows `[v+, ∞)`, `>=v`
/// allows `[v, ∞)` (with `>= 0` read as `> 0`), `<v` allows `(-∞, v)`, `<=v`
/// allows `(-∞, v+)`, `~v` allows `[v, I.(J+1))` for `I.J` or `I.J.K` and
/// `[v, I+1)` for `I`, and `^v` allows `[v, v+)` for `0.0.K`, `[v, 0.(J+1))`
/// for `0.J` and `0.J.K`, and `[v, I+1)` otherwise, where `v+` raises the
/// last given component.
pub open spec fn documented_interval(op: Op, v: V) -> VRange {
    let (major, minor, _) = crate::range::mmp_of(v);
    match op {
        Op::Exact | Op::Wildcard => VRange { ge: Some(v), lt: Some(inclast_of(v)) },
        Op::Greater => VRange { ge: Some(inclast_of(v)), lt: None },
        Op::GreaterEq => if v == V::M(0) {
            VRange { ge: Some(V::M(1)), lt: None }
        } else {
            VRange { ge: Some(v), lt: None }
        },
        Op::Less => VRange { ge: None, lt: Some(v) },
        Op::LessEq => VRange { ge: None, lt: Some(inclast_of(v)) },
        Op::Tilde => match v {
            V::M(a) => VRange { ge: Some(v), lt: Some(V::M((a + 1) as u64)) },
            _ => VRange { ge: Some(v), lt: Some(V::MM(major, (minor + 1) as u64)) },
        },
        Op::Caret => match v {
            V::MMP(0, 0, _) | V::Prerelease(0, 0, _, _) => VRange { ge: Some(v), lt: Some(inclast_of(v)) },
            V::M(a) => VRange { ge: Some(v), lt: Some(V::M((a + 1) as u64)) },
            _ => if major == 0 {
                VRange { ge: Some(v), lt: Some(V::MM(0, (minor + 1) as u64)) }
            } else {
                VRange { ge: Some(v), lt: Some(V::M((major + 1) as u64)) }
            },
        },
    }
}

/// A requirement of one comparator yields exactly the interval its operator
/// documents, for every comparator that names a version and is not one of
/// `< 0`, `< 0.0`, `< 0.0.0`.
pub proof fn lemma_single_comparator_interval(c: Comparator)
    requires
        comparator_ok(c),
        v_of(c) is Some,
        !(c.op == Op::Less && below_zero(v_of(c)->Some_0)),
    ensures
        fold_range(seq![c]) == Ok::<VRange, u8>(documented_interval(c.op, v_of(c)->Some_0)),
{
    let v = v_of(c)->Some_0;
    assert(seq![c].drop_last() =~= Seq::<Comparator>::empty());
    assert(fold_range(Seq::<Comparator>::empty()) == Ok::<VRange, u8>(VRange { ge: None, lt: None }));
}

/// No text occurs twice.
pub open spec fn texts_distinct(s: Seq<Seq<char>>) -> bool {
    forall|a: int, b: int| 0 <= a < s.len() && 0 <= b < s.len() && a != b ==> s[a] != s[b]
}

/// Adds a text in sorted position unless it is there already.
pub(crate) fn insert_text(v: &mut Vec<String>, x: String)
    requires
        texts_distinct(texts(old(v)@)),
        texts_sorted(texts(old(v)@)),
    ensures
        texts_distinct(texts(final(v)@)),
        texts_sorted(texts(final(v)@)),
        texts(final(v)@).to_set() == texts(old(v)@).to_set().insert(x@),
{
    let ghost s = texts(v@);
    let mut i: usize = 0;
    while i < v.len()
        invariant
            s == texts(v@),
            texts_distinct(s),
            texts_sorted(s),
            i <= v@.len(),
            forall|j: int| 0 <= j < i ==> s[j] != x@,
        decreases v@.len() - i,
    {
        if v[i] == x {
            assert(s[i as int] == x@);
            assert(s.to_set().insert(x@) =~= s.to_set());
            return;
        }
        i = i + 1;
    }
    let mut pos: usize = 0;
    while pos < v.len()
        invariant
            s == texts(v@),
            pos <= v@.len(),
            forall|k: int| 0 <= k < pos ==> !text_lt(x@, #[trigger] s[k]),
        ensures
            pos <= v@.len(),
            forall|k: int| 0 <= k < pos ==> !text_lt(x@, #[trigger] s[k]),
            pos < v@.len() ==> text_lt(x@, s[pos as int]),
        decreases v@.len() - pos,
    {
        if less_text(x.as_str(), v[pos].as_str()) {
            break;
        }
        pos = pos + 1;
    }
    let ghost xv = x@;
    v.insert(pos, x);
    assert(texts(v@) =~= s.insert(pos as int, xv));
    proof {
        let t = s.insert(pos as int, xv);
        assert forall|k: int| 0 <= k < pos implies text_lt(#[trigger] s[k], xv) by {
            lemma_text_lt_total(s[k], xv);
        }
        assert forall|k: int| pos <= k < s.len() implies text_lt(xv, #[trigger] s[k]) by {
            if k > pos {
                lemma_text_lt_transitive(xv, s[pos as int], s[k]);
            }
        }
        assert forall|a: int, b: int| 0 <= a < b < t.len() implies text_lt(#[trigger] t[a], #[trigger] t[b]) by {
            let a2 = if a < pos { a } else { a - 1 };
            let b2 = if b < pos { b } else { b - 1 };
            if a == pos {
                assert(t[b] == s[b2]);
            } else if b == pos {
                assert(t[a] == s[a2]);
            } else {
                assert(t[a] == s[a2] && t[b] == s[b2]);
            }
        }
        assert forall|a: int, b: int| 0 <= a < t.len() && 0 <= b < t.len() && a != b implies t[a] != t[b] by {
            let a2 = if a < pos { a } else { a - 1 };
            let b2 = if b < pos { b } else { b - 1 };
            if a != pos && b != pos {
                assert(t[a] == s[a2] && t[b] == s[b2]);
            } else if a == pos {
                assert(t[b] == s[b2]);
            } else {
                assert(t[a] == s[a2]);
            }
        }
        assert forall|y: Seq<char>| t.to_set().contains(y) <==> s.to_set().insert(xv).contains(y) by {
            if t.contains(y) {
                let k = choose|k: int| 0 <= k < t.len() && t[k] == y;
                if k != pos {
                    let k2 = if k < pos { k } else { k - 1 };
                    assert(s[k2] == y);
                }
            }
            if s.contains(y) {
                let k = choose|k: int| 0 <= k < s.len() && s[k] == y;
                let k2 = if k < pos { k } else { k + 1 };
                assert(t[k2] == y);
            }
            if y == xv {
                assert(t[pos as int] == xv);
            }
        }
        assert(t.to_set() =~= s.to_set().insert(xv));
    }
}

/// Every relation of the first `i` dependencies.
pub open spec fn all_relations(testing: bool, ds: Seq<Dependency>, i: int) -> Set<Seq<char>>
    decreases i,
{
    if i <= 0 {
        Set::empty()
    } else {
        all_relations(testing, ds, i - 1) + deb_dep_spec(testing, ds[i - 1])->Ok_0.to_set()
    }
}

/// The first dependency among the first `i` that cannot be translated.
pub open spec fn first_failure(testing: bool, ds: Seq<Dependency>, i: int) -> Option<int>
    decreases i,
{
    if i <= 0 {
        None
    } else {
        match first_failure(testing, ds, i - 1) {
            Some(j) => Some(j),
            None => if deb_dep_spec(testing, ds[i - 1]) is Err { Some(i - 1) } else { None },
        }
    }
}

/// Translates all dependencies: the relations of all of them, each once, in
/// sorted order; or the error of the first that cannot be translated.
pub fn deb_deps(allow_prerelease_deps: bool, testing: bool, cdeps: &Vec<Dependency>) -> (r: Result<Vec<String>, DepError>)
    requires
        forall|i: int| 0 <= i < cdeps@.len() ==> dependency_ok(#[trigger] cdeps@[i]),
    ensures
        match first_failure(testing, cdeps@, cdeps@.len() as int) {
            Some(j) => r.is_err() && error_kind(r->Err_0) == deb_dep_spec(testing, cdeps@[j])->Err_0,
            None => r.is_ok() && texts_distinct(texts(r.unwrap()@)) && texts_sorted(texts(r.unwrap()@))
                && texts(r.unwrap()@).to_set() == all_relations(testing, cdeps@, cdeps@.len() as int),
        },
{
    let mut out: Vec<String> = Vec::new();
    assert(texts(out@).to_set() =~= Set::<Seq<char>>::empty());
    let mut i: usize = 0;
    while i < cdeps.len()
        invariant
            i <= cdeps@.len(),
            forall|k: int| 0 <= k < cdeps@.len() ==> dependency_ok(#[trigger] cdeps@[k]),
            first_failure(testing, cdeps@, i as int) is None,
            texts_distinct(texts(out@)),
            texts_sorted(texts(out@)),
            texts(out@).to_set() == all_relations(testing, cdeps@, i as int),
        decreases cdeps@.len() - i,
    {
        assert(dependency_ok(cdeps@[i as int]));
        let rel = match deb_dep(allow_prerelease_deps, testing, &cdeps[i]) {
            Ok(rel) => rel,
            Err(e) => {
                proof { lemma_failure_stays(testing, cdeps@, i as int + 1); }
                return Err(e);
            },
        };
        let ghost before = texts(out@).to_set();
        let mut k: usize = 0;
        while k < rel.len()
            invariant
                k <= rel@.len(),
                texts_distinct(texts(out@)),
                texts_sorted(texts(out@)),
                texts(out@).to_set() == before + texts(rel@).subrange(0, k as int).to_set(),
            decreases rel@.len() - k,
        {
            let mut x = String::new();
            push_text(&mut x, rel[k].as_str());
            insert_text(&mut out, x);
            assert(texts(rel@).subrange(0, k + 1) =~= texts(rel@).subrange(0, k as int).push(rel@[k as int]@));
            proof { texts(rel@).subrange(0, k as int).lemma_push_to_set_commute(rel@[k as int]@); }
            k = k + 1;
            assert(texts(out@).to_set() =~= before + texts(rel@).subrange(0, k as int).to_set());
        }
        assert(texts(rel@).subrange(0, k as int) =~= texts(rel@));
        i = i + 1;
    }
    Ok(out)
}

proof fn lemma_failure_stays(testing: bool, ds: Seq<Dependency>, i: int)
    requires
        0 < i <= ds.len(),
        first_failure(testing, ds, i) is Some,
    ensures
        first_failure(testing, ds, ds.len() as int) == first_failure(testing, ds, i),
    decreases ds.len() - i,
{
    if i < ds.len() {
        lemma_failure_stays(testing, ds, i + 1);
    }
}

/// Each finished part, trimmed at the end and marked, followed by `|`.
pub open spec fn marked_parts(done: Seq<Seq<char>>) -> Seq<char>
    decreases done.len(),
{
    if done.len() == 0 {
        seq![]
    } else {
        marked_parts(done.drop_last()) + trim_end(done.last()) + " <!nocheck> |"@
    }
}

/// Every alternative of a relation marked as not needed for checks.
pub open spec fn nocheck_of(x: Seq<char>) -> Seq<char> {
    let (done, cur) = pieces_upto(x, '|', x.len());
    marked_parts(done) + trim_end(cur) + " <!nocheck>"@
}

/// Marks each alternative of a relation `a | b` with `<!nocheck>`.
pub fn deb_dep_add_nocheck(x: &str) -> (r: String)
    ensures
        r@ == nocheck_of(x@),
{
    let n = x.unicode_len();
    let mut out = String::new();
    let mut cur = String::new();
    let mut i: usize = 0;
    while i < n
        invariant
            n == x@.len(),
            i <= n,
            out@ == marked_parts(pieces_upto(x@, '|', i as nat).0),
            cur@ == pieces_upto(x@, '|', i as nat).1,
        decreases n - i,
    {
        let c = x.get_char(i);
        if c == '|' {
            let t = trimmed_end(cur.as_str());
            push_text(&mut out, t.as_str());
            push_text(&mut out, " <!nocheck> |");
            cur = String::new();
            let ghost done = pieces_upto(x@, '|', i as nat).0;
            let ghost c0 = pieces_upto(x@, '|', i as nat).1;
            assert(done.push(c0).drop_last() =~= done);
            assert(out@ =~= marked_parts(done.push(c0)));
        } else {
            push_char(&mut cur, c);
        }
        i = i + 1;
    }
    let t = trimmed_end(cur.as_str());
    push_text(&mut out, t.as_str());
    push_text(&mut out, " <!nocheck>");
    out
}

/// For a single comparator with both bounds, the rendered relations admit
/// exactly the versions of the interval its operator documents.
pub proof fn lemma_single_comparator_rendering(c: Comparator, v: (u64, u64, u64))
    requires
        comparator_ok(c),
        v_of(c) is Some,
        !(c.op == Op::Less && below_zero(v_of(c)->Some_0)),
        documented_interval(c.op, v_of(c)->Some_0).ge is Some,
        documented_interval(c.op, v_of(c)->Some_0).lt is Some,
    ensures
        ({
            let r = documented_interval(c.op, v_of(c)->Some_0);
            &&& fold_range(seq![c]) == Ok::<VRange, u8>(r)
            &&& crate::range::v_lt(r.ge->Some_0, r.lt->Some_0)
            &&& (forall|k: int| 0 <= k < crate::range::bounded_pieces(r.ge->Some_0, r.lt->Some_0).len()
                    ==> crate::range::piece_admits(#[trigger] crate::range::bounded_pieces(r.ge->Some_0, r.lt->Some_0)[k], v))
                <==> (!crate::version::triple_lt(v, crate::range::mmp_of(r.ge->Some_0))
                    && crate::version::triple_lt(v, crate::range::mmp_of(r.lt->Some_0)))
        }),
{
    lemma_single_comparator_interval(c);
    let r = documented_interval(c.op, v_of(c)->Some_0);
    assert(crate::range::v_lt(r.ge->Some_0, r.lt->Some_0));
    crate::range::lemma_rendering_admits_range(r.ge->Some_0, r.lt->Some_0, v);
}
} // verus!
