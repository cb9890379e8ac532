//! Partially specified versions and the range accumulator that renders a
//! version range as package relations.
use vstd::prelude::*;
use crate::text::{dec, push_char, push_decimal, push_text};

verus! {

/// A partially specified version. Ordered by its numeric triple alone: a
/// pre-release tag is carried along but not compared.
#[derive(Clone, Debug)]
pub enum V {
    M(u64),
    MM(u64, u64),
    MMP(u64, u64, u64),
    /// A version with a pre-release tag, such as `0.26.0-beta.1`.
    Prerelease(u64, u64, u64, String),
}

/// Why a requirement cannot be rendered as package relations.
#[derive(Clone, Debug)]
pub enum DepError {
    /// A comparator gave a patch level but no minor version.
    PatchWithoutMinor,
    /// A comparator that the target syntax cannot express.
    Unrepresentable { name: String, comparator: String },
    /// A range whose lower bound is not below its upper bound.
    BadRange { ge: String, lt: String },
}

impl DepError {
    /// The error's message.
    pub fn message(&self) -> (r: String)
        ensures
            r@ == match self {
                DepError::PatchWithoutMinor => "semver had patch without minor"@,
                DepError::Unrepresentable { name, comparator } =>
                    "Unrepresentable dependency version predicate: "@ + name@ + seq![' '] + comparator@,
                DepError::BadRange { ge, lt } => "bad version range: >= "@ + ge@ + ", << "@ + lt@,
            },
    {
        let mut s = String::new();
        match self {
            DepError::PatchWithoutMinor => push_text(&mut s, "semver had patch without minor"),
            DepError::Unrepresentable { name, comparator } => {
                push_text(&mut s, "Unrepresentable dependency version predicate: ");
                push_text(&mut s, name.as_str());
                push_char(&mut s, ' ');
                push_text(&mut s, comparator.as_str());
            },
            DepError::BadRange { ge, lt } => {
                push_text(&mut s, "bad version range: >= ");
                push_text(&mut s, ge.as_str());
                push_text(&mut s, ", << ");
                push_text(&mut s, lt.as_str());
            },
        }
        s
    }
}

/// The numeric triple of a partial version, missing parts as zero.
pub open spec fn mmp_of(v: V) -> (u64, u64, u64) {
    match v {
        V::M(a) => (a, 0, 0),
        V::MM(a, b) => (a, b, 0),
        V::MMP(a, b, c) => (a, b, c),
        V::Prerelease(a, b, c, _) => (a, b, c),
    }
}

/// `a` comes before `b`.
pub open spec fn v_lt(a: V, b: V) -> bool {
    crate::version::triple_lt(mmp_of(a), mmp_of(b))
}

/// `a` and `b` have the same numeric triple.
pub open spec fn v_eq(a: V, b: V) -> bool {
    mmp_of(a) == mmp_of(b)
}

/// No component that `inclast` raises is at its largest value.
pub open spec fn v_bumpable(v: V) -> bool {
    match v {
        V::M(a) => a < u64::MAX,
        V::MM(_, b) => b < u64::MAX,
        V::MMP(_, _, c) => c < u64::MAX,
        V::Prerelease(_, _, c, _) => c < u64::MAX,
    }
}

/// The version with its last given component raised by one.
pub open spec fn inclast_of(v: V) -> V {
    match v {
        V::M(a) => V::M((a + 1) as u64),
        V::MM(a, b) => V::MM(a, (b + 1) as u64),
        V::MMP(a, b, c) => V::MMP(a, b, (c + 1) as u64),
        V::Prerelease(a, b, c, p) => V::Prerelease(a, b, (c + 1) as u64, p),
    }
}

/// The text of a partial version: `1`, `1.2`, `1.2.3` or `1.2.3-pre`.
pub open spec fn v_text(v: V) -> Seq<char> {
    match v {
        V::M(a) => dec(a as nat),
        V::MM(a, b) => dec(a as nat) + seq!['.'] + dec(b as nat),
        V::MMP(a, b, c) => dec(a as nat) + seq!['.'] + dec(b as nat) + seq!['.'] + dec(c as nat),
        V::Prerelease(a, b, c, p) => dec(a as nat) + seq!['.'] + dec(b as nat) + seq!['.']
            + dec(c as nat) + seq!['-'] + p@,
    }
}

impl V {
    /// Raises the least specific given component by one, keeping a
    /// pre-release tag.
    pub fn inclast(&self) -> (r: V)
        requires
            v_bumpable(*self),
        ensures
            r == inclast_of(*self),
    {
        match self {
            V::M(a) => V::M(*a + 1),
            V::MM(a, b) => V::MM(*a, *b + 1),
            V::MMP(a, b, c) => V::MMP(*a, *b, *c + 1),
            V::Prerelease(a, b, c, p) => V::Prerelease(*a, *b, *c + 1, p.clone()),
        }
    }

    /// The numeric triple, missing parts as zero.
    pub fn mmp(&self) -> (r: (u64, u64, u64))
        ensures
            r == mmp_of(*self),
    {
        match self {
            V::M(a) => (*a, 0, 0),
            V::MM(a, b) => (*a, *b, 0),
            V::MMP(a, b, c) => (*a, *b, *c),
            V::Prerelease(a, b, c, _) => (*a, *b, *c),
        }
    }

    /// Whether `self` comes before `o`.
    pub fn lt(&self, o: &V) -> (r: bool)
        ensures
            r == v_lt(*self, *o),
    {
        let (a0, a1, a2) = self.mmp();
        let (b0, b1, b2) = o.mmp();
        a0 < b0 || (a0 == b0 && (a1 < b1 || (a1 == b1 && a2 < b2)))
    }

    /// Whether the two have the same numeric triple.
    pub fn eq_mmp(&self, o: &V) -> (r: bool)
        ensures
            r == v_eq(*self, *o),
    {
        let (a0, a1, a2) = self.mmp();
        let (b0, b1, b2) = o.mmp();
        a0 == b0 && a1 == b1 && a2 == b2
    }

    /// Appends the version's text.
    pub fn push_to(&self, s: &mut String)
        ensures
            final(s)@ == old(s)@ + v_text(*self),
    {
        match self {
            V::M(a) => {
                push_decimal(s, *a);
            },
            V::MM(a, b) => {
                push_decimal(s, *a);
                push_char(s, '.');
                push_decimal(s, *b);
            },
            V::MMP(a, b, c) => {
                push_decimal(s, *a);
                push_char(s, '.');
                push_decimal(s, *b);
                push_char(s, '.');
                push_decimal(s, *c);
            },
            V::Prerelease(a, b, c, p) => {
                push_decimal(s, *a);
                push_char(s, '.');
                push_decimal(s, *b);
                push_char(s, '.');
                push_decimal(s, *c);
                push_char(s, '-');
                push_text(s, p.as_str());
            },
        }
        assert(final(s)@ =~= old(s)@ + v_text(*self));
    }

    /// The version's text.
    pub fn to_text(&self) -> (r: String)
        ensures
            r@ == v_text(*self),
    {
        let mut s = String::new();
        self.push_to(&mut s);
        assert(s@ =~= v_text(*self));
        s
    }
}

/// An optional inclusive lower bound and an optional exclusive upper bound.
#[derive(Clone, Debug)]
pub struct VRange {
    pub ge: Option<V>,
    pub lt: Option<V>,
}

/// `name (>= c-~~)`.
pub open spec fn ge_clause(name: Seq<char>, c: V) -> Seq<char> {
    name + " (>= "@ + v_text(c) + "-~~)"@
}

/// `name (<< c-~~)`.
pub open spec fn lt_clause(name: Seq<char>, c: V) -> Seq<char> {
    name + " (<< "@ + v_text(c) + "-~~)"@
}

/// One piece of a rendered range: against the unversioned package when
/// `ver` is `None`, else against the package suffixed by `ver`. A lower bound
/// equal to the suffix is implied and dropped; an upper bound equal to it
/// cannot hold and drops the piece.
pub open spec fn piece(base: Seq<char>, suffix: Seq<char>, ver: Option<V>, greater: bool, c: V) -> Seq<Seq<char>> {
    match ver {
        None => if greater {
            seq![ge_clause(base + suffix, c)]
        } else {
            seq![lt_clause(base + suffix, c)]
        },
        Some(w) => {
            let name = base + seq!['-'] + v_text(w) + suffix;
            if greater {
                if v_eq(c, w) { seq![name] } else { seq![ge_clause(name, c)] }
            } else {
                if v_eq(c, w) { seq![] } else { seq![lt_clause(name, c)] }
            }
        },
    }
}

/// The relations for a bounded range `[ge, lt)`, using the coarsest package
/// names that can satisfy it.
pub open spec fn bounded_clauses(base: Seq<char>, suffix: Seq<char>, ge: V, lt: V) -> Seq<Seq<char>> {
    let (lt_maj, lt_min, lt_pat) = mmp_of(lt);
    let (ge_maj, ge_min, _ge_pat) = mmp_of(ge);
    if ge_maj + 1 == lt_maj && lt_min == 0 && lt_pat == 0 {
        piece(base, suffix, Some(V::M(ge_maj)), true, ge)
    } else if ge_maj < lt_maj {
        piece(base, suffix, None, true, ge) + piece(base, suffix, None, false, lt)
    } else if ge_maj == 0 && ge_min + 1 == lt_min && lt_pat == 0 {
        piece(base, suffix, Some(V::MM(ge_maj, ge_min)), true, ge)
    } else if ge_maj == 0 && ge_min < lt_min {
        piece(base, suffix, None, true, ge) + piece(base, suffix, None, false, lt)
    } else if ge_min < lt_min {
        piece(base, suffix, Some(V::M(ge_maj)), true, ge) + piece(base, suffix, Some(V::M(lt_maj)), false, lt)
    } else {
        piece(base, suffix, Some(V::MM(ge_maj, ge_min)), true, ge)
            + piece(base, suffix, Some(V::MM(lt_maj, lt_min)), false, lt)
    }
}

/// The relations a range renders to; `None` where the range is empty.
pub open spec fn deb_clauses(r: VRange, base: Seq<char>, suffix: Seq<char>) -> Option<Seq<Seq<char>>> {
    match (r.ge, r.lt) {
        (None, None) => Some(seq![base + suffix]),
        (Some(ge), None) => Some(seq![ge_clause(base + suffix, ge)]),
        (None, Some(lt)) => Some(seq![lt_clause(base + suffix, lt)]),
        (Some(ge), Some(lt)) => if v_lt(ge, lt) {
            Some(bounded_clauses(base, suffix, ge, lt))
        } else {
            None
        },
    }
}

/// The views of a list of strings.
pub open spec fn texts(v: Seq<String>) -> Seq<Seq<char>> {
    v.map_values(|s: String| s@)
}

fn ge_text(name: &str, c: &V) -> (r: String)
    ensures
        r@ == ge_clause(name@, *c),
{
    let mut s = String::new();
    push_text(&mut s, name);
    push_text(&mut s, " (>= ");
    c.push_to(&mut s);
    push_text(&mut s, "-~~)");
    assert(s@ =~= ge_clause(name@, *c));
    s
}

fn lt_text(name: &str, c: &V) -> (r: String)
    ensures
        r@ == lt_clause(name@, *c),
{
    let mut s = String::new();
    push_text(&mut s, name);
    push_text(&mut s, " (<< ");
    c.push_to(&mut s);
    push_text(&mut s, "-~~)");
    assert(s@ =~= lt_clause(name@, *c));
    s
}

fn push_piece(out: &mut Vec<String>, base: &str, suffix: &str, ver: Option<V>, greater: bool, c: &V)
    ensures
        texts(final(out)@) == texts(old(out)@) + piece(base@, suffix@, ver, greater, *c),
{
    let ghost start = texts(out@);
    match ver {
        None => {
            let mut name = String::new();
            push_text(&mut name, base);
            push_text(&mut name, suffix);
            if greater {
                out.push(ge_text(name.as_str(), c));
            } else {
                out.push(lt_text(name.as_str(), c));
            }
        },
        Some(w) => {
            let mut name = String::new();
            push_text(&mut name, base);
            push_char(&mut name, '-');
            w.push_to(&mut name);
            push_text(&mut name, suffix);
            assert(name@ =~= base@ + seq!['-'] + v_text(w) + suffix@);
            if greater {
                if c.eq_mmp(&w) {
                    out.push(name);
                } else {
                    out.push(ge_text(name.as_str(), c));
                }
            } else {
                if !c.eq_mmp(&w) {
                    out.push(lt_text(name.as_str(), c));
                }
            }
        },
    }
    assert(texts(out@) =~= start + piece(base@, suffix@, ver, greater, *c));
}

impl VRange {
    /// The unbounded range.
    pub fn new() -> (r: VRange)
        ensures
            r.ge.is_none() && r.lt.is_none(),
    {
        VRange { ge: None, lt: None }
    }

    /// Raises the lower bound to `ge` unless the current one is higher.
    pub fn constrain_ge(&mut self, ge: V)
        ensures
            final(self).lt == old(self).lt,
            final(self).ge == (match old(self).ge {
                Some(g) => if v_lt(ge, g) { Some(g) } else { Some(ge) },
                None => Some(ge),
            }),
    {
        let keep = match &self.ge {
            Some(g) => ge.lt(g),
            None => false,
        };
        if !keep {
            self.ge = Some(ge);
        }
    }

    /// Lowers the upper bound to `lt` unless the current one is lower.
    pub fn constrain_lt(&mut self, lt: V)
        ensures
            final(self).ge == old(self).ge,
            final(self).lt == (match old(self).lt {
                Some(l) => if !v_lt(lt, l) { Some(l) } else { Some(lt) },
                None => Some(lt),
            }),
    {
        let keep = match &self.lt {
            Some(l) => !lt.lt(l),
            None => false,
        };
        if !keep {
            self.lt = Some(lt);
        }
    }

    /// Renders the range as relations on `base` + `suffix`: one or two
    /// clauses, or an error where the lower bound is not below the upper one.
    pub fn to_deb_clause(&self, base: &str, suffix: &str) -> (r: Result<Vec<String>, DepError>)
        ensures
            match deb_clauses(*self, base@, suffix@) {
                Some(c) => r.is_ok() && texts(r.unwrap()@) == c,
                None => r.is_err() && r->Err_0 is BadRange
                    && r->Err_0->BadRange_ge@ == v_text(self.ge->Some_0)
                    && r->Err_0->BadRange_lt@ == v_text(self.lt->Some_0),
            },
    {
        let mut out: Vec<String> = Vec::new();
        match (&self.ge, &self.lt) {
            (None, None) => {
                let mut s = String::new();
                push_text(&mut s, base);
                push_text(&mut s, suffix);
                out.push(s);
            },
            (Some(ge), None) => {
                let mut s = String::new();
                push_text(&mut s, base);
                push_text(&mut s, suffix);
                out.push(ge_text(s.as_str(), ge));
            },
            (None, Some(lt)) => {
                let mut s = String::new();
                push_text(&mut s, base);
                push_text(&mut s, suffix);
                out.push(lt_text(s.as_str(), lt));
            },
            (Some(ge), Some(lt)) => {
                if !ge.lt(lt) {
                    return Err(DepError::BadRange { ge: ge.to_text(), lt: lt.to_text() });
                }
                let (lt_maj, lt_min, lt_pat) = lt.mmp();
                let (ge_maj, ge_min, _ge_pat) = ge.mmp();
                if ge_maj < lt_maj && ge_maj + 1 == lt_maj && lt_min == 0 && lt_pat == 0 {
                    push_piece(&mut out, base, suffix, Some(V::M(ge_maj)), true, ge);
                } else if ge_maj < lt_maj {
                    push_piece(&mut out, base, suffix, None, true, ge);
                    push_piece(&mut out, base, suffix, None, false, lt);
                } else if ge_maj == 0 && ge_min < lt_min && ge_min + 1 == lt_min && lt_pat == 0 {
                    push_piece(&mut out, base, suffix, Some(V::MM(ge_maj, ge_min)), true, ge);
                } else if ge_maj == 0 && ge_min < lt_min {
                    push_piece(&mut out, base, suffix, None, true, ge);
                    push_piece(&mut out, base, suffix, None, false, lt);
                } else if ge_min < lt_min {
                    push_piece(&mut out, base, suffix, Some(V::M(ge_maj)), true, ge);
                    push_piece(&mut out, base, suffix, Some(V::M(lt_maj)), false, lt);
                } else {
                    push_piece(&mut out, base, suffix, Some(V::MM(ge_maj, ge_min)), true, ge);
                    push_piece(&mut out, base, suffix, Some(V::MM(lt_maj, lt_min)), false, lt);
                }
            },
        }
        assert(texts(out@) =~= deb_clauses(*self, base@, suffix@).unwrap());
        Ok(out)
    }
}


/// The pieces a bounded range renders as: the package each names (`None`
/// for the unversioned one), whether it is a lower bound, and the bound.
pub open spec fn bounded_pieces(ge: V, lt: V) -> Seq<(Option<V>, bool, V)> {
    let (lt_maj, lt_min, lt_pat) = mmp_of(lt);
    let (ge_maj, ge_min, _ge_pat) = mmp_of(ge);
    if ge_maj + 1 == lt_maj && lt_min == 0 && lt_pat == 0 {
        seq![(Some(V::M(ge_maj)), true, ge)]
    } else if ge_maj < lt_maj {
        seq![(None, true, ge), (None, false, lt)]
    } else if ge_maj == 0 && ge_min + 1 == lt_min && lt_pat == 0 {
        seq![(Some(V::MM(ge_maj, ge_min)), true, ge)]
    } else if ge_maj == 0 && ge_min < lt_min {
        seq![(None, true, ge), (None, false, lt)]
    } else if ge_min < lt_min {
        seq![(Some(V::M(ge_maj)), true, ge), (Some(V::M(lt_maj)), false, lt)]
    } else {
        seq![(Some(V::MM(ge_maj, ge_min)), true, ge), (Some(V::MM(lt_maj, lt_min)), false, lt)]
    }
}

/// A version `(major, minor, patch)` belongs to the package suffixed by `w`:
/// it agrees with `w` in the parts `w` gives.
pub open spec fn in_package(w: V, v: (u64, u64, u64)) -> bool {
    match w {
        V::M(a) => v.0 == a,
        V::MM(a, b) => v.0 == a && v.1 == b,
        _ => mmp_of(w) == v,
    }
}

/// The versions the rendered form of one piece admits. A lower bound equal
/// to the suffix is left implicit; an upper bound equal to it renders no
/// clause and admits every version.
pub open spec fn piece_admits(p: (Option<V>, bool, V), v: (u64, u64, u64)) -> bool {
    let below = crate::version::triple_lt(v, mmp_of(p.2));
    match p.0 {
        None => if p.1 { !below } else { below },
        Some(w) => if p.1 {
            in_package(w, v) && (v_eq(p.2, w) || !below)
        } else {
            v_eq(p.2, w) || (in_package(w, v) && below)
        },
    }
}

/// The relations of a bounded range are exactly its pieces, rendered.
pub proof fn lemma_bounded_clauses_are_pieces(base: Seq<char>, suffix: Seq<char>, ge: V, lt: V)
    ensures
        bounded_clauses(base, suffix, ge, lt) == (if bounded_pieces(ge, lt).len() == 1 {
            piece(base, suffix, bounded_pieces(ge, lt)[0].0, bounded_pieces(ge, lt)[0].1, bounded_pieces(ge, lt)[0].2)
        } else {
            piece(base, suffix, bounded_pieces(ge, lt)[0].0, bounded_pieces(ge, lt)[0].1, bounded_pieces(ge, lt)[0].2)
                + piece(base, suffix, bounded_pieces(ge, lt)[1].0, bounded_pieces(ge, lt)[1].1, bounded_pieces(ge, lt)[1].2)
        }),
{
}

/// Together, the rendered relations of a bounded range admit exactly the
/// versions from its lower bound up to, not including, its upper bound.
pub proof fn lemma_rendering_admits_range(ge: V, lt: V, v: (u64, u64, u64))
    requires
        v_lt(ge, lt),
    ensures
        (forall|k: int| 0 <= k < bounded_pieces(ge, lt).len() ==> piece_admits(#[trigger] bounded_pieces(ge, lt)[k], v))
            <==> (!crate::version::triple_lt(v, mmp_of(ge)) && crate::version::triple_lt(v, mmp_of(lt))),
{
    let ps = bounded_pieces(ge, lt);
    if ps.len() == 1 {
        assert((forall|k: int| 0 <= k < ps.len() ==> piece_admits(#[trigger] ps[k], v)) == piece_admits(ps[0], v));
    } else {
        assert((forall|k: int| 0 <= k < ps.len() ==> piece_admits(#[trigger] ps[k], v))
            == (piece_admits(ps[0], v) && piece_admits(ps[1], v)));
    }
}
} // verus!
