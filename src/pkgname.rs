//! Reading crate names, features and versions back out of rendered package
//! names such as `rust-serde-1.0+derive-dev`. These parse text that other
//! tools already rendered; where structured data is at hand it is preferred.
use vstd::prelude::*;
use crate::control::CrateDep;
use crate::lockfile::same_str;
use crate::text::{
    ends_with, ends_with_text, find_char, index_of, is_digit, join_texts, join_with, pieces, push_text,
    replace_char, replaced, split_at_char, starts_with, trim, trimmed,
};

verus! {

/// The text after a `librust-` or `rust-` prefix, if it has one.
pub open spec fn strip_pkg_prefix(n: Seq<char>) -> Option<Seq<char>> {
    if n.len() >= 8 && n.subrange(0, 8) == "librust-"@ {
        Some(n.subrange(8, n.len() as int))
    } else if n.len() >= 5 && n.subrange(0, 5) == "rust-"@ {
        Some(n.subrange(5, n.len() as int))
    } else {
        None
    }
}

/// The text without a `-devel` or `-dev` suffix.
pub open spec fn strip_dev_suffix(n: Seq<char>) -> Seq<char> {
    if ends_with(n, "-devel"@) {
        n.subrange(0, n.len() - 6)
    } else if ends_with(n, "-dev"@) {
        n.subrange(0, n.len() - 4)
    } else {
        n
    }
}

/// A part that reads as a version: a digit, then digits and dots.
pub open spec fn is_version_part(p: Seq<char>) -> bool {
    p.len() > 0 && is_digit(p[0]) && forall|k: int| 0 <= k < p.len() ==> is_digit(#[trigger] p[k]) || p[k] == '.'
}

/// The index of the last part among the first `i` that reads as a version.
pub open spec fn last_version_part(parts: Seq<Seq<char>>, i: int) -> Option<int>
    decreases i,
{
    if i <= 0 {
        None
    } else if is_version_part(parts[i - 1]) {
        Some(i - 1)
    } else {
        last_version_part(parts, i - 1)
    }
}

/// The crate name and feature a package name stands for: the name after
/// the prefix and before the `-dev` suffix, split at the first `+` into
/// crate part and feature, the crate part cut before its last version-like
/// piece. `None` for a name without the prefix or with no crate name.
pub open spec fn simple_dep(pkg: Seq<char>) -> Option<(Seq<char>, Option<Seq<char>>)> {
    match strip_pkg_prefix(trim(pkg)) {
        None => None,
        Some(n1) => {
            let n2 = strip_dev_suffix(n1);
            let left = match index_of(n2, '+', 0) {
                Some(i) => n2.subrange(0, i),
                None => n2,
            };
            let feature = match index_of(n2, '+', 0) {
                Some(i) => Some(n2.subrange(i + 1, n2.len() as int)),
                None => None,
            };
            let parts = pieces(left, '-');
            let name = match last_version_part(parts, parts.len() as int) {
                Some(i) => if i > 0 { join_with(parts.subrange(0, i), '-') } else { left },
                None => left,
            };
            if name.len() == 0 { None } else { Some((name, feature)) }
        },
    }
}

pub open spec fn dep_view(d: CrateDep) -> (Seq<char>, Option<Seq<char>>) {
    (d.crate_name@, match d.feature { Some(f) => Some(f@), None => None })
}

fn copy_sub(s: &str, from: usize, to: usize) -> (r: String)
    requires
        from <= to <= s@.len(),
    ensures
        r@ == s@.subrange(from as int, to as int),
{
    let mut t = String::new();
    push_text(&mut t, s.substring_char(from, to));
    t
}

fn strip_prefix_exec(n: &str) -> (r: Option<String>)
    ensures
        match strip_pkg_prefix(n@) {
            Some(t) => r.is_some() && r.unwrap()@ == t,
            None => r.is_none(),
        },
{
    proof {
        reveal_strlit("librust-");
        reveal_strlit("rust-");
    }
    let len = n.unicode_len();
    if starts_with(n, "librust-") {
        Some(copy_sub(n, 8, len))
    } else if starts_with(n, "rust-") {
        Some(copy_sub(n, 5, len))
    } else {
        None
    }
}

fn strip_dev_exec(n: &str) -> (r: String)
    ensures
        r@ == strip_dev_suffix(n@),
{
    proof {
        reveal_strlit("-devel");
        reveal_strlit("-dev");
    }
    let len = n.unicode_len();
    if ends_with_text(n, "-devel") {
        copy_sub(n, 0, len - 6)
    } else if ends_with_text(n, "-dev") {
        copy_sub(n, 0, len - 4)
    } else {
        copy_sub(n, 0, len)
    }
}

/// Whether a part reads as a version.
pub fn version_part(p: &str) -> (r: bool)
    ensures
        r == is_version_part(p@),
{
    let n = p.unicode_len();
    if n == 0 {
        return false;
    }
    let c0 = p.get_char(0);
    if !('0' <= c0 && c0 <= '9') {
        return false;
    }
    let mut i: usize = 0;
    while i < n
        invariant
            n == p@.len(),
            i <= n,
            forall|k: int| 0 <= k < i ==> is_digit(#[trigger] p@[k]) || p@[k] == '.',
        decreases n - i,
    {
        let c = p.get_char(i);
        if !(('0' <= c && c <= '9') || c == '.') {
            return false;
        }
        i = i + 1;
    }
    true
}

/// The crate dependency a rendered package name stands for.
pub fn parse_package_name_simple(pkg_name: &str) -> (r: Option<CrateDep>)
    ensures
        match simple_dep(pkg_name@) {
            Some(d) => r.is_some() && dep_view(r.unwrap()) == d && r.unwrap().version.is_none(),
            None => r.is_none(),
        },
{
    let t = trimmed(pkg_name);
    let n1 = match strip_prefix_exec(t.as_str()) {
        Some(x) => x,
        None => return None,
    };
    let n2 = strip_dev_exec(n1.as_str());
    let len = n2.as_str().unicode_len();
    let (left, feature) = match find_char(n2.as_str(), '+') {
        Some(i) => (copy_sub(n2.as_str(), 0, i), Some(copy_sub(n2.as_str(), i + 1, len))),
        None => (copy_sub(n2.as_str(), 0, len), None),
    };
    assert(left@ == (match index_of(n2@, '+', 0) { Some(i) => n2@.subrange(0, i), None => n2@ }));
    let parts = split_at_char(left.as_str(), '-');
    let ghost pv = parts@.map_values(|w: String| w@);
    let mut idx: Option<usize> = None;
    let mut i: usize = 0;
    while i < parts.len()
        invariant
            pv == parts@.map_values(|w: String| w@),
            i <= parts@.len(),
            match last_version_part(pv, i as int) {
                Some(k) => idx.is_some() && idx.unwrap() as int == k && k < i,
                None => idx.is_none(),
            },
        decreases parts@.len() - i,
    {
        assert(pv[i as int] == parts@[i as int]@);
        if version_part(parts[i].as_str()) {
            idx = Some(i);
        } else {
            proof { lemma_last_version_part_skip(pv, i as int); }
        }
        i = i + 1;
    }
    let name = match idx {
        Some(k) => if k > 0 {
            let j = join_texts(&parts, k, '-');
            assert(parts@.subrange(0, k as int).map_values(|w: String| w@) =~= pv.subrange(0, k as int));
            j
        } else {
            copy_sub(left.as_str(), 0, left.as_str().unicode_len())
        },
        None => copy_sub(left.as_str(), 0, left.as_str().unicode_len()),
    };
    assert(left@.subrange(0, left@.len() as int) =~= left@);
    if name.as_str().unicode_len() == 0 {
        return None;
    }
    Some(CrateDep::new(name, feature))
}

proof fn lemma_last_version_part_skip(parts: Seq<Seq<char>>, i: int)
    requires
        0 <= i < parts.len(),
        !is_version_part(parts[i]),
    ensures
        last_version_part(parts, i + 1) == last_version_part(parts, i),
{
}

/// The crate dependency a rendered package name stands for.
pub fn parse_deb_package_to_crate_dep(pkg_name: &str) -> (r: Option<CrateDep>)
    ensures
        match simple_dep(pkg_name@) {
            Some(d) => r.is_some() && dep_view(r.unwrap()) == d && r.unwrap().version.is_none(),
            None => r.is_none(),
        },
{
    parse_package_name_simple(pkg_name)
}

/// The feature in a package name `rust-crate-feature` of crate `crate_base`.
pub open spec fn feature_in_name(pkg: Seq<char>, base: Seq<char>) -> Option<Seq<char>> {
    if pkg.len() >= 5 && pkg.subrange(0, 5) == "rust-"@ {
        let w = pkg.subrange(5, pkg.len() as int);
        if w == base {
            None
        } else if w.len() > base.len() && w.subrange(0, base.len() as int) == base && w[base.len() as int] == '-' {
            Some(w.subrange(base.len() as int + 1, w.len() as int))
        } else {
            None
        }
    } else {
        None
    }
}

/// The feature that a package name carries after its crate name.
pub fn extract_feature_from_package_name(pkg_name: &str, crate_base: &str) -> (r: Option<String>)
    ensures
        match feature_in_name(pkg_name@, crate_base@) {
            Some(f) => r.is_some() && r.unwrap()@ == f,
            None => r.is_none(),
        },
{
    proof { reveal_strlit("rust-"); }
    if !starts_with(pkg_name, "rust-") {
        return None;
    }
    let w = copy_sub(pkg_name, 5, pkg_name.unicode_len());
    if same_str(w.as_str(), crate_base) {
        return None;
    }
    proof { reveal_strlit("-"); }
    let mut with_dash = String::new();
    push_text(&mut with_dash, crate_base);
    push_text(&mut with_dash, "-");
    assert(with_dash@ =~= crate_base@ + seq!['-']);
    if starts_with(w.as_str(), with_dash.as_str()) {
        let m = crate_base.unicode_len();
        assert(w@.subrange(0, m as int + 1) == crate_base@ + seq!['-']);
        assert(w@.subrange(0, m as int) =~= w@.subrange(0, m as int + 1).subrange(0, m as int));
        assert(w@.subrange(0, m as int) =~= crate_base@);
        assert(w@[m as int] == w@.subrange(0, m as int + 1)[m as int]);
        Some(copy_sub(w.as_str(), m + 1, w.as_str().unicode_len()))
    } else {
        proof {
            let m = crate_base@.len();
            if w@.len() > m && w@.subrange(0, m as int) == crate_base@ && w@[m as int] == '-' {
                assert(w@.subrange(0, m as int + 1) =~= with_dash@);
            }
        }
        None
    }
}

/// The lower bound of a requirement text, completed to three parts: the
/// version of its first comparator with the operator taken off.
pub open spec fn lower_bound_of(req: Seq<char>) -> Option<Seq<char>> {
    let r = trim(req);
    if r == "*"@ || r.len() == 0 {
        None
    } else {
        let first = trim(pieces(r, ',')[0]);
        let vp = if first.len() >= 2 && first.subrange(0, 2) == ">="@ {
            trim(first.subrange(2, first.len() as int))
        } else if first.len() >= 1 && (first[0] == '>' || first[0] == '=' || first[0] == '~' || first[0] == '^') {
            trim(first.subrange(1, first.len() as int))
        } else {
            first
        };
        let parts = pieces(vp, '.');
        if parts.len() == 1 {
            Some(parts[0] + ".0.0"@)
        } else if parts.len() == 2 {
            Some(parts[0] + seq!['.'] + parts[1] + ".0"@)
        } else {
            Some(vp)
        }
    }
}

/// The lower bound of a requirement such as `^0.9` (`0.9.0`) or
/// `>=1.21, <2.0` (`1.21.0`); `None` for `*` or nothing.
pub fn parse_version_req_to_lower_bound(version_req: &str) -> (r: Option<String>)
    ensures
        match lower_bound_of(version_req@) {
            Some(v) => r.is_some() && r.unwrap()@ == v,
            None => r.is_none(),
        },
{
    proof {
        reveal_strlit("*");
        reveal_strlit(">=");
    }
    let r = trimmed(version_req);
    if same_str(r.as_str(), "*") || r.as_str().unicode_len() == 0 {
        return None;
    }
    let comma = split_at_char(r.as_str(), ',');
    assert(comma@.map_values(|w: String| w@).len() == comma@.len());
    assert(comma@.len() > 0);
    assert(comma@[0]@ == pieces(r@, ',')[0]);
    let first = trimmed(comma[0].as_str());
    let fl = first.as_str().unicode_len();
    let vp = if starts_with(first.as_str(), ">=") {
        let rest = copy_sub(first.as_str(), 2, fl);
        trimmed(rest.as_str())
    } else if fl >= 1 && {
        let c = first.as_str().get_char(0);
        c == '>' || c == '=' || c == '~' || c == '^'
    } {
        let rest = copy_sub(first.as_str(), 1, fl);
        trimmed(rest.as_str())
    } else {
        copy_sub(first.as_str(), 0, fl)
    };
    assert(first@.subrange(0, fl as int) =~= first@);
    let parts = split_at_char(vp.as_str(), '.');
    let ghost pv = parts@.map_values(|w: String| w@);
    if parts.len() == 1 {
        let mut s = String::new();
        push_text(&mut s, parts[0].as_str());
        push_text(&mut s, ".0.0");
        assert(pv[0] == parts@[0]@);
        Some(s)
    } else if parts.len() == 2 {
        let mut s = String::new();
        push_text(&mut s, parts[0].as_str());
        push_text(&mut s, ".");
        push_text(&mut s, parts[1].as_str());
        push_text(&mut s, ".0");
        proof { reveal_strlit("."); }
        assert(pv[0] == parts@[0]@);
        assert(pv[1] == parts@[1]@);
        Some(s)
    } else {
        Some(vp)
    }
}


/// The text up to its first `+`.
pub open spec fn before_plus(n: Seq<char>) -> Seq<char> {
    match index_of(n, '+', 0) {
        Some(i) => n.subrange(0, i),
        None => n,
    }
}

/// The minimum version a package name carries: its last `-` part before
/// any feature, where that part starts with a digit, completed to three
/// parts, as a `>=` constraint.
pub open spec fn version_in_name(pkg: Seq<char>) -> Option<Seq<char>> {
    let n0 = trim(pkg);
    let n1 = if ends_with(n0, "-dev"@) { n0.subrange(0, n0.len() - 4) } else { n0 };
    let n2 = match strip_pkg_prefix(n1) {
        Some(t) => t,
        None => n1,
    };
    let parts = pieces(before_plus(n2), '-');
    let last = parts.last();
    if last.len() > 0 && is_digit(last[0]) {
        if last.contains('.') { Some(">= "@ + last + ".0"@) } else { Some(">= "@ + last + ".0.0"@) }
    } else {
        None
    }
}

fn before_plus_exec(n: &str) -> (r: String)
    ensures
        r@ == before_plus(n@),
{
    match find_char(n, '+') {
        Some(i) => copy_sub(n, 0, i),
        None => {
            let r = copy_sub(n, 0, n.unicode_len());
            assert(n@.subrange(0, n@.len() as int) =~= n@);
            r
        },
    }
}

/// The minimum version in a package name such as
/// `rust-serde-1.0+default-dev` (`>= 1.0.0`).
pub fn extract_version_from_pkg_name(pkg_name: &str) -> (r: Option<String>)
    ensures
        match version_in_name(pkg_name@) {
            Some(v) => r.is_some() && r.unwrap()@ == v,
            None => r.is_none(),
        },
{
    proof { reveal_strlit("-dev"); }
    let n0 = trimmed(pkg_name);
    let n1 = if ends_with_text(n0.as_str(), "-dev") {
        copy_sub(n0.as_str(), 0, n0.as_str().unicode_len() - 4)
    } else {
        let t = copy_sub(n0.as_str(), 0, n0.as_str().unicode_len());
        assert(n0@.subrange(0, n0@.len() as int) =~= n0@);
        t
    };
    let n2 = match strip_prefix_exec(n1.as_str()) {
        Some(t) => t,
        None => {
            let t = copy_sub(n1.as_str(), 0, n1.as_str().unicode_len());
            assert(n1@.subrange(0, n1@.len() as int) =~= n1@);
            t
        },
    };
    let n3 = before_plus_exec(n2.as_str());
    let parts = split_at_char(n3.as_str(), '-');
    assert(parts@.map_values(|w: String| w@).len() == parts@.len());
    let k = parts.len() - 1;
    let last = parts[k].as_str();
    assert(last@ == pieces(n3@, '-').last());
    let m = last.unicode_len();
    if m > 0 && {
        let c = last.get_char(0);
        '0' <= c && c <= '9'
    } {
        let mut s = String::new();
        push_text(&mut s, ">= ");
        push_text(&mut s, last);
        if crate::text::contains_char(last, '.') {
            push_text(&mut s, ".0");
        } else {
            push_text(&mut s, ".0.0");
        }
        Some(s)
    } else {
        None
    }
}

/// The parts among the first `i` that are kept in a clean name: not empty
/// and not version-like.
pub open spec fn kept_parts(parts: Seq<Seq<char>>, i: int) -> Seq<Seq<char>>
    decreases i,
{
    if i <= 0 {
        seq![]
    } else if parts[i - 1].len() > 0 && !is_version_part(parts[i - 1]) {
        kept_parts(parts, i - 1).push(parts[i - 1])
    } else {
        kept_parts(parts, i - 1)
    }
}

/// A package name in plain form: without `-dev` or `-devel`, with `rust-`
/// for `librust-`, `-` for `+`, and without version-like or empty parts.
pub open spec fn clean_name(pkg: Seq<char>) -> Seq<char> {
    let n1 = strip_dev_suffix(pkg);
    let n2 = if n1.len() >= 8 && n1.subrange(0, 8) == "librust-"@ {
        "rust-"@ + n1.subrange(8, n1.len() as int)
    } else {
        n1
    };
    let parts = pieces(replaced(n2, '+', '-'), '-');
    join_with(kept_parts(parts, parts.len() as int), '-')
}

/// The plain form of a package name, such as `rust-heck-default` for
/// `librust-heck-0.5+default-devel`.
pub fn clean_package_name(pkg_name: &str) -> (r: String)
    ensures
        r@ == clean_name(pkg_name@),
{
    proof { reveal_strlit("librust-"); reveal_strlit("rust-"); }
    let n1 = strip_dev_exec(pkg_name);
    let n2 = if starts_with(n1.as_str(), "librust-") {
        let mut t = String::new();
        push_text(&mut t, "rust-");
        let rest = copy_sub(n1.as_str(), 8, n1.as_str().unicode_len());
        push_text(&mut t, rest.as_str());
        t
    } else {
        let t = copy_sub(n1.as_str(), 0, n1.as_str().unicode_len());
        assert(n1@.subrange(0, n1@.len() as int) =~= n1@);
        t
    };
    let n3 = replace_char(n2.as_str(), '+', '-');
    let parts = split_at_char(n3.as_str(), '-');
    let ghost pv = parts@.map_values(|w: String| w@);
    let mut kept: Vec<String> = Vec::new();
    let mut i: usize = 0;
    while i < parts.len()
        invariant
            pv == parts@.map_values(|w: String| w@),
            i <= parts@.len(),
            kept@.map_values(|w: String| w@) == kept_parts(pv, i as int),
        decreases parts@.len() - i,
    {
        assert(pv[i as int] == parts@[i as int]@);
        let p = parts[i].as_str();
        if p.unicode_len() > 0 && !version_part(p) {
            let ghost prev = kept@.map_values(|w: String| w@);
            let c = copy_sub(p, 0, p.unicode_len());
            assert(p@.subrange(0, p@.len() as int) =~= p@);
            kept.push(c);
            assert(kept@.map_values(|w: String| w@) =~= prev.push(c@));
        }
        i = i + 1;
    }
    let n = kept.len();
    let r = join_texts(&kept, n, '-');
    assert(kept@.subrange(0, n as int) =~= kept@);
    r
}

/// A feature name common enough to be read as the feature part of a name.
pub open spec fn is_common_feature(f: Seq<char>) -> bool {
    f == "default"@ || f == "alloc"@ || f == "std"@ || f == "core"@ || f == "result"@ || f == "rc"@
        || f == "unstable"@ || f == "derive"@ || f == "nightly"@ || f == "serde"@ || f == "tokio"@
        || f == "async"@ || f == "sync"@
}

fn common_feature(f: &str) -> (r: bool)
    ensures
        r == is_common_feature(f@),
{
    same_str(f, "default") || same_str(f, "alloc") || same_str(f, "std") || same_str(f, "core")
        || same_str(f, "result") || same_str(f, "rc") || same_str(f, "unstable") || same_str(f, "derive")
        || same_str(f, "nightly") || same_str(f, "serde") || same_str(f, "tokio") || same_str(f, "async")
        || same_str(f, "sync")
}

/// The `crate(name)` or `crate(name/feature)` form of a package name: after
/// cleaning and without `rust-`, the last `-` part is the feature where it
/// is a common feature name or where there are three parts or more.
pub open spec fn crate_form(pkg: Seq<char>) -> Seq<char> {
    let c = clean_name(pkg);
    let w = if c.len() >= 5 && c.subrange(0, 5) == "rust-"@ { c.subrange(5, c.len() as int) } else { c };
    let parts = pieces(w, '-');
    if parts.len() > 1 && (is_common_feature(parts.last()) || parts.len() >= 3) {
        "crate("@ + join_with(parts.drop_last(), '-') + seq!['/'] + parts.last() + seq![')']
    } else {
        "crate("@ + w + seq![')']
    }
}

/// A package name in `crate(...)` form, such as `crate(serde-core/result)`
/// for `rust-serde-core-result`.
pub fn convert_to_crate_format(pkg_name: &str) -> (r: String)
    ensures
        r@ == crate_form(pkg_name@),
{
    proof { reveal_strlit("rust-"); }
    let c = clean_package_name(pkg_name);
    let w = if starts_with(c.as_str(), "rust-") {
        copy_sub(c.as_str(), 5, c.as_str().unicode_len())
    } else {
        let t = copy_sub(c.as_str(), 0, c.as_str().unicode_len());
        assert(c@.subrange(0, c@.len() as int) =~= c@);
        t
    };
    let parts = split_at_char(w.as_str(), '-');
    let ghost pv = parts@.map_values(|x: String| x@);
    assert(pv.len() == parts@.len());
    let n = parts.len();
    let mut s = String::new();
    push_text(&mut s, "crate(");
    if n > 1 && (common_feature(parts[n - 1].as_str()) || n >= 3) {
        let head = join_texts(&parts, n - 1, '-');
        assert(parts@.subrange(0, n - 1).map_values(|x: String| x@) =~= pv.drop_last());
        assert(pv.last() == parts@[n - 1]@);
        push_text(&mut s, head.as_str());
        push_text(&mut s, "/");
        push_text(&mut s, parts[n - 1].as_str());
        push_text(&mut s, ")");
        proof { reveal_strlit("/"); reveal_strlit(")"); }
        assert(s@ =~= "crate("@ + join_with(pv.drop_last(), '-') + seq!['/'] + pv.last() + seq![')']);
    } else {
        push_text(&mut s, w.as_str());
        push_text(&mut s, ")");
        proof { reveal_strlit(")"); }
        assert(s@ =~= "crate("@ + w@ + seq![')']);
    }
    s
}
} // verus!
