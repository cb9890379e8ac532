//! Small text utilities for listings and paths.
use vstd::prelude::*;
use crate::range::texts;
use crate::text::{push_text, starts_with};

verus! {

/// The suffix of hint files.
pub const HINT_SUFFIX: &'static str = ".takopack.hint";

/// The texts joined by `, `.
pub open spec fn joined(items: Seq<Seq<char>>) -> Seq<char>
    decreases items.len(),
{
    if items.len() == 0 {
        seq![]
    } else if items.len() == 1 {
        items[0]
    } else {
        joined(items.drop_last()) + ", "@ + items.last()
    }
}

/// Lists the texts separated by `, `.
pub fn show_vec(items: &Vec<String>) -> (r: String)
    ensures
        r@ == joined(texts(items@)),
{
    let mut s = String::new();
    let mut i: usize = 0;
    while i < items.len()
        invariant
            i <= items@.len(),
            s@ == joined(texts(items@).subrange(0, i as int)),
        decreases items@.len() - i,
    {
        if i > 0 {
            push_text(&mut s, ", ");
        }
        push_text(&mut s, items[i].as_str());
        assert(texts(items@).subrange(0, i + 1).drop_last() =~= texts(items@).subrange(0, i as int));
        i = i + 1;
    }
    assert(texts(items@).subrange(0, i as int) =~= texts(items@));
    s
}

/// The file a hint file stands beside: its name without the hint suffix.
pub open spec fn hint_target(file: Seq<char>) -> Option<Seq<char>> {
    let n = ".takopack.hint"@.len();
    if file.len() >= n && file.subrange(file.len() - n, file.len() as int) == ".takopack.hint"@ {
        Some(file.subrange(0, file.len() - n))
    } else {
        None
    }
}

/// The file a hint file is for, or `None` for a file that is no hint.
pub fn hint_file_for(file: &str) -> (r: Option<String>)
    ensures
        match hint_target(file@) {
            Some(t) => r.is_some() && r.unwrap()@ == t,
            None => r.is_none(),
        },
{
    let n = file.unicode_len();
    let m = HINT_SUFFIX.unicode_len();
    if n < m {
        return None;
    }
    let tail = file.substring_char(n - m, n);
    if !crate::lockfile::same_str(tail, HINT_SUFFIX) {
        return None;
    }
    let mut s = String::new();
    push_text(&mut s, file.substring_char(0, n - m));
    Some(s)
}

/// A path relative to `base`: empty for `base` itself, the rest after
/// `base/`, and the path unchanged where it is not under `base`.
pub open spec fn relative(path: Seq<char>, base: Seq<char>) -> Seq<char> {
    if path == base {
        seq![]
    } else if path.len() > base.len() && path.subrange(0, base.len() as int) == base && path[base.len() as int] == '/' {
        path.subrange(base.len() as int + 1, path.len() as int)
    } else {
        path
    }
}

pub fn rel_p(path: &str, base: &str) -> (r: String)
    ensures
        r@ == relative(path@, base@),
{
    let n = path.unicode_len();
    let m = base.unicode_len();
    if crate::lockfile::same_str(path, base) {
        return String::new();
    }
    if n > m && starts_with(path, base) && path.get_char(m) == '/' {
        let mut s = String::new();
        push_text(&mut s, path.substring_char(m + 1, n));
        return s;
    }
    let mut s = String::new();
    push_text(&mut s, path);
    s
}

} // verus!
