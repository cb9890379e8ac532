//! Character-level helpers on `String` and `&str`, each stated over the
//! `Seq<char>` view of the text.
use vstd::prelude::*;

verus! {

/// Appends one character.
/// Relies on `String::push`: the character is added at the end.
#[verifier::external_body]
pub(crate) fn push_char(s: &mut String, c: char)
    ensures
        final(s)@ == old(s)@.push(c),
{
    s.push(c)
}

/// What `str::to_lowercase` returns for a text.
pub uninterp spec fn lower_of(s: Seq<char>) -> Seq<char>;

/// Relies on `str::to_lowercase`: the result depends on the characters alone,
/// and an empty text stays empty.
#[verifier::external_body]
pub(crate) fn lowercase(s: &str) -> (r: String)
    ensures
        r@ == lower_of(s@),
        s@.len() == 0 ==> r@.len() == 0,
{
    s.to_lowercase()
}

/// The decimal digit for `d < 10`.
pub open spec fn digit_char(d: nat) -> char {
    if d == 0 { '0' }
    else if d == 1 { '1' }
    else if d == 2 { '2' }
    else if d == 3 { '3' }
    else if d == 4 { '4' }
    else if d == 5 { '5' }
    else if d == 6 { '6' }
    else if d == 7 { '7' }
    else if d == 8 { '8' }
    else { '9' }
}

/// The decimal notation of `n`, without leading zeros.
pub open spec fn dec(n: nat) -> Seq<char>
    decreases n,
{
    if n < 10 {
        seq![digit_char(n)]
    } else {
        dec(n / 10).push(digit_char(n % 10))
    }
}

fn digit(d: u64) -> (c: char)
    requires
        d < 10,
    ensures
        c == digit_char(d as nat),
{
    if d == 0 { '0' }
    else if d == 1 { '1' }
    else if d == 2 { '2' }
    else if d == 3 { '3' }
    else if d == 4 { '4' }
    else if d == 5 { '5' }
    else if d == 6 { '6' }
    else if d == 7 { '7' }
    else if d == 8 { '8' }
    else { '9' }
}

/// Appends the decimal notation of `n`.
pub fn push_decimal(s: &mut String, n: u64)
    ensures
        final(s)@ == old(s)@ + dec(n as nat),
    decreases n,
{
    if n >= 10 {
        push_decimal(s, n / 10);
    }
    push_char(s, digit(n % 10));
    assert(final(s)@ =~= old(s)@ + dec(n as nat));
}

/// Appends a text.
pub fn push_text(s: &mut String, t: &str)
    ensures
        final(s)@ == old(s)@ + t@,
{
    s.append(t);
}

/// White space as `char::is_whitespace` defines it (the Unicode
/// `White_Space` property).
pub open spec fn is_space(c: char) -> bool {
    c == ' ' || c == '\t' || c == '\n' || c == '\x0B' || c == '\x0C' || c == '\r'
        || c == '\u{85}' || c == '\u{A0}' || c == '\u{1680}'
        || ('\u{2000}' <= c && c <= '\u{200A}')
        || c == '\u{2028}' || c == '\u{2029}' || c == '\u{202F}' || c == '\u{205F}'
        || c == '\u{3000}'
}

pub fn space(c: char) -> (r: bool)
    ensures
        r == is_space(c),
{
    c == ' ' || c == '\t' || c == '\n' || c == '\x0B' || c == '\x0C' || c == '\r'
        || c == '\u{85}' || c == '\u{A0}' || c == '\u{1680}'
        || ('\u{2000}' <= c && c <= '\u{200A}')
        || c == '\u{2028}' || c == '\u{2029}' || c == '\u{202F}' || c == '\u{205F}'
        || c == '\u{3000}'
}

/// The words found in the first `i` characters of `s`: the finished words and
/// the word still being read.
pub open spec fn words_upto(s: Seq<char>, i: nat) -> (Seq<Seq<char>>, Seq<char>)
    decreases i,
{
    if i == 0 || i > s.len() {
        (seq![], seq![])
    } else {
        let (done, cur) = words_upto(s, (i - 1) as nat);
        let c = s[i - 1];
        if is_space(c) {
            if cur.len() > 0 { (done.push(cur), seq![]) } else { (done, cur) }
        } else {
            (done, cur.push(c))
        }
    }
}

/// The maximal runs of non-space characters of `s`, in order.
pub open spec fn words(s: Seq<char>) -> Seq<Seq<char>> {
    let (done, cur) = words_upto(s, s.len());
    if cur.len() > 0 { done.push(cur) } else { done }
}

proof fn lemma_words_upto_nonempty(s: Seq<char>, i: nat)
    ensures
        forall|j: int| 0 <= j < words_upto(s, i).0.len() ==> (#[trigger] words_upto(s, i).0[j]).len() > 0,
    decreases i,
{
    if i > 0 && i <= s.len() {
        lemma_words_upto_nonempty(s, (i - 1) as nat);
        let (done, cur) = words_upto(s, (i - 1) as nat);
        if is_space(s[i - 1]) && cur.len() > 0 {
            assert forall|j: int| 0 <= j < done.push(cur).len() implies (#[trigger] done.push(cur)[j]).len() > 0 by {
                if j < done.len() {
                    assert(done.push(cur)[j] == done[j]);
                }
            }
        }
    }
}

/// Every word holds at least one character.
pub proof fn lemma_words_nonempty(s: Seq<char>)
    ensures
        forall|j: int| 0 <= j < words(s).len() ==> (#[trigger] words(s)[j]).len() > 0,
{
    lemma_words_upto_nonempty(s, s.len());
}

/// Reading a run of non-space characters extends the current word.
pub proof fn lemma_words_run(s: Seq<char>, i: nat, m: nat)
    requires
        i + m <= s.len(),
        forall|k: int| i <= k < i + m ==> !is_space(#[trigger] s[k]),
    ensures
        words_upto(s, i + m) == (words_upto(s, i).0, words_upto(s, i).1 + s.subrange(i as int, (i + m) as int)),
    decreases m,
{
    if m == 0 {
        assert(words_upto(s, i).1 + s.subrange(i as int, i as int) =~= words_upto(s, i).1);
    } else {
        lemma_words_run(s, i, (m - 1) as nat);
        assert(!is_space(s[i + m - 1]));
        assert(words_upto(s, i).1 + s.subrange(i as int, (i + m) as int) =~= (words_upto(s, i).1 + s.subrange(i as int, (i + m - 1) as int)).push(s[i + m - 1]));
    }
}

/// No decimal notation holds white space.
pub proof fn lemma_dec_no_space(n: nat)
    ensures
        forall|k: int| 0 <= k < dec(n).len() ==> !is_space(#[trigger] dec(n)[k]),
        dec(n).len() > 0,
    decreases n,
{
    if n >= 10 {
        lemma_dec_no_space(n / 10);
        assert forall|k: int| 0 <= k < dec(n).len() implies !is_space(#[trigger] dec(n)[k]) by {
            if k < dec(n / 10).len() {
                assert(dec(n)[k] == dec(n / 10)[k]);
            }
        }
    }
}

/// The words of `a b`, where neither holds white space, are `a` and `b`.
pub proof fn lemma_two_words(a: Seq<char>, b: Seq<char>)
    requires
        a.len() > 0,
        b.len() > 0,
        forall|k: int| 0 <= k < a.len() ==> !is_space(#[trigger] a[k]),
        forall|k: int| 0 <= k < b.len() ==> !is_space(#[trigger] b[k]),
    ensures
        words(a + seq![' '] + b) == seq![a, b],
{
    let s = a + seq![' '] + b;
    assert forall|k: int| 0 <= k < a.len() implies !is_space(#[trigger] s[k]) by {
        assert(s[k] == a[k]);
    }
    lemma_words_run(s, 0, a.len());
    assert(s.subrange(0, a.len() as int) =~= a);
    assert(words_upto(s, 0) == (Seq::<Seq<char>>::empty(), Seq::<char>::empty()));
    assert(Seq::<char>::empty() + a =~= a);
    assert(s[a.len() as int] == ' ');
    assert(words_upto(s, a.len() + 1) == (seq![a], Seq::<char>::empty()));
    assert forall|k: int| a.len() + 1 <= k < a.len() + 1 + b.len() implies !is_space(#[trigger] s[k]) by {
        assert(s[k] == b[k - a.len() - 1]);
    }
    lemma_words_run(s, a.len() + 1, b.len());
    assert(s.subrange(a.len() as int + 1, (a.len() + 1 + b.len()) as int) =~= b);
    assert(Seq::<char>::empty() + b =~= b);
    assert(s.len() == a.len() + 1 + b.len());
}

/// The words of `a b false`, where neither `a` nor `b` holds white space.
pub proof fn lemma_three_words(a: Seq<char>, b: Seq<char>)
    requires
        a.len() > 0,
        b.len() > 0,
        forall|k: int| 0 <= k < a.len() ==> !is_space(#[trigger] a[k]),
        forall|k: int| 0 <= k < b.len() ==> !is_space(#[trigger] b[k]),
    ensures
        words(a + seq![' '] + b + " false"@) == seq![a, b, "false"@],
{
    reveal_strlit(" false");
    reveal_strlit("false");
    let ab = a + seq![' '] + b;
    let s = ab + " false"@;
    let f = "false"@;
    assert forall|k: int| 0 <= k < a.len() implies !is_space(#[trigger] s[k]) by {
        assert(s[k] == a[k]);
    }
    lemma_words_run(s, 0, a.len());
    assert(s.subrange(0, a.len() as int) =~= a);
    assert(words_upto(s, 0) == (Seq::<Seq<char>>::empty(), Seq::<char>::empty()));
    assert(Seq::<char>::empty() + a =~= a);
    assert(s[a.len() as int] == ' ');
    assert(words_upto(s, a.len() + 1) == (seq![a], Seq::<char>::empty()));
    assert forall|k: int| a.len() + 1 <= k < a.len() + 1 + b.len() implies !is_space(#[trigger] s[k]) by {
        assert(s[k] == b[k - a.len() - 1]);
    }
    lemma_words_run(s, a.len() + 1, b.len());
    assert(s.subrange(a.len() as int + 1, (a.len() + 1 + b.len()) as int) =~= b);
    assert(Seq::<char>::empty() + b =~= b);
    let n = ab.len();
    assert(s[n as int] == ' ');
    assert(words_upto(s, n + 1) == (seq![a, b], Seq::<char>::empty()));
    assert forall|k: int| n + 1 <= k < n + 6 implies !is_space(#[trigger] s[k]) by {
        assert(s[k] == f[k - n - 1]);
    }
    lemma_words_run(s, n + 1, 5);
    assert(s.subrange(n as int + 1, (n + 6) as int) =~= f);
    assert(Seq::<char>::empty() + f =~= f);
    assert(s.len() == n + 6);
}

/// Splits a text at white space, as `str::split_whitespace` does.
pub fn split_words(s: &str) -> (r: Vec<String>)
    ensures
        r@.map_values(|w: String| w@) == words(s@),
{
    let n = s.unicode_len();
    let mut done: Vec<String> = Vec::new();
    let mut cur = String::new();
    let mut i: usize = 0;
    while i < n
        invariant
            n == s@.len(),
            i <= n,
            (done@.map_values(|w: String| w@), cur@) == words_upto(s@, i as nat),
        decreases n - i,
    {
        let c = s.get_char(i);
        if space(c) {
            if cur.as_str().unicode_len() > 0 {
                let ghost before = done@.map_values(|w: String| w@);
                done.push(cur);
                cur = String::new();
                assert(done@.map_values(|w: String| w@) =~= before.push(words_upto(s@, i as nat).1));
            }
        } else {
            push_char(&mut cur, c);
        }
        i = i + 1;
    }
    if cur.as_str().unicode_len() > 0 {
        let ghost before = done@.map_values(|w: String| w@);
        done.push(cur);
        assert(done@.map_values(|w: String| w@) =~= before.push(words_upto(s@, n as nat).1));
    }
    done
}

/// The text with every `from` replaced by `to`.
pub open spec fn replaced(s: Seq<char>, from: char, to: char) -> Seq<char> {
    s.map_values(|c: char| if c == from { to } else { c })
}

/// Replaces each `from` by `to`, as `str::replace` does for one character.
pub fn replace_char(s: &str, from: char, to: char) -> (r: String)
    ensures
        r@ == replaced(s@, from, to),
{
    let n = s.unicode_len();
    let mut r = String::new();
    let mut i: usize = 0;
    while i < n
        invariant
            n == s@.len(),
            i <= n,
            r@ == replaced(s@.subrange(0, i as int), from, to),
        decreases n - i,
    {
        let c = s.get_char(i);
        if c == from {
            push_char(&mut r, to);
        } else {
            push_char(&mut r, c);
        }
        assert(s@.subrange(0, i + 1) =~= s@.subrange(0, i as int).push(c));
        i = i + 1;
        assert(r@ =~= replaced(s@.subrange(0, i as int), from, to));
    }
    assert(s@.subrange(0, n as int) =~= s@);
    r
}

/// `a` comes before `b` in lexicographic order of characters, which is the
/// byte order of their UTF-8 encodings.
pub open spec fn text_lt(a: Seq<char>, b: Seq<char>) -> bool
    decreases a.len(),
{
    if a.len() == 0 {
        b.len() > 0
    } else if b.len() == 0 {
        false
    } else if a[0] != b[0] {
        a[0] < b[0]
    } else {
        text_lt(a.drop_first(), b.drop_first())
    }
}

/// No text comes before itself.
pub proof fn lemma_text_lt_irreflexive(a: Seq<char>)
    ensures
        !text_lt(a, a),
    decreases a.len(),
{
    if a.len() > 0 {
        lemma_text_lt_irreflexive(a.drop_first());
    }
}

/// Lexicographic order is transitive.
pub proof fn lemma_text_lt_transitive(a: Seq<char>, b: Seq<char>, c: Seq<char>)
    requires
        text_lt(a, b),
        text_lt(b, c),
    ensures
        text_lt(a, c),
    decreases a.len(),
{
    if a.len() > 0 && b.len() > 0 && c.len() > 0 && a[0] == b[0] && b[0] == c[0] {
        lemma_text_lt_transitive(a.drop_first(), b.drop_first(), c.drop_first());
    }
}

/// Of two different texts, one comes before the other.
pub proof fn lemma_text_lt_total(a: Seq<char>, b: Seq<char>)
    requires
        a != b,
    ensures
        text_lt(a, b) || text_lt(b, a),
    decreases a.len(),
{
    if a.len() > 0 && b.len() > 0 && a[0] == b[0] {
        if a.drop_first() == b.drop_first() {
            assert(a =~= seq![a[0]] + a.drop_first());
            assert(b =~= seq![b[0]] + b.drop_first());
        }
        lemma_text_lt_total(a.drop_first(), b.drop_first());
    } else if a.len() == 0 && b.len() == 0 {
        assert(a =~= b);
    }
}

/// Each text comes before every later one.
pub open spec fn texts_sorted(s: Seq<Seq<char>>) -> bool {
    forall|a: int, b: int| 0 <= a < b < s.len() ==> text_lt(#[trigger] s[a], #[trigger] s[b])
}

/// Whether `a` comes before `b` in lexicographic order.
pub fn less_text(a: &str, b: &str) -> (r: bool)
    ensures
        r == text_lt(a@, b@),
{
    let n = a.unicode_len();
    let m = b.unicode_len();
    let mut i: usize = 0;
    assert(a@.subrange(0, n as int) =~= a@);
    assert(b@.subrange(0, m as int) =~= b@);
    while i < n && i < m
        invariant
            n == a@.len(),
            m == b@.len(),
            i <= n,
            i <= m,
            text_lt(a@, b@) == text_lt(a@.subrange(i as int, n as int), b@.subrange(i as int, m as int)),
        decreases n - i,
    {
        let x = a.get_char(i);
        let y = b.get_char(i);
        assert(a@.subrange(i as int, n as int)[0] == x);
        assert(b@.subrange(i as int, m as int)[0] == y);
        if x != y {
            return x < y;
        }
        assert(a@.subrange(i as int, n as int).drop_first() =~= a@.subrange(i + 1, n as int));
        assert(b@.subrange(i as int, m as int).drop_first() =~= b@.subrange(i + 1, m as int));
        i = i + 1;
    }
    assert(a@.subrange(0, n as int) =~= a@);
    assert(b@.subrange(0, m as int) =~= b@);
    i == n && i < m
}

/// The pieces between `sep` signs among the first `i` characters of `s`:
/// the finished pieces and the piece being read.
pub open spec fn pieces_upto(s: Seq<char>, sep: char, i: nat) -> (Seq<Seq<char>>, Seq<char>)
    decreases i,
{
    if i == 0 || i > s.len() {
        (seq![], seq![])
    } else {
        let (done, cur) = pieces_upto(s, sep, (i - 1) as nat);
        if s[i - 1] == sep { (done.push(cur), seq![]) } else { (done, cur.push(s[i - 1])) }
    }
}

/// The pieces of `s` between `sep` signs, empty ones included.
pub open spec fn pieces(s: Seq<char>, sep: char) -> Seq<Seq<char>> {
    pieces_upto(s, sep, s.len()).0.push(pieces_upto(s, sep, s.len()).1)
}

/// Splits a text at every `sep`, as `str::split` does for one character.
pub fn split_at_char(s: &str, sep: char) -> (r: Vec<String>)
    ensures
        r@.map_values(|w: String| w@) == pieces(s@, sep),
{
    let n = s.unicode_len();
    let mut done: Vec<String> = Vec::new();
    let mut cur = String::new();
    let mut i: usize = 0;
    while i < n
        invariant
            n == s@.len(),
            i <= n,
            (done@.map_values(|w: String| w@), cur@) == pieces_upto(s@, sep, i as nat),
        decreases n - i,
    {
        let c = s.get_char(i);
        if c == sep {
            let ghost before = done@.map_values(|w: String| w@);
            done.push(cur);
            cur = String::new();
            assert(done@.map_values(|w: String| w@) =~= before.push(pieces_upto(s@, sep, i as nat).1));
        } else {
            push_char(&mut cur, c);
        }
        i = i + 1;
    }
    let ghost before = done@.map_values(|w: String| w@);
    done.push(cur);
    assert(done@.map_values(|w: String| w@) =~= before.push(pieces_upto(s@, sep, n as nat).1));
    done
}

/// The text without trailing white space.
pub open spec fn trim_end(s: Seq<char>) -> Seq<char>
    decreases s.len(),
{
    if s.len() > 0 && is_space(s.last()) { trim_end(s.drop_last()) } else { s }
}

/// Removes trailing white space, as `str::trim_end` does.
pub fn trimmed_end(s: &str) -> (r: String)
    ensures
        r@ == trim_end(s@),
{
    let mut n = s.unicode_len();
    assert(s@.subrange(0, n as int) =~= s@);
    while n > 0 && space(s.get_char(n - 1))
        invariant
            n <= s@.len(),
            trim_end(s@) == trim_end(s@.subrange(0, n as int)),
        decreases n,
    {
        assert(s@.subrange(0, n as int).drop_last() =~= s@.subrange(0, n - 1));
        n = n - 1;
    }
    let mut r = String::new();
    push_text(&mut r, s.substring_char(0, n));
    r
}

/// The text without leading white space.
pub open spec fn trim_start(s: Seq<char>) -> Seq<char>
    decreases s.len(),
{
    if s.len() > 0 && is_space(s[0]) { trim_start(s.drop_first()) } else { s }
}

/// The text without white space at either end.
pub open spec fn trim(s: Seq<char>) -> Seq<char> {
    trim_start(trim_end(s))
}

/// Removes white space at both ends, as `str::trim` does.
pub fn trimmed(s: &str) -> (r: String)
    ensures
        r@ == trim(s@),
{
    let t = trimmed_end(s);
    let n = t.as_str().unicode_len();
    let mut i: usize = 0;
    assert(t@.subrange(0, n as int) =~= t@);
    while i < n && space(t.as_str().get_char(i))
        invariant
            n == t@.len(),
            i <= n,
            trim_start(t@) == trim_start(t@.subrange(i as int, n as int)),
        decreases n - i,
    {
        assert(t@.subrange(i as int, n as int).drop_first() =~= t@.subrange(i + 1, n as int));
        i = i + 1;
    }
    let mut r = String::new();
    push_text(&mut r, t.as_str().substring_char(i, n));
    r
}

/// `s` ends with `p`.
pub open spec fn ends_with(s: Seq<char>, p: Seq<char>) -> bool {
    p.len() <= s.len() && s.subrange(s.len() - p.len(), s.len() as int) == p
}

/// Whether `s` ends with `p`.
pub fn ends_with_text(s: &str, p: &str) -> (r: bool)
    ensures
        r == ends_with(s@, p@),
{
    let n = s.unicode_len();
    let m = p.unicode_len();
    if m > n {
        return false;
    }
    let mut i: usize = 0;
    while i < m
        invariant
            n == s@.len(),
            m == p@.len(),
            m <= n,
            i <= m,
            forall|j: int| 0 <= j < i ==> s@[n - m + j] == p@[j],
        decreases m - i,
    {
        if s.get_char(n - m + i) != p.get_char(i) {
            assert(s@.subrange(n - m, n as int)[i as int] != p@[i as int]);
            return false;
        }
        i = i + 1;
    }
    assert(s@.subrange(n - m, n as int) =~= p@);
    true
}

/// The first index at or after `from` where `c` stands.
pub open spec fn index_of(s: Seq<char>, c: char, from: int) -> Option<int>
    decreases s.len() - from,
{
    if from < 0 || from >= s.len() {
        None
    } else if s[from] == c {
        Some(from)
    } else {
        index_of(s, c, from + 1)
    }
}

proof fn lemma_index_of_bounds(s: Seq<char>, c: char, from: int)
    requires
        0 <= from,
    ensures
        match index_of(s, c, from) {
            Some(i) => from <= i < s.len() && s[i] == c,
            None => true,
        },
    decreases s.len() - from,
{
    if from < s.len() && s[from] != c {
        lemma_index_of_bounds(s, c, from + 1);
    }
}

/// The index of the first `c` in `s`.
pub fn find_char(s: &str, c: char) -> (r: Option<usize>)
    ensures
        match index_of(s@, c, 0) {
            Some(i) => r.is_some() && r.unwrap() as int == i && i < s@.len(),
            None => r.is_none(),
        },
{
    proof { lemma_index_of_bounds(s@, c, 0); }
    let n = s.unicode_len();
    let mut i: usize = 0;
    while i < n
        invariant
            n == s@.len(),
            i <= n,
            index_of(s@, c, 0) == index_of(s@, c, i as int),
        decreases n - i,
    {
        if s.get_char(i) == c {
            return Some(i);
        }
        i = i + 1;
    }
    None
}

/// The texts joined by `sep`.
pub open spec fn join_with(parts: Seq<Seq<char>>, sep: char) -> Seq<char>
    decreases parts.len(),
{
    if parts.len() == 0 {
        seq![]
    } else if parts.len() == 1 {
        parts[0]
    } else {
        join_with(parts.drop_last(), sep) + seq![sep] + parts.last()
    }
}

/// Joins the first `n` texts with `sep`.
pub fn join_texts(parts: &Vec<String>, n: usize, sep: char) -> (r: String)
    requires
        n <= parts@.len(),
    ensures
        r@ == join_with(parts@.subrange(0, n as int).map_values(|w: String| w@), sep),
{
    let mut out = String::new();
    let mut i: usize = 0;
    while i < n
        invariant
            n <= parts@.len(),
            i <= n,
            out@ == join_with(parts@.subrange(0, i as int).map_values(|w: String| w@), sep),
        decreases n - i,
    {
        if i > 0 {
            push_char(&mut out, sep);
        }
        push_text(&mut out, parts[i].as_str());
        assert(parts@.subrange(0, i + 1).map_values(|w: String| w@).drop_last()
            =~= parts@.subrange(0, i as int).map_values(|w: String| w@));
        i = i + 1;
    }
    out
}

/// A decimal digit.
pub open spec fn is_digit(c: char) -> bool {
    '0' <= c && c <= '9'
}

/// The text with every leading occurrence of `p` removed.
pub open spec fn strip_all_prefix(s: Seq<char>, p: Seq<char>) -> Seq<char>
    decreases s.len(),
{
    if p.len() > 0 && p.len() <= s.len() && s.subrange(0, p.len() as int) == p {
        strip_all_prefix(s.subrange(p.len() as int, s.len() as int), p)
    } else {
        s
    }
}

/// Removes `p` from the start as often as it is there, as
/// `str::trim_start_matches` does.
pub fn strip_all(s: &str, p: &str) -> (r: String)
    ensures
        r@ == strip_all_prefix(s@, p@),
{
    let n = s.unicode_len();
    let m = p.unicode_len();
    let mut cur = String::new();
    push_text(&mut cur, s);
    if m == 0 {
        return cur;
    }
    let mut rest = cur;
    while starts_with(rest.as_str(), p)
        invariant
            m == p@.len(),
            m > 0,
            strip_all_prefix(s@, p@) == strip_all_prefix(rest@, p@),
        decreases rest@.len(),
    {
        let k = rest.as_str().unicode_len();
        let mut next = String::new();
        push_text(&mut next, rest.as_str().substring_char(m, k));
        rest = next;
    }
    rest
}

/// `p` occurs in `s`.
pub open spec fn has_text(s: Seq<char>, p: Seq<char>) -> bool {
    exists|i: int| 0 <= i && i + p.len() <= s.len() && #[trigger] s.subrange(i, i + p.len()) == p
}

/// Whether `p` occurs in `s`, as `str::contains` does for a text.
pub fn contains_text(s: &str, p: &str) -> (r: bool)
    ensures
        r == has_text(s@, p@),
{
    let n = s.unicode_len();
    let m = p.unicode_len();
    if m > n {
        return false;
    }
    let mut i: usize = 0;
    loop
        invariant
            n == s@.len(),
            m == p@.len(),
            m <= n,
            i <= n - m,
            forall|k: int| 0 <= k < i ==> #[trigger] s@.subrange(k, k + m) != p@,
        ensures
            forall|k: int| 0 <= k <= n - m ==> #[trigger] s@.subrange(k, k + m) != p@,
        decreases n - m - i,
    {
        let tail = s.substring_char(i, n);
        assert(tail@.subrange(0, m as int) =~= s@.subrange(i as int, i + m));
        if starts_with(tail, p) {
            return true;
        }
        if i == n - m {
            assert(s@.subrange(i as int, i + m) != p@);
            break;
        }
        i = i + 1;
    }
    proof {
        if has_text(s@, p@) {
            let k = choose|k: int| 0 <= k && k + p@.len() <= s@.len() && #[trigger] s@.subrange(k, k + p@.len()) == p@;
            assert(k <= n - m);
        }
    }
    false
}

/// The first index at or after `from` where `p` occurs in `s`.
pub open spec fn text_at(s: Seq<char>, p: Seq<char>, from: int) -> Option<int>
    decreases s.len() + 1 - from,
{
    if from < 0 || from + p.len() > s.len() {
        None
    } else if s.subrange(from, from + p.len()) == p {
        Some(from)
    } else {
        text_at(s, p, from + 1)
    }
}

proof fn lemma_text_at_bounds(s: Seq<char>, p: Seq<char>, from: int)
    requires
        0 <= from,
    ensures
        match text_at(s, p, from) {
            Some(i) => from <= i && i + p.len() <= s.len(),
            None => true,
        },
    decreases s.len() + 1 - from,
{
    if from + p.len() <= s.len() && s.subrange(from, from + p.len()) != p {
        lemma_text_at_bounds(s, p, from + 1);
    }
}

/// The index of the first occurrence of `p` in `s`, as `str::find` gives it
/// counted in characters.
pub fn find_text(s: &str, p: &str) -> (r: Option<usize>)
    ensures
        match text_at(s@, p@, 0) {
            Some(i) => r.is_some() && r.unwrap() as int == i && i + p@.len() <= s@.len(),
            None => r.is_none(),
        },
{
    proof { lemma_text_at_bounds(s@, p@, 0); }
    let n = s.unicode_len();
    let m = p.unicode_len();
    if m > n {
        return None;
    }
    let mut i: usize = 0;
    loop
        invariant
            n == s@.len(),
            m == p@.len(),
            m <= n,
            i <= n - m,
            text_at(s@, p@, 0) == text_at(s@, p@, i as int),
        decreases n - m - i,
    {
        let tail = s.substring_char(i, n);
        assert(tail@.subrange(0, m as int) =~= s@.subrange(i as int, i + m));
        if starts_with(tail, p) {
            return Some(i);
        }
        if i == n - m {
            assert(text_at(s@, p@, i + 1) is None);
            return None;
        }
        i = i + 1;
    }
}

/// What `str::parse::<u64>` gives for a text.
pub uninterp spec fn u64_of(s: Seq<char>) -> Option<u64>;

/// Relies on `str::parse::<u64>`: the number a text writes, `None` where it
/// writes none that fits.
#[verifier::external_body]
pub(crate) fn parse_u64(s: &str) -> (r: Option<u64>)
    ensures
        r == u64_of(s@),
{
    s.parse::<u64>().ok()
}

/// Whether `c` occurs in `s`.
pub fn contains_char(s: &str, c: char) -> (r: bool)
    ensures
        r == s@.contains(c),
{
    let n = s.unicode_len();
    let mut i: usize = 0;
    while i < n
        invariant
            n == s@.len(),
            i <= n,
            forall|j: int| 0 <= j < i ==> s@[j] != c,
        decreases n - i,
    {
        if s.get_char(i) == c {
            return true;
        }
        i = i + 1;
    }
    false
}

/// Whether `s` begins with `p`.
pub fn starts_with(s: &str, p: &str) -> (r: bool)
    ensures
        r == (p@.len() <= s@.len() && s@.subrange(0, p@.len() as int) == p@),
{
    let n = s.unicode_len();
    let m = p.unicode_len();
    if m > n {
        return false;
    }
    let mut i: usize = 0;
    while i < m
        invariant
            n == s@.len(),
            m == p@.len(),
            m <= n,
            i <= m,
            forall|j: int| 0 <= j < i ==> s@[j] == p@[j],
        decreases m - i,
    {
        if s.get_char(i) != p.get_char(i) {
            assert(s@.subrange(0, m as int)[i as int] != p@[i as int]);
            return false;
        }
        i = i + 1;
    }
    assert(s@.subrange(0, m as int) =~= p@);
    true
}

} // verus!
