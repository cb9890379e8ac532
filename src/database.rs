//! The crate version database: one entry per crate name and compatibility
//! version, kept across runs as text lines.
use vstd::prelude::*;
use crate::text::{less_text, text_lt, lemma_text_lt_total, lemma_text_lt_transitive, dec, is_space, pieces, push_char, push_decimal, push_text, split_at_char, split_words, words};
use crate::range::texts;
use crate::translate::{insert_text, texts_distinct};
use crate::lockfile::{DependencyGraph, PackageView};
use crate::version::{at_least, parse_version, semver_cmp, semver_parse, version_cmp, version_text, Version, VersionTuple};

verus! {

/// The coarsened version under which compatible releases share one package:
/// the full version for a pre-release, `major.0` from 1.0 on, `0.minor` for
/// 0.x and `0.0.patch` for 0.0.x.
pub open spec fn compat_text(v: VersionTuple) -> Seq<char> {
    if v.3.len() > 0 {
        dec(v.0 as nat) + seq!['.'] + dec(v.1 as nat) + seq!['.'] + dec(v.2 as nat) + seq!['-'] + v.3
    } else if v.0 != 0 {
        dec(v.0 as nat) + ".0"@
    } else if v.1 != 0 {
        "0."@ + dec(v.1 as nat)
    } else {
        "0.0."@ + dec(v.2 as nat)
    }
}

/// The compatibility version of a version.
pub fn calculate_compat_version(version: &Version) -> (r: String)
    ensures
        r@ == compat_text(version@),
{
    let mut s = String::new();
    if version.pre.as_str().unicode_len() > 0 {
        push_decimal(&mut s, version.major);
        push_char(&mut s, '.');
        push_decimal(&mut s, version.minor);
        push_char(&mut s, '.');
        push_decimal(&mut s, version.patch);
        push_char(&mut s, '-');
        push_text(&mut s, version.pre.as_str());
    } else if version.major != 0 {
        push_decimal(&mut s, version.major);
        push_text(&mut s, ".0");
    } else if version.minor != 0 {
        push_text(&mut s, "0.");
        push_decimal(&mut s, version.minor);
    } else {
        push_text(&mut s, "0.0.");
        push_decimal(&mut s, version.patch);
    }
    s
}

/// One crate at one exact version.
#[derive(Clone, Debug, PartialEq, Eq)]
pub struct CrateEntry {
    /// The crate name as written, `-` and `_` kept apart.
    pub name: String,
    pub version: Version,
    /// False for a pre-release version.
    pub compatible: bool,
}

/// Name, version and compatibility flag as plain values.
pub type EntryView = (Seq<char>, VersionTuple, bool);

impl View for CrateEntry {
    type V = EntryView;

    open spec fn view(&self) -> EntryView {
        (self.name@, self.version@, self.compatible)
    }
}

/// `name@compat`.
pub open spec fn key_of(e: EntryView) -> Seq<char> {
    e.0 + seq!['@'] + compat_text(e.1)
}

/// `name version`, with ` false` for an incompatible entry.
pub open spec fn line_of(e: EntryView) -> Seq<char> {
    let base = e.0 + seq![' '] + version_text(e.1);
    if e.2 { base } else { base + " false"@ }
}

/// What a line of the database file holds: the entry, or why it has none
/// (`0`: blank or comment, `1`: fewer than two fields, `2`: unreadable
/// version).
pub open spec fn entry_of_line(line: Seq<char>) -> Result<EntryView, u8> {
    let w = words(line);
    if w.len() == 0 || w[0][0] == '#' {
        Err(0)
    } else if w.len() < 2 {
        Err(1)
    } else {
        match semver_parse(w[1]) {
            None => Err(2),
            Some(v) => Ok((w[0], v, w.len() < 3 || w[2] != "false"@)),
        }
    }
}

/// Why a line holds no entry.
#[derive(Clone, Debug)]
pub enum LineError {
    /// A blank line or a comment.
    EmptyOrComment,
    /// Fewer than two fields.
    InvalidFormat { line: String },
    /// The version field is no version.
    BadVersion { name: String, version: String },
}

/// The number `entry_of_line` gives an error.
pub open spec fn line_error_kind(e: LineError) -> u8 {
    match e {
        LineError::EmptyOrComment => 0,
        LineError::InvalidFormat { .. } => 1,
        LineError::BadVersion { .. } => 2,
    }
}

impl CrateEntry {
    /// An entry for `name` at `version`, compatible unless it is a
    /// pre-release.
    pub fn new(name: String, version: Version) -> (r: CrateEntry)
        ensures
            r@ == (name@, version@, version.pre@.len() == 0),
    {
        let compatible = Self::is_standard_version(&version);
        CrateEntry { name, version, compatible }
    }

    /// Whether the version is a regular release: no pre-release tag. Build
    /// metadata does not count.
    pub fn is_standard_version(version: &Version) -> (r: bool)
        ensures
            r == (version.pre@.len() == 0),
    {
        version.pre.as_str().unicode_len() == 0
    }

    /// The compatibility version of the entry.
    pub fn compat_version(&self) -> (r: String)
        ensures
            r@ == compat_text(self.version@),
    {
        calculate_compat_version(&self.version)
    }

    /// The database key, `name@compat`.
    pub fn key(&self) -> (r: String)
        ensures
            r@ == key_of(self@),
    {
        let mut s = String::new();
        push_text(&mut s, self.name.as_str());
        push_char(&mut s, '@');
        let c = self.compat_version();
        push_text(&mut s, c.as_str());
        s
    }

    /// Reads a line `name version [false]`.
    pub fn from_line(line: &str) -> (r: Result<CrateEntry, LineError>)
        ensures
            match entry_of_line(line@) {
                Ok(e) => r.is_ok() && r.unwrap()@ == e,
                Err(k) => r.is_err() && line_error_kind(r->Err_0) == k,
            },
    {
        let parts = split_words(line);
        proof {
            assert(parts@.len() == words(line@).len());
            if parts@.len() > 0 {
                assert(parts@[0]@ == words(line@)[0]);
            }
            if parts@.len() > 1 {
                assert(parts@[1]@ == words(line@)[1]);
            }
            if parts@.len() > 2 {
                assert(parts@[2]@ == words(line@)[2]);
            }
            crate::text::lemma_words_nonempty(line@);
        }
        if parts.len() == 0 || parts[0].as_str().get_char(0) == '#' {
            return Err(LineError::EmptyOrComment);
        }
        if parts.len() < 2 {
            let mut l = String::new();
            push_text(&mut l, line);
            return Err(LineError::InvalidFormat { line: l });
        }
        let no_flag = String::from_str("false");
        let compatible = parts.len() < 3 || parts[2] != no_flag;
        match parse_version(parts[1].as_str()) {
            None => {
                let mut name = String::new();
                push_text(&mut name, parts[0].as_str());
                let mut version = String::new();
                push_text(&mut version, parts[1].as_str());
                Err(LineError::BadVersion { name, version })
            },
            Some(version) => {
                let mut name = String::new();
                push_text(&mut name, parts[0].as_str());
                Ok(CrateEntry { name, version, compatible })
            },
        }
    }

    /// Writes the entry as a line `name version [false]`.
    pub fn to_line(&self) -> (r: String)
        ensures
            r@ == line_of(self@),
    {
        let mut s = String::new();
        push_text(&mut s, self.name.as_str());
        push_char(&mut s, ' ');
        let v = self.version.to_text();
        push_text(&mut s, v.as_str());
        if !self.compatible {
            push_text(&mut s, " false");
        }
        s
    }

    /// A copy of the entry.
    pub fn copy(&self) -> (r: CrateEntry)
        ensures
            r@ == self@,
    {
        let mut name = String::new();
        push_text(&mut name, self.name.as_str());
        CrateEntry { name, version: self.version.copy(), compatible: self.compatible }
    }
}

/// The views of a list of entries.
pub open spec fn entry_views(s: Seq<CrateEntry>) -> Seq<EntryView> {
    s.map_values(|e: CrateEntry| e@)
}

/// No two entries share a key.
pub open spec fn keys_unique(s: Seq<EntryView>) -> bool {
    forall|i: int, j: int| 0 <= i < s.len() && 0 <= j < s.len() && i != j
        ==> key_of(#[trigger] s[i]) != key_of(#[trigger] s[j])
}

/// The entries by key; a later entry wins over an earlier one.
pub open spec fn to_map(s: Seq<EntryView>) -> Map<Seq<char>, EntryView>
    decreases s.len(),
{
    if s.len() == 0 {
        Map::empty()
    } else {
        to_map(s.drop_last()).insert(key_of(s.last()), s.last())
    }
}

proof fn lemma_to_map_dom(s: Seq<EntryView>, k: Seq<char>)
    ensures
        to_map(s).contains_key(k) <==> exists|i: int| 0 <= i < s.len() && key_of(#[trigger] s[i]) == k,
    decreases s.len(),
{
    if s.len() > 0 {
        lemma_to_map_dom(s.drop_last(), k);
        if to_map(s).contains_key(k) && key_of(s.last()) == k {
            assert(key_of(s[s.len() - 1]) == k);
        }
        if exists|i: int| 0 <= i < s.len() && key_of(#[trigger] s[i]) == k {
            let i = choose|i: int| 0 <= i < s.len() && key_of(#[trigger] s[i]) == k;
            if i < s.len() - 1 {
                assert(key_of(s.drop_last()[i]) == k);
            }
        }
        if exists|i: int| 0 <= i < s.len() - 1 && key_of(#[trigger] s.drop_last()[i]) == k {
            let i = choose|i: int| 0 <= i < s.len() - 1 && key_of(#[trigger] s.drop_last()[i]) == k;
            assert(key_of(s[i]) == k);
        }
    }
}

proof fn lemma_to_map_value(s: Seq<EntryView>, i: int)
    requires
        keys_unique(s),
        0 <= i < s.len(),
    ensures
        to_map(s).contains_key(key_of(s[i])),
        to_map(s)[key_of(s[i])] == s[i],
    decreases s.len(),
{
    if i < s.len() - 1 {
        assert(keys_unique(s.drop_last()));
        assert(s.drop_last()[i] == s[i]);
        lemma_to_map_value(s.drop_last(), i);
        assert(key_of(s[i]) != key_of(s[s.len() - 1]));
    }
}

proof fn lemma_to_map_len(s: Seq<EntryView>)
    requires
        keys_unique(s),
    ensures
        to_map(s).dom().finite(),
        to_map(s).dom().len() == s.len(),
    decreases s.len(),
{
    if s.len() > 0 {
        assert(keys_unique(s.drop_last()));
        lemma_to_map_len(s.drop_last());
        lemma_to_map_dom(s.drop_last(), key_of(s.last()));
        if to_map(s.drop_last()).contains_key(key_of(s.last())) {
            let i = choose|i: int| 0 <= i < s.len() - 1 && key_of(#[trigger] s.drop_last()[i]) == key_of(s.last());
            assert(key_of(s[i]) == key_of(s[s.len() - 1]));
        }
    }
}

proof fn lemma_to_map_update(s: Seq<EntryView>, i: int, e: EntryView)
    requires
        keys_unique(s),
        0 <= i < s.len(),
        key_of(e) == key_of(s[i]),
    ensures
        keys_unique(s.update(i, e)),
        to_map(s.update(i, e)) == to_map(s).insert(key_of(e), e),
    decreases s.len(),
{
    let t = s.update(i, e);
    assert forall|a: int, b: int| 0 <= a < t.len() && 0 <= b < t.len() && a != b
        implies key_of(#[trigger] t[a]) != key_of(#[trigger] t[b]) by {
        assert(key_of(t[a]) == key_of(s[a]));
        assert(key_of(t[b]) == key_of(s[b]));
    }
    if i == s.len() - 1 {
        assert(t.drop_last() =~= s.drop_last());
        assert(to_map(t) =~= to_map(s).insert(key_of(e), e));
    } else {
        assert(keys_unique(s.drop_last()));
        assert(t.drop_last() =~= s.drop_last().update(i, e));
        lemma_to_map_update(s.drop_last(), i, e);
        assert(key_of(s[i]) != key_of(s[s.len() - 1]));
        assert(to_map(t) =~= to_map(s).insert(key_of(e), e));
    }
}

/// The entries by key after merging `o` into `m`: a key of `o` takes the
/// entry of `o` unless `m` already holds one that is at least as high.
pub open spec fn merged(m: Map<Seq<char>, EntryView>, o: Map<Seq<char>, EntryView>) -> Map<Seq<char>, EntryView> {
    Map::new(
        |k: Seq<char>| m.contains_key(k) || o.contains_key(k),
        |k: Seq<char>| if o.contains_key(k) && !(m.contains_key(k) && semver_cmp(o[k].1, m[k].1) <= 0) {
            o[k]
        } else {
            m[k]
        },
    )
}

/// Whether merging entry `e` into `m` changes anything.
pub open spec fn needs_action(m: Map<Seq<char>, EntryView>, e: EntryView) -> bool {
    !m.contains_key(key_of(e)) || semver_cmp(e.1, m[key_of(e)].1) > 0
}

/// The entries among the first `i` of `o` that merging into `m` adds or
/// raises, in order.
pub open spec fn actions(m: Map<Seq<char>, EntryView>, o: Seq<EntryView>, i: int) -> Seq<EntryView>
    decreases i,
{
    if i <= 0 {
        seq![]
    } else if needs_action(m, o[i - 1]) {
        actions(m, o, i - 1).push(o[i - 1])
    } else {
        actions(m, o, i - 1)
    }
}

/// The entry for a lockfile package.
pub open spec fn package_entry(p: PackageView) -> EntryView {
    (p.0, p.1, p.1.3.len() == 0)
}

/// The entries of the first `i` packages of a graph, by key; a later package
/// wins over an earlier one of the same key.
pub open spec fn graph_entries(s: Seq<PackageView>, i: int) -> Map<Seq<char>, EntryView>
    decreases i,
{
    if i <= 0 {
        Map::empty()
    } else {
        graph_entries(s, i - 1).insert(key_of(package_entry(s[i - 1])), package_entry(s[i - 1]))
    }
}

/// The entries of the first `i` lines of a database file, by key; a later
/// line wins over an earlier one of the same key.
pub open spec fn text_entries(ls: Seq<Seq<char>>, i: int) -> Map<Seq<char>, EntryView>
    decreases i,
{
    if i <= 0 {
        Map::empty()
    } else {
        match entry_of_line(ls[i - 1]) {
            Ok(e) => text_entries(ls, i - 1).insert(key_of(e), e),
            Err(_) => text_entries(ls, i - 1),
        }
    }
}

/// The warnings for the first `i` lines: one for each line that is neither
/// blank, a comment, nor an entry, with its number counted from one.
pub open spec fn text_warnings(ls: Seq<Seq<char>>, i: int) -> Seq<Seq<char>>
    decreases i,
{
    if i <= 0 {
        seq![]
    } else {
        match entry_of_line(ls[i - 1]) {
            Err(k) => if k != 0 {
                text_warnings(ls, i - 1).push("Skipping invalid line "@ + dec(i as nat) + ": "@ + ls[i - 1])
            } else {
                text_warnings(ls, i - 1)
            },
            Ok(_) => text_warnings(ls, i - 1),
        }
    }
}

/// The texts joined by line breaks.
pub open spec fn join_lines(l: Seq<Seq<char>>) -> Seq<char>
    decreases l.len(),
{
    if l.len() == 0 {
        seq![]
    } else if l.len() == 1 {
        l[0]
    } else {
        join_lines(l.drop_last()) + seq!['\n'] + l.last()
    }
}

/// The lines of all entries of a database.
pub open spec fn entry_lines(m: Map<Seq<char>, EntryView>) -> Set<Seq<char>> {
    Set::new(|t: Seq<char>| exists|k: Seq<char>| m.contains_key(k) && t == line_of(m[k]))
}

/// The first index at or after `from` of an entry stored under key `k`.
pub open spec fn key_index(s: Seq<EntryView>, k: Seq<char>, from: int) -> Option<int>
    decreases s.len() - from,
{
    if from < 0 || from >= s.len() {
        None
    } else if key_of(s[from]) == k {
        Some(from)
    } else {
        key_index(s, k, from + 1)
    }
}

/// The entries are in ascending order of their keys.
pub open spec fn keys_sorted(s: Seq<EntryView>) -> bool {
    forall|a: int, b: int| 0 <= a < b < s.len() ==> text_lt(key_of(#[trigger] s[a]), key_of(#[trigger] s[b]))
}

/// The first index at or after `from` whose key comes after `k`, or the
/// length.
pub open spec fn key_pos(s: Seq<EntryView>, k: Seq<char>, from: int) -> int
    decreases s.len() - from,
{
    if from < 0 || from >= s.len() {
        s.len() as int
    } else if text_lt(k, key_of(s[from])) {
        from
    } else {
        key_pos(s, k, from + 1)
    }
}

/// The stored entries after adding `e`: it replaces the entry of its key in
/// place, or goes where its key belongs in key order.
pub open spec fn seq_add(s: Seq<EntryView>, e: EntryView) -> Seq<EntryView> {
    match key_index(s, key_of(e), 0) {
        Some(i) => s.update(i, e),
        None => s.insert(key_pos(s, key_of(e), 0), e),
    }
}

proof fn lemma_key_pos(s: Seq<EntryView>, k: Seq<char>, from: int)
    requires
        0 <= from <= s.len(),
    ensures
        from <= key_pos(s, k, from) <= s.len(),
        forall|j: int| from <= j < key_pos(s, k, from) ==> !text_lt(k, key_of(#[trigger] s[j])),
        key_pos(s, k, from) < s.len() ==> text_lt(k, key_of(s[key_pos(s, k, from)])),
    decreases s.len() - from,
{
    if from < s.len() && !text_lt(k, key_of(s[from])) {
        lemma_key_pos(s, k, from + 1);
    }
}

proof fn lemma_to_map_insert(s: Seq<EntryView>, pos: int, e: EntryView)
    requires
        keys_unique(s),
        0 <= pos <= s.len(),
        forall|j: int| 0 <= j < s.len() ==> key_of(#[trigger] s[j]) != key_of(e),
    ensures
        to_map(s.insert(pos, e)) == to_map(s).insert(key_of(e), e),
    decreases s.len(),
{
    let t = s.insert(pos, e);
    if pos == s.len() {
        assert(t.drop_last() =~= s);
    } else {
        assert(keys_unique(s.drop_last()));
        assert(t.drop_last() =~= s.drop_last().insert(pos, e));
        assert(t.last() == s.last());
        lemma_to_map_insert(s.drop_last(), pos, e);
        assert(key_of(s.last()) != key_of(e));
        assert(to_map(t) =~= to_map(s).insert(key_of(e), e));
    }
}

/// The stored entries of a database built from the first `i` packages of a
/// graph.
pub open spec fn graph_entry_seq(g: Seq<PackageView>, i: int) -> Seq<EntryView>
    decreases i,
{
    if i <= 0 {
        seq![]
    } else {
        seq_add(graph_entry_seq(g, i - 1), package_entry(g[i - 1]))
    }
}

proof fn lemma_key_index(s: Seq<EntryView>, k: Seq<char>, from: int)
    requires
        0 <= from,
        keys_unique(s),
    ensures
        match key_index(s, k, from) {
            Some(i) => from <= i < s.len() && key_of(s[i]) == k,
            None => forall|j: int| from <= j < s.len() ==> key_of(#[trigger] s[j]) != k,
        },
    decreases s.len() - from,
{
    if from < s.len() && key_of(s[from]) != k {
        lemma_key_index(s, k, from + 1);
    }
}

/// Crate entries keyed by `name@compat`.
#[derive(Clone, Debug)]
pub struct CrateDatabase {
    entries: Vec<CrateEntry>,
}

impl View for CrateDatabase {
    type V = Map<Seq<char>, EntryView>;

    closed spec fn view(&self) -> Map<Seq<char>, EntryView> {
        to_map(entry_views(self.entries@))
    }
}

impl CrateDatabase {
    /// The stored entries in their stored order.
    pub closed spec fn entry_seq(&self) -> Seq<EntryView> {
        entry_views(self.entries@)
    }

    /// No two stored entries share a key, and each is stored under its key.
    pub closed spec fn wf(&self) -> bool {
        keys_unique(entry_views(self.entries@)) && keys_sorted(entry_views(self.entries@))
    }

    /// Every entry is stored under its own key.
    pub proof fn lemma_keys(&self)
        requires
            self.wf(),
        ensures
            forall|k: Seq<char>| #[trigger] self@.contains_key(k) ==> key_of(self@[k]) == k,
            self@.dom().finite(),
    {
        let s = entry_views(self.entries@);
        assert forall|k: Seq<char>| #[trigger] self@.contains_key(k) implies key_of(self@[k]) == k by {
            lemma_to_map_dom(s, k);
            let i = choose|i: int| 0 <= i < s.len() && key_of(#[trigger] s[i]) == k;
            lemma_to_map_value(s, i);
        }
        lemma_to_map_len(s);
    }

    /// An empty database.
    pub fn new() -> (r: CrateDatabase)
        ensures
            r.wf(),
            r@ == Map::<Seq<char>, EntryView>::empty(),
            r.entry_seq() == Seq::<EntryView>::empty(),
    {
        let r = CrateDatabase { entries: Vec::new() };
        assert(entry_views(r.entries@) =~= Seq::<EntryView>::empty());
        r
    }

    fn find(&self, key: &String) -> (r: Option<usize>)
        requires
            self.wf(),
        ensures
            match r {
                Some(i) => i < self.entries@.len() && key_of(self.entries@[i as int]@) == key@,
                None => !self@.contains_key(key@),
            },
    {
        let mut i: usize = 0;
        while i < self.entries.len()
            invariant
                i <= self.entries@.len(),
                forall|j: int| 0 <= j < i ==> key_of(#[trigger] self.entries@[j]@) != key@,
            decreases self.entries@.len() - i,
        {
            let k = self.entries[i].key();
            if k == *key {
                return Some(i);
            }
            i = i + 1;
        }
        proof {
            let s = entry_views(self.entries@);
            lemma_to_map_dom(s, key@);
            assert forall|j: int| 0 <= j < s.len() implies key_of(#[trigger] s[j]) != key@ by {
                assert(s[j] == self.entries@[j]@);
            }
        }
        None
    }

    /// Stores an entry under its key, replacing what was there.
    pub fn add_entry(&mut self, entry: CrateEntry)
        requires
            old(self).wf(),
        ensures
            final(self).wf(),
            final(self)@ == old(self)@.insert(key_of(entry@), entry@),
            final(self).entry_seq() == seq_add(old(self).entry_seq(), entry@),
    {
        let key = entry.key();
        let ghost s = entry_views(self.entries@);
        proof { lemma_key_index(s, key@, 0); }
        match self.find(&key) {
            Some(i) => {
                proof {
                    assert(s[i as int] == self.entries@[i as int]@);
                    lemma_to_map_update(s, i as int, entry@);
                }
                proof {
                    match key_index(s, key@, 0) {
                        Some(j) => {
                            if j != i as int {
                                assert(key_of(s[j]) == key_of(s[i as int]));
                            }
                        },
                        None => {},
                    }
                }
                self.entries.set(i, entry);
                assert(entry_views(self.entries@) =~= s.update(i as int, entry@));
                assert(key_of(entry@) == key_of(s[i as int]));
            },
            None => {
                proof {
                    assert forall|j: int| 0 <= j < s.len() implies key_of(#[trigger] s[j]) != key@ by {
                        lemma_to_map_dom(s, key@);
                    }
                    lemma_key_pos(s, key@, 0);
                }
                let mut pos: usize = 0;
                while pos < self.entries.len()
                    invariant
                        s == entry_views(self.entries@),
                        pos <= self.entries@.len(),
                        key_pos(s, key@, 0) == key_pos(s, key@, pos as int),
                    ensures
                        pos as int == key_pos(s, key@, 0),
                    decreases self.entries@.len() - pos,
                {
                    let k = self.entries[pos].key();
                    assert(s[pos as int] == self.entries@[pos as int]@);
                    if less_text(key.as_str(), k.as_str()) {
                        break;
                    }
                    pos = pos + 1;
                }
                let ghost ev = entry@;
                proof {
                    lemma_to_map_insert(s, pos as int, ev);
                    let t = s.insert(pos as int, ev);
                    assert forall|j: int| 0 <= j < pos implies text_lt(key_of(#[trigger] s[j]), key@) by {
                        lemma_text_lt_total(key_of(s[j]), key@);
                    }
                    assert forall|j: int| pos <= j < s.len() implies text_lt(key@, key_of(#[trigger] s[j])) by {
                        if j > pos {
                            lemma_text_lt_transitive(key@, key_of(s[pos as int]), key_of(s[j]));
                        }
                    }
                    assert forall|a: int, b: int| 0 <= a < b < t.len() implies text_lt(key_of(#[trigger] t[a]), key_of(#[trigger] t[b])) by {
                        let a2 = if a < pos { a } else { a - 1 };
                        let b2 = if b < pos { b } else { b - 1 };
                        if a == pos {
                            assert(t[b] == s[b2]);
                        } else if b == pos {
                            assert(t[a] == s[a2]);
                        } else {
                            assert(t[a] == s[a2] && t[b] == s[b2]);
                        }
                    }
                    assert forall|a: int, b: int| 0 <= a < t.len() && 0 <= b < t.len() && a != b
                        implies key_of(#[trigger] t[a]) != key_of(#[trigger] t[b]) by {
                        if a < b {
                        } else {
                        }
                        crate::text::lemma_text_lt_irreflexive(key_of(t[a]));
                    }
                }
                self.entries.insert(pos, entry);
                assert(entry_views(self.entries@) =~= s.insert(pos as int, ev));
            },
        }
    }

    /// All entries, each stored under its own key.
    pub fn entries(&self) -> (r: &Vec<CrateEntry>)
        requires
            self.wf(),
        ensures
            keys_unique(entry_views(r@)),
            to_map(entry_views(r@)) == self@,
            entry_views(r@) == self.entry_seq(),
            keys_sorted(entry_views(r@)),
    {
        &self.entries
    }

    /// The entry that `name` at `version` would be stored under.
    pub fn get(&self, name: &str, version: &Version) -> (r: Option<&CrateEntry>)
        requires
            self.wf(),
        ensures
            match r {
                Some(e) => self@.contains_key(key_of((name@, version@, version.pre@.len() == 0)))
                    && e@ == self@[key_of((name@, version@, version.pre@.len() == 0))],
                None => !self@.contains_key(key_of((name@, version@, version.pre@.len() == 0))),
            },
    {
        let mut n = String::new();
        push_text(&mut n, name);
        let temp = CrateEntry::new(n, version.copy());
        let key = temp.key();
        match self.find(&key) {
            Some(i) => {
                proof {
                    let s = entry_views(self.entries@);
                    assert(s[i as int] == self.entries@[i as int]@);
                    lemma_to_map_value(s, i as int);
                }
                Some(&self.entries[i])
            },
            None => None,
        }
    }

    /// The number of entries.
    pub fn len(&self) -> (r: usize)
        requires
            self.wf(),
        ensures
            r == self@.dom().len(),
    {
        proof { lemma_to_map_len(entry_views(self.entries@)); }
        self.entries.len()
    }

    /// Whether the database holds no entry.
    pub fn is_empty(&self) -> (r: bool)
        requires
            self.wf(),
        ensures
            r == (self@.dom().len() == 0),
    {
        proof { lemma_to_map_len(entry_views(self.entries@)); }
        self.entries.len() == 0
    }

    /// Merges `other` in: a new key is added, a key with a higher version in
    /// `other` is raised, anything else is kept. Returns the entries that
    /// were added or raised, in the order of `other`. No stored version ever
    /// goes down, and merging a database with an equal one changes nothing.
    pub fn merge(&mut self, other: &CrateDatabase) -> (r: Vec<CrateEntry>)
        requires
            old(self).wf(),
            other.wf(),
        ensures
            final(self).wf(),
            final(self)@ == merged(old(self)@, other@),
            entry_views(r@) == actions(old(self)@, other.entry_seq(), other.entry_seq().len() as int),
            forall|k: Seq<char>| #[trigger] old(self)@.contains_key(k)
                ==> at_least(final(self)@[k].1, old(self)@[k].1),
            forall|k: Seq<char>| #[trigger] other@.contains_key(k)
                ==> at_least(final(self)@[k].1, other@[k].1),
            other@ == old(self)@ ==> r@.len() == 0,
    {
        let ghost m0 = self@;
        let ghost o = entry_views(other.entries@);
        let mut out: Vec<CrateEntry> = Vec::new();
        let mut i: usize = 0;
        proof {
            assert(o.subrange(0, 0) =~= Seq::<EntryView>::empty());
            assert(merged(m0, Map::empty()) =~= m0);
        }
        while i < other.entries.len()
            invariant
                self.wf(),
                other.wf(),
                o == entry_views(other.entries@),
                i <= o.len(),
                self@ == merged(m0, to_map(o.subrange(0, i as int))),
                entry_views(out@) == actions(m0, o, i as int),
                forall|k: Seq<char>| #[trigger] m0.contains_key(k)
                    ==> at_least(self@[k].1, m0[k].1),
                forall|j: int| 0 <= j < i ==> at_least(self@[key_of(#[trigger] o[j])].1, o[j].1),
                other@ == m0 ==> out@.len() == 0,
            decreases o.len() - i,
        {
            let e = &other.entries[i];
            let key = e.key();
            let ghost p = to_map(o.subrange(0, i as int));
            let ghost before = self@;
            let ghost out_before = entry_views(out@);
            proof {
                assert(o[i as int] == e@);
                assert(o.subrange(0, i as int + 1).drop_last() =~= o.subrange(0, i as int));
                assert(o.subrange(0, i as int + 1).last() == e@);
                lemma_to_map_dom(o.subrange(0, i as int), key@);
                assert(!p.contains_key(key@)) by {
                    if p.contains_key(key@) {
                        let j = choose|j: int| 0 <= j < i && key_of(#[trigger] o.subrange(0, i as int)[j]) == key@;
                        assert(key_of(o[j]) == key_of(o[i as int]));
                    }
                }
                self.lemma_keys();
                lemma_to_map_value(o, i as int);
            }
            match self.find(&key) {
                Some(j) => {
                    proof {
                        let s = entry_views(self.entries@);
                        assert(s[j as int] == self.entries@[j as int]@);
                        lemma_to_map_value(s, j as int);
                        assert(self@[key@] == m0[key@]);
                    }
                    let c = version_cmp(&e.version, &self.entries[j].version);
                    if c > 0 {
                        out.push(e.copy());
                        self.add_entry(e.copy());
                    }
                },
                None => {
                    out.push(e.copy());
                    self.add_entry(e.copy());
                },
            }
            proof {
                assert(to_map(o.subrange(0, i as int + 1)) == p.insert(key@, e@));
                assert(self@ =~= merged(m0, p.insert(key@, e@)));
                assert(entry_views(out@) =~= actions(m0, o, i as int + 1));
                assert forall|j2: int| 0 <= j2 < i + 1 implies at_least(self@[key_of(#[trigger] o[j2])].1, o[j2].1) by {
                    if j2 < i {
                        assert(key_of(o[j2]) != key_of(o[i as int]));
                    }
                }
            }
            i = i + 1;
        }
        proof {
            assert(o.subrange(0, o.len() as int) =~= o);
            assert forall|k: Seq<char>| #[trigger] other@.contains_key(k) implies at_least(self@[k].1, other@[k].1) by {
                lemma_to_map_dom(o, k);
                let j = choose|j: int| 0 <= j < o.len() && key_of(#[trigger] o[j]) == k;
                lemma_to_map_value(o, j);
            }
        }
        out
    }

    /// Reads a database file: one entry per line; blank lines and comments
    /// are passed over, and every other line that holds no entry gives a
    /// warning.
    pub fn from_text(content: &str) -> (r: (CrateDatabase, Vec<String>))
        ensures
            r.0.wf(),
            r.0@ == text_entries(pieces(content@, '\n'), pieces(content@, '\n').len() as int),
            texts(r.1@) == text_warnings(pieces(content@, '\n'), pieces(content@, '\n').len() as int),
    {
        let lines = split_at_char(content, '\n');
        let ghost ls = pieces(content@, '\n');
        assert(texts(lines@) == ls);
        let mut db = CrateDatabase::new();
        let mut warnings: Vec<String> = Vec::new();
        let mut i: usize = 0;
        while i < lines.len()
            invariant
                texts(lines@) == ls,
                i <= lines@.len(),
                db.wf(),
                db@ == text_entries(ls, i as int),
                texts(warnings@) == text_warnings(ls, i as int),
            decreases lines@.len() - i,
        {
            assert(ls[i as int] == lines@[i as int]@);
            match CrateEntry::from_line(lines[i].as_str()) {
                Ok(entry) => db.add_entry(entry),
                Err(LineError::EmptyOrComment) => {},
                Err(_) => {
                    let mut w = String::new();
                    push_text(&mut w, "Skipping invalid line ");
                    push_decimal(&mut w, (i + 1) as u64);
                    push_text(&mut w, ": ");
                    push_text(&mut w, lines[i].as_str());
                    let ghost prev = warnings@;
                    warnings.push(w);
                    assert(texts(warnings@) =~= texts(prev).push(w@));
                },
            }
            i = i + 1;
        }
        (db, warnings)
    }

    /// Writes the database file: the line of every entry, sorted, each
    /// line ended by a line break (a lone line break for no entry).
    pub fn to_text(&self) -> (r: String)
        requires
            self.wf(),
        ensures
            exists|l: Seq<Seq<char>>| {
                &&& texts_distinct(l)
                &&& crate::text::texts_sorted(l)
                &&& l.to_set() == entry_lines(self@)
                &&& #[trigger] join_lines(l) + seq!['\n'] == r@
            },
    {
        let mut lines: Vec<String> = Vec::new();
        let ghost s = entry_views(self.entries@);
        let mut i: usize = 0;
        assert(texts(lines@).to_set() =~= Set::<Seq<char>>::empty());
        while i < self.entries.len()
            invariant
                s == entry_views(self.entries@),
                i <= self.entries@.len(),
                texts_distinct(texts(lines@)),
                crate::text::texts_sorted(texts(lines@)),
                texts(lines@).to_set() == Set::new(|t: Seq<char>| exists|j: int| 0 <= j < i && t == line_of(s[j])),
            decreases self.entries@.len() - i,
        {
            let line = self.entries[i].to_line();
            assert(line@ == line_of(s[i as int]));
            insert_text(&mut lines, line);
            i = i + 1;
            assert(texts(lines@).to_set() =~= Set::new(|t: Seq<char>| exists|j: int| 0 <= j < i && t == line_of(s[j]))) by {
                assert forall|t: Seq<char>| (exists|j: int| 0 <= j < i && t == line_of(s[j])) implies texts(lines@).to_set().contains(t) by {
                    let j = choose|j: int| 0 <= j < i && t == line_of(s[j]);
                    if j < i - 1 {
                        assert(exists|j2: int| 0 <= j2 < i - 1 && t == line_of(s[j2]));
                    }
                }
            }
        }
        proof {
            assert forall|t: Seq<char>| texts(lines@).to_set().contains(t) <==> entry_lines(self@).contains(t) by {
                if texts(lines@).to_set().contains(t) {
                    let j = choose|j: int| 0 <= j < s.len() && t == line_of(s[j]);
                    lemma_to_map_value(s, j);
                    assert(self@.contains_key(key_of(s[j])) && t == line_of(self@[key_of(s[j])]));
                }
                if entry_lines(self@).contains(t) {
                    let k = choose|k: Seq<char>| self@.contains_key(k) && t == line_of(self@[k]);
                    lemma_to_map_dom(s, k);
                    let j = choose|j: int| 0 <= j < s.len() && key_of(#[trigger] s[j]) == k;
                    lemma_to_map_value(s, j);
                    assert(exists|j2: int| 0 <= j2 < s.len() && t == line_of(s[j2]));
                }
            }
            assert(texts(lines@).to_set() =~= entry_lines(self@));
        }
        let mut out = String::new();
        let mut k: usize = 0;
        while k < lines.len()
            invariant
                k <= lines@.len(),
                out@ == join_lines(texts(lines@).subrange(0, k as int)),
            decreases lines@.len() - k,
        {
            if k > 0 {
                push_char(&mut out, '\n');
            }
            push_text(&mut out, lines[k].as_str());
            assert(texts(lines@).subrange(0, k + 1).drop_last() =~= texts(lines@).subrange(0, k as int));
            k = k + 1;
        }
        assert(texts(lines@).subrange(0, k as int) =~= texts(lines@));
        push_char(&mut out, '\n');
        assert(join_lines(texts(lines@)) + seq!['\n'] == out@);
        out
    }

    /// A database holding one entry per package of a lockfile graph.
    pub fn from_dependency_graph(dep_graph: &DependencyGraph) -> (r: CrateDatabase)
        ensures
            r.wf(),
            r@ == graph_entries(dep_graph@, dep_graph@.len() as int),
            r.entry_seq() == graph_entry_seq(dep_graph@, dep_graph@.len() as int),
    {
        let mut db = CrateDatabase::new();
        let packages = dep_graph.packages();
        let mut i: usize = 0;
        while i < packages.len()
            invariant
                crate::lockfile::package_views(packages@) == dep_graph@,
                i <= packages@.len(),
                db.wf(),
                db@ == graph_entries(dep_graph@, i as int),
                db.entry_seq() == graph_entry_seq(dep_graph@, i as int),
            decreases packages@.len() - i,
        {
            assert(dep_graph@[i as int] == packages@[i as int]@);
            let mut name = String::new();
            push_text(&mut name, packages[i].name.as_str());
            let entry = CrateEntry::new(name, packages[i].version.copy());
            db.add_entry(entry);
            i = i + 1;
        }
        db
    }

    /// Merges the packages of a lockfile graph in; see `merge`.
    pub fn merge_dependency_graph(&mut self, dep_graph: &DependencyGraph) -> (r: Vec<CrateEntry>)
        requires
            old(self).wf(),
        ensures
            final(self).wf(),
            final(self)@ == merged(old(self)@, graph_entries(dep_graph@, dep_graph@.len() as int)),
            forall|k: Seq<char>| #[trigger] old(self)@.contains_key(k)
                ==> at_least(final(self)@[k].1, old(self)@[k].1),
            entry_views(r@) == actions(old(self)@, graph_entry_seq(dep_graph@, dep_graph@.len() as int),
                graph_entry_seq(dep_graph@, dep_graph@.len() as int).len() as int),
    {
        let new_db = Self::from_dependency_graph(dep_graph);
        self.merge(&new_db)
    }
}


/// The version a compatibility version names, missing parts as zero.
pub open spec fn compat_base(v: VersionTuple) -> VersionTuple {
    if v.0 != 0 {
        (v.0, 0, 0, seq![], seq![])
    } else if v.1 != 0 {
        (0, v.1, 0, seq![], seq![])
    } else {
        (0, 0, v.2, seq![], seq![])
    }
}

/// The compatibility version is stable: the version it names, completed
/// with zeros, has the same compatibility version, for every version without
/// a pre-release tag.
pub proof fn lemma_compat_stable(v: VersionTuple)
    requires
        v.3.len() == 0,
    ensures
        compat_text(compat_base(v)) == compat_text(v),
{
}

/// No character of the text is white space.
pub open spec fn no_space(s: Seq<char>) -> bool {
    forall|k: int| 0 <= k < s.len() ==> !is_space(#[trigger] s[k])
}

/// An entry can be written as a line: a name that holds no white space and
/// does not start a comment, and tags that hold no white space.
pub open spec fn writable(e: EntryView) -> bool {
    &&& e.0.len() > 0
    &&& e.0[0] != '#'
    &&& no_space(e.0)
    &&& no_space(e.1.3)
    &&& no_space(e.1.4)
}

proof fn lemma_version_text_no_space(v: VersionTuple)
    requires
        no_space(v.3),
        no_space(v.4),
    ensures
        no_space(version_text(v)),
        version_text(v).len() > 0,
{
    crate::text::lemma_dec_no_space(v.0 as nat);
    crate::text::lemma_dec_no_space(v.1 as nat);
    crate::text::lemma_dec_no_space(v.2 as nat);
    let core = dec(v.0 as nat) + seq!['.'] + dec(v.1 as nat) + seq!['.'] + dec(v.2 as nat);
    assert(no_space(core)) by {
        assert forall|k: int| 0 <= k < core.len() implies !is_space(#[trigger] core[k]) by {
            let l0 = dec(v.0 as nat).len() as int;
            let l1 = dec(v.1 as nat).len() as int;
            if k < l0 {
                assert(core[k] == dec(v.0 as nat)[k]);
            } else if k == l0 {
            } else if k < l0 + 1 + l1 {
                assert(core[k] == dec(v.1 as nat)[k - l0 - 1]);
            } else if k == l0 + 1 + l1 {
            } else {
                assert(core[k] == dec(v.2 as nat)[k - l0 - 2 - l1]);
            }
        }
    }
    let with_pre = if v.3.len() > 0 { core + seq!['-'] + v.3 } else { core };
    assert(no_space(with_pre)) by {
        assert forall|k: int| 0 <= k < with_pre.len() implies !is_space(#[trigger] with_pre[k]) by {
            if v.3.len() > 0 && k >= core.len() {
                if k > core.len() {
                    assert(with_pre[k] == v.3[k - core.len() - 1]);
                }
            } else {
                assert(with_pre[k] == core[k]);
            }
        }
    }
    let t = version_text(v);
    assert forall|k: int| 0 <= k < t.len() implies !is_space(#[trigger] t[k]) by {
        if v.4.len() > 0 && k >= with_pre.len() {
            if k > with_pre.len() {
                assert(t[k] == v.4[k - with_pre.len() - 1]);
            }
        } else {
            assert(t[k] == with_pre[k]);
        }
    }
}

/// Reading back the line of an entry gives the entry, as far as the
/// version's text reads back as the version: name and compatibility flag
/// come back unchanged and the version is what its text parses to.
pub proof fn lemma_line_round_trip(e: EntryView)
    requires
        writable(e),
    ensures
        entry_of_line(line_of(e)) == (match semver_parse(version_text(e.1)) {
            Some(v) => Ok::<EntryView, u8>((e.0, v, e.2)),
            None => Err::<EntryView, u8>(2),
        }),
{
    lemma_version_text_no_space(e.1);
    reveal_strlit("false");
    if e.2 {
        crate::text::lemma_two_words(e.0, version_text(e.1));
    } else {
        crate::text::lemma_three_words(e.0, version_text(e.1));
    }
}

/// The compatibility version of a version without a pre-release tag, with
/// `.0` added where it has two parts, is the text of the version it names:
/// so reading it back and taking the compatibility version again gives the
/// same text (with `parse_version`'s reading of plain versions and
/// `lemma_compat_stable`).
pub proof fn lemma_compat_text_names_base(v: VersionTuple)
    requires
        v.3.len() == 0,
    ensures
        version_text(compat_base(v)) == (if v.0 != 0 || v.1 != 0 { compat_text(v) + ".0"@ } else { compat_text(v) }),
{
    reveal_strlit(".0");
    reveal_strlit("0.");
    reveal_strlit("0.0.");
    assert(dec(0) == seq!['0']);
    assert(version_text(compat_base(v)) =~= (if v.0 != 0 || v.1 != 0 { compat_text(v) + ".0"@ } else { compat_text(v) }));
}
} // verus!
