//! Full semantic versions: the library's own record of a version, parsed and
//! ordered by the `semver` crate.
use vstd::prelude::*;
use crate::text::{dec, push_char, push_decimal, push_text};

verus! {

/// A full version `major.minor.patch[-pre][+build]`.
#[derive(Clone, Debug, PartialEq, Eq, PartialOrd, Ord, Hash)]
pub struct Version {
    pub major: u64,
    pub minor: u64,
    pub patch: u64,
    /// Pre-release tag, empty when absent.
    pub pre: String,
    /// Build metadata, empty when absent.
    pub build: String,
}

/// The plain values a version consists of.
pub type VersionTuple = (u64, u64, u64, Seq<char>, Seq<char>);

impl View for Version {
    type V = VersionTuple;

    open spec fn view(&self) -> VersionTuple {
        (self.major, self.minor, self.patch, self.pre@, self.build@)
    }
}

/// What `semver::Version::parse` gives for a text, as plain values.
pub uninterp spec fn semver_parse(text: Seq<char>) -> Option<(u64, u64, u64, Seq<char>, Seq<char>)>;

/// The sign of `semver::Version::cmp` on two versions.
pub uninterp spec fn semver_cmp(a: (u64, u64, u64, Seq<char>, Seq<char>), b: (u64, u64, u64, Seq<char>, Seq<char>)) -> int;

/// Whether `(a0, a1, a2)` comes before `(b0, b1, b2)` lexicographically.
pub open spec fn triple_lt(a: (u64, u64, u64), b: (u64, u64, u64)) -> bool {
    a.0 < b.0 || (a.0 == b.0 && (a.1 < b.1 || (a.1 == b.1 && a.2 < b.2)))
}

/// `a` is `b` or ranks above it in semver order.
pub open spec fn at_least(a: VersionTuple, b: VersionTuple) -> bool {
    a == b || semver_cmp(a, b) >= 0
}

/// Relies on `semver::Version::parse`: `None` where the text is no version;
/// a plain `major.minor.patch` in decimal without leading zeros is that
/// version.
#[verifier::external_body]
pub(crate) fn parse_version(text: &str) -> (r: Option<Version>)
    ensures
        r.is_some() == semver_parse(text@).is_some(),
        r.is_some() ==> semver_parse(text@) == Some(r.unwrap()@),
        forall|a: u64, b: u64, c: u64| #[trigger] version_text((a, b, c, Seq::empty(), Seq::empty())) == text@
            ==> r.is_some() && r.unwrap()@ == (a, b, c, Seq::<char>::empty(), Seq::<char>::empty()),
{
    semver::Version::parse(text).ok().map(|v| Version {
        major: v.major,
        minor: v.minor,
        patch: v.patch,
        pre: v.pre.as_str().to_string(),
        build: v.build.as_str().to_string(),
    })
}

/// Relies on `Ord for semver::Version`, a total order that compares major,
/// minor and patch first, in that order: `-1`, `0` or `1`.
#[verifier::external_body]
pub(crate) fn version_cmp(a: &Version, b: &Version) -> (r: i8)
    ensures
        r == semver_cmp(a@, b@),
        r == -semver_cmp(b@, a@),
        -1 <= r <= 1,
        triple_lt((a.major, a.minor, a.patch), (b.major, b.minor, b.patch)) ==> r == -1,
{
    let conv = |v: &Version| semver::Version {
        major: v.major,
        minor: v.minor,
        patch: v.patch,
        pre: semver::Prerelease::new(&v.pre).unwrap_or(semver::Prerelease::EMPTY),
        build: semver::BuildMetadata::new(&v.build).unwrap_or(semver::BuildMetadata::EMPTY),
    };
    match conv(a).cmp(&conv(b)) {
        std::cmp::Ordering::Less => -1,
        std::cmp::Ordering::Equal => 0,
        std::cmp::Ordering::Greater => 1,
    }
}

/// `major.minor.patch`, then `-pre` and `+build` where present.
pub open spec fn version_text(v: VersionTuple) -> Seq<char> {
    let core = dec(v.0 as nat) + seq!['.'] + dec(v.1 as nat) + seq!['.'] + dec(v.2 as nat);
    let with_pre = if v.3.len() > 0 { core + seq!['-'] + v.3 } else { core };
    if v.4.len() > 0 { with_pre + seq!['+'] + v.4 } else { with_pre }
}

impl Version {
    /// Parses a version text; `None` where it is no version.
    pub fn parse(text: &str) -> (r: Option<Version>)
        ensures
            r.is_some() == semver_parse(text@).is_some(),
            r.is_some() ==> semver_parse(text@) == Some(r.unwrap()@),
            forall|a: u64, b: u64, c: u64| #[trigger] version_text((a, b, c, Seq::empty(), Seq::empty())) == text@
                ==> r.is_some() && r.unwrap()@ == (a, b, c, Seq::<char>::empty(), Seq::<char>::empty()),
    {
        parse_version(text)
    }

    /// The version's text.
    pub fn to_text(&self) -> (r: String)
        ensures
            r@ == version_text(self@),
    {
        let mut s = String::new();
        push_decimal(&mut s, self.major);
        push_char(&mut s, '.');
        push_decimal(&mut s, self.minor);
        push_char(&mut s, '.');
        push_decimal(&mut s, self.patch);
        if self.pre.as_str().unicode_len() > 0 {
            push_char(&mut s, '-');
            push_text(&mut s, self.pre.as_str());
        }
        if self.build.as_str().unicode_len() > 0 {
            push_char(&mut s, '+');
            push_text(&mut s, self.build.as_str());
        }
        assert(s@ =~= version_text(self@));
        s
    }

    /// Whether the two versions hold the same values.
    pub fn same(&self, o: &Version) -> (r: bool)
        ensures
            r == (self@ == o@),
    {
        self.major == o.major && self.minor == o.minor && self.patch == o.patch
            && self.pre == o.pre && self.build == o.build
    }

    /// A copy of the version.
    pub fn copy(&self) -> (r: Version)
        ensures
            r@ == self@,
    {
        Version {
            major: self.major,
            minor: self.minor,
            patch: self.patch,
            pre: self.pre.clone(),
            build: self.build.clone(),
        }
    }
}

} // verus!
