//! Released versions and version requirements, as plain values.
//!
//! Each value keeps the `semver` object it was parsed into, so that matching
//! and ordering are done by `semver` itself; the plain fields are what the
//! planning logic reads and what the contracts speak of.

use vstd::prelude::*;
use crate::text::{
    all_digits, decimal, decimal_chars, decimal_reads_back, digits_value, extend_chars, chars_of, string_from_chars,
};

verus! {

#[verifier::external_type_specification]
#[verifier::external_body]
pub struct ExSemverVersion(semver::Version);

#[verifier::external_type_specification]
#[verifier::external_body]
pub struct ExSemverVersionReq(semver::VersionReq);

/// A version as plain values: the three numbers, the pre-release text and the
/// build metadata text (each empty when absent).
pub struct SpecVersion {
    pub major: u64,
    pub minor: u64,
    pub patch: u64,
    pub pre: Seq<char>,
    pub build: Seq<char>,
}

/// A released semantic version.
#[derive(Debug, PartialEq, Eq)]
pub struct Release {
    major: u64,
    minor: u64,
    patch: u64,
    pre: String,
    build: String,
    raw: semver::Version,
}

impl View for Release {
    type V = SpecVersion;

    closed spec fn view(&self) -> SpecVersion {
        SpecVersion {
            major: self.major,
            minor: self.minor,
            patch: self.patch,
            pre: self.pre@,
            build: self.build@,
        }
    }
}

/// The comparison operator of a requirement comparator.
#[derive(Clone, Copy, Debug, PartialEq, Eq, Structural)]
pub enum Op {
    Exact,
    Greater,
    GreaterEq,
    Less,
    LessEq,
    Tilde,
    Caret,
    Wildcard,
}

/// A comparator as plain values.
pub struct SpecComparator {
    pub op: Op,
    pub major: u64,
    pub minor: Option<u64>,
    pub patch: Option<u64>,
    pub pre: Seq<char>,
}

/// One comparator of a requirement, such as `>=1.2`.
#[derive(Debug)]
pub struct Comparator {
    pub op: Op,
    pub major: u64,
    pub minor: Option<u64>,
    pub patch: Option<u64>,
    pub pre: String,
}

impl View for Comparator {
    type V = SpecComparator;

    open spec fn view(&self) -> SpecComparator {
        SpecComparator {
            op: self.op,
            major: self.major,
            minor: self.minor,
            patch: self.patch,
            pre: self.pre@,
        }
    }
}

/// A version requirement: the intersection of its comparators (none for `*`).
#[derive(Debug)]
pub struct Requirement {
    comparators: Vec<Comparator>,
    raw: semver::VersionReq,
}

/// The plain views of a sequence of comparators.
pub open spec fn comparator_views(s: Seq<Comparator>) -> Seq<SpecComparator> {
    s.map_values(|c: Comparator| c@)
}

impl View for Requirement {
    type V = Seq<SpecComparator>;

    closed spec fn view(&self) -> Seq<SpecComparator> {
        comparator_views(self.comparators@)
    }
}

/// The plain view of the outcome of parsing a requirement.
pub open spec fn requirement_outcome(res: Result<Requirement, String>) -> Result<Seq<SpecComparator>, Seq<char>> {
    match res {
        Ok(r) => Ok(r@),
        Err(m) => Err(m@),
    }
}

/// The plain views of a sequence of versions.
pub open spec fn version_views(s: Seq<Release>) -> Seq<SpecVersion> {
    s.map_values(|v: Release| v@)
}

/// What `semver::Version::parse` makes of `text`: the version's plain values,
/// or `None` where it reports an error.
pub uninterp spec fn semver_parse_version(text: Seq<char>) -> Option<SpecVersion>;

/// What `semver::VersionReq::parse` makes of `text`: the comparators, or the
/// message of the error it reports.
pub uninterp spec fn semver_parse_requirement(text: Seq<char>) -> Result<Seq<SpecComparator>, Seq<char>>;

/// What `semver::VersionReq::matches` answers for a requirement and a version.
pub uninterp spec fn semver_matches(requirement: Seq<SpecComparator>, version: SpecVersion) -> bool;

/// What `Ord::cmp` of `semver::Version` answers for two versions: negative for
/// less, zero for equal, positive for greater.
pub uninterp spec fn semver_order(a: SpecVersion, b: SpecVersion) -> int;

/// The order in which a stable sort by `semver::Version`'s `Ord` leaves
/// `versions`.
pub uninterp spec fn semver_sorted(versions: Seq<SpecVersion>) -> Seq<SpecVersion>;

/// Calls `semver::Version::parse` and keeps the result together with its plain
/// fields (`Prerelease::as_str`, `BuildMetadata::as_str`).
#[verifier::external_body]
fn parse_semver_version(text: &str) -> (res: Option<Release>)
    ensures
        res is None <==> semver_parse_version(text@) is None,
        res matches Some(v) ==> semver_parse_version(text@) == Some(v@),
{
    semver::Version::parse(text).ok().map(|raw| Release {
        major: raw.major,
        minor: raw.minor,
        patch: raw.patch,
        pre: raw.pre.as_str().to_string(),
        build: raw.build.as_str().to_string(),
        raw,
    })
}

/// Calls `semver::VersionReq::parse`, keeping the result with its comparators
/// as plain values, or the `Display` text of the error. `semver::Op` is
/// non-exhaustive; its eight variants in this version map one for one.
#[verifier::external_body]
fn parse_semver_requirement(text: &str) -> (res: Result<Requirement, String>)
    ensures
        requirement_outcome(res) == semver_parse_requirement(text@),
{
    let raw = semver::VersionReq::parse(text).map_err(|e| e.to_string())?;
    let comparators = raw.comparators.iter().map(|c| Comparator {
        op: match c.op {
            semver::Op::Exact => Op::Exact, semver::Op::Greater => Op::Greater,
            semver::Op::GreaterEq => Op::GreaterEq, semver::Op::Less => Op::Less,
            semver::Op::LessEq => Op::LessEq, semver::Op::Tilde => Op::Tilde,
            semver::Op::Caret => Op::Caret, _ => Op::Wildcard,
        },
        major: c.major, minor: c.minor, patch: c.patch, pre: c.pre.as_str().to_string(),
    }).collect();
    Ok(Requirement { comparators, raw })
}

/// Calls `semver::VersionReq::matches` on the kept `semver` objects.
#[verifier::external_body]
fn semver_requirement_matches(requirement: &Requirement, version: &Release) -> (r: bool)
    ensures
        r == semver_matches(requirement@, version@),
{
    requirement.raw.matches(&version.raw)
}

/// Sorts with `slice::sort_by`, ordering by `semver::Version`'s `Ord`. The
/// sort is stable, so the result is a permutation of the input; the `Ord` is a
/// total order (semver's documentation), so every earlier element compares at
/// most equal to every later one.
#[verifier::external_body]
fn sort_by_semver(versions: Vec<Release>) -> (r: Vec<Release>)
    ensures
        version_views(r@) == semver_sorted(version_views(versions@)),
        r@.len() == versions@.len(),
        version_views(r@).to_multiset() == version_views(versions@).to_multiset(),
        forall|i: int, j: int| 0 <= i < j < r@.len() ==> semver_order(#[trigger] r@[i]@, #[trigger] r@[j]@) <= 0,
{
    let mut versions = versions;
    versions.sort_by(|a, b| a.raw.cmp(&b.raw));
    versions
}

/// The text `Display` writes for a version: `major.minor.patch`, then
/// `-pre` and `+build` where they are not empty.
pub open spec fn version_text(v: SpecVersion) -> Seq<char> {
    let core = decimal(v.major as nat) + seq!['.'] + decimal(v.minor as nat) + seq!['.'] + decimal(v.patch as nat);
    let with_pre = if v.pre.len() > 0 { core + seq!['-'] + v.pre } else { core };
    if v.build.len() > 0 { with_pre + seq!['+'] + v.build } else { with_pre }
}

impl Release {
    /// Parses a version such as `1.2.3-beta.1+build.5`; `None` where semver
    /// rejects the text.
    pub fn parse(text: &str) -> (res: Option<Release>)
        ensures
            res is None <==> semver_parse_version(text@) is None,
            res matches Some(v) ==> semver_parse_version(text@) == Some(v@),
    {
        parse_semver_version(text)
    }

    pub fn major(&self) -> (r: u64)
        ensures
            r == self@.major,
    {
        self.major
    }

    pub fn minor(&self) -> (r: u64)
        ensures
            r == self@.minor,
    {
        self.minor
    }

    pub fn patch(&self) -> (r: u64)
        ensures
            r == self@.patch,
    {
        self.patch
    }

    /// The characters of [`version_text`].
    pub fn text_chars(&self) -> (r: Vec<char>)
        ensures
            r@ == version_text(self@),
    {
        let mut r = decimal_chars(self.major);
        r.push('.');
        extend_chars(&mut r, &decimal_chars(self.minor));
        r.push('.');
        extend_chars(&mut r, &decimal_chars(self.patch));
        let pre = chars_of(self.pre.as_str());
        if pre.len() > 0 {
            r.push('-');
            extend_chars(&mut r, &pre);
        }
        let build = chars_of(self.build.as_str());
        if build.len() > 0 {
            r.push('+');
            extend_chars(&mut r, &build);
        }
        r
    }

    /// The version as `Display` writes it.
    pub fn to_text(&self) -> (r: String)
        ensures
            r@ == version_text(self@),
    {
        string_from_chars(&self.text_chars())
    }
}

impl Requirement {
    /// Parses a requirement such as `^1.2, <1.8`; the error is semver's message.
    pub fn parse(text: &str) -> (res: Result<Requirement, String>)
        ensures
            res matches Ok(r) ==> semver_parse_requirement(text@) == Ok::<Seq<SpecComparator>, Seq<char>>(r@),
            res matches Err(m) ==> semver_parse_requirement(text@) == Err::<Seq<SpecComparator>, Seq<char>>(m@),
    {
        parse_semver_requirement(text)
    }

    /// Whether `version` satisfies the requirement.
    pub fn matches(&self, version: &Release) -> (r: bool)
        ensures
            r == semver_matches(self@, version@),
    {
        semver_requirement_matches(self, version)
    }

    /// The number of comparators; zero for `*`.
    pub fn len(&self) -> (r: usize)
        ensures
            r == self@.len(),
    {
        self.comparators.len()
    }
}

/// Sorts `versions` into `semver`'s order (stable).
pub fn sort_versions(versions: Vec<Release>) -> (r: Vec<Release>)
    ensures
        version_views(r@) == semver_sorted(version_views(versions@)),
        r@.len() == versions@.len(),
        version_views(r@).to_multiset() == version_views(versions@).to_multiset(),
        forall|i: int, j: int| 0 <= i < j < r@.len() ==> semver_order(#[trigger] r@[i]@, #[trigger] r@[j]@) <= 0,
{
    sort_by_semver(versions)
}

/// The text written for a version reads back as that version: three
/// non-empty runs of digits, apart by dots, whose values are the major, minor
/// and patch numbers in that order, then `-` and the pre-release when there is
/// one, then `+` and the build metadata when there is some.
pub proof fn version_text_reads_back(v: SpecVersion)
    ensures
        exists|major: Seq<char>, minor: Seq<char>, patch: Seq<char>|
            #![trigger all_digits(major), all_digits(minor), all_digits(patch)]
            {
                &&& major.len() > 0 && minor.len() > 0 && patch.len() > 0
                &&& all_digits(major) && all_digits(minor) && all_digits(patch)
                &&& digits_value(major) == v.major && digits_value(minor) == v.minor && digits_value(patch) == v.patch
                &&& version_text(v) == major + seq!['.'] + minor + seq!['.'] + patch
                    + (if v.pre.len() > 0 { seq!['-'] + v.pre } else { seq![] })
                    + (if v.build.len() > 0 { seq!['+'] + v.build } else { seq![] })
            },
{
    decimal_reads_back(v.major as nat);
    decimal_reads_back(v.minor as nat);
    decimal_reads_back(v.patch as nat);
    let a = decimal(v.major as nat);
    let b = decimal(v.minor as nat);
    let c = decimal(v.patch as nat);
    let core = a + seq!['.'] + b + seq!['.'] + c;
    let pre: Seq<char> = if v.pre.len() > 0 { seq!['-'] + v.pre } else { seq![] };
    let build: Seq<char> = if v.build.len() > 0 { seq!['+'] + v.build } else { seq![] };
    assert(version_text(v) =~= core + pre + build);
    assert(all_digits(a) && all_digits(b) && all_digits(c));
}

} // verus!
