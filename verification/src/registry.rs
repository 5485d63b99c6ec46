//! What the registry reported for each dependency.

use vstd::prelude::*;
use crate::dependency::{DependencyView, ManifestDependency};
use crate::release::{Release, SpecVersion, semver_parse_version, version_views};
use crate::error::string_views;

verus! {

/// The releases found for one dependency, or the message of the lookup's
/// failure.
#[derive(Debug)]
pub struct VersionResolution {
    pub dependency: ManifestDependency,
    pub releases: Result<Vec<Release>, String>,
}

/// A resolution as plain values.
pub struct ResolutionView {
    pub dependency: DependencyView,
    pub releases: Result<Seq<SpecVersion>, Seq<char>>,
}

impl View for VersionResolution {
    type V = ResolutionView;

    open spec fn view(&self) -> ResolutionView {
        ResolutionView {
            dependency: self.dependency@,
            releases: match self.releases {
                Ok(v) => Ok(version_views(v@)),
                Err(m) => Err(m@),
            },
        }
    }
}

/// The versions among `numbers` that semver reads, in order.
pub open spec fn parsed_releases(numbers: Seq<Seq<char>>) -> Seq<SpecVersion>
    decreases numbers.len(),
{
    if numbers.len() == 0 {
        seq![]
    } else {
        let rest = parsed_releases(numbers.drop_last());
        match semver_parse_version(numbers.last()) {
            Some(v) => rest.push(v),
            None => rest,
        }
    }
}

/// The published version numbers of a crate that are valid semantic
/// versions, in the order the registry lists them; the others are skipped.
pub fn parse_release_list(numbers: &Vec<String>) -> (r: Vec<Release>)
    ensures
        version_views(r@) == parsed_releases(string_views(numbers@)),
{
    let ghost ns = string_views(numbers@);
    let mut r: Vec<Release> = Vec::new();
    let mut i: usize = 0;
    while i < numbers.len()
        invariant
            i <= numbers@.len(),
            ns == string_views(numbers@),
            version_views(r@) == parsed_releases(ns.take(i as int)),
        decreases numbers@.len() - i,
    {
        assert(ns.take(i + 1).drop_last() =~= ns.take(i as int));
        assert(ns.take(i + 1).last() == numbers@[i as int]@);
        match Release::parse(numbers[i].as_str()) {
            Some(v) => {
                r.push(v);
                assert(version_views(r@) =~= parsed_releases(ns.take(i + 1)));
            },
            None => {},
        }
        i = i + 1;
    }
    assert(ns.take(numbers@.len() as int) =~= ns);
    r
}

} // verus!
