//! The upgrade plan: an update for each dependency with a newer target, and a
//! note for each dependency whose releases could not be fetched.

use vstd::prelude::*;
use crate::dependency::{DependencyUpdate, UpdateView, update_views};
use crate::error::{UpgradeError, string_views};
use crate::registry::{ResolutionView, VersionResolution};
use crate::text::{chars_of, extend_chars, string_from_chars, trim};
use crate::versioning::{
    chosen_release, choose_target_release, rewrite_requirement, rewritten_requirement,
};

verus! {

/// The updates to make and the lookups that failed.
#[derive(Debug)]
pub struct UpgradePlan {
    pub updates: Vec<DependencyUpdate>,
    pub failures: Vec<String>,
}

/// The note for a dependency whose releases could not be fetched.
pub open spec fn failure_note(name: Seq<char>, error: Seq<char>) -> Seq<char> {
    "failed to fetch releases for "@ + name + ": "@ + error
}

/// The plan for `rs`, in order: updates and failure notes, or the message of
/// the first requirement semver rejects.
pub open spec fn planned(rs: Seq<ResolutionView>, use_latest: bool) -> Result<(Seq<UpdateView>, Seq<Seq<char>>), Seq<char>>
    decreases rs.len(),
{
    if rs.len() == 0 {
        Ok((seq![], seq![]))
    } else {
        match planned(rs.drop_last(), use_latest) {
            Err(m) => Err(m),
            Ok((updates, failures)) => {
                let d = rs.last().dependency;
                match rs.last().releases {
                    Err(error) => Ok((updates, failures.push(failure_note(d.name, error)))),
                    Ok(releases) => match chosen_release(d.requirement, releases, use_latest) {
                        Err(m) => Err(m),
                        Ok(None) => Ok((updates, failures)),
                        Ok(Some(release)) => Ok((
                            updates.push(UpdateView {
                                name: d.name,
                                section: d.section,
                                current_requirement: d.requirement,
                                target_requirement: rewritten_requirement(d.requirement, release),
                            }),
                            failures,
                        )),
                    },
                }
            },
        }
    }
}

/// The plain views of a sequence of resolutions.
pub open spec fn resolution_views(s: Seq<VersionResolution>) -> Seq<ResolutionView> {
    s.map_values(|r: VersionResolution| r@)
}

/// The plain view of the outcome of planning.
pub open spec fn plan_view(res: Result<UpgradePlan, UpgradeError>) -> Result<(Seq<UpdateView>, Seq<Seq<char>>), Seq<char>> {
    match res {
        Ok(p) => Ok((update_views(p.updates@), string_views(p.failures@))),
        Err(UpgradeError::InvalidRequirement(m)) => Err(m@),
        Err(UpgradeError::UnsupportedOptions(_)) => Err(seq![]),
    }
}

proof fn lemma_planned_error_stays(rs: Seq<ResolutionView>, use_latest: bool, j: int)
    requires
        0 <= j <= rs.len(),
        planned(rs.take(j), use_latest) is Err,
    ensures
        planned(rs, use_latest) == planned(rs.take(j), use_latest),
    decreases rs.len() - j,
{
    if j < rs.len() {
        assert(rs.drop_last().take(j) =~= rs.take(j));
        lemma_planned_error_stays(rs.drop_last(), use_latest, j);
    } else {
        assert(rs.take(j) =~= rs);
    }
}

/// Builds the plan: for each dependency whose releases were fetched, the
/// chosen release (see `choose_target_release`) gives an update with the
/// rewritten requirement; a failed lookup gives a note. The first requirement
/// semver rejects stops planning with its error.
pub fn build_upgrade_plan(resolutions: Vec<VersionResolution>, use_latest: bool) -> (res: Result<UpgradePlan, UpgradeError>)
    ensures
        plan_view(res) == planned(resolution_views(resolutions@), use_latest),
        res is Err ==> res->Err_0 is InvalidRequirement,
{
    let ghost rs = resolution_views(resolutions@);
    let n = resolutions.len();
    let mut rest = resolutions;
    let mut updates: Vec<DependencyUpdate> = Vec::new();
    let mut failures: Vec<String> = Vec::new();
    let mut k: usize = 0;
    assert(rs.take(0) =~= Seq::<ResolutionView>::empty());
    assert(update_views(updates@) =~= Seq::<UpdateView>::empty());
    assert(string_views(failures@) =~= Seq::<Seq<char>>::empty());
    assert(resolution_views(rest@) =~= rs.subrange(0, n as int));
    while k < n
        invariant
            k <= n,
            rest@.len() == n - k,
            rs == resolution_views(resolutions@),
            n == rs.len(),
            resolution_views(rest@) == rs.subrange(k as int, n as int),
            planned(rs.take(k as int), use_latest) == Ok::<(Seq<UpdateView>, Seq<Seq<char>>), Seq<char>>((update_views(updates@), string_views(failures@))),
        decreases n - k,
    {
        assert(resolution_views(rest@)[0] == rs[k as int]);
        let ghost old_rest = rest@;
        let resolution = rest.remove(0);
        assert(rest@ =~= old_rest.subrange(1, old_rest.len() as int));
        assert(resolution_views(rest@) =~= rs.subrange(k + 1, n as int)) by {
            assert forall|j: int| 0 <= j < rest@.len() implies resolution_views(rest@)[j] == rs.subrange(k + 1, n as int)[j] by {
                assert(rest@[j] == old_rest[j + 1]);
                assert(resolution_views(old_rest)[j + 1] == rs.subrange(k as int, n as int)[j + 1]);
            }
        }
        assert(rs.take(k + 1).drop_last() =~= rs.take(k as int));
        assert(rs.take(k + 1).last() == resolution@);
        let dependency = resolution.dependency;
        match resolution.releases {
            Ok(releases) => {
                match choose_target_release(dependency.requirement.as_str(), releases, use_latest) {
                    Ok(Some(release)) => {
                        let target = rewrite_requirement(dependency.requirement.as_str(), &release);
                        let ghost before = updates@;
                        updates.push(DependencyUpdate::new(dependency.name, dependency.section, dependency.requirement, target));
                        assert(update_views(updates@) =~= update_views(before).push(updates@.last()@));
                    },
                    Ok(None) => {},
                    Err(e) => {
                        proof {
                            lemma_planned_error_stays(rs, use_latest, k + 1);
                        }
                        return Err(e);
                    },
                }
            },
            Err(error) => {
                let mut note = chars_of("failed to fetch releases for ");
                extend_chars(&mut note, &chars_of(dependency.name.as_str()));
                extend_chars(&mut note, &chars_of(": "));
                extend_chars(&mut note, &chars_of(error.as_str()));
                let ghost before = failures@;
                failures.push(string_from_chars(&note));
                assert(string_views(failures@) =~= string_views(before).push(failures@.last()@));
            },
        }
        k = k + 1;
    }
    assert(rs.take(n as int) =~= rs);
    Ok(UpgradePlan { updates, failures })
}

/// The number of lookups that failed.
pub open spec fn failed_lookups(rs: Seq<ResolutionView>) -> nat
    decreases rs.len(),
{
    if rs.len() == 0 {
        0
    } else {
        failed_lookups(rs.drop_last()) + if rs.last().releases is Err { 1nat } else { 0nat }
    }
}

/// A failed lookup is reported and does not stop the run: a plan that is
/// made holds one note per failed lookup, and at most one update per
/// successful one.
pub proof fn every_failed_lookup_is_reported(rs: Seq<ResolutionView>, use_latest: bool)
    ensures
        planned(rs, use_latest) matches Ok((updates, failures)) ==> {
            &&& failures.len() == failed_lookups(rs)
            &&& updates.len() + failed_lookups(rs) <= rs.len()
        },
    decreases rs.len(),
{
    if rs.len() > 0 {
        every_failed_lookup_is_reported(rs.drop_last(), use_latest);
    }
}

/// Every planned update changes what the manifest says: its target differs
/// from the current requirement once trimmed, so the manifest is rewritten
/// only where a requirement changes.
pub proof fn planned_updates_change_the_requirement(rs: Seq<ResolutionView>, use_latest: bool)
    ensures
        planned(rs, use_latest) matches Ok((updates, failures)) ==> forall|k: int| 0 <= k < updates.len()
            ==> (#[trigger] updates[k]).target_requirement != trim(updates[k].current_requirement),
    decreases rs.len(),
{
    if rs.len() > 0 {
        planned_updates_change_the_requirement(rs.drop_last(), use_latest);
    }
}

/// Every planned update comes from a dependency whose releases were fetched
/// and keeps that dependency's identity: its name, its table and its current
/// requirement are the dependency's own, and it appears in the order of the
/// dependencies.
pub proof fn every_update_keeps_its_dependency(rs: Seq<ResolutionView>, use_latest: bool)
    ensures
        planned(rs, use_latest) matches Ok((updates, failures)) ==> forall|k: int| #![trigger updates[k]] 0 <= k < updates.len() ==>
            exists|j: int| #![trigger rs[j]] 0 <= j < rs.len() && {
                &&& rs[j].releases is Ok
                &&& rs[j].dependency.name == updates[k].name
                &&& rs[j].dependency.section == updates[k].section
                &&& rs[j].dependency.requirement == updates[k].current_requirement
            },
    decreases rs.len(),
{
    if rs.len() > 0 {
        let p = rs.drop_last();
        every_update_keeps_its_dependency(p, use_latest);
        if let Ok((updates, failures)) = planned(rs, use_latest) {
            if let Ok((before, _)) = planned(p, use_latest) {
                assert forall|k: int| #![trigger updates[k]] 0 <= k < updates.len() implies
                    exists|j: int| #![trigger rs[j]] 0 <= j < rs.len() && {
                        &&& rs[j].releases is Ok
                        &&& rs[j].dependency.name == updates[k].name
                        &&& rs[j].dependency.section == updates[k].section
                        &&& rs[j].dependency.requirement == updates[k].current_requirement
                    } by {
                    if k < before.len() {
                        assert(updates[k] == before[k]);
                        let j = choose|j: int| #![trigger p[j]] 0 <= j < p.len() && {
                            &&& p[j].releases is Ok
                            &&& p[j].dependency.name == before[k].name
                            &&& p[j].dependency.section == before[k].section
                            &&& p[j].dependency.requirement == before[k].current_requirement
                        };
                        assert(rs[j] == p[j]);
                    } else {
                        assert(rs[rs.len() - 1] == rs.last());
                    }
                }
            }
        }
    }
}

} // verus!
