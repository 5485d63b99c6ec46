//! Choosing the release a requirement moves to, and rewriting the requirement.

use vstd::prelude::*;
use crate::error::UpgradeError;
use crate::release::{
    Release, Requirement, SpecVersion, SpecComparator, version_text, version_views, sort_versions,
    semver_sorted, semver_order, semver_matches, semver_parse_requirement,
};
use crate::text::{trim, trim_chars, chars_of, chars_equal, extend_chars, string_from_chars};

verus! {

broadcast use vstd::seq_lib::group_to_multiset_ensures;

/// The requirement that replaces `current` when it moves to `release`: the
/// operator `~`, `^` or `=` that starts the trimmed requirement is kept, `*`
/// becomes a caret requirement, and anything else becomes the bare version.
pub open spec fn rewritten_requirement(current: Seq<char>, release: SpecVersion) -> Seq<char> {
    let t = trim(current);
    if t == seq!['*'] {
        seq!['^'] + version_text(release)
    } else if t.len() > 0 && (t[0] == '~' || t[0] == '^' || t[0] == '=') {
        seq![t[0]] + version_text(release)
    } else {
        version_text(release)
    }
}

/// Whether `release` is one that `requirement` may move to: with
/// `--latest` any release; otherwise a release that satisfies the
/// requirement as semver reads it.
pub open spec fn candidate(requirement: Seq<char>, use_latest: bool, release: SpecVersion) -> bool {
    if use_latest {
        true
    } else {
        match semver_parse_requirement(requirement) {
            Ok(req) => semver_matches(req, release),
            Err(_) => false,
        }
    }
}

/// Whether moving to `release` changes what the manifest says: the
/// rewritten requirement differs from the written one, once trimmed.
pub open spec fn changes_requirement(requirement: Seq<char>, release: SpecVersion) -> bool {
    rewritten_requirement(requirement, release) != trim(requirement)
}

/// The last element of `s` that is a candidate.
pub open spec fn last_candidate(requirement: Seq<char>, use_latest: bool, s: Seq<SpecVersion>) -> Option<SpecVersion>
    decreases s.len(),
{
    if s.len() == 0 {
        None
    } else if candidate(requirement, use_latest, s.last()) {
        Some(s.last())
    } else {
        last_candidate(requirement, use_latest, s.drop_last())
    }
}

/// What choosing a target release yields: the newest candidate in semver
/// order (the last one once sorted), unless moving to it changes nothing, in
/// which case none; or semver's message where the requirement does not parse
/// and `--latest` is not given.
pub open spec fn chosen_release(requirement: Seq<char>, releases: Seq<SpecVersion>, use_latest: bool) -> Result<Option<SpecVersion>, Seq<char>> {
    if !use_latest && semver_parse_requirement(requirement) is Err {
        Err(semver_parse_requirement(requirement)->Err_0)
    } else {
        match last_candidate(requirement, use_latest, semver_sorted(releases)) {
            Some(r) => if changes_requirement(requirement, r) { Ok(Some(r)) } else { Ok(None) },
            None => Ok(None),
        }
    }
}

/// The plain view of the outcome of choosing a release.
pub open spec fn choice_view(res: Result<Option<Release>, UpgradeError>) -> Result<Option<SpecVersion>, Seq<char>> {
    match res {
        Ok(Some(r)) => Ok(Some(r@)),
        Ok(None) => Ok(None),
        Err(UpgradeError::InvalidRequirement(m)) => Err(m@),
        Err(UpgradeError::UnsupportedOptions(_)) => Err(seq![]),
    }
}

/// The rewritten requirement, from the trimmed characters of the current one.
fn rewrite_trimmed(t: &[char], release: &Release) -> (r: Vec<char>)
    ensures
        forall|current: Seq<char>| trim(current) == t@ ==> r@ == #[trigger] rewritten_requirement(current, release@),
{
    let text = release.text_chars();
    if t.len() == 1 && t[0] == '*' {
        let mut r: Vec<char> = Vec::new();
        r.push('^');
        extend_chars(&mut r, &text);
        assert(t@ =~= seq!['*']);
        r
    } else if t.len() > 0 && (t[0] == '~' || t[0] == '^' || t[0] == '=') {
        let mut r: Vec<char> = Vec::new();
        r.push(t[0]);
        extend_chars(&mut r, &text);
        assert(t@ != seq!['*']) by {
            if t@ =~= seq!['*'] {
                assert(t@[0] == '*');
            }
        }
        r
    } else {
        assert(t@ != seq!['*']) by {
            if t@ =~= seq!['*'] {
                assert(t@.len() == 1 && t@[0] == '*');
            }
        }
        text
    }
}

/// The requirement that replaces `current_requirement` when it moves to
/// `release`, keeping its operator style.
pub fn rewrite_requirement(current_requirement: &str, release: &Release) -> (r: String)
    ensures
        r@ == rewritten_requirement(current_requirement@, release@),
{
    let t = trim_chars(&chars_of(current_requirement));
    string_from_chars(&rewrite_trimmed(&t, release))
}

proof fn lemma_last_candidate_prefix(requirement: Seq<char>, use_latest: bool, s: Seq<SpecVersion>, i: int)
    requires
        0 <= i <= s.len(),
        forall|j: int| i <= j < s.len() ==> !candidate(requirement, use_latest, #[trigger] s[j]),
    ensures
        last_candidate(requirement, use_latest, s) == last_candidate(requirement, use_latest, s.take(i)),
    decreases s.len() - i,
{
    if i < s.len() {
        assert(s.drop_last().take(i) =~= s.take(i));
        lemma_last_candidate_prefix(requirement, use_latest, s.drop_last(), i);
    } else {
        assert(s.take(i) =~= s);
    }
}

/// In a sequence ordered as semver orders versions, the last candidate is
/// the newest: it is in the sequence, and every candidate orders at most
/// equal to it.
pub proof fn newest_candidate_is_the_greatest(requirement: Seq<char>, use_latest: bool, s: Seq<SpecVersion>)
    requires
        forall|a: int, b: int| 0 <= a < b < s.len() ==> semver_order(#[trigger] s[a], #[trigger] s[b]) <= 0,
    ensures
        last_candidate(requirement, use_latest, s) matches Some(r) ==> {
            &&& s.contains(r)
            &&& candidate(requirement, use_latest, r)
            &&& forall|k: int| 0 <= k < s.len() && candidate(requirement, use_latest, #[trigger] s[k])
                ==> s[k] == r || semver_order(s[k], r) <= 0
        },
    decreases s.len(),
{
    if s.len() > 0 && !candidate(requirement, use_latest, s.last()) {
        let p = s.drop_last();
        assert forall|a: int, b: int| 0 <= a < b < p.len() implies semver_order(#[trigger] p[a], #[trigger] p[b]) <= 0 by {
            assert(p[a] == s[a] && p[b] == s[b]);
        }
        newest_candidate_is_the_greatest(requirement, use_latest, p);
        if let Some(r) = last_candidate(requirement, use_latest, p) {
            let w = choose|w: int| 0 <= w < p.len() && p[w] == r;
            assert(s[w] == r);
            assert forall|k: int| 0 <= k < s.len() && candidate(requirement, use_latest, #[trigger] s[k])
                implies s[k] == r || semver_order(s[k], r) <= 0 by {
                if k < p.len() {
                    assert(p[k] == s[k]);
                } else {
                    assert(s[k] == s.last());
                }
            }
        }
    } else if s.len() > 0 {
        assert(s[s.len() - 1] == s.last());
        assert forall|k: int| 0 <= k < s.len() && candidate(requirement, use_latest, #[trigger] s[k])
            implies s[k] == s.last() || semver_order(s[k], s.last()) <= 0 by {
            if k < s.len() - 1 {
                assert(semver_order(s[k], s[s.len() - 1]) <= 0);
            }
        }
    }
}

/// The newest candidate of the sorted releases is, among the releases as
/// given, a candidate that every candidate orders at most equal to.
proof fn lemma_newest_among_given(requirement: Seq<char>, use_latest: bool, input: Seq<SpecVersion>, sv: Seq<SpecVersion>, r: SpecVersion)
    requires
        sv.to_multiset() == input.to_multiset(),
        forall|a: int, b: int| 0 <= a < b < sv.len() ==> semver_order(#[trigger] sv[a], #[trigger] sv[b]) <= 0,
        last_candidate(requirement, use_latest, sv) == Some(r),
    ensures
        input.contains(r),
        candidate(requirement, use_latest, r),
        forall|k: int| 0 <= k < input.len() && candidate(requirement, use_latest, #[trigger] input[k])
            ==> input[k] == r || semver_order(input[k], r) <= 0,
{
    newest_candidate_is_the_greatest(requirement, use_latest, sv);
    assert(sv.to_multiset().count(r) > 0);
    assert(input.to_multiset().count(r) > 0);
    assert forall|k: int| 0 <= k < input.len() && candidate(requirement, use_latest, #[trigger] input[k])
        implies input[k] == r || semver_order(input[k], r) <= 0 by {
        assert(input.contains(input[k]));
        assert(input.to_multiset().count(input[k]) > 0);
        assert(sv.to_multiset().count(input[k]) > 0);
        assert(sv.contains(input[k]));
    }
}

/// Picks the release a dependency's requirement moves to.
///
/// The releases are ordered as semver orders versions. The newest candidate
/// is taken: with `use_latest` the newest release, otherwise the newest
/// release that satisfies the requirement (for `*`, the newest release
/// semver lets `*` match). When moving to it would leave the written
/// requirement as it is, there is none. A requirement semver rejects is an
/// error, but only without `use_latest`.
pub fn choose_target_release(requirement: &str, releases: Vec<Release>, use_latest: bool) -> (res: Result<Option<Release>, UpgradeError>)
    ensures
        choice_view(res) == chosen_release(requirement@, version_views(releases@), use_latest),
        res is Err <==> (!use_latest && semver_parse_requirement(requirement@) is Err),
        res is Err ==> res->Err_0 is InvalidRequirement,
        res matches Ok(Some(r)) ==> {
            &&& version_views(releases@).contains(r@)
            &&& candidate(requirement@, use_latest, r@)
            &&& changes_requirement(requirement@, r@)
            &&& forall|k: int| 0 <= k < releases@.len() && candidate(requirement@, use_latest, #[trigger] releases@[k]@)
                ==> releases@[k]@ == r@ || semver_order(releases@[k]@, r@) <= 0
        },
        res matches Ok(None) ==> {
            ||| forall|k: int| 0 <= k < releases@.len() ==> !candidate(requirement@, use_latest, #[trigger] releases@[k]@)
            ||| exists|j: int| 0 <= j < releases@.len() && {
                &&& candidate(requirement@, use_latest, #[trigger] releases@[j]@)
                &&& !changes_requirement(requirement@, releases@[j]@)
                &&& forall|k: int| 0 <= k < releases@.len() && candidate(requirement@, use_latest, #[trigger] releases@[k]@)
                    ==> releases@[k]@ == releases@[j]@ || semver_order(releases@[k]@, releases@[j]@) <= 0
            }
        },
{
    let ghost rel = releases@;
    let ghost input = version_views(releases@);
    let mut sorted = sort_versions(releases);
    let ghost sv = version_views(sorted@);
    let trimmed = trim_chars(&chars_of(requirement));
    let mut parsed: Option<Requirement> = None;
    if !use_latest {
        match Requirement::parse(requirement) {
            Ok(req) => {
                parsed = Some(req);
            },
            Err(message) => {
                return Err(UpgradeError::InvalidRequirement(message));
            },
        }
    }
    let mut i = sorted.len();
    while i > 0
        invariant
            i <= sorted@.len(),
            sv == version_views(sorted@),
            sv == semver_sorted(input),
            sv.to_multiset() == input.to_multiset(),
            input == version_views(rel),
            rel == releases@,
            forall|a: int, b: int| 0 <= a < b < sv.len() ==> semver_order(#[trigger] sv[a], #[trigger] sv[b]) <= 0,
            trimmed@ == trim(requirement@),
            use_latest ==> parsed is None,
            !use_latest ==> (parsed matches Some(req) && semver_parse_requirement(requirement@) == Ok::<Seq<SpecComparator>, Seq<char>>(req@)),
            forall|j: int| i <= j < sv.len() ==> !candidate(requirement@, use_latest, #[trigger] sv[j]),
        decreases i,
    {
        let release = &sorted[i - 1];
        let is_candidate = match &parsed {
            None => true,
            Some(req) => req.matches(release),
        };
        assert(sv[i - 1] == release@);
        if is_candidate {
            proof {
                lemma_last_candidate_prefix(requirement@, use_latest, sv, i as int);
                assert(sv.take(i as int).drop_last() =~= sv.take(i - 1));
                assert(sv.take(i as int).last() == sv[i - 1]);
                lemma_newest_among_given(requirement@, use_latest, input, sv, sv[i - 1]);
            }
            let chosen = sorted.remove(i - 1);
            let rewritten = rewrite_trimmed(&trimmed, &chosen);
            assert(rewritten@ == rewritten_requirement(requirement@, chosen@));
            if chars_equal(&rewritten, &trimmed) {
                proof {
                    let j = choose|j: int| 0 <= j < input.len() && input[j] == chosen@;
                    assert(rel[j]@ == input[j]);
                    assert forall|k: int| 0 <= k < rel.len() && candidate(requirement@, use_latest, #[trigger] rel[k]@)
                        implies rel[k]@ == rel[j]@ || semver_order(rel[k]@, rel[j]@) <= 0 by {
                        assert(input[k] == rel[k]@);
                    }
                }
                return Ok(None);
            }
            proof {
                assert forall|k: int| 0 <= k < rel.len() && candidate(requirement@, use_latest, #[trigger] rel[k]@)
                    implies rel[k]@ == chosen@ || semver_order(rel[k]@, chosen@) <= 0 by {
                    assert(input[k] == rel[k]@);
                }
            }
            return Ok(Some(chosen));
        }
        i = i - 1;
    }
    proof {
        lemma_last_candidate_prefix(requirement@, use_latest, sv, 0);
        assert forall|k: int| 0 <= k < rel.len() implies !candidate(requirement@, use_latest, #[trigger] rel[k]@) by {
            assert(input[k] == rel[k]@);
            assert(input.contains(input[k]));
            assert(input.to_multiset().count(input[k]) > 0);
            assert(sv.to_multiset().count(input[k]) > 0);
            assert(sv.contains(input[k]));
        }
    }
    Ok(None)
}

/// The release chosen for a requirement is one of the releases and is a
/// candidate for the requirement in the mode asked for.
pub proof fn chosen_release_is_a_candidate(requirement: Seq<char>, releases: Seq<SpecVersion>, use_latest: bool)
    ensures
        chosen_release(requirement, releases, use_latest) matches Ok(Some(r)) ==> candidate(requirement, use_latest, r),
{
    lemma_last_candidate_is_candidate(requirement, use_latest, semver_sorted(releases));
}

proof fn lemma_last_candidate_is_candidate(requirement: Seq<char>, use_latest: bool, s: Seq<SpecVersion>)
    ensures
        last_candidate(requirement, use_latest, s) matches Some(r) ==> candidate(requirement, use_latest, r),
    decreases s.len(),
{
    if s.len() > 0 {
        lemma_last_candidate_is_candidate(requirement, use_latest, s.drop_last());
    }
}

} // verus!
