//! How large a change from one requirement to another is.

use vstd::prelude::*;
use crate::dependency::DependencyUpdate;
use crate::release::{Release, SpecVersion, semver_parse_version};
use crate::text::{trim, trim_chars, chars_of, extend_chars, string_from_chars};

verus! {

/// `s` without its leading `^`, `~` and `=` characters.
pub open spec fn strip_operators(s: Seq<char>) -> Seq<char>
    decreases s.len(),
{
    if s.len() > 0 && (s[0] == '^' || s[0] == '~' || s[0] == '=') {
        strip_operators(s.drop_first())
    } else {
        s
    }
}

/// The part of `s` before its first `,` or space.
pub open spec fn first_piece(s: Seq<char>) -> Seq<char>
    decreases s.len(),
{
    if s.len() == 0 || s[0] == ',' || s[0] == ' ' {
        seq![]
    } else {
        seq![s[0]] + first_piece(s.drop_first())
    }
}

/// The number of `.` characters in `s`.
pub open spec fn dot_count(s: Seq<char>) -> nat
    decreases s.len(),
{
    if s.len() == 0 {
        0
    } else {
        dot_count(s.drop_last()) + if s.last() == '.' { 1nat } else { 0nat }
    }
}

/// The version text of a requirement's first comparator, completed to three
/// numbers with `.0`.
pub open spec fn normalized_version(requirement: Seq<char>) -> Seq<char> {
    let v = trim(first_piece(strip_operators(trim(requirement))));
    if dot_count(v) == 0 {
        v + ".0.0"@
    } else if dot_count(v) == 1 {
        v + ".0"@
    } else {
        v
    }
}

/// The version a requirement is written around, if semver reads one.
pub open spec fn requirement_version(requirement: Seq<char>) -> Option<SpecVersion> {
    semver_parse_version(normalized_version(requirement))
}

/// How a change from `current` to `target` is classified.
pub open spec fn impact_of(current: Seq<char>, target: Seq<char>) -> Seq<char> {
    match (requirement_version(current), requirement_version(target)) {
        (Some(c), Some(t)) => if t.major != c.major {
            "major"@
        } else if t.minor != c.minor {
            "minor"@
        } else if t.patch != c.patch {
            "patch"@
        } else {
            "same"@
        },
        _ => "unknown"@,
    }
}

proof fn lemma_strip_operators_skip(s: Seq<char>, i: int)
    requires
        0 <= i <= s.len(),
        forall|k: int| 0 <= k < i ==> (#[trigger] s[k] == '^' || s[k] == '~' || s[k] == '='),
        i == s.len() || !(s[i] == '^' || s[i] == '~' || s[i] == '='),
    ensures
        strip_operators(s) == s.subrange(i, s.len() as int),
    decreases i,
{
    if i > 0 {
        let t = s.drop_first();
        assert forall|k: int| 0 <= k < i - 1 implies (#[trigger] t[k] == '^' || t[k] == '~' || t[k] == '=') by {
            assert(t[k] == s[k + 1]);
        }
        if i - 1 < t.len() {
            assert(t[i - 1] == s[i]);
        }
        lemma_strip_operators_skip(t, i - 1);
        assert(t.subrange(i - 1, t.len() as int) =~= s.subrange(i, s.len() as int));
    } else {
        assert(s.subrange(0, s.len() as int) =~= s);
    }
}

proof fn lemma_first_piece_take(s: Seq<char>, j: int)
    requires
        0 <= j <= s.len(),
        forall|k: int| 0 <= k < j ==> (#[trigger] s[k] != ',' && s[k] != ' '),
        j == s.len() || s[j] == ',' || s[j] == ' ',
    ensures
        first_piece(s) == s.take(j),
    decreases j,
{
    if j > 0 {
        let t = s.drop_first();
        assert forall|k: int| 0 <= k < j - 1 implies (#[trigger] t[k] != ',' && t[k] != ' ') by {
            assert(t[k] == s[k + 1]);
        }
        if j - 1 < t.len() {
            assert(t[j - 1] == s[j]);
        }
        lemma_first_piece_take(t, j - 1);
        assert(seq![s[0]] + t.take(j - 1) =~= s.take(j));
    } else {
        assert(s.take(0) =~= Seq::<char>::empty());
    }
}

/// The normalized version text of a requirement (see [`normalized_version`]).
fn normalized_version_chars(requirement: &str) -> (r: Vec<char>)
    ensures
        r@ == normalized_version(requirement@),
{
    let t = trim_chars(&chars_of(requirement));
    let mut i: usize = 0;
    while i < t.len() && (t[i] == '^' || t[i] == '~' || t[i] == '=')
        invariant
            i <= t@.len(),
            forall|k: int| 0 <= k < i ==> (#[trigger] t@[k] == '^' || t@[k] == '~' || t@[k] == '='),
        decreases t@.len() - i,
    {
        i = i + 1;
    }
    proof {
        lemma_strip_operators_skip(t@, i as int);
    }
    let ghost stripped = t@.subrange(i as int, t@.len() as int);
    let mut piece: Vec<char> = Vec::new();
    let mut j: usize = i;
    while j < t.len() && t[j] != ',' && t[j] != ' '
        invariant
            i <= j <= t@.len(),
            stripped == t@.subrange(i as int, t@.len() as int),
            piece@ == t@.subrange(i as int, j as int),
            forall|k: int| i <= k < j ==> (#[trigger] t@[k] != ',' && t@[k] != ' '),
        decreases t@.len() - j,
    {
        piece.push(t[j]);
        j = j + 1;
        assert(piece@ =~= t@.subrange(i as int, j as int));
    }
    proof {
        assert forall|k: int| 0 <= k < j - i implies (#[trigger] stripped[k] != ',' && stripped[k] != ' ') by {
            assert(stripped[k] == t@[k + i]);
        }
        if j < t@.len() {
            assert(stripped[j - i] == t@[j as int]);
        }
        lemma_first_piece_take(stripped, j - i);
        assert(stripped.take(j - i) =~= piece@);
    }
    let v = trim_chars(&piece);
    let mut dots: usize = 0;
    let mut k: usize = 0;
    while k < v.len()
        invariant
            k <= v@.len(),
            dots as nat == dot_count(v@.take(k as int)),
            dots <= k,
        decreases v@.len() - k,
    {
        assert(v@.take(k + 1).drop_last() =~= v@.take(k as int));
        if v[k] == '.' {
            dots = dots + 1;
        }
        k = k + 1;
    }
    assert(v@.take(v@.len() as int) =~= v@);
    let mut r = v;
    if dots == 0 {
        extend_chars(&mut r, &chars_of(".0.0"));
    } else if dots == 1 {
        extend_chars(&mut r, &chars_of(".0"));
    }
    r
}

/// The version a requirement is written around: operators and everything
/// after the first comparator dropped, missing numbers completed with `.0`.
pub fn parse_requirement_version(requirement: &str) -> (r: Option<Release>)
    ensures
        r is None <==> requirement_version(requirement@) is None,
        r matches Some(v) ==> requirement_version(requirement@) == Some(v@),
{
    let text = string_from_chars(&normalized_version_chars(requirement));
    Release::parse(text.as_str())
}

/// Classifies a change of requirement by the first of major, minor and patch
/// that differs: `major`, `minor`, `patch`, or `same` when none does, and
/// `unknown` when either requirement has no readable version.
pub fn classify_requirement_change(current: &str, target: &str) -> (r: &'static str)
    ensures
        r@ == impact_of(current@, target@),
{
    let current = parse_requirement_version(current);
    let target = parse_requirement_version(target);
    match (current, target) {
        (Some(c), Some(t)) => {
            if t.major() != c.major() {
                "major"
            } else if t.minor() != c.minor() {
                "minor"
            } else if t.patch() != c.patch() {
                "patch"
            } else {
                "same"
            }
        },
        _ => "unknown",
    }
}

/// Classifies the change an update makes (see [`classify_requirement_change`]).
pub fn classify_update_impact(update: &DependencyUpdate) -> (r: &'static str)
    ensures
        r@ == impact_of(update.current_requirement@, update.target_requirement@),
{
    classify_requirement_change(update.current_requirement.as_str(), update.target_requirement.as_str())
}

/// The first of major, minor and patch that differs decides the impact: a
/// different major number is `major` whatever the rest; the same major and a
/// different minor is `minor` whatever the patch numbers; the same major and
/// minor and a different patch is `patch`; all three the same is `same`; and
/// a requirement with no readable version makes it `unknown`.
pub proof fn first_differing_number_decides(current: Seq<char>, target: Seq<char>)
    ensures
        requirement_version(current) is None || requirement_version(target) is None ==> impact_of(current, target) == "unknown"@,
        requirement_version(current) matches Some(c) ==> requirement_version(target) matches Some(t) ==> {
            &&& t.major != c.major ==> impact_of(current, target) == "major"@
            &&& t.major == c.major && t.minor != c.minor ==> impact_of(current, target) == "minor"@
            &&& t.major == c.major && t.minor == c.minor && t.patch != c.patch ==> impact_of(current, target) == "patch"@
            &&& t.major == c.major && t.minor == c.minor && t.patch == c.patch ==> impact_of(current, target) == "same"@
        },
{
}

/// The impact does not depend on the direction of the change: moving from
/// `a` to `b` is as large as moving from `b` to `a`.
pub proof fn impact_is_symmetric(a: Seq<char>, b: Seq<char>)
    ensures
        impact_of(a, b) == impact_of(b, a),
{
}

} // verus!
