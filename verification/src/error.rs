//! Errors that stop an upgrade run.

use vstd::prelude::*;
use crate::text::{extend_chars, chars_of, string_from_chars};

verus! {

/// Why an upgrade run stops.
#[derive(Debug)]
pub enum UpgradeError {
    /// semver rejected a requirement written in the manifest; the text is
    /// semver's message.
    InvalidRequirement(String),
    /// Command-line options that are accepted but not carried out yet, as
    /// their flags, in the order the help lists them.
    UnsupportedOptions(Vec<String>),
}

/// `parts` joined with `separator` between neighbours.
pub open spec fn joined(parts: Seq<Seq<char>>, separator: Seq<char>) -> Seq<char>
    decreases parts.len(),
{
    if parts.len() == 0 {
        seq![]
    } else if parts.len() == 1 {
        parts[0]
    } else {
        joined(parts.drop_last(), separator) + separator + parts.last()
    }
}

/// The plain views of a sequence of strings.
pub open spec fn string_views(s: Seq<String>) -> Seq<Seq<char>> {
    s.map_values(|x: String| x@)
}

/// The text shown for an error.
pub open spec fn error_message(e: UpgradeError) -> Seq<char> {
    match e {
        UpgradeError::InvalidRequirement(m) => m@,
        UpgradeError::UnsupportedOptions(flags) =>
            "unsupported options: "@ + joined(string_views(flags@), ", "@),
    }
}

/// The characters of `parts` joined with `separator`.
pub fn join_strings(parts: &Vec<String>, separator: &[char]) -> (r: Vec<char>)
    ensures
        r@ == joined(string_views(parts@), separator@),
{
    let ghost views = string_views(parts@);
    let mut r: Vec<char> = Vec::new();
    let mut i: usize = 0;
    while i < parts.len()
        invariant
            i <= parts@.len(),
            views == string_views(parts@),
            r@ == joined(views.take(i as int), separator@),
        decreases parts@.len() - i,
    {
        let part = chars_of(parts[i].as_str());
        assert(views.take(i + 1).drop_last() =~= views.take(i as int));
        assert(views.take(i + 1).last() == views[i as int]);
        if i > 0 {
            extend_chars(&mut r, separator);
        } else {
            assert(views.take(0) =~= Seq::<Seq<char>>::empty());
        }
        extend_chars(&mut r, &part);
        if i == 0 {
            assert(r@ =~= views.take(1)[0]);
        }
        i = i + 1;
    }
    assert(views.take(parts@.len() as int) =~= views);
    r
}

impl UpgradeError {
    /// The text shown for the error.
    pub fn message(&self) -> (r: String)
        ensures
            r@ == error_message(*self),
    {
        match self {
            UpgradeError::InvalidRequirement(m) => m.clone(),
            UpgradeError::UnsupportedOptions(flags) => {
                let mut r = chars_of("unsupported options: ");
                let separator = chars_of(", ");
                let list = join_strings(flags, &separator);
                extend_chars(&mut r, &list);
                string_from_chars(&r)
            },
        }
    }
}

} // verus!
