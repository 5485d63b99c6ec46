//! The decisions of an upgrade run once its plan is made: whether there is
//! anything to do, whether it is a dry run or a review, and what is
//! reported.

use vstd::prelude::*;
use crate::cli::Cli;
use crate::dependency::{DependencyUpdate, UpdateView, update_views};
use crate::error::string_views;
use crate::plan::UpgradePlan;
use crate::text::{chars_of, extend_chars, string_from_chars};

verus! {

/// The line reported for an update: `name current -> target`.
pub open spec fn update_text(u: UpdateView) -> Seq<char> {
    u.name + " "@ + u.current_requirement + " -> "@ + u.target_requirement
}

/// The lines reported for updates, one each, in order.
pub open spec fn update_texts(us: Seq<UpdateView>) -> Seq<Seq<char>> {
    us.map_values(|u: UpdateView| update_text(u))
}

/// The line reported when the plan holds no update.
pub open spec fn no_updates_text() -> Seq<char> {
    "No updates."@
}

/// The line that ends a dry run's report.
pub open spec fn dry_run_text() -> Seq<char> {
    "Dry run. Cargo.toml was not modified."@
}

/// The line reported when the review keeps no update.
pub open spec fn nothing_chosen_text() -> Seq<char> {
    "No updates selected."@
}

/// The line reported for an update (see [`update_text`]).
pub fn update_line(update: &DependencyUpdate) -> (r: String)
    ensures
        r@ == update_text(update@),
{
    let mut text = chars_of(update.name.as_str());
    extend_chars(&mut text, &chars_of(" "));
    extend_chars(&mut text, &chars_of(update.current_requirement.as_str()));
    extend_chars(&mut text, &chars_of(" -> "));
    extend_chars(&mut text, &chars_of(update.target_requirement.as_str()));
    string_from_chars(&text)
}

/// The lines reported for updates, one each, in order.
pub fn update_lines(updates: &[DependencyUpdate]) -> (r: Vec<String>)
    ensures
        string_views(r@) == update_texts(update_views(updates@)),
{
    let mut r: Vec<String> = Vec::new();
    let mut i: usize = 0;
    while i < updates.len()
        invariant
            i <= updates@.len(),
            r@.len() == i,
            forall|k: int| 0 <= k < i ==> #[trigger] r@[k]@ == update_text(updates@[k]@),
        decreases updates@.len() - i,
    {
        r.push(update_line(&updates[i]));
        i = i + 1;
    }
    assert(string_views(r@) =~= update_texts(update_views(updates@)));
    r
}

/// What the run does once its plan is made.
#[derive(Debug)]
pub enum RunStep {
    /// Nothing is written; the run ends by reporting these lines.
    Done(Vec<String>),
    /// The user reviews the updates; those kept are then written.
    Review,
    /// Every planned update is written.
    WriteAll,
}

/// What the run does with the updates chosen to be written.
#[derive(Debug)]
pub enum WriteStep {
    /// None was chosen: nothing is written, and these lines are reported.
    Nothing(Vec<String>),
    /// The manifest is written, then these lines are reported.
    Write(Vec<String>),
}

/// Decides what follows the plan: with no update there is nothing to do; a
/// dry run reports the updates and leaves the manifest alone; otherwise the
/// updates are reviewed first when asked, or all written.
pub fn step_after_plan(plan: &UpgradePlan, cli: &Cli) -> (r: RunStep)
    ensures
        plan.updates@.len() == 0 ==> (r matches RunStep::Done(lines) && string_views(lines@) == seq![no_updates_text()]),
        plan.updates@.len() > 0 && cli.dry_run ==> (r matches RunStep::Done(lines)
            && string_views(lines@) == update_texts(update_views(plan.updates@)) + seq![Seq::<char>::empty(), dry_run_text()]),
        plan.updates@.len() > 0 && !cli.dry_run && cli.interactive ==> r is Review,
        plan.updates@.len() > 0 && !cli.dry_run && !cli.interactive ==> r is WriteAll,
{
    if plan.updates.len() == 0 {
        let mut lines: Vec<String> = Vec::new();
        lines.push(String::from_str("No updates."));
        assert(string_views(lines@) =~= seq![no_updates_text()]);
        return RunStep::Done(lines);
    }
    if cli.dry_run {
        let mut lines = update_lines(plan.updates.as_slice());
        let ghost head = string_views(lines@);
        lines.push(String::new());
        lines.push(String::from_str("Dry run. Cargo.toml was not modified."));
        assert(string_views(lines@) =~= head + seq![Seq::<char>::empty(), dry_run_text()]);
        return RunStep::Done(lines);
    }
    if cli.interactive {
        RunStep::Review
    } else {
        RunStep::WriteAll
    }
}

/// Decides what is done with the chosen updates: nothing when none was
/// chosen, else write them and report one line each.
pub fn step_after_choice(chosen: &[DependencyUpdate]) -> (r: WriteStep)
    ensures
        chosen@.len() == 0 ==> (r matches WriteStep::Nothing(lines) && string_views(lines@) == seq![nothing_chosen_text()]),
        chosen@.len() > 0 ==> (r matches WriteStep::Write(lines) && string_views(lines@) == update_texts(update_views(chosen@))),
{
    if chosen.len() == 0 {
        let mut lines: Vec<String> = Vec::new();
        lines.push(String::from_str("No updates selected."));
        assert(string_views(lines@) =~= seq![nothing_chosen_text()]);
        WriteStep::Nothing(lines)
    } else {
        WriteStep::Write(update_lines(chosen))
    }
}

} // verus!
