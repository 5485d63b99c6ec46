//! Reviewing the planned updates: grouped by table, offered as a checklist,
//! and mapped back from the items the user kept.

use vstd::prelude::*;
use crate::checklist::{
    Checklist, ChecklistGroup, ChecklistItem, ChecklistSelection, ChecklistView, GroupView, ItemView, KeyInput,
    checked_in_group, counts_fit, initial_groups, item_total, replayed_selection, selection_of,
};
use crate::dependency::{DependencySection, DependencyUpdate, UpdateView, section_rank, update_views};
use crate::impact::{classify_update_impact, impact_of};

verus! {

/// The updates of `us` that belong to `section`, in order.
pub open spec fn in_section(us: Seq<UpdateView>, section: DependencySection) -> Seq<UpdateView>
    decreases us.len(),
{
    if us.len() == 0 {
        seq![]
    } else {
        let rest = in_section(us.drop_last(), section);
        if us.last().section == section { rest.push(us.last()) } else { rest }
    }
}

/// The group of `section`, if it has any update.
pub open spec fn group_if_any(us: Seq<UpdateView>, section: DependencySection) -> Seq<(DependencySection, Seq<UpdateView>)> {
    if in_section(us, section).len() > 0 {
        seq![(section, in_section(us, section))]
    } else {
        seq![]
    }
}

/// The updates grouped by table: normal, development, build, each group
/// keeping the order of the updates and present only when not empty.
pub open spec fn grouped(us: Seq<UpdateView>) -> Seq<(DependencySection, Seq<UpdateView>)> {
    group_if_any(us, DependencySection::Dependencies)
        + group_if_any(us, DependencySection::DevDependencies)
        + group_if_any(us, DependencySection::BuildDependencies)
}

/// The plain views of grouped updates.
pub open spec fn grouped_views(g: Seq<(DependencySection, Vec<DependencyUpdate>)>) -> Seq<(DependencySection, Seq<UpdateView>)> {
    g.map_values(|p: (DependencySection, Vec<DependencyUpdate>)| (p.0, update_views(p.1@)))
}

/// The title shown for a table's group.
pub open spec fn section_title(s: DependencySection) -> Seq<char> {
    match s {
        DependencySection::Dependencies => "dependencies"@,
        DependencySection::DevDependencies => "devDependencies"@,
        DependencySection::BuildDependencies => "buildDependencies"@,
    }
}

/// The checklist item offered for an update.
pub open spec fn review_item(u: UpdateView) -> ItemView {
    ItemView {
        label: u.name,
        current: u.current_requirement,
        target: u.target_requirement,
        impact: impact_of(u.current_requirement, u.target_requirement),
        checked: true,
    }
}

/// The checklist groups offered for grouped updates, all expanded and checked.
pub open spec fn review_groups(g: Seq<(DependencySection, Seq<UpdateView>)>) -> Seq<GroupView> {
    g.map_values(|p: (DependencySection, Seq<UpdateView>)| GroupView {
        title: section_title(p.0),
        items: p.1.map_values(|u: UpdateView| review_item(u)),
        expanded: true,
    })
}

/// The updates that selections point at, in the order of the selections;
/// a selection that points nowhere is skipped.
pub open spec fn picked(g: Seq<(DependencySection, Seq<UpdateView>)>, sel: Seq<ChecklistSelection>) -> Seq<UpdateView>
    decreases sel.len(),
{
    if sel.len() == 0 {
        seq![]
    } else {
        let rest = picked(g, sel.drop_last());
        let s = sel.last();
        if s.group_index < g.len() && s.item_index < g[s.group_index as int].1.len() {
            rest.push(g[s.group_index as int].1[s.item_index as int])
        } else {
            rest
        }
    }
}

/// The title of the review list.
pub open spec fn review_title() -> Seq<char> {
    "Choose dependency upgrades"@
}

/// The updates of `updates` in `section`, in order.
fn updates_in_section(updates: &[DependencyUpdate], section: DependencySection) -> (r: Vec<DependencyUpdate>)
    ensures
        update_views(r@) == in_section(update_views(updates@), section),
{
    let ghost us = update_views(updates@);
    let mut r: Vec<DependencyUpdate> = Vec::new();
    let mut i: usize = 0;
    while i < updates.len()
        invariant
            i <= updates@.len(),
            us == update_views(updates@),
            update_views(r@) == in_section(us.take(i as int), section),
        decreases updates@.len() - i,
    {
        assert(us.take(i + 1).drop_last() =~= us.take(i as int));
        assert(us.take(i + 1).last() == updates@[i as int]@);
        if updates[i].section == section {
            let ghost before = r@;
            r.push(updates[i].clone());
            assert(update_views(r@) =~= update_views(before).push(updates@[i as int]@));
        }
        i = i + 1;
    }
    assert(us.take(updates@.len() as int) =~= us);
    r
}

/// Groups the updates by table, tables in the order normal, development,
/// build, and updates in the order they were given within each table.
pub fn group_updates_by_section(updates: &[DependencyUpdate]) -> (r: Vec<(DependencySection, Vec<DependencyUpdate>)>)
    ensures
        grouped_views(r@) == grouped(update_views(updates@)),
{
    let ghost us = update_views(updates@);
    let mut r: Vec<(DependencySection, Vec<DependencyUpdate>)> = Vec::new();
    let d = updates_in_section(updates, DependencySection::Dependencies);
    if d.len() > 0 {
        r.push((DependencySection::Dependencies, d));
    }
    let ghost r1 = r@;
    assert(grouped_views(r1) =~= group_if_any(us, DependencySection::Dependencies));
    let v = updates_in_section(updates, DependencySection::DevDependencies);
    if v.len() > 0 {
        r.push((DependencySection::DevDependencies, v));
    }
    let ghost r2 = r@;
    assert(grouped_views(r2) =~= group_if_any(us, DependencySection::Dependencies)
        + group_if_any(us, DependencySection::DevDependencies));
    let b = updates_in_section(updates, DependencySection::BuildDependencies);
    if b.len() > 0 {
        r.push((DependencySection::BuildDependencies, b));
    }
    assert(grouped_views(r@) =~= grouped(us));
    r
}

/// The checklist item for an update: name, requirements and impact.
pub fn build_update_checklist_item(update: &DependencyUpdate) -> (r: ChecklistItem)
    ensures
        r.label@ == update.name@,
        r.current@ == update.current_requirement@,
        r.target@ == update.target_requirement@,
        r.impact@ == impact_of(update.current_requirement@, update.target_requirement@),
{
    ChecklistItem {
        label: update.name.clone(),
        current: update.current_requirement.clone(),
        target: update.target_requirement.clone(),
        impact: String::from_str(classify_update_impact(update)),
    }
}

/// The checklist group for a table's updates.
pub fn build_update_checklist_group(section: DependencySection, updates: &[DependencyUpdate]) -> (r: ChecklistGroup)
    ensures
        initial_groups(seq![r]) == review_groups(seq![(section, update_views(updates@))]),
{
    let mut items: Vec<ChecklistItem> = Vec::new();
    let mut i: usize = 0;
    while i < updates.len()
        invariant
            i <= updates@.len(),
            items@.len() == i,
            forall|k: int| 0 <= k < i ==> #[trigger] items@[k].label@ == updates@[k].name@
                && items@[k].current@ == updates@[k].current_requirement@
                && items@[k].target@ == updates@[k].target_requirement@
                && items@[k].impact@ == impact_of(updates@[k].current_requirement@, updates@[k].target_requirement@),
        decreases updates@.len() - i,
    {
        items.push(build_update_checklist_item(&updates[i]));
        i = i + 1;
    }
    let r = ChecklistGroup { title: String::from_str(section.display_name()), items };
    assert(initial_groups(seq![r])[0].items =~= review_groups(seq![(section, update_views(updates@))])[0].items);
    assert(initial_groups(seq![r]) =~= review_groups(seq![(section, update_views(updates@))]));
    r
}

/// The checklist groups for grouped updates, in the same order.
pub fn build_update_checklist_groups(grouped_updates: &[(DependencySection, Vec<DependencyUpdate>)]) -> (r: Vec<ChecklistGroup>)
    ensures
        initial_groups(r@) == review_groups(grouped_views(grouped_updates@)),
{
    let mut r: Vec<ChecklistGroup> = Vec::new();
    let mut i: usize = 0;
    while i < grouped_updates.len()
        invariant
            i <= grouped_updates@.len(),
            r@.len() == i,
            forall|k: int| 0 <= k < i ==> #[trigger] initial_groups(r@)[k] == review_groups(grouped_views(grouped_updates@))[k],
        decreases grouped_updates@.len() - i,
    {
        let group = build_update_checklist_group(grouped_updates[i].0, grouped_updates[i].1.as_slice());
        let ghost before = r@;
        r.push(group);
        proof {
            assert(initial_groups(seq![group])[0] == initial_groups(r@)[i as int]);
            assert(review_groups(seq![(grouped_updates@[i as int].0, update_views(grouped_updates@[i as int].1@))])[0]
                == review_groups(grouped_views(grouped_updates@))[i as int]);
            assert forall|k: int| 0 <= k < i implies #[trigger] initial_groups(r@)[k] == review_groups(grouped_views(grouped_updates@))[k] by {
                assert(r@[k] == before[k]);
                assert(initial_groups(r@)[k] == initial_groups(before)[k]);
            }
        }
        i = i + 1;
    }
    assert(initial_groups(r@) =~= review_groups(grouped_views(grouped_updates@)));
    r
}

/// The updates that the selections point at, in the order of the selections.
pub fn selected_updates_from_selection(grouped_updates: &[(DependencySection, Vec<DependencyUpdate>)], selection: &[ChecklistSelection]) -> (r: Vec<DependencyUpdate>)
    ensures
        update_views(r@) == picked(grouped_views(grouped_updates@), selection@),
{
    let ghost g = grouped_views(grouped_updates@);
    let mut r: Vec<DependencyUpdate> = Vec::new();
    let mut i: usize = 0;
    while i < selection.len()
        invariant
            i <= selection@.len(),
            g == grouped_views(grouped_updates@),
            update_views(r@) == picked(g, selection@.take(i as int)),
        decreases selection@.len() - i,
    {
        let s = selection[i];
        assert(selection@.take(i + 1).drop_last() =~= selection@.take(i as int));
        assert(selection@.take(i + 1).last() == s);
        if s.group_index < grouped_updates.len() {
            let updates = &grouped_updates[s.group_index].1;
            assert(g[s.group_index as int].1 == update_views(updates@));
            if s.item_index < updates.len() {
                let ghost before = r@;
                r.push(updates[s.item_index].clone());
                assert(update_views(r@) =~= update_views(before).push(updates@[s.item_index as int]@));
            }
        }
        i = i + 1;
    }
    assert(selection@.take(selection@.len() as int) =~= selection@);
    r
}

proof fn lemma_in_section_partition(us: Seq<UpdateView>)
    ensures
        in_section(us, DependencySection::Dependencies).len() + in_section(us, DependencySection::DevDependencies).len()
            + in_section(us, DependencySection::BuildDependencies).len() == us.len(),
    decreases us.len(),
{
    if us.len() > 0 {
        lemma_in_section_partition(us.drop_last());
    }
}

/// Grouping keeps every update: the groups together hold as many updates
/// as were grouped, each group holds only updates of its own table, and the
/// tables come in the order normal, development, build.
pub proof fn grouping_keeps_every_update(us: Seq<UpdateView>)
    ensures
        grouped(us).len() <= 3,
        ({
            let g = grouped(us);
            &&& (if g.len() > 0 { g[0].1.len() } else { 0 }) + (if g.len() > 1 { g[1].1.len() } else { 0 })
                + (if g.len() > 2 { g[2].1.len() } else { 0 }) == us.len()
            &&& forall|k: int, j: int| 0 <= k < g.len() && 0 <= j < g[k].1.len() ==> (#[trigger] g[k].1[j]).section == g[k].0
            &&& forall|k: int, l: int| 0 <= k < l < g.len() ==> section_rank(#[trigger] g[k].0) < section_rank(#[trigger] g[l].0)
            &&& forall|k: int| 0 <= k < g.len() ==> (#[trigger] g[k].1).len() > 0
        }),
{
    lemma_in_section_partition(us);
    lemma_in_section_members(us, DependencySection::Dependencies);
    lemma_in_section_members(us, DependencySection::DevDependencies);
    lemma_in_section_members(us, DependencySection::BuildDependencies);
}

proof fn lemma_in_section_members(us: Seq<UpdateView>, section: DependencySection)
    ensures
        forall|j: int| 0 <= j < in_section(us, section).len() ==> (#[trigger] in_section(us, section)[j]).section == section,
    decreases us.len(),
{
    if us.len() > 0 {
        lemma_in_section_members(us.drop_last(), section);
    }
}

/// The review list for grouped updates, as a session starts it.
pub open spec fn review_start(us: Seq<UpdateView>) -> ChecklistView {
    ChecklistView { title: review_title(), groups: review_groups(grouped(us)), cursor: 0, scroll: 0 }
}

proof fn lemma_review_counts_fit(us: Seq<UpdateView>)
    requires
        us.len() + 3 <= usize::MAX,
    ensures
        counts_fit(review_groups(grouped(us))),
{
    grouping_keeps_every_update(us);
    let g = grouped(us);
    let rg = review_groups(g);
    assert(item_total(rg) == us.len()) by {
        reveal_with_fuel(item_total, 4);
        assert(rg.len() == g.len());
        if g.len() >= 1 {
            assert(rg[0].items.len() == g[0].1.len());
        }
        if g.len() >= 2 {
            assert(rg[1].items.len() == g[1].1.len());
        }
        if g.len() >= 3 {
            assert(rg[2].items.len() == g[2].1.len());
        }
        if g.len() == 1 {
            assert(rg.drop_last() =~= Seq::<GroupView>::empty());
        } else if g.len() == 2 {
            assert(rg.drop_last().drop_last() =~= Seq::<GroupView>::empty());
            assert(rg.drop_last().last() == rg[0]);
        } else if g.len() == 3 {
            assert(rg.drop_last().drop_last().drop_last() =~= Seq::<GroupView>::empty());
            assert(rg.drop_last().last() == rg[1]);
            assert(rg.drop_last().drop_last().last() == rg[0]);
        }
    }
}

/// Runs the review of `updates` on the keys the user pressed: the updates
/// are grouped by table and offered all checked; the result is the updates
/// still checked when Enter is pressed, table by table, or none when the
/// review is cancelled or the keys end before Enter.
pub fn select_updates_interactively(updates: &[DependencyUpdate], keys: &[KeyInput]) -> (r: Vec<DependencyUpdate>)
    requires
        updates@.len() + 3 <= usize::MAX,
    ensures
        update_views(r@) == picked(grouped(update_views(updates@)), replayed_selection(review_start(update_views(updates@)), keys@)),
{
    let grouped_updates = group_updates_by_section(updates);
    let groups = build_update_checklist_groups(grouped_updates.as_slice());
    let checklist = Checklist::new("Choose dependency upgrades", groups);
    proof {
        lemma_review_counts_fit(update_views(updates@));
    }
    let selection = checklist.run(keys);
    selected_updates_from_selection(grouped_updates.as_slice(), selection.as_slice())
}

/// The updates of grouped updates, group after group.
pub open spec fn flattened(g: Seq<(DependencySection, Seq<UpdateView>)>) -> Seq<UpdateView>
    decreases g.len(),
{
    if g.len() == 0 {
        seq![]
    } else {
        flattened(g.drop_last()) + g.last().1
    }
}

/// The selections of the first `m` items of group `gi`, in order.
pub open spec fn first_items(gi: int, m: nat) -> Seq<ChecklistSelection> {
    Seq::new(m, |j: int| ChecklistSelection { group_index: gi as usize, item_index: j as usize })
}

proof fn lemma_all_checked_selects_all(gi: int, items: Seq<ItemView>)
    requires
        forall|j: int| 0 <= j < items.len() ==> (#[trigger] items[j]).checked,
    ensures
        checked_in_group(gi, items) == first_items(gi, items.len()),
    decreases items.len(),
{
    if items.len() > 0 {
        let p = items.drop_last();
        assert forall|j: int| 0 <= j < p.len() implies (#[trigger] p[j]).checked by {
            assert(p[j] == items[j]);
        }
        lemma_all_checked_selects_all(gi, p);
        assert(items.last() == items[items.len() - 1]);
        assert(first_items(gi, p.len()).push(ChecklistSelection { group_index: gi as usize, item_index: (items.len() - 1) as usize })
            =~= first_items(gi, items.len()));
    }
}

proof fn lemma_picked_concat(g: Seq<(DependencySection, Seq<UpdateView>)>, a: Seq<ChecklistSelection>, b: Seq<ChecklistSelection>)
    ensures
        picked(g, a + b) == picked(g, a) + picked(g, b),
    decreases b.len(),
{
    if b.len() == 0 {
        assert(a + b =~= a);
        assert(picked(g, a) + picked(g, b) =~= picked(g, a));
    } else {
        lemma_picked_concat(g, a, b.drop_last());
        assert((a + b).drop_last() =~= a + b.drop_last());
        assert((a + b).last() == b.last());
        let s = b.last();
        if s.group_index < g.len() && s.item_index < g[s.group_index as int].1.len() {
            assert((picked(g, a) + picked(g, b.drop_last())).push(g[s.group_index as int].1[s.item_index as int])
                =~= picked(g, a) + picked(g, b.drop_last()).push(g[s.group_index as int].1[s.item_index as int]));
        }
    }
}

proof fn lemma_picked_first_items(g: Seq<(DependencySection, Seq<UpdateView>)>, gi: int, m: nat)
    requires
        0 <= gi < g.len(),
        gi <= usize::MAX,
        m <= g[gi].1.len(),
        m <= usize::MAX + 1,
    ensures
        picked(g, first_items(gi, m)) == g[gi].1.take(m as int),
    decreases m,
{
    if m > 0 {
        lemma_picked_first_items(g, gi, (m - 1) as nat);
        assert(first_items(gi, m).drop_last() =~= first_items(gi, (m - 1) as nat));
        assert(first_items(gi, m).last() == ChecklistSelection { group_index: gi as usize, item_index: (m - 1) as usize });
        assert(g[gi].1.take(m - 1).push(g[gi].1[m - 1]) =~= g[gi].1.take(m as int));
    } else {
        assert(g[gi].1.take(0) =~= Seq::<UpdateView>::empty());
    }
}

proof fn lemma_picked_ignores_last_group(g: Seq<(DependencySection, Seq<UpdateView>)>, sel: Seq<ChecklistSelection>)
    requires
        g.len() > 0,
        forall|k: int| 0 <= k < sel.len() ==> (#[trigger] sel[k]).group_index < g.len() - 1,
    ensures
        picked(g, sel) == picked(g.drop_last(), sel),
    decreases sel.len(),
{
    if sel.len() > 0 {
        let p = sel.drop_last();
        assert forall|k: int| 0 <= k < p.len() implies (#[trigger] p[k]).group_index < g.len() - 1 by {
            assert(p[k] == sel[k]);
        }
        lemma_picked_ignores_last_group(g, p);
        let s = sel.last();
        assert(s == sel[sel.len() - 1]);
        assert(g[s.group_index as int] == g.drop_last()[s.group_index as int]);
    }
}

/// With every item checked, the selection picks every update back, group
/// after group.
proof fn lemma_all_checked_picks_everything(g: Seq<(DependencySection, Seq<UpdateView>)>)
    requires
        g.len() <= usize::MAX,
        forall|k: int| 0 <= k < g.len() ==> (#[trigger] g[k]).1.len() <= usize::MAX,
    ensures
        picked(g, selection_of(review_groups(g))) == flattened(g),
        forall|k: int| 0 <= k < selection_of(review_groups(g)).len()
            ==> (#[trigger] selection_of(review_groups(g))[k]).group_index < g.len(),
    decreases g.len(),
{
    if g.len() > 0 {
        let n = g.len();
        let p = g.drop_last();
        assert forall|k: int| 0 <= k < p.len() implies (#[trigger] p[k]).1.len() <= usize::MAX by {
            assert(p[k] == g[k]);
        }
        lemma_all_checked_picks_everything(p);
        let rg = review_groups(g);
        assert(review_groups(p) =~= rg.drop_last());
        let items = rg.last().items;
        assert(rg.last() == rg[n - 1]);
        assert forall|j: int| 0 <= j < items.len() implies (#[trigger] items[j]).checked by {}
        lemma_all_checked_selects_all(n - 1, items);
        let a = selection_of(review_groups(p));
        let b = first_items(n - 1, items.len());
        assert(selection_of(rg) == a + b);
        lemma_picked_concat(g, a, b);
        lemma_picked_ignores_last_group(g, a);
        assert(g.last() == g[n - 1]);
        lemma_picked_first_items(g, n - 1, items.len());
        assert(g[n - 1].1.take(items.len() as int) =~= g.last().1);
        assert forall|k: int| 0 <= k < selection_of(rg).len() implies (#[trigger] selection_of(rg)[k]).group_index < g.len() by {
            if k < a.len() {
                assert(selection_of(rg)[k] == a[k]);
            } else {
                assert(selection_of(rg)[k] == b[k - a.len()]);
            }
        }
    }
}

/// Confirming the review at once writes every planned update: all start
/// checked, so Enter keeps them all, table by table in the order normal,
/// development, build, each table's updates in plan order.
pub proof fn confirming_at_once_keeps_every_update(us: Seq<UpdateView>)
    requires
        us.len() + 3 <= usize::MAX,
    ensures
        picked(grouped(us), replayed_selection(review_start(us), seq![KeyInput::Enter])) == flattened(grouped(us)),
        flattened(grouped(us)).len() == us.len(),
{
    grouping_keeps_every_update(us);
    let g = grouped(us);
    assert(replayed_selection(review_start(us), seq![KeyInput::Enter]) == selection_of(review_groups(g)));
    assert forall|k: int| 0 <= k < g.len() implies (#[trigger] g[k]).1.len() <= usize::MAX by {
        lemma_in_section_partition(us);
    }
    lemma_all_checked_picks_everything(g);
    assert(flattened(g).len() == us.len()) by {
        reveal_with_fuel(flattened, 4);
        if g.len() == 1 {
            assert(g.drop_last() =~= Seq::<(DependencySection, Seq<UpdateView>)>::empty());
        } else if g.len() == 2 {
            assert(g.drop_last().drop_last() =~= Seq::<(DependencySection, Seq<UpdateView>)>::empty());
            assert(g.drop_last().last() == g[0]);
        } else if g.len() == 3 {
            assert(g.drop_last().drop_last().drop_last() =~= Seq::<(DependencySection, Seq<UpdateView>)>::empty());
            assert(g.drop_last().last() == g[1]);
            assert(g.drop_last().drop_last().last() == g[0]);
        }
    }
}

} // verus!
