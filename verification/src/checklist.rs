//! The state of the interactive upgrade list: groups of items that can be
//! checked, folded and walked with a cursor, driven one key at a time.

use vstd::prelude::*;

verus! {

/// An item offered for review: a package, its requirement now and after, and
/// how large the change is.
#[derive(Debug)]
pub struct ChecklistItem {
    pub label: String,
    pub current: String,
    pub target: String,
    pub impact: String,
}

/// A titled group of items offered for review.
#[derive(Debug)]
pub struct ChecklistGroup {
    pub title: String,
    pub items: Vec<ChecklistItem>,
}

/// A chosen item, by the index of its group and its index in the group.
#[derive(Clone, Copy, Debug, PartialEq, Eq, Structural)]
pub struct ChecklistSelection {
    pub group_index: usize,
    pub item_index: usize,
}

/// An item of the list, with whether it is checked.
#[derive(Debug)]
pub struct Item {
    pub label: String,
    pub current: String,
    pub target: String,
    pub impact: String,
    pub checked: bool,
}

/// A group of the list, with whether its items are shown.
#[derive(Debug)]
pub struct Group {
    pub title: String,
    pub items: Vec<Item>,
    pub expanded: bool,
}

/// The whole list: its title, its groups, the cursor (an index into the
/// visible rows) and the first visible row.
#[derive(Debug)]
pub struct Checklist {
    pub title: String,
    pub groups: Vec<Group>,
    pub cursor: usize,
    pub scroll: usize,
}

/// A visible row: a group's header or one of its items.
#[derive(Clone, Copy, Debug, PartialEq, Eq, Structural)]
pub enum Row {
    Group(usize),
    Item { group: usize, item: usize },
}

/// How many of a group's items are checked.
#[derive(Clone, Copy, Debug, PartialEq, Eq, Structural)]
pub enum GroupCheckState {
    Unchecked,
    Partial,
    All,
}

/// An item as plain values.
pub struct ItemView {
    pub label: Seq<char>,
    pub current: Seq<char>,
    pub target: Seq<char>,
    pub impact: Seq<char>,
    pub checked: bool,
}

/// A group as plain values.
pub struct GroupView {
    pub title: Seq<char>,
    pub items: Seq<ItemView>,
    pub expanded: bool,
}

/// The list as plain values.
pub struct ChecklistView {
    pub title: Seq<char>,
    pub groups: Seq<GroupView>,
    pub cursor: usize,
    pub scroll: usize,
}

impl View for Item {
    type V = ItemView;

    open spec fn view(&self) -> ItemView {
        ItemView {
            label: self.label@,
            current: self.current@,
            target: self.target@,
            impact: self.impact@,
            checked: self.checked,
        }
    }
}

/// The plain views of a sequence of items.
pub open spec fn item_views(s: Seq<Item>) -> Seq<ItemView> {
    s.map_values(|i: Item| i@)
}

impl View for Group {
    type V = GroupView;

    open spec fn view(&self) -> GroupView {
        GroupView { title: self.title@, items: item_views(self.items@), expanded: self.expanded }
    }
}

/// The plain views of a sequence of groups.
pub open spec fn group_views(s: Seq<Group>) -> Seq<GroupView> {
    s.map_values(|g: Group| g@)
}

impl View for Checklist {
    type V = ChecklistView;

    open spec fn view(&self) -> ChecklistView {
        ChecklistView {
            title: self.title@,
            groups: group_views(self.groups@),
            cursor: self.cursor,
            scroll: self.scroll,
        }
    }
}

// ---------------------------------------------------------------------------
// The model: rows, counts and the effect of each operation on plain values.

/// The rows of one expanded group's items.
pub open spec fn item_rows(g: int, n: nat) -> Seq<Row> {
    Seq::new(n, |j: int| Row::Item { group: g as usize, item: j as usize })
}

/// The visible rows: each group's header, followed by its items when the
/// group is expanded.
pub open spec fn rows(gs: Seq<GroupView>) -> Seq<Row>
    decreases gs.len(),
{
    if gs.len() == 0 {
        seq![]
    } else {
        let k = gs.len() - 1;
        rows(gs.drop_last()).push(Row::Group(k as usize)) + if gs.last().expanded {
            item_rows(k, gs.last().items.len())
        } else {
            seq![]
        }
    }
}

/// The index of the last visible row (zero when there is none).
pub open spec fn last_row_index(gs: Seq<GroupView>) -> int {
    if rows(gs).len() == 0 {
        0
    } else {
        rows(gs).len() - 1
    }
}

/// The row under the cursor, if the cursor is on a row.
pub open spec fn current_row_of(v: ChecklistView) -> Option<Row> {
    if v.cursor < rows(v.groups).len() {
        Some(rows(v.groups)[v.cursor as int])
    } else {
        None
    }
}

/// The cursor stands on a visible row, or at zero when there is none.
pub open spec fn cursor_in_range(v: ChecklistView) -> bool {
    v.cursor <= last_row_index(v.groups)
}

/// The number of checked items.
pub open spec fn checked_count(items: Seq<ItemView>) -> nat
    decreases items.len(),
{
    if items.len() == 0 {
        0
    } else {
        checked_count(items.drop_last()) + if items.last().checked { 1nat } else { 0nat }
    }
}

/// The number of checked items in all groups.
pub open spec fn selected_total(gs: Seq<GroupView>) -> nat
    decreases gs.len(),
{
    if gs.len() == 0 {
        0
    } else {
        selected_total(gs.drop_last()) + checked_count(gs.last().items)
    }
}

/// The number of items in all groups.
pub open spec fn item_total(gs: Seq<GroupView>) -> nat
    decreases gs.len(),
{
    if gs.len() == 0 {
        0
    } else {
        item_total(gs.drop_last()) + gs.last().items.len()
    }
}

/// The list is small enough that its rows and items can be counted in a
/// `usize`.
pub open spec fn counts_fit(gs: Seq<GroupView>) -> bool {
    item_total(gs) + gs.len() <= usize::MAX
}

/// The check state of a group's items: none checked (or no items), all
/// checked, or some.
pub open spec fn check_state(items: Seq<ItemView>) -> GroupCheckState {
    if checked_count(items) == 0 {
        GroupCheckState::Unchecked
    } else if checked_count(items) == items.len() {
        GroupCheckState::All
    } else {
        GroupCheckState::Partial
    }
}

/// `it` with its check set to `checked`.
pub open spec fn item_with(it: ItemView, checked: bool) -> ItemView {
    ItemView { label: it.label, current: it.current, target: it.target, impact: it.impact, checked: checked }
}

/// `g` with the items `items`.
pub open spec fn group_with_items(g: GroupView, items: Seq<ItemView>) -> GroupView {
    GroupView { title: g.title, items: items, expanded: g.expanded }
}

/// `g` expanded or folded.
pub open spec fn group_with_expanded(g: GroupView, expanded: bool) -> GroupView {
    GroupView { title: g.title, items: g.items, expanded: expanded }
}

/// `v` with the groups `groups`.
pub open spec fn with_groups(v: ChecklistView, groups: Seq<GroupView>) -> ChecklistView {
    ChecklistView { title: v.title, groups: groups, cursor: v.cursor, scroll: v.scroll }
}

/// `v` with the cursor at `cursor`.
pub open spec fn with_cursor(v: ChecklistView, cursor: usize) -> ChecklistView {
    ChecklistView { title: v.title, groups: v.groups, cursor: cursor, scroll: v.scroll }
}

/// Every item checked (`true`) or unchecked.
pub open spec fn all_set(items: Seq<ItemView>, checked: bool) -> Seq<ItemView> {
    items.map_values(|it: ItemView| item_with(it, checked))
}

/// Every item's check flipped.
pub open spec fn all_flipped(items: Seq<ItemView>) -> Seq<ItemView> {
    items.map_values(|it: ItemView| item_with(it, !it.checked))
}

/// The cursor moved to at most the last visible row.
pub open spec fn clamped(v: ChecklistView) -> ChecklistView {
    with_cursor(v, if v.cursor <= last_row_index(v.groups) { v.cursor } else { last_row_index(v.groups) as usize })
}

/// The first index at or after `i` of a row equal to `target`, or the length
/// when there is none.
pub open spec fn first_row_from(rs: Seq<Row>, target: Row, i: int) -> int
    decreases rs.len() - i,
{
    if i >= rs.len() || rs[i] == target {
        i
    } else {
        first_row_from(rs, target, i + 1)
    }
}

/// Moving up one row.
pub open spec fn moved_up(v: ChecklistView) -> ChecklistView {
    with_cursor(v, if v.cursor > 0 { (v.cursor - 1) as usize } else { 0 })
}

/// Moving down one row, unless on the last.
pub open spec fn moved_down(v: ChecklistView) -> ChecklistView {
    with_cursor(v, if v.cursor < last_row_index(v.groups) { (v.cursor + 1) as usize } else { v.cursor })
}

/// Moving up ten rows, stopping at the first.
pub open spec fn moved_page_up(v: ChecklistView) -> ChecklistView {
    with_cursor(v, if v.cursor >= 10 { (v.cursor - 10) as usize } else { 0 })
}

/// Moving down ten rows, stopping at the last.
pub open spec fn moved_page_down(v: ChecklistView) -> ChecklistView {
    let ahead: int = if v.cursor + 10 <= usize::MAX { v.cursor + 10 } else { usize::MAX as int };
    with_cursor(v, if ahead <= last_row_index(v.groups) { ahead as usize } else { last_row_index(v.groups) as usize })
}

/// Folding the group under the cursor, or moving from an item to its group's
/// header.
pub open spec fn collapsed_or_parent(v: ChecklistView) -> ChecklistView {
    match current_row_of(v) {
        Some(Row::Group(g)) => clamped(with_groups(v, v.groups.update(g as int, group_with_expanded(v.groups[g as int], false)))),
        Some(Row::Item { group, item }) => with_cursor(v, first_row_from(rows(v.groups), Row::Group(group), 0) as usize),
        None => v,
    }
}

/// Unfolding the group under the cursor.
pub open spec fn expanded_current(v: ChecklistView) -> ChecklistView {
    match current_row_of(v) {
        Some(Row::Group(g)) => with_groups(v, v.groups.update(g as int, group_with_expanded(v.groups[g as int], true))),
        _ => v,
    }
}

/// Folding or unfolding the group under the cursor.
pub open spec fn toggled_expansion(v: ChecklistView) -> ChecklistView {
    match current_row_of(v) {
        Some(Row::Group(g)) => clamped(with_groups(v, v.groups.update(g as int, group_with_expanded(v.groups[g as int], !v.groups[g as int].expanded)))),
        _ => v,
    }
}

/// Toggling a group: all its items checked unless all already are, in which
/// case all unchecked.
pub open spec fn toggled_group(v: ChecklistView, g: int) -> ChecklistView {
    let items = v.groups[g].items;
    with_groups(v, v.groups.update(g, group_with_items(v.groups[g], all_set(items, check_state(items) != GroupCheckState::All))))
}

/// Flipping one item's check.
pub open spec fn toggled_item(v: ChecklistView, g: int, i: int) -> ChecklistView {
    let items = v.groups[g].items;
    with_groups(v, v.groups.update(g, group_with_items(v.groups[g], items.update(i, item_with(items[i], !items[i].checked)))))
}

/// Toggling the row under the cursor: its group or its item.
pub open spec fn toggled_current(v: ChecklistView) -> ChecklistView {
    match current_row_of(v) {
        Some(Row::Group(g)) => toggled_group(v, g as int),
        Some(Row::Item { group, item }) => toggled_item(v, group as int, item as int),
        None => v,
    }
}

/// Every item checked unless all are, in which case every item unchecked.
pub open spec fn toggled_all(v: ChecklistView) -> ChecklistView {
    let should = selected_total(v.groups) != item_total(v.groups);
    with_groups(v, v.groups.map_values(|g: GroupView| group_with_items(g, all_set(g.items, should))))
}

/// Every item's check flipped.
pub open spec fn inverted(v: ChecklistView) -> ChecklistView {
    with_groups(v, v.groups.map_values(|g: GroupView| group_with_items(g, all_flipped(g.items))))
}

/// The checked items of group `g`, in order.
pub open spec fn checked_in_group(g: int, items: Seq<ItemView>) -> Seq<ChecklistSelection>
    decreases items.len(),
{
    if items.len() == 0 {
        seq![]
    } else {
        let rest = checked_in_group(g, items.drop_last());
        if items.last().checked {
            rest.push(ChecklistSelection { group_index: g as usize, item_index: (items.len() - 1) as usize })
        } else {
            rest
        }
    }
}

/// The checked items of all groups, group by group, in order.
pub open spec fn selection_of(gs: Seq<GroupView>) -> Seq<ChecklistSelection>
    decreases gs.len(),
{
    if gs.len() == 0 {
        seq![]
    } else {
        selection_of(gs.drop_last()) + checked_in_group(gs.len() - 1, gs.last().items)
    }
}

// ---------------------------------------------------------------------------
// Lemmas on rows.

proof fn lemma_rows_prefix(gs: Seq<GroupView>, k: int)
    requires
        0 <= k <= gs.len(),
    ensures
        rows(gs.take(k)).len() <= rows(gs).len(),
        forall|j: int| 0 <= j < rows(gs.take(k)).len() ==> rows(gs)[j] == #[trigger] rows(gs.take(k))[j],
    decreases gs.len() - k,
{
    if k < gs.len() {
        assert(gs.drop_last().take(k) =~= gs.take(k));
        lemma_rows_prefix(gs.drop_last(), k);
    } else {
        assert(gs.take(k) =~= gs);
    }
}

proof fn lemma_item_total_bounds(gs: Seq<GroupView>)
    ensures
        forall|g: int| 0 <= g < gs.len() ==> #[trigger] gs[g].items.len() <= item_total(gs),
    decreases gs.len(),
{
    if gs.len() > 0 {
        lemma_item_total_bounds(gs.drop_last());
        assert forall|g: int| 0 <= g < gs.len() implies #[trigger] gs[g].items.len() <= item_total(gs) by {
            if g < gs.len() - 1 {
                assert(gs[g] == gs.drop_last()[g]);
            }
        }
    }
}

/// Every row names a group that exists and, for an item row, an item of it.
pub(crate) proof fn lemma_rows_valid(gs: Seq<GroupView>)
    requires
        counts_fit(gs),
    ensures
        forall|j: int| 0 <= j < rows(gs).len() ==> match #[trigger] rows(gs)[j] {
            Row::Group(g) => g < gs.len(),
            Row::Item { group, item } => group < gs.len() && item < gs[group as int].items.len(),
        },
    decreases gs.len(),
{
    if gs.len() > 0 {
        let p = gs.drop_last();
        lemma_item_total_bounds(gs);
        assert(item_total(p) <= item_total(gs));
        lemma_rows_valid(p);
        let k = gs.len() - 1;
        assert(gs.last().items.len() <= item_total(gs));
        let head = rows(p).push(Row::Group(k as usize));
        assert forall|j: int| 0 <= j < rows(gs).len() implies match #[trigger] rows(gs)[j] {
            Row::Group(g) => g < gs.len(),
            Row::Item { group, item } => group < gs.len() && item < gs[group as int].items.len(),
        } by {
            if j < rows(p).len() {
                assert(rows(gs)[j] == rows(p)[j]);
                match rows(p)[j] {
                    Row::Group(g) => {},
                    Row::Item { group, item } => {
                        assert(gs[group as int] == p[group as int]);
                    },
                }
            } else if j == rows(p).len() {
                assert(rows(gs)[j] == Row::Group(k as usize));
            } else {
                assert(rows(gs)[j] == item_rows(k, gs.last().items.len())[j - head.len()]);
            }
        }
    }
}

/// The header row of group `g` stands before every row of its items.
proof fn lemma_item_row_has_header(gs: Seq<GroupView>, j: int)
    requires
        0 <= j < rows(gs).len(),
        rows(gs)[j] is Item,
    ensures
        first_row_from(rows(gs), Row::Group(rows(gs)[j]->group), 0) < j,
    decreases gs.len(),
{
    let g = rows(gs)[j]->group;
    let p = gs.drop_last();
    let k = gs.len() - 1;
    let head = rows(p).push(Row::Group(k as usize));
    if j < rows(p).len() {
        assert(rows(gs)[j] == rows(p)[j]);
        lemma_item_row_has_header(p, j);
        lemma_first_row_prefix(rows(p), rows(gs), Row::Group(g), 0);
    } else {
        assert(rows(gs)[j] == item_rows(k, gs.last().items.len())[j - head.len()]);
        assert(rows(gs)[rows(p).len() as int] == Row::Group(k as usize));
        lemma_first_row_found(rows(gs), Row::Group(g), 0, rows(p).len() as int);
    }
}

proof fn lemma_first_row_at_least(rs: Seq<Row>, target: Row, i: int)
    ensures
        first_row_from(rs, target, i) >= i,
    decreases rs.len() - i,
{
    if !(i >= rs.len() || rs[i] == target) {
        lemma_first_row_at_least(rs, target, i + 1);
    }
}

proof fn lemma_first_row_found(rs: Seq<Row>, target: Row, i: int, at: int)
    requires
        0 <= i <= at < rs.len(),
        rs[at] == target,
    ensures
        i <= first_row_from(rs, target, i) <= at,
        rs[first_row_from(rs, target, i)] == target,
    decreases at - i,
{
    if rs[i] != target {
        lemma_first_row_found(rs, target, i + 1, at);
    }
}

proof fn lemma_first_row_prefix(short: Seq<Row>, long: Seq<Row>, target: Row, i: int)
    requires
        0 <= i,
        short.len() <= long.len(),
        forall|j: int| 0 <= j < short.len() ==> long[j] == #[trigger] short[j],
        first_row_from(short, target, i) < short.len(),
    ensures
        first_row_from(long, target, i) == first_row_from(short, target, i),
    decreases short.len() - i,
{
    if i < short.len() && short[i] != target {
        lemma_first_row_prefix(short, long, target, i + 1);
    }
}

/// Two group lists with the same folds and the same number of items per group.
pub open spec fn same_shape(a: Seq<GroupView>, b: Seq<GroupView>) -> bool {
    &&& a.len() == b.len()
    &&& forall|g: int| 0 <= g < a.len() ==> (#[trigger] a[g]).expanded == b[g].expanded && a[g].items.len() == b[g].items.len()
}

proof fn lemma_rows_same_shape(a: Seq<GroupView>, b: Seq<GroupView>)
    requires
        same_shape(a, b),
    ensures
        rows(a) == rows(b),
    decreases a.len(),
{
    if a.len() > 0 {
        assert(same_shape(a.drop_last(), b.drop_last())) by {
            assert forall|g: int| 0 <= g < a.drop_last().len() implies (#[trigger] a.drop_last()[g]).expanded == b.drop_last()[g].expanded
                && a.drop_last()[g].items.len() == b.drop_last()[g].items.len() by {
                assert(a.drop_last()[g] == a[g]);
                assert(b.drop_last()[g] == b[g]);
            }
        }
        lemma_rows_same_shape(a.drop_last(), b.drop_last());
        assert(a.last() == a[a.len() - 1]);
        assert(b.last() == b[b.len() - 1]);
    }
}

proof fn lemma_checked_count_bound(items: Seq<ItemView>)
    ensures
        checked_count(items) <= items.len(),
    decreases items.len(),
{
    if items.len() > 0 {
        lemma_checked_count_bound(items.drop_last());
    }
}

proof fn lemma_selected_total_bound(gs: Seq<GroupView>)
    ensures
        selected_total(gs) <= item_total(gs),
    decreases gs.len(),
{
    if gs.len() > 0 {
        lemma_selected_total_bound(gs.drop_last());
        lemma_checked_count_bound(gs.last().items);
    }
}

/// Unfolding a group never hides a row that was visible.
proof fn lemma_rows_grow_when_expanded(gs: Seq<GroupView>, g: int)
    requires
        0 <= g < gs.len(),
    ensures
        rows(gs).len() <= rows(gs.update(g, group_with_expanded(gs[g], true))).len(),
    decreases gs.len(),
{
    let hs = gs.update(g, group_with_expanded(gs[g], true));
    if g < gs.len() - 1 {
        assert(hs.drop_last() =~= gs.drop_last().update(g, group_with_expanded(gs.drop_last()[g], true)));
        lemma_rows_grow_when_expanded(gs.drop_last(), g);
        assert(hs.last() == gs.last());
    } else {
        assert(hs.drop_last() =~= gs.drop_last());
    }
}


/// The group list a new checklist starts from: every group expanded, every
/// item checked.
pub open spec fn initial_groups(groups: Seq<ChecklistGroup>) -> Seq<GroupView> {
    groups.map_values(|g: ChecklistGroup| GroupView {
        title: g.title@,
        items: g.items@.map_values(|it: ChecklistItem| ItemView {
            label: it.label@,
            current: it.current@,
            target: it.target@,
            impact: it.impact@,
            checked: true,
        }),
        expanded: true,
    })
}

/// The action a key stands for.
#[derive(Clone, Copy, Debug, PartialEq, Eq, Structural)]
pub enum KeyAction {
    Cancel,
    Confirm,
    MoveUp,
    MoveDown,
    PageUp,
    PageDown,
    Home,
    End,
    CollapseOrParent,
    Expand,
    ToggleRow,
    ToggleAll,
    Invert,
    ToggleExpansion,
    Ignore,
}

/// A key press as the list reads it.
#[derive(Clone, Copy, Debug, PartialEq, Eq, Structural)]
pub enum KeyInput {
    /// A character key; `control` tells whether Ctrl was held.
    Char { c: char, control: bool },
    Up,
    Down,
    Left,
    Right,
    PageUp,
    PageDown,
    Home,
    End,
    Enter,
    Esc,
    Other,
}

/// What a key does: Ctrl-C, `q` and Esc cancel, Enter confirms, arrows and
/// `k`/`j`/`h`/`l` move and fold, Space toggles, `a` toggles all, `i`
/// inverts, `e` folds or unfolds; other keys are ignored.
pub open spec fn key_action(key: KeyInput) -> KeyAction {
    match key {
        KeyInput::Char { c, control } => {
            if c == 'c' && control {
                KeyAction::Cancel
            } else if c == 'q' {
                KeyAction::Cancel
            } else if c == 'k' {
                KeyAction::MoveUp
            } else if c == 'j' {
                KeyAction::MoveDown
            } else if c == 'h' {
                KeyAction::CollapseOrParent
            } else if c == 'l' {
                KeyAction::Expand
            } else if c == ' ' {
                KeyAction::ToggleRow
            } else if c == 'a' {
                KeyAction::ToggleAll
            } else if c == 'i' {
                KeyAction::Invert
            } else if c == 'e' {
                KeyAction::ToggleExpansion
            } else {
                KeyAction::Ignore
            }
        },
        KeyInput::Esc => KeyAction::Cancel,
        KeyInput::Up => KeyAction::MoveUp,
        KeyInput::Down => KeyAction::MoveDown,
        KeyInput::PageUp => KeyAction::PageUp,
        KeyInput::PageDown => KeyAction::PageDown,
        KeyInput::Home => KeyAction::Home,
        KeyInput::End => KeyAction::End,
        KeyInput::Left => KeyAction::CollapseOrParent,
        KeyInput::Right => KeyAction::Expand,
        KeyInput::Enter => KeyAction::Confirm,
        KeyInput::Other => KeyAction::Ignore,
    }
}

/// The list after an action (the list is unchanged by cancelling, confirming
/// and ignored keys).
pub open spec fn applied(v: ChecklistView, action: KeyAction) -> ChecklistView {
    match action {
        KeyAction::MoveUp => moved_up(v),
        KeyAction::MoveDown => moved_down(v),
        KeyAction::PageUp => moved_page_up(v),
        KeyAction::PageDown => moved_page_down(v),
        KeyAction::Home => with_cursor(v, 0),
        KeyAction::End => with_cursor(v, last_row_index(v.groups) as usize),
        KeyAction::CollapseOrParent => collapsed_or_parent(v),
        KeyAction::Expand => expanded_current(v),
        KeyAction::ToggleRow => toggled_current(v),
        KeyAction::ToggleAll => toggled_all(v),
        KeyAction::Invert => inverted(v),
        KeyAction::ToggleExpansion => toggled_expansion(v),
        _ => v,
    }
}

/// The items chosen in a session fed `keys`: the checked items at the first
/// Enter; none when the session is cancelled or the keys run out first.
pub open spec fn replayed_selection(v: ChecklistView, keys: Seq<KeyInput>) -> Seq<ChecklistSelection>
    decreases keys.len(),
{
    if keys.len() == 0 {
        seq![]
    } else {
        let action = key_action(keys[0]);
        if action == KeyAction::Cancel {
            seq![]
        } else if action == KeyAction::Confirm {
            selection_of(v.groups)
        } else {
            replayed_selection(applied(v, action), keys.drop_first())
        }
    }
}

/// The action `key` stands for (see [`key_action`]).
pub fn action_for_key(key: KeyInput) -> (r: KeyAction)
    ensures
        r == key_action(key),
{
    match key {
        KeyInput::Char { c, control } => {
            if c == 'c' && control {
                KeyAction::Cancel
            } else if c == 'q' {
                KeyAction::Cancel
            } else if c == 'k' {
                KeyAction::MoveUp
            } else if c == 'j' {
                KeyAction::MoveDown
            } else if c == 'h' {
                KeyAction::CollapseOrParent
            } else if c == 'l' {
                KeyAction::Expand
            } else if c == ' ' {
                KeyAction::ToggleRow
            } else if c == 'a' {
                KeyAction::ToggleAll
            } else if c == 'i' {
                KeyAction::Invert
            } else if c == 'e' {
                KeyAction::ToggleExpansion
            } else {
                KeyAction::Ignore
            }
        },
        KeyInput::Esc => KeyAction::Cancel,
        KeyInput::Up => KeyAction::MoveUp,
        KeyInput::Down => KeyAction::MoveDown,
        KeyInput::PageUp => KeyAction::PageUp,
        KeyInput::PageDown => KeyAction::PageDown,
        KeyInput::Home => KeyAction::Home,
        KeyInput::End => KeyAction::End,
        KeyInput::Left => KeyAction::CollapseOrParent,
        KeyInput::Right => KeyAction::Expand,
        KeyInput::Enter => KeyAction::Confirm,
        KeyInput::Other => KeyAction::Ignore,
    }
}

/// The check state of a group's items.
pub fn group_check_state(items: &[Item]) -> (r: GroupCheckState)
    ensures
        r == check_state(item_views(items@)),
{
    let ghost iv = item_views(items@);
    let mut checked: usize = 0;
    let mut i: usize = 0;
    while i < items.len()
        invariant
            i <= items@.len(),
            iv == item_views(items@),
            checked as nat == checked_count(iv.take(i as int)),
            checked <= i,
        decreases items@.len() - i,
    {
        assert(iv.take(i + 1).drop_last() =~= iv.take(i as int));
        if items[i].checked {
            checked = checked + 1;
        }
        i = i + 1;
    }
    assert(iv.take(items@.len() as int) =~= iv);
    if checked == 0 {
        GroupCheckState::Unchecked
    } else if checked == items.len() {
        GroupCheckState::All
    } else {
        GroupCheckState::Partial
    }
}

/// Sets every item's check to `value`.
fn set_all_checked(items: &mut Vec<Item>, value: bool)
    ensures
        item_views(final(items)@) == all_set(item_views(old(items)@), value),
{
    let ghost start = item_views(items@);
    let mut i: usize = 0;
    while i < items.len()
        invariant
            i <= items@.len(),
            items@.len() == start.len(),
            forall|k: int| 0 <= k < i ==> #[trigger] item_views(items@)[k] == item_with(start[k], value),
            forall|k: int| i <= k < items@.len() ==> #[trigger] item_views(items@)[k] == start[k],
        decreases items@.len() - i,
    {
        let ghost before = items@;
        assert(item_views(before)[i as int] == start[i as int]);
        items[i].checked = value;
        assert(items@[i as int].label == before[i as int].label);
        assert(items@[i as int].checked == value);
        assert forall|k: int| 0 <= k < items@.len() && k != i implies #[trigger] item_views(items@)[k] == item_views(before)[k] by {
            assert(items@[k] == before[k]);
        }
        assert(item_views(items@)[i as int] == item_with(start[i as int], value));
        i = i + 1;
    }
    assert(item_views(items@) =~= all_set(start, value));
}

/// Flips every item's check.
fn flip_all_checked(items: &mut Vec<Item>)
    ensures
        item_views(final(items)@) == all_flipped(item_views(old(items)@)),
{
    let ghost start = item_views(items@);
    let mut i: usize = 0;
    while i < items.len()
        invariant
            i <= items@.len(),
            items@.len() == start.len(),
            forall|k: int| 0 <= k < i ==> #[trigger] item_views(items@)[k] == item_with(start[k], !start[k].checked),
            forall|k: int| i <= k < items@.len() ==> #[trigger] item_views(items@)[k] == start[k],
        decreases items@.len() - i,
    {
        let flipped = !items[i].checked;
        let ghost before = items@;
        assert(item_views(before)[i as int] == start[i as int]);
        items[i].checked = flipped;
        assert(items@[i as int].label == before[i as int].label);
        assert(items@[i as int].checked == flipped);
        assert forall|k: int| 0 <= k < items@.len() && k != i implies #[trigger] item_views(items@)[k] == item_views(before)[k] by {
            assert(items@[k] == before[k]);
        }
        assert(item_views(items@)[i as int] == item_with(start[i as int], !start[i as int].checked));
        i = i + 1;
    }
    assert(item_views(items@) =~= all_flipped(start));
}

/// Two group lists with the same number of groups and of items per group.
pub open spec fn same_shape_but_folds(a: Seq<GroupView>, b: Seq<GroupView>) -> bool {
    &&& a.len() == b.len()
    &&& forall|g: int| 0 <= g < a.len() ==> (#[trigger] a[g]).items.len() == b[g].items.len()
}

/// `a + b`, or `usize::MAX` where that overflows.
pub open spec fn saturating_sum(a: usize, b: usize) -> usize {
    if a + b <= usize::MAX { (a + b) as usize } else { usize::MAX }
}

/// The first row shown after scrolling so that the cursor's row is among the
/// `visible` rows shown.
pub open spec fn scrolled(cursor: usize, scroll: usize, visible: usize) -> usize {
    if visible == 0 {
        cursor
    } else {
        let up = if cursor < scroll { cursor } else { scroll };
        if cursor >= saturating_sum(up, visible) {
            if cursor >= visible - 1 { (cursor - (visible - 1)) as usize } else { 0 }
        } else {
            up
        }
    }
}

proof fn lemma_item_total_prefix(gs: Seq<GroupView>, k: int)
    requires
        0 <= k <= gs.len(),
    ensures
        item_total(gs.take(k)) <= item_total(gs),
        selected_total(gs.take(k)) <= item_total(gs.take(k)),
    decreases gs.len() - k,
{
    lemma_selected_total_bound(gs.take(k));
    if k < gs.len() {
        assert(gs.drop_last().take(k) =~= gs.take(k));
        lemma_item_total_prefix(gs.drop_last(), k);
    } else {
        assert(gs.take(k) =~= gs);
    }
}

proof fn lemma_item_total_shape(a: Seq<GroupView>, b: Seq<GroupView>)
    requires
        same_shape_but_folds(a, b),
    ensures
        item_total(a) == item_total(b),
    decreases a.len(),
{
    if a.len() > 0 {
        assert(same_shape_but_folds(a.drop_last(), b.drop_last())) by {
            assert forall|g: int| 0 <= g < a.drop_last().len() implies (#[trigger] a.drop_last()[g]).items.len() == b.drop_last()[g].items.len() by {
                assert(a.drop_last()[g] == a[g]);
                assert(b.drop_last()[g] == b[g]);
            }
        }
        lemma_item_total_shape(a.drop_last(), b.drop_last());
        assert(a.last() == a[a.len() - 1]);
        assert(b.last() == b[b.len() - 1]);
    }
}

/// Actions fold, check and move, but never add or remove groups or items.
proof fn lemma_counts_fit_shape(a: Seq<GroupView>, b: Seq<GroupView>)
    requires
        same_shape_but_folds(a, b),
        counts_fit(a),
    ensures
        counts_fit(b),
{
    lemma_item_total_shape(a, b);
}

proof fn lemma_same_shape_keeps_last(a: Seq<GroupView>, b: Seq<GroupView>)
    requires
        same_shape(a, b),
    ensures
        last_row_index(a) == last_row_index(b),
{
    lemma_rows_same_shape(a, b);
}

/// Every action keeps the cursor on a visible row, and keeps the number of
/// groups and of items per group.
proof fn lemma_apply_keeps(v: ChecklistView, action: KeyAction)
    requires
        counts_fit(v.groups),
    ensures
        cursor_in_range(v) ==> cursor_in_range(applied(v, action)),
        same_shape_but_folds(v.groups, applied(v, action).groups),
{
    let gs = v.groups;
    let w = applied(v, action);
    lemma_rows_valid(gs);
    match action {
        KeyAction::CollapseOrParent => {
            match current_row_of(v) {
                Some(Row::Group(g)) => {
                    assert(same_shape_but_folds(gs, w.groups)) by {
                        assert forall|k: int| 0 <= k < gs.len() implies (#[trigger] gs[k]).items.len() == w.groups[k].items.len() by {
                            if k != g { assert(w.groups[k] == gs[k]); }
                        }
                    }
                },
                Some(Row::Item { group, item }) => {
                    lemma_item_row_has_header(gs, v.cursor as int);
                    lemma_first_row_at_least(rows(gs), Row::Group(group), 0);
                },
                None => {},
            }
        },
        KeyAction::Expand => {
            match current_row_of(v) {
                Some(Row::Group(g)) => {
                    lemma_rows_grow_when_expanded(gs, g as int);
                    assert(same_shape_but_folds(gs, w.groups)) by {
                        assert forall|k: int| 0 <= k < gs.len() implies (#[trigger] gs[k]).items.len() == w.groups[k].items.len() by {
                            if k != g { assert(w.groups[k] == gs[k]); }
                        }
                    }
                },
                _ => {},
            }
        },
        KeyAction::ToggleExpansion => {
            match current_row_of(v) {
                Some(Row::Group(g)) => {
                    assert(same_shape_but_folds(gs, w.groups)) by {
                        assert forall|k: int| 0 <= k < gs.len() implies (#[trigger] gs[k]).items.len() == w.groups[k].items.len() by {
                            if k != g { assert(w.groups[k] == gs[k]); }
                        }
                    }
                },
                _ => {},
            }
        },
        KeyAction::ToggleRow => {
            assert(same_shape(gs, w.groups)) by {
                assert forall|k: int| 0 <= k < gs.len() implies (#[trigger] gs[k]).expanded == w.groups[k].expanded
                    && gs[k].items.len() == w.groups[k].items.len() by {
                    match current_row_of(v) {
                        Some(Row::Group(g)) => {
                            if k != g { assert(w.groups[k] == gs[k]); }
                        },
                        Some(Row::Item { group, item }) => {
                            if k != group { assert(w.groups[k] == gs[k]); }
                        },
                        None => {},
                    }
                }
            }
            lemma_same_shape_keeps_last(gs, w.groups);
        },
        KeyAction::ToggleAll => {
            assert(same_shape(gs, w.groups));
            lemma_same_shape_keeps_last(gs, w.groups);
        },
        KeyAction::Invert => {
            assert(same_shape(gs, w.groups));
            lemma_same_shape_keeps_last(gs, w.groups);
        },
        _ => {},
    }
}

/// The number of checked items of a group.
pub(crate) fn group_checked_count(group: &Group) -> (r: usize)
    ensures
        r == checked_count(group@.items),
{
    let ghost iv = group@.items;
    let mut checked: usize = 0;
    let mut i: usize = 0;
    while i < group.items.len()
        invariant
            i <= group.items@.len(),
            iv == item_views(group.items@),
            checked as nat == checked_count(iv.take(i as int)),
            checked <= i,
        decreases group.items@.len() - i,
    {
        assert(iv.take(i + 1).drop_last() =~= iv.take(i as int));
        if group.items[i].checked {
            checked = checked + 1;
        }
        i = i + 1;
    }
    assert(iv.take(group.items@.len() as int) =~= iv);
    checked
}

impl Checklist {
    /// A list titled `title` over `groups`, every group expanded and every
    /// item checked, the cursor on the first row.
    pub fn new(title: &str, groups: Vec<ChecklistGroup>) -> (r: Checklist)
        ensures
            r@ == (ChecklistView { title: title@, groups: initial_groups(groups@), cursor: 0, scroll: 0 }),
    {
        let mut out: Vec<Group> = Vec::new();
        let mut g: usize = 0;
        while g < groups.len()
            invariant
                g <= groups@.len(),
                group_views(out@) == initial_groups(groups@).take(g as int),
            decreases groups@.len() - g,
        {
            let source = &groups[g];
            let ghost expected = initial_groups(groups@)[g as int].items;
            assert(expected.len() == source.items@.len());
            let mut items: Vec<Item> = Vec::new();
            let mut i: usize = 0;
            while i < source.items.len()
                invariant
                    i <= source.items@.len(),
                    expected.len() == source.items@.len(),
                    forall|k: int| 0 <= k < expected.len() ==> #[trigger] expected[k] == (ItemView {
                        label: source.items@[k].label@,
                        current: source.items@[k].current@,
                        target: source.items@[k].target@,
                        impact: source.items@[k].impact@,
                        checked: true,
                    }),
                    item_views(items@) == expected.take(i as int),
                decreases source.items@.len() - i,
            {
                let it = &source.items[i];
                let ghost before = items@;
                items.push(Item {
                    label: it.label.clone(),
                    current: it.current.clone(),
                    target: it.target.clone(),
                    impact: it.impact.clone(),
                    checked: true,
                });
                assert(item_views(items@) =~= item_views(before).push(items@.last()@));
                assert(item_views(items@) =~= expected.take(i + 1));
                i = i + 1;
            }
            assert(expected.take(i as int) =~= expected);
            let ghost before = out@;
            out.push(Group { title: source.title.clone(), items, expanded: true });
            assert(group_views(out@) =~= group_views(before).push(out@.last()@));
            assert(group_views(out@) =~= initial_groups(groups@).take(g + 1));
            g = g + 1;
        }
        assert(initial_groups(groups@).take(g as int) =~= initial_groups(groups@));
        Checklist { title: String::from_str(title), groups: out, cursor: 0, scroll: 0 }
    }

    /// The visible rows, in order.
    pub fn visible_rows(&self) -> (r: Vec<Row>)
        ensures
            r@ == rows(self@.groups),
    {
        let ghost gs = self@.groups;
        let mut r: Vec<Row> = Vec::new();
        let mut g: usize = 0;
        while g < self.groups.len()
            invariant
                g <= self.groups@.len(),
                gs == self@.groups,
                r@ == rows(gs.take(g as int)),
            decreases self.groups@.len() - g,
        {
            let group = &self.groups[g];
            assert(gs.take(g + 1).drop_last() =~= gs.take(g as int));
            assert(gs.take(g + 1).last() == gs[g as int]);
            r.push(Row::Group(g));
            let ghost head = r@;
            if group.expanded {
                let mut i: usize = 0;
                while i < group.items.len()
                    invariant
                        i <= group.items@.len(),
                        group == &self.groups@[g as int],
                        r@ == head + item_rows(g as int, i as nat),
                    decreases group.items@.len() - i,
                {
                    r.push(Row::Item { group: g, item: i });
                    i = i + 1;
                    assert(r@ =~= head + item_rows(g as int, i as nat));
                }
                assert(gs[g as int].items.len() == group.items@.len());
                assert(r@ =~= rows(gs.take(g + 1)));
            } else {
                assert(r@ =~= rows(gs.take(g + 1)));
            }
            g = g + 1;
        }
        assert(gs.take(g as int) =~= gs);
        r
    }

    /// The index of the last visible row (zero when there is none).
    pub fn last_visible_row_index(&self) -> (r: usize)
        ensures
            r == last_row_index(self@.groups),
    {
        let n = self.visible_rows().len();
        if n > 0 { n - 1 } else { 0 }
    }

    /// The row under the cursor, if any.
    pub fn current_row(&self) -> (r: Option<Row>)
        ensures
            r == current_row_of(self@),
    {
        let rs = self.visible_rows();
        if self.cursor < rs.len() {
            Some(rs[self.cursor])
        } else {
            None
        }
    }

    /// The number of checked items.
    pub fn selected_items(&self) -> (r: usize)
        requires
            counts_fit(self@.groups),
        ensures
            r == selected_total(self@.groups),
    {
        let ghost gs = self@.groups;
        let mut total: usize = 0;
        let mut g: usize = 0;
        while g < self.groups.len()
            invariant
                g <= gs.len(),
                gs == self@.groups,
                counts_fit(gs),
                total as nat == selected_total(gs.take(g as int)),
            decreases gs.len() - g,
        {
            assert(gs.take(g + 1).drop_last() =~= gs.take(g as int));
            proof {
                lemma_selected_total_bound(gs.take(g + 1));
                lemma_item_total_prefix(gs, g + 1);
            }
            let n = group_checked_count(&self.groups[g]);
            total = total + n;
            g = g + 1;
        }
        assert(gs.take(gs.len() as int) =~= gs);
        total
    }

    /// The number of items.
    pub fn total_items(&self) -> (r: usize)
        requires
            counts_fit(self@.groups),
        ensures
            r == item_total(self@.groups),
    {
        let ghost gs = self@.groups;
        let mut total: usize = 0;
        let mut g: usize = 0;
        while g < self.groups.len()
            invariant
                g <= gs.len(),
                gs == self@.groups,
                counts_fit(gs),
                total as nat == item_total(gs.take(g as int)),
            decreases gs.len() - g,
        {
            assert(gs.take(g + 1).drop_last() =~= gs.take(g as int));
            proof {
                lemma_item_total_prefix(gs, g + 1);
            }
            total = total + self.groups[g].items.len();
            g = g + 1;
        }
        assert(gs.take(gs.len() as int) =~= gs);
        total
    }

    pub fn move_up(&mut self)
        ensures
            final(self)@ == moved_up(old(self)@),
    {
        self.cursor = if self.cursor > 0 { self.cursor - 1 } else { 0 };
    }

    pub fn move_down(&mut self)
        ensures
            final(self)@ == moved_down(old(self)@),
    {
        if self.cursor < self.last_visible_row_index() {
            self.cursor = self.cursor + 1;
        }
    }

    pub fn move_page_up(&mut self)
        ensures
            final(self)@ == moved_page_up(old(self)@),
    {
        self.cursor = if self.cursor >= 10 { self.cursor - 10 } else { 0 };
    }

    pub fn move_page_down(&mut self)
        ensures
            final(self)@ == moved_page_down(old(self)@),
    {
        let ahead = self.cursor.saturating_add(10);
        let last = self.last_visible_row_index();
        self.cursor = if ahead <= last { ahead } else { last };
    }

    pub fn move_home(&mut self)
        ensures
            final(self)@ == with_cursor(old(self)@, 0),
    {
        self.cursor = 0;
    }

    pub fn move_end(&mut self)
        ensures
            final(self)@ == with_cursor(old(self)@, last_row_index(old(self)@.groups) as usize),
    {
        self.cursor = self.last_visible_row_index();
    }

    /// Moves the cursor back onto the last visible row if it is past it.
    pub fn clamp_cursor(&mut self)
        ensures
            final(self)@ == clamped(old(self)@),
    {
        let last = self.last_visible_row_index();
        if self.cursor > last {
            self.cursor = last;
        }
    }

    fn set_expanded(&mut self, g: usize, value: bool)
        requires
            g < old(self)@.groups.len(),
        ensures
            final(self)@ == with_groups(old(self)@, old(self)@.groups.update(g as int, group_with_expanded(old(self)@.groups[g as int], value))),
    {
        self.groups[g].expanded = value;
        assert(self@.groups =~= old(self)@.groups.update(g as int, group_with_expanded(old(self)@.groups[g as int], value)));
    }

    /// Folds the group under the cursor, or moves from an item to its group.
    pub fn collapse_or_parent(&mut self)
        requires
            counts_fit(old(self)@.groups),
        ensures
            final(self)@ == collapsed_or_parent(old(self)@),
    {
        proof {
            lemma_rows_valid(self@.groups);
        }
        match self.current_row() {
            Some(Row::Group(g)) => {
                self.set_expanded(g, false);
                self.clamp_cursor();
            },
            Some(Row::Item { group, item }) => {
                let rs = self.visible_rows();
                proof {
                    lemma_item_row_has_header(self@.groups, self.cursor as int);
                }
                let target = Row::Group(group);
                let mut i: usize = 0;
                while i < rs.len() && rs[i] != target
                    invariant
                        i <= rs@.len(),
                        first_row_from(rs@, target, 0) == first_row_from(rs@, target, i as int),
                        first_row_from(rs@, target, 0) < rs@.len(),
                    decreases rs@.len() - i,
                {
                    i = i + 1;
                }
                self.cursor = i;
            },
            None => {},
        }
    }

    /// Unfolds the group under the cursor.
    pub fn expand_current_group(&mut self)
        requires
            counts_fit(old(self)@.groups),
        ensures
            final(self)@ == expanded_current(old(self)@),
    {
        proof {
            lemma_rows_valid(self@.groups);
        }
        if let Some(Row::Group(g)) = self.current_row() {
            self.set_expanded(g, true);
        }
    }

    /// Folds or unfolds the group under the cursor.
    pub fn toggle_current_group_expansion(&mut self)
        requires
            counts_fit(old(self)@.groups),
        ensures
            final(self)@ == toggled_expansion(old(self)@),
    {
        proof {
            lemma_rows_valid(self@.groups);
        }
        if let Some(Row::Group(g)) = self.current_row() {
            let value = !self.groups[g].expanded;
            self.set_expanded(g, value);
            self.clamp_cursor();
        }
    }

    /// Checks every item of group `g`, unless all are checked, in which case
    /// unchecks them all.
    pub fn toggle_group(&mut self, g: usize)
        requires
            g < old(self)@.groups.len(),
        ensures
            final(self)@ == toggled_group(old(self)@, g as int),
    {
        let should_check = group_check_state(self.groups[g].items.as_slice()) != GroupCheckState::All;
        set_all_checked(&mut self.groups[g].items, should_check);
        assert(self@.groups =~= toggled_group(old(self)@, g as int).groups);
    }

    /// Flips the check of item `i` of group `g`.
    pub fn toggle_item(&mut self, g: usize, i: usize)
        requires
            g < old(self)@.groups.len(),
            i < old(self)@.groups[g as int].items.len(),
        ensures
            final(self)@ == toggled_item(old(self)@, g as int, i as int),
    {
        let flipped = !self.groups[g].items[i].checked;
        self.groups[g].items[i].checked = flipped;
        assert(self@.groups[g as int].items =~= toggled_item(old(self)@, g as int, i as int).groups[g as int].items);
        assert(self@.groups =~= toggled_item(old(self)@, g as int, i as int).groups);
    }

    /// Toggles the group or the item under the cursor.
    pub fn toggle_current_row(&mut self)
        requires
            counts_fit(old(self)@.groups),
        ensures
            final(self)@ == toggled_current(old(self)@),
    {
        proof {
            lemma_rows_valid(self@.groups);
        }
        match self.current_row() {
            Some(Row::Group(g)) => self.toggle_group(g),
            Some(Row::Item { group, item }) => self.toggle_item(group, item),
            None => {},
        }
    }

    /// Checks every item unless all are checked, in which case unchecks all.
    pub fn toggle_all(&mut self)
        requires
            counts_fit(old(self)@.groups),
        ensures
            final(self)@ == toggled_all(old(self)@),
    {
        let should_check = self.selected_items() != self.total_items();
        let ghost start = self@.groups;
        let mut g: usize = 0;
        while g < self.groups.len()
            invariant
                g <= self.groups@.len(),
                self.groups@.len() == start.len(),
                self@.title == old(self)@.title,
                self.cursor == old(self).cursor,
                self.scroll == old(self).scroll,
                start == old(self)@.groups,
                should_check == (selected_total(start) != item_total(start)),
                forall|k: int| 0 <= k < g ==> #[trigger] group_views(self.groups@)[k] == group_with_items(start[k], all_set(start[k].items, should_check)),
                forall|k: int| g <= k < self.groups@.len() ==> #[trigger] group_views(self.groups@)[k] == start[k],
            decreases self.groups@.len() - g,
        {
            let ghost before = self.groups@;
            assert(group_views(before)[g as int] == start[g as int]);
            set_all_checked(&mut self.groups[g].items, should_check);
            assert(self.groups@[g as int].title == before[g as int].title);
            assert(self.groups@[g as int].expanded == before[g as int].expanded);
            assert forall|k: int| 0 <= k < self.groups@.len() && k != g implies #[trigger] group_views(self.groups@)[k] == group_views(before)[k] by {
                assert(self.groups@[k] == before[k]);
            }
            assert(group_views(self.groups@)[g as int] == group_with_items(start[g as int], all_set(start[g as int].items, should_check)));
            g = g + 1;
        }
        assert(self@.groups =~= toggled_all(old(self)@).groups);
    }

    /// Flips every item's check.
    pub fn invert_selection(&mut self)
        ensures
            final(self)@ == inverted(old(self)@),
    {
        let ghost start = self@.groups;
        let mut g: usize = 0;
        while g < self.groups.len()
            invariant
                g <= self.groups@.len(),
                self.groups@.len() == start.len(),
                self@.title == old(self)@.title,
                self.cursor == old(self).cursor,
                self.scroll == old(self).scroll,
                start == old(self)@.groups,
                forall|k: int| 0 <= k < g ==> #[trigger] group_views(self.groups@)[k] == group_with_items(start[k], all_flipped(start[k].items)),
                forall|k: int| g <= k < self.groups@.len() ==> #[trigger] group_views(self.groups@)[k] == start[k],
            decreases self.groups@.len() - g,
        {
            let ghost before = self.groups@;
            assert(group_views(before)[g as int] == start[g as int]);
            flip_all_checked(&mut self.groups[g].items);
            assert(self.groups@[g as int].title == before[g as int].title);
            assert(self.groups@[g as int].expanded == before[g as int].expanded);
            assert forall|k: int| 0 <= k < self.groups@.len() && k != g implies #[trigger] group_views(self.groups@)[k] == group_views(before)[k] by {
                assert(self.groups@[k] == before[k]);
            }
            assert(group_views(self.groups@)[g as int] == group_with_items(start[g as int], all_flipped(start[g as int].items)));
            g = g + 1;
        }
        assert(self@.groups =~= inverted(old(self)@).groups);
    }

    /// Scrolls so that the cursor's row is among the `visible_rows` rows
    /// shown from the first visible one.
    pub fn keep_cursor_visible(&mut self, visible_rows: usize)
        ensures
            final(self)@ == (ChecklistView {
                title: old(self)@.title,
                groups: old(self)@.groups,
                cursor: old(self).cursor,
                scroll: scrolled(old(self).cursor, old(self).scroll, visible_rows),
            }),
    {
        if visible_rows == 0 {
            self.scroll = self.cursor;
            return;
        }
        if self.cursor < self.scroll {
            self.scroll = self.cursor;
        }
        if self.cursor >= self.scroll.saturating_add(visible_rows) {
            self.scroll = self.cursor.saturating_sub(visible_rows - 1);
        }
    }

    /// Carries out an action.
    pub fn apply(&mut self, action: KeyAction)
        requires
            counts_fit(old(self)@.groups),
        ensures
            final(self)@ == applied(old(self)@, action),
            cursor_in_range(old(self)@) ==> cursor_in_range(final(self)@),
            same_shape_but_folds(old(self)@.groups, final(self)@.groups),
    {
        proof {
            lemma_apply_keeps(self@, action);
        }
        match action {
            KeyAction::MoveUp => self.move_up(),
            KeyAction::MoveDown => self.move_down(),
            KeyAction::PageUp => self.move_page_up(),
            KeyAction::PageDown => self.move_page_down(),
            KeyAction::Home => self.move_home(),
            KeyAction::End => self.move_end(),
            KeyAction::CollapseOrParent => self.collapse_or_parent(),
            KeyAction::Expand => self.expand_current_group(),
            KeyAction::ToggleRow => self.toggle_current_row(),
            KeyAction::ToggleAll => self.toggle_all(),
            KeyAction::Invert => self.invert_selection(),
            KeyAction::ToggleExpansion => self.toggle_current_group_expansion(),
            _ => {},
        }
    }

    /// The checked items, group by group, in order.
    pub fn into_selection(self) -> (r: Vec<ChecklistSelection>)
        ensures
            r@ == selection_of(self@.groups),
    {
        let ghost gs = self@.groups;
        let mut r: Vec<ChecklistSelection> = Vec::new();
        let mut g: usize = 0;
        while g < self.groups.len()
            invariant
                g <= gs.len(),
                gs == self@.groups,
                r@ == selection_of(gs.take(g as int)),
            decreases gs.len() - g,
        {
            assert(gs.take(g + 1).drop_last() =~= gs.take(g as int));
            assert(gs.take(g + 1).last() == gs[g as int]);
            let items = &self.groups[g].items;
            let ghost iv = gs[g as int].items;
            let ghost head = r@;
            let mut i: usize = 0;
            while i < items.len()
                invariant
                    i <= items@.len(),
                    iv == item_views(items@),
                    r@ == head + checked_in_group(g as int, iv.take(i as int)),
                decreases items@.len() - i,
            {
                assert(iv.take(i + 1).drop_last() =~= iv.take(i as int));
                if items[i].checked {
                    r.push(ChecklistSelection { group_index: g, item_index: i });
                    assert(r@ =~= head + checked_in_group(g as int, iv.take(i + 1)));
                } else {
                    assert(r@ =~= head + checked_in_group(g as int, iv.take(i + 1)));
                }
                i = i + 1;
            }
            assert(iv.take(items@.len() as int) =~= iv);
            g = g + 1;
        }
        assert(gs.take(gs.len() as int) =~= gs);
        r
    }

    /// Feeds `keys` to the list one by one, as a session would: the checked
    /// items at the first Enter, none when cancelled or when the keys run out.
    pub fn run(self, keys: &[KeyInput]) -> (r: Vec<ChecklistSelection>)
        requires
            counts_fit(self@.groups),
        ensures
            r@ == replayed_selection(self@, keys@),
    {
        let mut list = self;
        let ghost start = list@;
        let mut k: usize = 0;
        assert(keys@.skip(0) =~= keys@);
        while k < keys.len()
            invariant
                k <= keys@.len(),
                counts_fit(list@.groups),
                start == self@,
                replayed_selection(start, keys@) == replayed_selection(list@, keys@.skip(k as int)),
            decreases keys@.len() - k,
        {
            let action = action_for_key(keys[k]);
            assert(keys@.skip(k as int)[0] == keys@[k as int]);
            assert(keys@.skip(k as int).drop_first() =~= keys@.skip(k + 1));
            if action == KeyAction::Cancel {
                return Vec::new();
            }
            if action == KeyAction::Confirm {
                return list.into_selection();
            }
            let ghost before = list@.groups;
            list.apply(action);
            proof {
                lemma_counts_fit_shape(before, list@.groups);
            }
            k = k + 1;
        }
        Vec::new()
    }
}


// ---------------------------------------------------------------------------
// Laws of the list.

/// Every action keeps the cursor on a visible row (or at zero when no row is
/// visible): a list that starts with its cursor in range keeps it there.
pub proof fn actions_keep_cursor_on_a_row(v: ChecklistView, action: KeyAction)
    requires
        counts_fit(v.groups),
        cursor_in_range(v),
    ensures
        cursor_in_range(applied(v, action)),
        same_shape_but_folds(v.groups, applied(v, action).groups),
{
    lemma_apply_keeps(v, action);
}

/// Inverting the selection twice gives back the list as it was.
pub proof fn inverting_twice_restores(v: ChecklistView)
    ensures
        inverted(inverted(v)) == v,
{
    let w = inverted(inverted(v));
    assert forall|g: int| 0 <= g < v.groups.len() implies #[trigger] w.groups[g] == v.groups[g] by {
        assert(w.groups[g].items =~= v.groups[g].items);
    }
    assert(w.groups =~= v.groups);
}

/// Toggling everything checks every item unless all were checked, in which
/// case it unchecks every item; folds, cursor and everything else stay.
pub proof fn toggling_all_makes_items_uniform(v: ChecklistView)
    ensures
        same_shape(v.groups, toggled_all(v).groups),
        toggled_all(v).cursor == v.cursor,
        forall|g: int, i: int| 0 <= g < v.groups.len() && 0 <= i < v.groups[g].items.len()
            ==> (#[trigger] toggled_all(v).groups[g].items[i]).checked == (selected_total(v.groups) != item_total(v.groups))
                && toggled_all(v).groups[g].items[i].label == v.groups[g].items[i].label,
{
}

/// Toggling a group checks all its items unless all were checked, in which
/// case it unchecks them all; the other groups stay as they were.
pub proof fn toggling_a_group_sets_all_its_items(v: ChecklistView, g: int)
    requires
        0 <= g < v.groups.len(),
    ensures
        toggled_group(v, g).groups.len() == v.groups.len(),
        toggled_group(v, g).groups[g].items.len() == v.groups[g].items.len(),
        forall|i: int| 0 <= i < v.groups[g].items.len()
            ==> (#[trigger] toggled_group(v, g).groups[g].items[i]).checked == (check_state(v.groups[g].items) != GroupCheckState::All),
        forall|k: int| 0 <= k < v.groups.len() && k != g ==> #[trigger] toggled_group(v, g).groups[k] == v.groups[k],
{
}

proof fn lemma_checked_in_group_points_at_checked(g: int, items: Seq<ItemView>)
    requires
        0 <= g <= usize::MAX,
        items.len() <= usize::MAX + 1,
    ensures
        checked_in_group(g, items).len() == checked_count(items),
        forall|k: int| 0 <= k < checked_in_group(g, items).len() ==> {
            let s = #[trigger] checked_in_group(g, items)[k];
            &&& s.group_index == g
            &&& s.item_index < items.len()
            &&& items[s.item_index as int].checked
        },
        forall|k: int, l: int| 0 <= k < l < checked_in_group(g, items).len()
            ==> (#[trigger] checked_in_group(g, items)[k]).item_index < (#[trigger] checked_in_group(g, items)[l]).item_index,
    decreases items.len(),
{
    if items.len() > 0 {
        let p = items.drop_last();
        lemma_checked_in_group_points_at_checked(g, p);
        assert forall|k: int| 0 <= k < checked_in_group(g, p).len() implies
            items[(#[trigger] checked_in_group(g, p)[k]).item_index as int] == p[checked_in_group(g, p)[k].item_index as int] by {
        }
    }
}

/// The selection lists exactly the checked items: one entry per checked item,
/// each naming an existing group and a checked item of it, group by group and
/// item by item in order.
pub proof fn selection_lists_checked_items(gs: Seq<GroupView>)
    requires
        counts_fit(gs),
    ensures
        selection_of(gs).len() == selected_total(gs),
        forall|k: int| 0 <= k < selection_of(gs).len() ==> {
            let s = #[trigger] selection_of(gs)[k];
            &&& s.group_index < gs.len()
            &&& s.item_index < gs[s.group_index as int].items.len()
            &&& gs[s.group_index as int].items[s.item_index as int].checked
        },
        forall|k: int, l: int| 0 <= k < l < selection_of(gs).len() ==> {
            let a = #[trigger] selection_of(gs)[k];
            let b = #[trigger] selection_of(gs)[l];
            a.group_index < b.group_index || (a.group_index == b.group_index && a.item_index < b.item_index)
        },
    decreases gs.len(),
{
    if gs.len() > 0 {
        let p = gs.drop_last();
        let g = gs.len() - 1;
        lemma_item_total_bounds(gs);
        assert(item_total(p) <= item_total(gs));
        selection_lists_checked_items(p);
        lemma_checked_in_group_points_at_checked(g, gs.last().items);
        let a = selection_of(p);
        let b = checked_in_group(g, gs.last().items);
        assert(selection_of(gs) == a + b);
        assert forall|k: int| 0 <= k < selection_of(gs).len() implies {
            let s = #[trigger] selection_of(gs)[k];
            &&& s.group_index < gs.len()
            &&& s.item_index < gs[s.group_index as int].items.len()
            &&& gs[s.group_index as int].items[s.item_index as int].checked
        } by {
            if k < a.len() {
                assert(selection_of(gs)[k] == a[k]);
                assert(gs[a[k].group_index as int] == p[a[k].group_index as int]);
            } else {
                assert(selection_of(gs)[k] == b[k - a.len()]);
            }
        }
        assert forall|k: int, l: int| 0 <= k < l < selection_of(gs).len() implies {
            let x = #[trigger] selection_of(gs)[k];
            let y = #[trigger] selection_of(gs)[l];
            x.group_index < y.group_index || (x.group_index == y.group_index && x.item_index < y.item_index)
        } by {
            if l < a.len() {
                assert(selection_of(gs)[k] == a[k]);
                assert(selection_of(gs)[l] == a[l]);
            } else if k < a.len() {
                assert(selection_of(gs)[k] == a[k]);
                assert(selection_of(gs)[l] == b[l - a.len()]);
            } else {
                assert(selection_of(gs)[k] == b[k - a.len()]);
                assert(selection_of(gs)[l] == b[l - a.len()]);
            }
        }
    }
}

/// The header of group `g` stands right after the rows of the groups before
/// it.
proof fn lemma_header_at(gs: Seq<GroupView>, g: int)
    requires
        0 <= g < gs.len(),
    ensures
        rows(gs.take(g)).len() < rows(gs).len(),
        rows(gs)[rows(gs.take(g)).len() as int] == Row::Group(g as usize),
{
    lemma_rows_prefix(gs, g + 1);
    let t = gs.take(g + 1);
    assert(t.drop_last() =~= gs.take(g));
    assert(t.last() == gs[g]);
    let h = rows(gs.take(g)).len();
    assert(rows(t)[h as int] == Row::Group(g as usize));
}

/// A header row at `j` belongs to a group that exists and stands where
/// [`lemma_header_at`] puts it, so each group has a single header row.
proof fn lemma_header_unique(gs: Seq<GroupView>, j: int)
    requires
        gs.len() <= usize::MAX,
        0 <= j < rows(gs).len(),
        rows(gs)[j] is Group,
    ensures
        (rows(gs)[j]->Group_0 as int) < gs.len(),
        j == rows(gs.take(rows(gs)[j]->Group_0 as int)).len(),
    decreases gs.len(),
{
    let p = gs.drop_last();
    let k = gs.len() - 1;
    let head = rows(p).push(Row::Group(k as usize));
    if j < rows(p).len() {
        assert(rows(gs)[j] == rows(p)[j]);
        lemma_header_unique(p, j);
        let g = rows(p)[j]->Group_0 as int;
        assert(p.take(g) =~= gs.take(g));
    } else if j == rows(p).len() {
        assert(rows(gs)[j] == Row::Group(k as usize));
        assert(gs.take(k) =~= p);
    } else {
        assert(rows(gs)[j] == item_rows(k, gs.last().items.len())[j - head.len()]);
    }
}

/// Folding or unfolding the group under the cursor keeps the cursor on that
/// group's header, whether by `Left`, `Right` or `e`.
pub proof fn folding_keeps_the_cursor_on_its_group(v: ChecklistView)
    requires
        counts_fit(v.groups),
        current_row_of(v) matches Some(Row::Group(_)),
    ensures
        current_row_of(toggled_expansion(v)) == current_row_of(v),
        current_row_of(collapsed_or_parent(v)) == current_row_of(v),
        current_row_of(expanded_current(v)) == current_row_of(v),
{
    let gs = v.groups;
    let c = v.cursor as int;
    lemma_header_unique(gs, c);
    let g = rows(gs)[c]->Group_0 as int;
    assert forall|x: GroupView| #![trigger gs.update(g, x)] ({
        let ws = gs.update(g, x);
        &&& rows(ws)[c] == Row::Group(g as usize)
        &&& c < rows(ws).len()
    }) by {
        let ws = gs.update(g, x);
        assert(ws.take(g) =~= gs.take(g));
        lemma_header_at(ws, g);
    }
    let folded = gs.update(g, group_with_expanded(gs[g], !gs[g].expanded));
    let closed = gs.update(g, group_with_expanded(gs[g], false));
    let opened = gs.update(g, group_with_expanded(gs[g], true));
    assert(rows(folded)[c] == Row::Group(g as usize) && c < rows(folded).len());
    assert(rows(closed)[c] == Row::Group(g as usize) && c < rows(closed).len());
    assert(rows(opened)[c] == Row::Group(g as usize) && c < rows(opened).len());
}

/// The arrow keys and their letters move the cursor one row, Home and End
/// to the first and last row, and Page Up and Page Down ten rows, each
/// stopping at the ends of the visible rows; none of them changes a check
/// or a fold. (The rows are counted in a `usize`.)
pub proof fn movement_keys_move_the_cursor(v: ChecklistView)
    requires
        rows(v.groups).len() <= usize::MAX,
    ensures
        ({
            let up = applied(v, key_action(KeyInput::Up));
            &&& up.cursor == (if v.cursor > 0 { v.cursor - 1 } else { 0 })
            &&& up.groups == v.groups
            &&& key_action(KeyInput::Char { c: 'k', control: false }) == key_action(KeyInput::Up)
        }),
        ({
            let down = applied(v, key_action(KeyInput::Down));
            &&& down.cursor == (if v.cursor + 1 < rows(v.groups).len() { v.cursor + 1 } else { v.cursor as int })
            &&& down.groups == v.groups
            &&& key_action(KeyInput::Char { c: 'j', control: false }) == key_action(KeyInput::Down)
        }),
        applied(v, key_action(KeyInput::Home)).cursor == 0,
        applied(v, key_action(KeyInput::End)).cursor == (if rows(v.groups).len() > 0 { rows(v.groups).len() - 1 } else { 0 }),
        applied(v, key_action(KeyInput::PageUp)).cursor == (if v.cursor >= 10 { v.cursor - 10 } else { 0 }),
        v.cursor < rows(v.groups).len() ==> applied(v, key_action(KeyInput::PageDown)).cursor
            == (if v.cursor + 10 < rows(v.groups).len() { v.cursor + 10 } else { rows(v.groups).len() - 1 }),
        applied(v, key_action(KeyInput::Home)).groups == v.groups,
        applied(v, key_action(KeyInput::End)).groups == v.groups,
        applied(v, key_action(KeyInput::PageUp)).groups == v.groups,
        applied(v, key_action(KeyInput::PageDown)).groups == v.groups,
{
}

/// Esc, `q` and Ctrl-C end a session with nothing chosen, whatever keys
/// follow; Enter ends it with the items checked at that moment; a key that
/// does nothing leaves the session as it was.
pub proof fn ending_keys_end_the_session(v: ChecklistView, rest: Seq<KeyInput>)
    ensures
        replayed_selection(v, seq![KeyInput::Esc] + rest) == Seq::<ChecklistSelection>::empty(),
        replayed_selection(v, seq![KeyInput::Char { c: 'q', control: false }] + rest) == Seq::<ChecklistSelection>::empty(),
        replayed_selection(v, seq![KeyInput::Char { c: 'c', control: true }] + rest) == Seq::<ChecklistSelection>::empty(),
        replayed_selection(v, seq![KeyInput::Enter] + rest) == selection_of(v.groups),
        replayed_selection(v, seq![KeyInput::Other] + rest) == replayed_selection(v, rest),
{
    assert((seq![KeyInput::Esc] + rest)[0] == KeyInput::Esc);
    assert((seq![KeyInput::Char { c: 'q', control: false }] + rest)[0] == KeyInput::Char { c: 'q', control: false });
    assert((seq![KeyInput::Char { c: 'c', control: true }] + rest)[0] == KeyInput::Char { c: 'c', control: true });
    assert((seq![KeyInput::Enter] + rest)[0] == KeyInput::Enter);
    assert((seq![KeyInput::Other] + rest)[0] == KeyInput::Other);
    assert((seq![KeyInput::Other] + rest).drop_first() =~= rest);
}

} // verus!
