//! What the interactive list shows: the text of each row, of the summary at
//! the top, of the details of the row under the cursor, and of the footer.
//! Text that does not fit its width is cut and ends in `...`; widths are
//! display columns, as `unicode-width` counts them.

use vstd::prelude::*;
use vstd::utf8::encode_utf8;
use crate::checklist::{
    Checklist, ChecklistView, GroupCheckState, GroupView, ItemView, Row, check_state, checked_count, counts_fit,
    current_row_of, group_checked_count, group_check_state, item_total, lemma_rows_valid, rows, selected_total,
};
use crate::error::{joined, join_strings, string_views};
use crate::text::{chars_of, decimal, decimal_chars, extend_chars, string_from_chars};

verus! {

/// The number of display columns `unicode-width` gives a text.
pub uninterp spec fn columns(text: Seq<char>) -> usize;

/// Calls `UnicodeWidthStr::width`: the columns a terminal gives `text`.
#[verifier::external_body]
fn text_columns(text: &str) -> (r: usize)
    ensures
        r == columns(text@),
{
    unicode_width::UnicodeWidthStr::width(text)
}

/// `n` dots.
pub open spec fn dots(n: nat) -> Seq<char> {
    Seq::new(n, |_i: int| '.')
}

/// The columns of each leading part of `text`: entry `k` is the columns of
/// its first `k + 1` characters.
pub open spec fn prefix_columns(text: Seq<char>) -> Seq<usize> {
    Seq::new(text.len(), |k: int| columns(text.take(k + 1)))
}

/// How many leading characters are kept when a text is cut to `target`
/// columns, counting from `k`, given the columns `widths` of its leading
/// parts: characters are taken one by one while the part taken still fits.
pub open spec fn kept_count(widths: Seq<usize>, target: usize, k: nat) -> nat
    decreases widths.len() - k,
{
    if k >= widths.len() || widths[k as int] > target {
        k
    } else {
        kept_count(widths, target, k + 1)
    }
}

/// `text` fitted to `width` columns, given that it takes `total` columns and
/// that its leading parts take `widths`: unchanged when it fits; otherwise
/// only dots when the width is three or less, or the longest leading part
/// that fits in three columns less, followed by `...`.
pub open spec fn fitted_measured(text: Seq<char>, width: usize, total: usize, widths: Seq<usize>) -> Seq<char> {
    if total <= width {
        text
    } else if width <= 3 {
        dots(width as nat)
    } else {
        text.take(kept_count(widths, (width - 3) as usize, 0) as int) + "..."@
    }
}

/// `text` fitted to `width` columns, measured as `unicode-width` measures it.
pub open spec fn fitted(text: Seq<char>, width: usize) -> Seq<char> {
    fitted_measured(text, width, columns(text), prefix_columns(text))
}

/// Fits `text` to `width` columns, given its measured widths (see
/// [`fitted_measured`]).
pub fn fit_measured(text: &str, width: usize, total: usize, widths: &[usize]) -> (r: String)
    requires
        widths@.len() == text@.len(),
    ensures
        r@ == fitted_measured(text@, width, total, widths@),
{
    if total <= width {
        return String::from_str(text);
    }
    if width <= 3 {
        let mut out: Vec<char> = Vec::new();
        let mut i: usize = 0;
        while i < width
            invariant
                i <= width,
                out@ == dots(i as nat),
            decreases width - i,
        {
            out.push('.');
            i = i + 1;
            assert(out@ =~= dots(i as nat));
        }
        return string_from_chars(&out);
    }
    let chars = chars_of(text);
    let target = width - 3;
    let mut k: usize = 0;
    while k < widths.len() && widths[k] <= target
        invariant
            k <= widths@.len(),
            kept_count(widths@, target, 0) == kept_count(widths@, target, k as nat),
        decreases widths@.len() - k,
    {
        k = k + 1;
    }
    let mut output: Vec<char> = Vec::new();
    let mut i: usize = 0;
    while i < k
        invariant
            i <= k <= chars@.len(),
            chars@ == text@,
            output@ == chars@.take(i as int),
        decreases k - i,
    {
        output.push(chars[i]);
        i = i + 1;
        assert(output@ =~= chars@.take(i as int));
    }
    extend_chars(&mut output, &chars_of("..."));
    string_from_chars(&output)
}

/// Fits `text` to `width` columns (see [`fitted`]).
pub fn fit(text: &str, width: usize) -> (r: String)
    ensures
        r@ == fitted(text@, width),
{
    let total = text_columns(text);
    let chars = chars_of(text);
    let mut widths: Vec<usize> = Vec::new();
    let mut part: Vec<char> = Vec::new();
    let mut k: usize = 0;
    while k < chars.len()
        invariant
            k <= chars@.len(),
            chars@ == text@,
            part@ == text@.take(k as int),
            widths@ == prefix_columns(text@).take(k as int),
        decreases chars@.len() - k,
    {
        part.push(chars[k]);
        assert(part@ =~= text@.take(k + 1));
        widths.push(text_columns(string_from_chars(&part).as_str()));
        k = k + 1;
        assert(widths@ =~= prefix_columns(text@).take(k as int));
    }
    assert(widths@ =~= prefix_columns(text@));
    fit_measured(text, width, total, &widths)
}

/// The columns left for a row's text once the cursor mark is drawn.
pub open spec fn row_width(width: u16) -> usize {
    if width >= 2 { (width - 2) as usize } else { 0 }
}

/// The columns left for a row's text in a tree `width` columns wide.
pub fn row_text_width(width: u16) -> (r: usize)
    ensures
        r == row_width(width),
{
    (width as usize).saturating_sub(2)
}

/// The mark shown for a group's check state.
pub open spec fn marker_text(state: GroupCheckState) -> Seq<char> {
    match state {
        GroupCheckState::Unchecked => "[ ]"@,
        GroupCheckState::Partial => "[-]"@,
        GroupCheckState::All => "[x]"@,
    }
}

/// The mark shown for a group's check state.
pub fn group_marker(state: GroupCheckState) -> (r: &'static str)
    ensures
        r@ == marker_text(state),
{
    match state {
        GroupCheckState::Unchecked => "[ ]",
        GroupCheckState::Partial => "[-]",
        GroupCheckState::All => "[x]",
    }
}

/// `s` padded with spaces on the right to `n` characters.
pub open spec fn padded(s: Seq<char>, n: nat) -> Seq<char> {
    if s.len() < n {
        s + Seq::new((n - s.len()) as nat, |_i: int| ' ')
    } else {
        s
    }
}

/// A line of the details pane: the label padded to nine characters, a
/// space and the value, fitted to the width.
pub open spec fn detail_text(label: Seq<char>, value: Seq<char>, width: u16) -> Seq<char> {
    fitted(padded(label, 9) + " "@ + value, width as usize)
}

/// Appends the characters of `s`.
fn push_str(out: &mut Vec<char>, s: &str)
    ensures
        final(out)@ == old(out)@ + s@,
{
    extend_chars(out, &chars_of(s));
}

/// Appends the decimal digits of `n`.
fn push_count(out: &mut Vec<char>, n: usize)
    ensures
        final(out)@ == old(out)@ + decimal(n as nat),
{
    extend_chars(out, &decimal_chars(n as u64));
}

/// A line of the details pane before it is fitted: the label padded to
/// nine characters, a space and the value.
pub fn detail_label(label: &str, value: &str) -> (r: String)
    ensures
        r@ == padded(label@, 9) + " "@ + value@,
{
    let mut text = chars_of(label);
    let n = text.len();
    if n < 9 {
        let mut i: usize = n;
        while i < 9
            invariant
                n <= i <= 9,
                n == label@.len(),
                text@ == label@ + Seq::new((i - n) as nat, |_i: int| ' '),
            decreases 9 - i,
        {
            text.push(' ');
            i = i + 1;
            assert(text@ =~= label@ + Seq::new((i - n) as nat, |_i: int| ' '));
        }
    }
    assert(text@ == padded(label@, 9));
    let ghost head = text@;
    text.push(' ');
    push_str(&mut text, value);
    proof {
        reveal_strlit(" ");
        assert(text@ =~= head + " "@ + value@);
    }
    string_from_chars(&text)
}

/// A line of the details pane (see [`detail_text`]).
pub fn detail_line(label: &str, value: &str, width: u16) -> (r: String)
    ensures
        r@ == detail_text(label@, value@, width),
{
    fit(detail_label(label, value).as_str(), width as usize)
}


/// `selected/total`.
pub open spec fn count_text(selected: nat, total: nat) -> Seq<char> {
    decimal(selected) + "/"@ + decimal(total)
}

/// Appends `selected/total`.
fn push_counts(out: &mut Vec<char>, selected: usize, total: usize)
    ensures
        final(out)@ == old(out)@ + count_text(selected as nat, total as nat),
{
    push_count(out, selected);
    push_str(out, "/");
    push_count(out, total);
    assert(out@ =~= old(out)@ + count_text(selected as nat, total as nat));
}

/// A group's part of the summary: its title and its checked and total
/// numbers of items.
pub open spec fn group_summary(g: GroupView) -> Seq<char> {
    g.title + " "@ + count_text(checked_count(g.items), g.items.len())
}

/// The summary of all groups, two spaces apart.
pub open spec fn section_summary_text(gs: Seq<GroupView>) -> Seq<char> {
    joined(gs.map_values(|g: GroupView| group_summary(g)), "  "@)
}

/// The summary of all groups (see [`section_summary_text`]).
pub fn section_summary(groups: &[crate::checklist::Group]) -> (r: String)
    ensures
        r@ == section_summary_text(crate::checklist::group_views(groups@)),
{
    let ghost gs = crate::checklist::group_views(groups@);
    let mut parts: Vec<String> = Vec::new();
    let mut g: usize = 0;
    while g < groups.len()
        invariant
            g <= groups@.len(),
            gs == crate::checklist::group_views(groups@),
            parts@.len() == g,
            forall|k: int| 0 <= k < g ==> #[trigger] parts@[k]@ == group_summary(gs[k]),
        decreases groups@.len() - g,
    {
        let group = &groups[g];
        let mut text = chars_of(group.title.as_str());
        push_str(&mut text, " ");
        let selected = group_checked_count(group);
        push_counts(&mut text, selected, group.items.len());
        assert(text@ =~= group_summary(gs[g as int]));
        parts.push(string_from_chars(&text));
        g = g + 1;
    }
    assert(string_views(parts@) =~= gs.map_values(|g: GroupView| group_summary(g)));
    string_from_chars(&join_strings(&parts, &chars_of("  ")))
}

/// What the summary says of the row under the cursor: a group's title and
/// counts, or an item's package, requirements and impact.
pub open spec fn cursor_summary_text(v: ChecklistView) -> Seq<char> {
    match current_row_of(v) {
        Some(Row::Group(g)) => {
            let gr = v.groups[g as int];
            gr.title + " section  "@ + count_text(checked_count(gr.items), gr.items.len()) + " selected"@
        },
        Some(Row::Item { group, item }) => {
            let it = v.groups[group as int].items[item as int];
            it.label + "  "@ + it.current + " -> "@ + it.target + "  "@ + it.impact
        },
        None => "No package under cursor"@,
    }
}

/// The text of a group's row: its check mark, `-` when expanded or `+` when
/// folded, its title and its counts, fitted to the row.
pub open spec fn group_row_text(gr: GroupView, width: u16) -> Seq<char> {
    fitted(
        marker_text(check_state(gr.items)) + " "@ + (if gr.expanded { "-"@ } else { "+"@ }) + " "@ + gr.title + " ("@
            + count_text(checked_count(gr.items), gr.items.len()) + ")"@,
        row_width(width),
    )
}

/// The start of an item's row: its branch (the last item of a group closes
/// it) and its check mark.
pub open spec fn item_prefix(items: Seq<ItemView>, i: int) -> Seq<char> {
    "  "@ + (if i + 1 == items.len() { "`-"@ } else { "|-"@ }) + " "@ + (if items[i].checked { "[x]"@ } else { "[ ]"@ }) + " "@
}

/// An item's row without its impact: prefix, package and requirements.
pub open spec fn item_summary(items: Seq<ItemView>, i: int) -> Seq<char> {
    item_prefix(items, i) + items[i].label + "  "@ + items[i].current + " -> "@ + items[i].target + "  "@
}

/// Whether an impact of `bytes` bytes is shown apart (in its own colour)
/// after a summary taking `used` columns: the columns left on the row after
/// the summary exceed the impact's length in bytes.
pub open spec fn apart_after(used: usize, width: u16, bytes: usize) -> bool {
    let room: int = if row_width(width) >= used { row_width(width) - used } else { 0 };
    room > bytes
}

/// Whether the impact of item `i` is shown apart after its summary.
pub open spec fn impact_apart(items: Seq<ItemView>, i: int, width: u16) -> bool {
    apart_after(columns(item_summary(items, i)), width, byte_len(items[i].impact))
}

/// Whether `impact` is shown apart after a summary taking `used` columns in
/// a tree `width` columns wide (see [`apart_after`]).
pub fn impact_shown_apart(used: usize, width: u16, impact: &str) -> (r: bool)
    ensures
        r == apart_after(used, width, byte_len(impact@)),
{
    row_text_width(width).saturating_sub(used) > impact.len()
}

/// The length in bytes of the UTF-8 encoding of `s`, as `str::len` gives it.
pub open spec fn byte_len(s: Seq<char>) -> usize {
    encode_utf8(s).len() as usize
}

/// The text of an item's row.
pub enum ItemRowText {
    /// The summary, and the impact shown after it in its own colour.
    Apart { summary: String, impact: String },
    /// Summary and impact together, fitted to the row.
    Whole(String),
}

/// Whether `text` is what item `i` of `items` shows in a tree `width`
/// columns wide.
pub open spec fn item_row_is(items: Seq<ItemView>, i: int, width: u16, text: ItemRowText) -> bool {
    match text {
        ItemRowText::Apart { summary, impact } =>
            impact_apart(items, i, width) && summary@ == item_summary(items, i) && impact@ == items[i].impact,
        ItemRowText::Whole(t) =>
            !impact_apart(items, i, width) && t@ == fitted(item_summary(items, i) + items[i].impact, row_width(width)),
    }
}

/// The name shown for a group's check state in its details.
pub open spec fn state_text(state: GroupCheckState) -> Seq<char> {
    match state {
        GroupCheckState::Unchecked => "none selected"@,
        GroupCheckState::Partial => "partially selected"@,
        GroupCheckState::All => "all selected"@,
    }
}

/// The details of a group.
pub open spec fn group_detail_texts(gr: GroupView, width: u16) -> Seq<Seq<char>> {
    seq![
        detail_text("Section"@, gr.title, width),
        detail_text("Packages"@, decimal(gr.items.len()), width),
        detail_text("Selected"@, count_text(checked_count(gr.items), gr.items.len()), width),
        detail_text("State"@, state_text(check_state(gr.items)), width),
        detail_text("Tree"@, if gr.expanded { "expanded"@ } else { "collapsed"@ }, width),
        seq![],
        fitted("Space toggles the whole section."@, width as usize),
        fitted("Left/Right collapses or expands children."@, width as usize),
    ]
}

/// The details of an item of a group.
pub open spec fn item_detail_texts(gr: GroupView, it: ItemView, width: u16) -> Seq<Seq<char>> {
    seq![
        detail_text("Package"@, it.label, width),
        detail_text("Section"@, gr.title, width),
        detail_text("Current"@, it.current, width),
        detail_text("Target"@, it.target, width),
        detail_text("Impact"@, it.impact, width),
        detail_text("Selected"@, if it.checked { "yes"@ } else { "no"@ }, width),
        seq![],
        fitted("Review impact first; deselect risky upgrades."@, width as usize),
    ]
}

/// The details pane: of the group or item under the cursor, or a note that
/// there is nothing to review.
pub open spec fn detail_texts(v: ChecklistView, width: u16) -> Seq<Seq<char>> {
    match current_row_of(v) {
        Some(Row::Group(g)) => group_detail_texts(v.groups[g as int], width),
        Some(Row::Item { group, item }) =>
            item_detail_texts(v.groups[group as int], v.groups[group as int].items[item as int], width),
        None => seq!["No updates"@],
    }
}

/// The keys the footer lists.
pub open spec fn footer_text() -> Seq<char> {
    "Space select  Left/Right fold  e fold  a all/none  i invert  Enter apply  Esc cancel"@
}

/// The footer, fitted to `width` columns.
pub fn footer_line(width: u16) -> (r: String)
    ensures
        r@ == fitted(footer_text(), width as usize),
{
    fit("Space select  Left/Right fold  e fold  a all/none  i invert  Enter apply  Esc cancel", width as usize)
}

/// The two summary lines: the counts with the per-group summary, and what
/// is under the cursor.
pub struct SummaryText {
    /// `selected/total selected`.
    pub counts: String,
    /// The per-group summary.
    pub sections: String,
    /// The cursor's row, fitted to the width.
    pub cursor: String,
}

/// The text of a visible row.
pub enum RowText {
    Group(String),
    Item(ItemRowText),
}

/// A line of the tree: whether the cursor is on it, and its text.
pub struct TreeLine {
    pub active: bool,
    pub text: RowText,
}

/// Whether `text` is what `row` shows in a tree `width` columns wide.
pub open spec fn row_text_is(v: ChecklistView, row: Row, width: u16, text: RowText) -> bool {
    match (row, text) {
        (Row::Group(g), RowText::Group(t)) => t@ == group_row_text(v.groups[g as int], width),
        (Row::Item { group, item }, RowText::Item(t)) => item_row_is(v.groups[group as int].items, item as int, width, t),
        _ => false,
    }
}

/// How many rows are shown from row `scroll` on, at most `visible`.
pub open spec fn shown_count(total: nat, scroll: usize, visible: usize) -> nat {
    if scroll >= total {
        0
    } else if total - scroll < visible {
        (total - scroll) as nat
    } else {
        visible as nat
    }
}

impl Checklist {
    /// What the summary says of the row under the cursor (see
    /// [`cursor_summary_text`]).
    pub fn cursor_summary(&self) -> (r: String)
        requires
            counts_fit(self@.groups),
        ensures
            r@ == cursor_summary_text(self@),
    {
        proof {
            lemma_rows_valid(self@.groups);
        }
        match self.current_row() {
            Some(Row::Group(g)) => {
                let group = &self.groups[g];
                assert(self@.groups[g as int] == group@);
                let mut text = chars_of(group.title.as_str());
                push_str(&mut text, " section  ");
                push_counts(&mut text, group_checked_count(group), group.items.len());
                push_str(&mut text, " selected");
                assert(text@ =~= cursor_summary_text(self@));
                string_from_chars(&text)
            },
            Some(Row::Item { group, item }) => {
                let it = &self.groups[group].items[item];
                assert(self@.groups[group as int].items[item as int] == it@);
                let mut text = chars_of(it.label.as_str());
                push_str(&mut text, "  ");
                push_str(&mut text, it.current.as_str());
                push_str(&mut text, " -> ");
                push_str(&mut text, it.target.as_str());
                push_str(&mut text, "  ");
                push_str(&mut text, it.impact.as_str());
                assert(text@ =~= cursor_summary_text(self@));
                string_from_chars(&text)
            },
            None => String::from_str("No package under cursor"),
        }
    }

    /// The text of group `g`'s row (see [`group_row_text`]).
    pub fn group_row(&self, g: usize, width: u16) -> (r: String)
        requires
            g < self@.groups.len(),
        ensures
            r@ == group_row_text(self@.groups[g as int], width),
    {
        let group = &self.groups[g];
        assert(self@.groups[g as int] == group@);
        let state = group_check_state(group.items.as_slice());
        let mut text = chars_of(group_marker(state));
        push_str(&mut text, " ");
        push_str(&mut text, if group.expanded { "-" } else { "+" });
        push_str(&mut text, " ");
        push_str(&mut text, group.title.as_str());
        push_str(&mut text, " (");
        push_counts(&mut text, group_checked_count(group), group.items.len());
        push_str(&mut text, ")");
        let ghost gr = self@.groups[g as int];
        assert(text@ =~= marker_text(check_state(gr.items)) + " "@ + (if gr.expanded { "-"@ } else { "+"@ }) + " "@
            + gr.title + " ("@ + count_text(checked_count(gr.items), gr.items.len()) + ")"@);
        fit(string_from_chars(&text).as_str(), row_text_width(width))
    }

    /// The text of item `i` of group `g` (see [`item_row_is`]).
    pub fn item_row(&self, g: usize, i: usize, width: u16) -> (r: ItemRowText)
        requires
            g < self@.groups.len(),
            i < self@.groups[g as int].items.len(),
        ensures
            item_row_is(self@.groups[g as int].items, i as int, width, r),
    {
        let group = &self.groups[g];
        let item = &group.items[i];
        let ghost items = self@.groups[g as int].items;
        assert(items == group@.items);
        assert(items[i as int] == item@);
        let n = group.items.len();
        assert(i < n);
        let mut text: Vec<char> = Vec::new();
        push_str(&mut text, "  ");
        push_str(&mut text, if i + 1 == n { "`-" } else { "|-" });
        push_str(&mut text, " ");
        push_str(&mut text, if item.checked { "[x]" } else { "[ ]" });
        push_str(&mut text, " ");
        push_str(&mut text, item.label.as_str());
        push_str(&mut text, "  ");
        push_str(&mut text, item.current.as_str());
        push_str(&mut text, " -> ");
        push_str(&mut text, item.target.as_str());
        push_str(&mut text, "  ");
        assert(text@ =~= item_summary(items, i as int));
        let summary = string_from_chars(&text);
        let used = text_columns(summary.as_str());
        if impact_shown_apart(used, width, item.impact.as_str()) {
            let r = ItemRowText::Apart { summary, impact: item.impact.clone() };
            assert(impact_apart(items, i as int, width));
            r
        } else {
            let ghost head = text@;
            push_str(&mut text, item.impact.as_str());
            assert(text@ == item_summary(items, i as int) + items[i as int].impact);
            let r = ItemRowText::Whole(fit(string_from_chars(&text).as_str(), row_text_width(width)));
            assert(!impact_apart(items, i as int, width));
            r
        }
    }

    /// The details of group `g` (see [`group_detail_texts`]).
    pub fn group_detail_lines(&self, g: usize, width: u16) -> (r: Vec<String>)
        requires
            g < self@.groups.len(),
        ensures
            string_views(r@) == group_detail_texts(self@.groups[g as int], width),
    {
        let group = &self.groups[g];
        assert(self@.groups[g as int] == group@);
        let n = group.items.len();
        let mut counts: Vec<char> = Vec::new();
        push_counts(&mut counts, group_checked_count(group), n);
        let state = match group_check_state(group.items.as_slice()) {
            GroupCheckState::Unchecked => "none selected",
            GroupCheckState::Partial => "partially selected",
            GroupCheckState::All => "all selected",
        };
        let mut r: Vec<String> = Vec::new();
        r.push(detail_line("Section", group.title.as_str(), width));
        r.push(detail_line("Packages", string_from_chars(&decimal_chars(n as u64)).as_str(), width));
        r.push(detail_line("Selected", string_from_chars(&counts).as_str(), width));
        r.push(detail_line("State", state, width));
        r.push(detail_line("Tree", if group.expanded { "expanded" } else { "collapsed" }, width));
        r.push(String::new());
        r.push(fit("Space toggles the whole section.", width as usize));
        r.push(fit("Left/Right collapses or expands children.", width as usize));
        assert(string_views(r@) =~= group_detail_texts(self@.groups[g as int], width));
        r
    }

    /// The details of item `i` of group `g` (see [`item_detail_texts`]).
    pub fn item_detail_lines(&self, g: usize, i: usize, width: u16) -> (r: Vec<String>)
        requires
            g < self@.groups.len(),
            i < self@.groups[g as int].items.len(),
        ensures
            string_views(r@) == item_detail_texts(self@.groups[g as int], self@.groups[g as int].items[i as int], width),
    {
        let group = &self.groups[g];
        let item = &group.items[i];
        assert(self@.groups[g as int] == group@);
        assert(self@.groups[g as int].items[i as int] == item@);
        let mut r: Vec<String> = Vec::new();
        r.push(detail_line("Package", item.label.as_str(), width));
        r.push(detail_line("Section", group.title.as_str(), width));
        r.push(detail_line("Current", item.current.as_str(), width));
        r.push(detail_line("Target", item.target.as_str(), width));
        r.push(detail_line("Impact", item.impact.as_str(), width));
        r.push(detail_line("Selected", if item.checked { "yes" } else { "no" }, width));
        r.push(String::new());
        r.push(fit("Review impact first; deselect risky upgrades.", width as usize));
        assert(string_views(r@) =~= item_detail_texts(self@.groups[g as int], self@.groups[g as int].items[i as int], width));
        r
    }

    /// The details pane (see [`detail_texts`]).
    pub fn detail_lines(&self, width: u16) -> (r: Vec<String>)
        requires
            counts_fit(self@.groups),
        ensures
            string_views(r@) == detail_texts(self@, width),
    {
        proof {
            lemma_rows_valid(self@.groups);
        }
        match self.current_row() {
            Some(Row::Group(g)) => self.group_detail_lines(g, width),
            Some(Row::Item { group, item }) => self.item_detail_lines(group, item, width),
            None => {
                let mut r: Vec<String> = Vec::new();
                r.push(String::from_str("No updates"));
                assert(string_views(r@) =~= detail_texts(self@, width));
                r
            },
        }
    }

    /// The summary lines for a pane `width` columns wide.
    pub fn summary(&self, width: u16) -> (r: SummaryText)
        requires
            counts_fit(self@.groups),
        ensures
            r.counts@ == count_text(selected_total(self@.groups), item_total(self@.groups)) + " selected"@,
            r.sections@ == section_summary_text(self@.groups),
            r.cursor@ == fitted(cursor_summary_text(self@), width as usize),
    {
        let mut counts: Vec<char> = Vec::new();
        push_counts(&mut counts, self.selected_items(), self.total_items());
        push_str(&mut counts, " selected");
        SummaryText {
            counts: string_from_chars(&counts),
            sections: section_summary(self.groups.as_slice()),
            cursor: fit(self.cursor_summary().as_str(), width as usize),
        }
    }

    /// Scrolls so that the cursor's row is shown among `visible_rows` rows,
    /// then gives the lines of the rows shown, from the first shown row on.
    pub fn tree_lines(&mut self, visible_rows: usize, width: u16) -> (r: Vec<TreeLine>)
        requires
            counts_fit(old(self)@.groups),
        ensures
            final(self)@ == (ChecklistView {
                title: old(self)@.title,
                groups: old(self)@.groups,
                cursor: old(self).cursor,
                scroll: crate::checklist::scrolled(old(self).cursor, old(self).scroll, visible_rows),
            }),
            r@.len() == shown_count(rows(final(self)@.groups).len(), final(self).scroll, visible_rows),
            forall|k: int| 0 <= k < r@.len() ==> {
                &&& (#[trigger] r@[k]).active == (final(self).scroll + k == final(self).cursor)
                &&& row_text_is(final(self)@, rows(final(self)@.groups)[final(self).scroll + k], width, r@[k].text)
            },
    {
        self.keep_cursor_visible(visible_rows);
        proof {
            lemma_rows_valid(self@.groups);
        }
        let rs = self.visible_rows();
        let first = self.scroll;
        let mut r: Vec<TreeLine> = Vec::new();
        let mut k: usize = first;
        while k < rs.len() && k - first < visible_rows
            invariant
                rs@ == rows(self@.groups),
                counts_fit(self@.groups),
                first == self.scroll,
                first <= k,
                first < rs@.len() ==> k <= rs@.len(),
                first >= rs@.len() ==> k == first,
                k - first <= visible_rows,
                r@.len() == k - first,
                forall|j: int| 0 <= j < rows(self@.groups).len() ==> match #[trigger] rows(self@.groups)[j] {
                    Row::Group(g) => g < self@.groups.len(),
                    Row::Item { group, item } => group < self@.groups.len() && item < self@.groups[group as int].items.len(),
                },
                forall|j: int| 0 <= j < r@.len() ==> {
                    &&& (#[trigger] r@[j]).active == (first + j == self.cursor)
                    &&& row_text_is(self@, rs@[first + j], width, r@[j].text)
                },
            decreases rs@.len() - k,
        {
            let row = rs[k];
            assert(rs@[k as int] == rows(self@.groups)[k as int]);
            let text = match row {
                Row::Group(g) => RowText::Group(self.group_row(g, width)),
                Row::Item { group, item } => RowText::Item(self.item_row(group, item, width)),
            };
            r.push(TreeLine { active: k == self.cursor, text });
            k = k + 1;
        }
        r
    }
}

/// How an impact is coloured.
#[derive(Clone, Copy, Debug, PartialEq, Eq, Structural)]
pub enum ImpactTone {
    Major,
    Minor,
    Patch,
    Neutral,
}

/// The tone of an impact: `major`, `minor` and `patch` have their own, any
/// other text is neutral.
pub open spec fn tone_of(impact: Seq<char>) -> ImpactTone {
    if impact == "major"@ {
        ImpactTone::Major
    } else if impact == "minor"@ {
        ImpactTone::Minor
    } else if impact == "patch"@ {
        ImpactTone::Patch
    } else {
        ImpactTone::Neutral
    }
}

/// The tone an impact is shown in (see [`tone_of`]).
pub fn impact_tone(impact: &str) -> (r: ImpactTone)
    ensures
        r == tone_of(impact@),
{
    let chars = chars_of(impact);
    if crate::text::chars_equal(&chars, &chars_of("major")) {
        ImpactTone::Major
    } else if crate::text::chars_equal(&chars, &chars_of("minor")) {
        ImpactTone::Minor
    } else if crate::text::chars_equal(&chars, &chars_of("patch")) {
        ImpactTone::Patch
    } else {
        ImpactTone::Neutral
    }
}

} // verus!
