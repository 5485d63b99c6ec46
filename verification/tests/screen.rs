use cargo_upgrade::checklist::{Checklist, Group, GroupCheckState, Item};
use cargo_upgrade::screen::{
    detail_label, detail_line, fit, fit_measured, impact_shown_apart, footer_line, group_marker, impact_tone, row_text_width, section_summary, ImpactTone, ItemRowText,
    RowText,
};

fn named(label: &str, checked: bool) -> Item {
    Item {
        label: label.to_string(),
        current: "1.0".to_string(),
        target: "1.1".to_string(),
        impact: "minor".to_string(),
        checked,
    }
}

fn list() -> Checklist {
    Checklist {
        title: "Choose".to_string(),
        cursor: 0,
        scroll: 0,
        groups: vec![
            Group { title: "dependencies".into(), expanded: true, items: vec![named("tokio", true), named("clap", true)] },
            Group { title: "devDependencies".into(), expanded: true, items: vec![named("serde", true)] },
        ],
    }
}

fn detail(label: &str, value: &str) -> String {
    format!("{label:<9} {value}")
}

#[test]
fn truncates_long_text() {
    assert_eq!(fit("serde_json", 8), "serde...");
}

#[test]
fn fitting_keeps_short_text_and_counts_columns() {
    assert_eq!(fit("abc", 3), "abc");
    assert_eq!(fit("abcd", 3), "...");
    assert_eq!(fit("abcd", 2), "..");
    assert_eq!(fit("abcd", 0), "");
    assert_eq!(fit("日本語", 6), "日本語");
    assert_eq!(fit("日本語", 5), "日...");
}

#[test]
fn row_width_leaves_room_for_the_cursor_mark() {
    assert_eq!(row_text_width(40), 38);
    assert_eq!(row_text_width(1), 0);
}

#[test]
fn marks_group_check_states() {
    assert_eq!(group_marker(GroupCheckState::Unchecked), "[ ]");
    assert_eq!(group_marker(GroupCheckState::Partial), "[-]");
    assert_eq!(group_marker(GroupCheckState::All), "[x]");
}

#[test]
fn detail_lines_pad_their_label() {
    assert_eq!(detail_line("Tree", "expanded", 40), "Tree      expanded");
    assert_eq!(detail_line("Selected", "yes", 40), detail("Selected", "yes"));
    assert_eq!(detail_line("Package", "serde_json", 14), "Package   s...");
}

#[test]
fn group_rows_show_mark_fold_title_and_counts() {
    let mut checklist = list();
    assert_eq!(checklist.group_row(0, 40), "[x] - dependencies (2/2)");
    assert_eq!(checklist.group_row(0, 12), "[x] - d...");
    checklist.groups[1].expanded = false;
    checklist.groups[1].items[0].checked = false;
    assert_eq!(checklist.group_row(1, 40), "[ ] + devDependencies (0/1)");
}

#[test]
fn item_rows_show_impact_apart_when_there_is_room() {
    let checklist = list();
    match checklist.item_row(0, 0, 60) {
        ItemRowText::Apart { summary, impact } => {
            assert_eq!(summary, "  |- [x] tokio  1.0 -> 1.1  ");
            assert_eq!(impact, "minor");
        },
        ItemRowText::Whole(text) => panic!("unexpected whole row {text}"),
    }
    match checklist.item_row(0, 1, 30) {
        ItemRowText::Whole(text) => assert_eq!(text, "  `- [x] clap  1.0 -> 1.1..."),
        ItemRowText::Apart { summary, .. } => panic!("unexpected split row {summary}"),
    }
}

#[test]
fn summarizes_sections_and_cursor() {
    let mut checklist = list();
    checklist.groups[0].items[1].checked = false;
    assert_eq!(section_summary(&checklist.groups), "dependencies 1/2  devDependencies 1/1");
    assert_eq!(checklist.cursor_summary(), "dependencies section  1/2 selected");
    checklist.cursor = 1;
    assert_eq!(checklist.cursor_summary(), "tokio  1.0 -> 1.1  minor");
    checklist.cursor = 10;
    assert_eq!(checklist.cursor_summary(), "No package under cursor");
    checklist.cursor = 0;
    let summary = checklist.summary(80);
    assert_eq!(summary.counts, "2/3 selected");
    assert_eq!(summary.sections, "dependencies 1/2  devDependencies 1/1");
    assert_eq!(summary.cursor, "dependencies section  1/2 selected");
    assert_eq!(checklist.summary(10).cursor, "depende...");
}

#[test]
fn details_describe_the_row_under_the_cursor() {
    let mut checklist = list();
    assert_eq!(
        checklist.detail_lines(60),
        vec![
            detail("Section", "dependencies"),
            detail("Packages", "2"),
            detail("Selected", "2/2"),
            detail("State", "all selected"),
            detail("Tree", "expanded"),
            String::new(),
            "Space toggles the whole section.".to_string(),
            "Left/Right collapses or expands children.".to_string(),
        ]
    );
    checklist.cursor = 1;
    checklist.groups[0].items[0].checked = false;
    assert_eq!(
        checklist.detail_lines(60),
        vec![
            detail("Package", "tokio"),
            detail("Section", "dependencies"),
            detail("Current", "1.0"),
            detail("Target", "1.1"),
            detail("Impact", "minor"),
            detail("Selected", "no"),
            String::new(),
            "Review impact first; deselect risky upgrades.".to_string(),
        ]
    );
    checklist.cursor = 0;
    assert_eq!(checklist.detail_lines(60)[3], detail("State", "partially selected"));
    checklist.cursor = 10;
    assert_eq!(checklist.detail_lines(60), vec!["No updates".to_string()]);
}

#[test]
fn footer_lists_the_keys() {
    assert_eq!(
        footer_line(200),
        "Space select  Left/Right fold  e fold  a all/none  i invert  Enter apply  Esc cancel"
    );
    assert_eq!(footer_line(10), "Space s...");
}

#[test]
fn tree_shows_the_rows_around_the_cursor() {
    let mut checklist = list();
    checklist.cursor = 4;
    let lines = checklist.tree_lines(2, 40);
    assert_eq!(checklist.scroll, 3);
    assert_eq!(lines.len(), 2);
    assert!(!lines[0].active);
    match &lines[0].text {
        RowText::Group(text) => assert_eq!(text, "[x] - devDependencies (1/1)"),
        RowText::Item(_) => panic!("expected a group row"),
    }
    assert!(lines[1].active);
    match &lines[1].text {
        RowText::Item(ItemRowText::Apart { summary, impact }) => {
            assert_eq!(summary, "  `- [x] serde  1.0 -> 1.1  ");
            assert_eq!(impact, "minor");
        },
        _ => panic!("expected an item row with its impact apart"),
    }
    checklist.cursor = 0;
    let all = checklist.tree_lines(10, 40);
    assert_eq!(checklist.scroll, 0);
    assert_eq!(all.len(), 5);
}

#[test]
fn impacts_have_their_tone() {
    assert_eq!(impact_tone("major"), ImpactTone::Major);
    assert_eq!(impact_tone("minor"), ImpactTone::Minor);
    assert_eq!(impact_tone("patch"), ImpactTone::Patch);
    assert_eq!(impact_tone("same"), ImpactTone::Neutral);
    assert_eq!(impact_tone("unknown"), ImpactTone::Neutral);
}

#[test]
fn fitting_uses_the_measured_widths() {
    assert_eq!(fit_measured("abcdef", 10, 6, &[1, 2, 3, 4, 5, 6]), "abcdef");
    assert_eq!(fit_measured("abcdef", 5, 6, &[1, 2, 3, 4, 5, 6]), "ab...");
    assert_eq!(fit_measured("abcdef", 5, 12, &[2, 4, 6, 8, 10, 12]), "a...");
    assert_eq!(fit_measured("abcdef", 5, 12, &[3, 4, 6, 8, 10, 12]), "...");
    assert_eq!(fit_measured("abcdef", 2, 6, &[1, 2, 3, 4, 5, 6]), "..");
}

#[test]
fn impact_is_shown_apart_only_with_room_to_spare() {
    assert!(impact_shown_apart(28, 40, "minor"));
    assert!(!impact_shown_apart(33, 40, "minor"));
    assert!(impact_shown_apart(32, 40, "minor"));
    assert!(!impact_shown_apart(50, 40, ""));
    assert!(!impact_shown_apart(30, 40, "größer"));
}

#[test]
fn detail_labels_are_padded_to_nine_characters() {
    assert_eq!(detail_label("Tree", "expanded"), "Tree      expanded");
    assert_eq!(detail_label("Selected", "yes"), "Selected  yes");
    assert_eq!(detail_label("Namelonger", "x"), "Namelonger x");
}
