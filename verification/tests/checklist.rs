use cargo_upgrade::checklist::{
    action_for_key, group_check_state, Checklist, ChecklistGroup, ChecklistItem, ChecklistSelection, Group,
    GroupCheckState, Item, KeyAction, KeyInput, Row,
};

fn item(checked: bool) -> Item {
    Item {
        label: String::new(),
        current: String::new(),
        target: String::new(),
        impact: String::new(),
        checked,
    }
}

fn named(label: &str, checked: bool) -> Item {
    Item {
        label: label.to_string(),
        current: "1.0".to_string(),
        target: "1.1".to_string(),
        impact: "minor".to_string(),
        checked,
    }
}

fn two_groups(first_expanded: bool, second_expanded: bool) -> Checklist {
    Checklist {
        title: String::new(),
        cursor: 0,
        scroll: 0,
        groups: vec![
            Group {
                title: "dependencies".into(),
                expanded: first_expanded,
                items: vec![named("tokio", true), named("clap", true)],
            },
            Group {
                title: "devDependencies".into(),
                expanded: second_expanded,
                items: vec![named("serde", true)],
            },
        ],
    }
}

fn checks(list: &Checklist) -> Vec<Vec<bool>> {
    list.groups.iter().map(|g| g.items.iter().map(|i| i.checked).collect()).collect()
}

#[test]
fn derives_none_when_nothing_is_checked() {
    let items = vec![item(false), item(false)];
    assert_eq!(group_check_state(&items), GroupCheckState::Unchecked);
}

#[test]
fn derives_partial_when_only_some_items_are_checked() {
    let items = vec![item(true), item(false)];
    assert_eq!(group_check_state(&items), GroupCheckState::Partial);
}

#[test]
fn derives_all_when_everything_is_checked() {
    let items = vec![item(true), item(true)];
    assert_eq!(group_check_state(&items), GroupCheckState::All);
}

#[test]
fn derives_none_for_empty_group() {
    assert_eq!(group_check_state(&[]), GroupCheckState::Unchecked);
}

#[test]
fn visible_rows_respect_group_expansion() {
    let checklist = Checklist {
        title: String::new(),
        cursor: 0,
        scroll: 0,
        groups: vec![
            Group {
                title: "dependencies".into(),
                expanded: true,
                items: vec![item(true), item(true)],
            },
            Group {
                title: "devDependencies".into(),
                expanded: false,
                items: vec![item(true)],
            },
        ],
    };

    let rows = checklist.visible_rows();

    assert_eq!(rows.len(), 4);
    assert!(matches!(rows[0], Row::Group(0)));
    assert!(matches!(rows[1], Row::Item { group: 0, item: 0 }));
    assert!(matches!(rows[2], Row::Item { group: 0, item: 1 }));
    assert!(matches!(rows[3], Row::Group(1)));
}

#[test]
fn toggling_group_checks_every_item_when_not_all_are_checked() {
    let mut list = Checklist {
        title: String::new(),
        cursor: 0,
        scroll: 0,
        groups: vec![Group {
            title: "dependencies".into(),
            expanded: true,
            items: vec![item(false), item(true)],
        }],
    };

    list.toggle_group(0);

    assert!(list.groups[0].items.iter().all(|item| item.checked));
}

#[test]
fn toggling_a_fully_checked_group_unchecks_it() {
    let mut list = two_groups(true, true);
    list.toggle_group(0);
    assert_eq!(checks(&list), vec![vec![false, false], vec![true]]);
}

#[test]
fn new_list_starts_expanded_checked_at_the_top() {
    let groups = vec![ChecklistGroup {
        title: "dependencies".to_string(),
        items: vec![ChecklistItem {
            label: "tokio".to_string(),
            current: "1.0".to_string(),
            target: "1.1".to_string(),
            impact: "minor".to_string(),
        }],
    }];
    let list = Checklist::new("Choose", groups);
    assert_eq!(list.title, "Choose");
    assert_eq!(list.cursor, 0);
    assert_eq!(list.scroll, 0);
    assert!(list.groups[0].expanded);
    assert!(list.groups[0].items[0].checked);
    assert_eq!(list.groups[0].items[0].label, "tokio");
}

#[test]
fn inverting_twice_restores_the_checks() {
    let mut list = two_groups(true, true);
    list.groups[0].items[1].checked = false;
    let before = checks(&list);
    list.invert_selection();
    assert_eq!(checks(&list), vec![vec![false, true], vec![false]]);
    list.invert_selection();
    assert_eq!(checks(&list), before);
}

#[test]
fn toggling_all_checks_everything_unless_all_are_checked() {
    let mut list = two_groups(true, true);
    list.groups[1].items[0].checked = false;
    list.toggle_all();
    assert_eq!(checks(&list), vec![vec![true, true], vec![true]]);
    list.toggle_all();
    assert_eq!(checks(&list), vec![vec![false, false], vec![false]]);
}

#[test]
fn counts_selected_and_total_items() {
    let mut list = two_groups(true, false);
    list.groups[0].items[0].checked = false;
    assert_eq!(list.selected_items(), 2);
    assert_eq!(list.total_items(), 3);
}

#[test]
fn moving_stops_at_both_ends() {
    let mut list = two_groups(true, true);
    list.move_up();
    assert_eq!(list.cursor, 0);
    list.move_end();
    assert_eq!(list.cursor, 4);
    list.move_down();
    assert_eq!(list.cursor, 4);
    list.move_page_up();
    assert_eq!(list.cursor, 0);
    list.move_page_down();
    assert_eq!(list.cursor, 4);
    list.move_home();
    assert_eq!(list.cursor, 0);
    list.move_down();
    assert_eq!(list.cursor, 1);
}

#[test]
fn collapsing_from_an_item_moves_to_its_group() {
    let mut list = two_groups(true, true);
    list.cursor = 4;
    list.collapse_or_parent();
    assert_eq!(list.cursor, 3);
    list.collapse_or_parent();
    assert!(!list.groups[1].expanded);
    assert_eq!(list.cursor, 3);
    list.expand_current_group();
    assert!(list.groups[1].expanded);
}

#[test]
fn folding_keeps_the_cursor_on_a_visible_row() {
    let mut list = two_groups(true, true);
    list.move_end();
    list.cursor = 0;
    list.toggle_current_group_expansion();
    assert!(!list.groups[0].expanded);
    assert_eq!(list.visible_rows().len(), 3);
    list.cursor = 2;
    list.toggle_current_group_expansion();
    assert!(list.groups[1].expanded);
    assert_eq!(list.cursor, 2);
    list.cursor = 1;
    list.toggle_current_group_expansion();
    assert!(!list.groups[1].expanded);
    assert_eq!(list.visible_rows().len(), 2);
    assert_eq!(list.cursor, 1);
    assert!(list.cursor <= list.last_visible_row_index());
}

#[test]
fn every_action_keeps_the_cursor_in_range() {
    let actions = [
        KeyAction::MoveUp,
        KeyAction::MoveDown,
        KeyAction::PageUp,
        KeyAction::PageDown,
        KeyAction::Home,
        KeyAction::End,
        KeyAction::CollapseOrParent,
        KeyAction::Expand,
        KeyAction::ToggleRow,
        KeyAction::ToggleAll,
        KeyAction::Invert,
        KeyAction::ToggleExpansion,
    ];
    let mut list = two_groups(true, true);
    for round in 0..3 {
        for (k, action) in actions.iter().enumerate() {
            if (k + round) % 2 == 0 {
                list.apply(KeyAction::End);
            }
            list.apply(*action);
            assert!(list.cursor <= list.last_visible_row_index());
        }
    }
}

#[test]
fn toggling_the_current_row_acts_on_group_or_item() {
    let mut list = two_groups(true, true);
    list.cursor = 2;
    list.toggle_current_row();
    assert_eq!(checks(&list), vec![vec![true, false], vec![true]]);
    list.cursor = 0;
    list.toggle_current_row();
    assert_eq!(checks(&list), vec![vec![true, true], vec![true]]);
}

#[test]
fn keeps_the_cursor_row_visible_when_scrolling() {
    let mut list = two_groups(true, true);
    list.cursor = 4;
    list.keep_cursor_visible(2);
    assert_eq!(list.scroll, 3);
    list.cursor = 1;
    list.keep_cursor_visible(2);
    assert_eq!(list.scroll, 1);
    list.keep_cursor_visible(0);
    assert_eq!(list.scroll, 1);
}

#[test]
fn selection_lists_checked_items_in_order() {
    let mut list = two_groups(true, true);
    list.groups[0].items[0].checked = false;
    let selection = list.into_selection();
    assert_eq!(
        selection,
        vec![
            ChecklistSelection { group_index: 0, item_index: 1 },
            ChecklistSelection { group_index: 1, item_index: 0 },
        ]
    );
}

#[test]
fn keys_map_to_actions() {
    assert_eq!(action_for_key(KeyInput::Char { c: 'c', control: true }), KeyAction::Cancel);
    assert_eq!(action_for_key(KeyInput::Char { c: 'c', control: false }), KeyAction::Ignore);
    assert_eq!(action_for_key(KeyInput::Char { c: 'q', control: false }), KeyAction::Cancel);
    assert_eq!(action_for_key(KeyInput::Esc), KeyAction::Cancel);
    assert_eq!(action_for_key(KeyInput::Char { c: 'k', control: false }), KeyAction::MoveUp);
    assert_eq!(action_for_key(KeyInput::Char { c: 'j', control: false }), KeyAction::MoveDown);
    assert_eq!(action_for_key(KeyInput::Char { c: 'h', control: false }), KeyAction::CollapseOrParent);
    assert_eq!(action_for_key(KeyInput::Char { c: 'l', control: false }), KeyAction::Expand);
    assert_eq!(action_for_key(KeyInput::Char { c: ' ', control: false }), KeyAction::ToggleRow);
    assert_eq!(action_for_key(KeyInput::Char { c: 'a', control: false }), KeyAction::ToggleAll);
    assert_eq!(action_for_key(KeyInput::Char { c: 'i', control: false }), KeyAction::Invert);
    assert_eq!(action_for_key(KeyInput::Char { c: 'e', control: false }), KeyAction::ToggleExpansion);
    assert_eq!(action_for_key(KeyInput::Enter), KeyAction::Confirm);
    assert_eq!(action_for_key(KeyInput::PageDown), KeyAction::PageDown);
    assert_eq!(action_for_key(KeyInput::Other), KeyAction::Ignore);
}

#[test]
fn a_session_confirms_cancels_or_runs_out() {
    let confirmed = two_groups(true, true).run(&[KeyInput::Down, KeyInput::Char { c: ' ', control: false }, KeyInput::Enter]);
    assert_eq!(
        confirmed,
        vec![
            ChecklistSelection { group_index: 0, item_index: 1 },
            ChecklistSelection { group_index: 1, item_index: 0 },
        ]
    );
    let cancelled = two_groups(true, true).run(&[KeyInput::Char { c: 'a', control: false }, KeyInput::Esc, KeyInput::Enter]);
    assert!(cancelled.is_empty());
    let unfinished = two_groups(true, true).run(&[KeyInput::Down]);
    assert!(unfinished.is_empty());
}
