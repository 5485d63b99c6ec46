use cargo_upgrade::checklist::{ChecklistSelection, KeyInput};
use cargo_upgrade::cli::Cli;
use cargo_upgrade::dependency::{DependencySection, DependencyUpdate, ManifestDependency};
use cargo_upgrade::options::filter_dependencies;
use cargo_upgrade::review::{
    build_update_checklist_groups, group_updates_by_section, select_updates_interactively, selected_updates_from_selection,
};

fn cli(prod: bool, dev: bool, crates: &[&str]) -> Cli {
    Cli {
        recursive: false,
        latest: false,
        global: false,
        workspace: false,
        prod,
        dev,
        no_optional: false,
        interactive: false,
        dry_run: false,
        filter: Vec::new(),
        depth: None,
        crates: crates.iter().map(|name| name.to_string()).collect(),
    }
}

fn dependency(name: &str, section: DependencySection) -> ManifestDependency {
    ManifestDependency {
        name: name.to_string(),
        requirement: "1.0".to_string(),
        section,
    }
}

fn update(name: &str, section: DependencySection, current: &str, target: &str) -> DependencyUpdate {
    DependencyUpdate::new(name.to_string(), section, current.to_string(), target.to_string())
}

fn three_dependencies() -> Vec<ManifestDependency> {
    vec![
        dependency("tokio", DependencySection::Dependencies),
        dependency("serde", DependencySection::DevDependencies),
        dependency("cc", DependencySection::BuildDependencies),
    ]
}

#[test]
fn filters_to_normal_and_build_sections_for_production_dependencies() {
    let filtered = filter_dependencies(three_dependencies(), &cli(true, false, &[]));
    assert_eq!(filtered.iter().map(|it| it.name.as_str()).collect::<Vec<_>>(), vec!["tokio", "cc"]);
}

#[test]
fn filters_to_dev_section_for_development_dependencies() {
    let filtered = filter_dependencies(three_dependencies(), &cli(false, true, &[]));
    assert_eq!(filtered.iter().map(|it| it.name.as_str()).collect::<Vec<_>>(), vec!["serde"]);
}

#[test]
fn combines_dependency_sections_and_crate_filter() {
    let filtered = filter_dependencies(three_dependencies(), &cli(true, false, &["cc", "serde"]));
    assert_eq!(filtered.iter().map(|it| it.name.as_str()).collect::<Vec<_>>(), vec!["cc"]);
}

#[test]
fn groups_updates_by_section_in_stable_order() {
    let updates = vec![
        update("serde", DependencySection::DevDependencies, "1.0", "1.1"),
        update("tokio", DependencySection::Dependencies, "1.0", "1.1"),
        update("cc", DependencySection::BuildDependencies, "1.0", "1.1"),
        update("clap", DependencySection::Dependencies, "4.0", "4.1"),
    ];

    let grouped = group_updates_by_section(&updates);

    assert_eq!(grouped.len(), 3);
    assert_eq!(grouped[0].0, DependencySection::Dependencies);
    assert_eq!(grouped[0].1.iter().map(|it| it.name.as_str()).collect::<Vec<_>>(), vec!["tokio", "clap"]);
    assert_eq!(grouped[1].0, DependencySection::DevDependencies);
    assert_eq!(grouped[1].1.iter().map(|it| it.name.as_str()).collect::<Vec<_>>(), vec!["serde"]);
    assert_eq!(grouped[2].0, DependencySection::BuildDependencies);
    assert_eq!(grouped[2].1.iter().map(|it| it.name.as_str()).collect::<Vec<_>>(), vec!["cc"]);
}

#[test]
fn builds_checklist_groups_from_updates() {
    let grouped = vec![
        (
            DependencySection::Dependencies,
            vec![update("tokio", DependencySection::Dependencies, "1.0", "1.1")],
        ),
        (
            DependencySection::DevDependencies,
            vec![update("serde", DependencySection::DevDependencies, "1.0", "1.1")],
        ),
    ];

    let groups = build_update_checklist_groups(&grouped);

    assert_eq!(groups.len(), 2);
    assert_eq!(groups[0].title, "dependencies");
    assert_eq!(groups[0].items[0].label, "tokio");
    assert_eq!(groups[0].items[0].current, "1.0");
    assert_eq!(groups[0].items[0].target, "1.1");
    assert_eq!(groups[0].items[0].impact, "minor");
    assert_eq!(groups[1].title, "devDependencies");
    assert_eq!(groups[1].items[0].label, "serde");
}

#[test]
fn maps_selection_indices_back_to_updates() {
    let grouped = vec![
        (
            DependencySection::Dependencies,
            vec![
                update("tokio", DependencySection::Dependencies, "1.0", "1.1"),
                update("clap", DependencySection::Dependencies, "4.0", "4.1"),
            ],
        ),
        (
            DependencySection::DevDependencies,
            vec![update("serde", DependencySection::DevDependencies, "1.0", "1.1")],
        ),
    ];
    let selection = vec![
        ChecklistSelection { group_index: 0, item_index: 1 },
        ChecklistSelection { group_index: 1, item_index: 0 },
    ];

    let updates = selected_updates_from_selection(&grouped, &selection);

    assert_eq!(updates.iter().map(|it| it.name.as_str()).collect::<Vec<_>>(), vec!["clap", "serde"]);
}

#[test]
fn returns_empty_updates_for_empty_selection() {
    let grouped = vec![(
        DependencySection::Dependencies,
        vec![update("tokio", DependencySection::Dependencies, "1.0", "1.1")],
    )];

    let updates = selected_updates_from_selection(&grouped, &[]);

    assert!(updates.is_empty());
}

#[test]
fn selection_that_points_nowhere_is_skipped() {
    let grouped = vec![(
        DependencySection::Dependencies,
        vec![update("tokio", DependencySection::Dependencies, "1.0", "1.1")],
    )];
    let selection = vec![
        ChecklistSelection { group_index: 3, item_index: 0 },
        ChecklistSelection { group_index: 0, item_index: 5 },
        ChecklistSelection { group_index: 0, item_index: 0 },
    ];

    let updates = selected_updates_from_selection(&grouped, &selection);

    assert_eq!(updates.iter().map(|it| it.name.as_str()).collect::<Vec<_>>(), vec!["tokio"]);
}

#[test]
fn crate_names_are_compared_exactly() {
    let spaced = filter_dependencies(three_dependencies(), &cli(false, false, &["  serde "]));
    assert!(spaced.is_empty());
    let exact = filter_dependencies(three_dependencies(), &cli(false, false, &["serde"]));
    assert_eq!(exact.iter().map(|it| it.name.as_str()).collect::<Vec<_>>(), vec!["serde"]);
}

#[test]
fn no_options_keep_every_dependency_in_order() {
    let filtered = filter_dependencies(three_dependencies(), &cli(false, false, &[]));
    assert_eq!(filtered.iter().map(|it| it.name.as_str()).collect::<Vec<_>>(), vec!["tokio", "serde", "cc"]);
}

#[test]
fn filtering_twice_keeps_the_same_dependencies() {
    let once = filter_dependencies(three_dependencies(), &cli(true, false, &["cc", "tokio"]));
    let names_once = once.iter().map(|it| it.name.clone()).collect::<Vec<_>>();
    let twice = filter_dependencies(once, &cli(true, false, &["cc", "tokio"]));
    assert_eq!(twice.iter().map(|it| it.name.clone()).collect::<Vec<_>>(), names_once);
}

#[test]
fn prod_and_dev_together_cover_every_dependency() {
    let prod = filter_dependencies(three_dependencies(), &cli(true, false, &[]));
    let dev = filter_dependencies(three_dependencies(), &cli(false, true, &[]));
    assert_eq!(prod.len() + dev.len(), three_dependencies().len());
}

#[test]
fn grouping_keeps_every_update() {
    let updates = vec![
        update("a", DependencySection::BuildDependencies, "1", "2"),
        update("b", DependencySection::BuildDependencies, "1", "2"),
        update("c", DependencySection::Dependencies, "1", "2"),
    ];
    let grouped = group_updates_by_section(&updates);
    assert_eq!(grouped.len(), 2);
    assert_eq!(grouped.iter().map(|(_, us)| us.len()).sum::<usize>(), 3);
    assert_eq!(grouped[0].0, DependencySection::Dependencies);
    assert_eq!(grouped[1].0, DependencySection::BuildDependencies);
}

fn planned_updates() -> Vec<DependencyUpdate> {
    vec![
        update("serde", DependencySection::DevDependencies, "1.0", "1.1"),
        update("tokio", DependencySection::Dependencies, "1.0", "1.1"),
        update("cc", DependencySection::BuildDependencies, "1.0", "1.1"),
        update("clap", DependencySection::Dependencies, "4.0", "4.1"),
    ]
}

#[test]
fn confirming_at_once_keeps_every_update_table_by_table() {
    let chosen = select_updates_interactively(&planned_updates(), &[KeyInput::Enter]);
    assert_eq!(chosen.iter().map(|it| it.name.as_str()).collect::<Vec<_>>(), vec!["tokio", "clap", "serde", "cc"]);
}

#[test]
fn review_keeps_what_is_still_checked() {
    let keys = [
        KeyInput::Down,
        KeyInput::Char { c: ' ', control: false },
        KeyInput::End,
        KeyInput::Left,
        KeyInput::Char { c: ' ', control: false },
        KeyInput::Enter,
    ];
    let chosen = select_updates_interactively(&planned_updates(), &keys);
    assert_eq!(chosen.iter().map(|it| it.name.as_str()).collect::<Vec<_>>(), vec!["clap", "serde"]);
}

#[test]
fn cancelled_review_keeps_nothing() {
    let chosen = select_updates_interactively(&planned_updates(), &[KeyInput::Down, KeyInput::Esc, KeyInput::Enter]);
    assert!(chosen.is_empty());
    let unfinished = select_updates_interactively(&planned_updates(), &[KeyInput::Down]);
    assert!(unfinished.is_empty());
}
