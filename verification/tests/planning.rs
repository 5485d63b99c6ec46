use cargo_upgrade::cli::Cli;
use cargo_upgrade::dependency::{
    collect_from_section, collect_manifest_dependencies, requirement_of, DependencyEntry, DependencySection,
    DependencySpec, DependencyUpdate, ManifestDependency, ManifestTables,
};
use cargo_upgrade::error::UpgradeError;
use cargo_upgrade::flow::{step_after_choice, step_after_plan, update_line, update_lines, RunStep, WriteStep};
use cargo_upgrade::impact::{classify_requirement_change, classify_update_impact, parse_requirement_version};
use cargo_upgrade::options::{collect_filtered_dependencies, ensure_supported_options, section_is_selected};
use cargo_upgrade::plan::{build_upgrade_plan, UpgradePlan};
use cargo_upgrade::registry::VersionResolution;
use cargo_upgrade::release::Release;

fn cli() -> Cli {
    Cli {
        recursive: false,
        latest: false,
        global: false,
        workspace: false,
        prod: false,
        dev: false,
        no_optional: false,
        interactive: false,
        dry_run: false,
        filter: Vec::new(),
        depth: None,
        crates: Vec::new(),
    }
}

fn v(text: &str) -> Release {
    Release::parse(text).unwrap()
}

fn dep(name: &str, requirement: &str, section: DependencySection) -> ManifestDependency {
    ManifestDependency { name: name.to_string(), requirement: requirement.to_string(), section }
}

fn entry(name: &str, spec: DependencySpec) -> DependencyEntry {
    DependencyEntry { name: name.to_string(), spec }
}

fn update(name: &str, current: &str, target: &str) -> DependencyUpdate {
    DependencyUpdate::new(name.to_string(), DependencySection::Dependencies, current.to_string(), target.to_string())
}

#[test]
fn classifies_changes_by_first_differing_number() {
    assert_eq!(classify_requirement_change("1.0", "2.0"), "major");
    assert_eq!(classify_requirement_change("1.0", "1.1"), "minor");
    assert_eq!(classify_requirement_change("~1.2.3", "~1.2.9"), "patch");
    assert_eq!(classify_requirement_change("^1.2.3", "=1.2.3"), "same");
    assert_eq!(classify_requirement_change("*", "^1.2.3"), "unknown");
    assert_eq!(classify_requirement_change("=1.2, <2", "1.3"), "minor");
    assert_eq!(classify_requirement_change(">=1.2", "1.3"), "unknown");
    assert_eq!(classify_update_impact(&update("serde", "1.0.1", "2.0.0")), "major");
}

#[test]
fn reads_the_version_a_requirement_is_written_around() {
    assert_eq!(parse_requirement_version(" ^1 ").unwrap().to_text(), "1.0.0");
    assert_eq!(parse_requirement_version("~=1.2").unwrap().to_text(), "1.2.0");
    assert_eq!(parse_requirement_version("1.2.3-rc.1, <2").unwrap().to_text(), "1.2.3-rc.1");
    assert!(parse_requirement_version("x.y").is_none());
    assert!(parse_requirement_version("").is_none());
}

#[test]
fn section_scope_follows_prod_and_dev() {
    let mut options = cli();
    assert!(section_is_selected(DependencySection::DevDependencies, &options));
    options.prod = true;
    assert!(section_is_selected(DependencySection::BuildDependencies, &options));
    assert!(!section_is_selected(DependencySection::DevDependencies, &options));
    options.prod = false;
    options.dev = true;
    assert!(!section_is_selected(DependencySection::Dependencies, &options));
    assert!(section_is_selected(DependencySection::DevDependencies, &options));
}

#[test]
fn accepts_supported_options_and_names_every_unsupported_one() {
    assert!(ensure_supported_options(&cli()).is_ok());
    let mut options = cli();
    options.recursive = true;
    options.workspace = true;
    options.filter = vec!["member".to_string()];
    options.depth = Some(2);
    match ensure_supported_options(&options) {
        Err(error @ UpgradeError::UnsupportedOptions(_)) => {
            assert_eq!(error.message(), "unsupported options: --recursive, --workspace, --filter, --depth");
        },
        other => panic!("unexpected {:?}", other),
    }
    let mut one = cli();
    one.no_optional = true;
    one.global = true;
    match ensure_supported_options(&one) {
        Err(UpgradeError::UnsupportedOptions(flags)) => assert_eq!(flags, vec!["--global", "--no-optional"]),
        other => panic!("unexpected {:?}", other),
    }
}

#[test]
fn invalid_requirement_message_is_semvers() {
    let error = UpgradeError::InvalidRequirement("unexpected character".to_string());
    assert_eq!(error.message(), "unexpected character");
}

#[test]
fn requirement_comes_from_string_or_version_field() {
    assert_eq!(requirement_of(&DependencySpec::Simple("1.0".to_string())), Some("1.0".to_string()));
    assert_eq!(requirement_of(&DependencySpec::Inherited), None);
    assert_eq!(requirement_of(&DependencySpec::Detailed { version: None }), None);
    assert_eq!(requirement_of(&DependencySpec::Detailed { version: Some("~2".to_string()) }), Some("~2".to_string()));
}

fn tables() -> ManifestTables {
    ManifestTables::new(
        vec![
            entry("local", DependencySpec::Detailed { version: None }),
            entry("serde", DependencySpec::Simple("1.0".to_string())),
            entry("tokio", DependencySpec::Detailed { version: Some("1.44".to_string()) }),
        ],
        vec![entry("insta", DependencySpec::Simple("1".to_string())), entry("shared", DependencySpec::Inherited)],
        vec![entry("cc", DependencySpec::Simple("1.2".to_string()))],
    )
    .unwrap()
}

#[test]
fn collects_dependencies_with_requirements_in_table_order() {
    let all = collect_manifest_dependencies(&tables());
    assert_eq!(
        all.iter().map(|d| (d.name.as_str(), d.requirement.as_str(), d.section)).collect::<Vec<_>>(),
        vec![
            ("serde", "1.0", DependencySection::Dependencies),
            ("tokio", "1.44", DependencySection::Dependencies),
            ("insta", "1", DependencySection::DevDependencies),
            ("cc", "1.2", DependencySection::BuildDependencies),
        ]
    );
    let build = collect_from_section(&tables(), DependencySection::BuildDependencies);
    assert_eq!(build.len(), 1);
    let mut options = cli();
    options.dev = true;
    let filtered = collect_filtered_dependencies(&tables(), &options);
    assert_eq!(filtered.iter().map(|d| d.name.as_str()).collect::<Vec<_>>(), vec!["insta"]);
}

#[test]
fn plans_updates_and_reports_failed_lookups() {
    let resolutions = vec![
        VersionResolution { dependency: dep("serde", "1.0", DependencySection::Dependencies), releases: Ok(vec![v("1.0.1"), v("1.0.219"), v("2.0.0")]) },
        VersionResolution { dependency: dep("gone", "1", DependencySection::Dependencies), releases: Err("not found".to_string()) },
        VersionResolution { dependency: dep("cc", "=1.2.0", DependencySection::BuildDependencies), releases: Ok(vec![v("1.2.0")]) },
    ];
    let plan = build_upgrade_plan(resolutions, false).unwrap();
    assert_eq!(plan.updates.len(), 1);
    assert_eq!(update_line(&plan.updates[0]), "serde 1.0 -> 1.0.219");
    assert_eq!(plan.failures, vec!["failed to fetch releases for gone: not found"]);
}

#[test]
fn plans_latest_targets_with_the_requirement_style() {
    let resolutions = vec![
        VersionResolution { dependency: dep("tokio", "~1.0", DependencySection::Dependencies), releases: Ok(vec![v("1.44.2"), v("1.0.0")]) },
        VersionResolution { dependency: dep("clap", "=4.5.0", DependencySection::DevDependencies), releases: Ok(vec![v("4.5.0"), v("4.6.1")]) },
    ];
    let plan = build_upgrade_plan(resolutions, true).unwrap();
    assert_eq!(update_lines(&plan.updates), vec!["tokio ~1.0 -> ~1.44.2", "clap =4.5.0 -> =4.6.1"]);
    assert!(plan.failures.is_empty());
}

#[test]
fn planning_stops_at_the_first_unreadable_requirement() {
    let resolutions = vec![
        VersionResolution { dependency: dep("bad", "one point two", DependencySection::Dependencies), releases: Ok(vec![v("1.2.0")]) },
        VersionResolution { dependency: dep("gone", "1", DependencySection::Dependencies), releases: Err("timeout".to_string()) },
    ];
    assert!(matches!(build_upgrade_plan(resolutions, false), Err(UpgradeError::InvalidRequirement(_))));
}

#[test]
fn decides_what_follows_the_plan() {
    let empty = UpgradePlan { updates: Vec::new(), failures: vec!["failed".to_string()] };
    match step_after_plan(&empty, &cli()) {
        RunStep::Done(lines) => assert_eq!(lines, vec!["No updates."]),
        other => panic!("unexpected {:?}", other),
    }
    let plan = UpgradePlan { updates: vec![update("serde", "1.0", "1.0.219")], failures: Vec::new() };
    let mut dry = cli();
    dry.dry_run = true;
    dry.interactive = true;
    match step_after_plan(&plan, &dry) {
        RunStep::Done(lines) => assert_eq!(lines, vec!["serde 1.0 -> 1.0.219", "", "Dry run. Cargo.toml was not modified."]),
        other => panic!("unexpected {:?}", other),
    }
    let mut review = cli();
    review.interactive = true;
    assert!(matches!(step_after_plan(&plan, &review), RunStep::Review));
    assert!(matches!(step_after_plan(&plan, &cli()), RunStep::WriteAll));
}

#[test]
fn writes_only_when_something_was_chosen() {
    match step_after_choice(&[]) {
        WriteStep::Nothing(lines) => assert_eq!(lines, vec!["No updates selected."]),
        other => panic!("unexpected {:?}", other),
    }
    match step_after_choice(&[update("serde", "1.0", "1.1.0"), update("tokio", "1", "1.44.2")]) {
        WriteStep::Write(lines) => assert_eq!(lines, vec!["serde 1.0 -> 1.1.0", "tokio 1 -> 1.44.2"]),
        other => panic!("unexpected {:?}", other),
    }
}

#[test]
fn tables_must_list_names_in_ascending_order() {
    let unordered = ManifestTables::new(
        vec![entry("serde", DependencySpec::Simple("1".to_string())), entry("anyhow", DependencySpec::Simple("1".to_string()))],
        Vec::new(),
        Vec::new(),
    );
    assert!(unordered.is_none());
    let repeated = ManifestTables::new(
        Vec::new(),
        vec![entry("insta", DependencySpec::Simple("1".to_string())), entry("insta", DependencySpec::Simple("2".to_string()))],
        Vec::new(),
    );
    assert!(repeated.is_none());
    let prefix_first = ManifestTables::new(
        Vec::new(),
        Vec::new(),
        vec![entry("cc", DependencySpec::Simple("1".to_string())), entry("cc-rs", DependencySpec::Simple("1".to_string()))],
    );
    assert!(prefix_first.is_some());
}
