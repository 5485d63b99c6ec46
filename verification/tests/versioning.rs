use cargo_upgrade::error::UpgradeError;
use cargo_upgrade::registry::parse_release_list;
use cargo_upgrade::release::{sort_versions, Release, Requirement};
use cargo_upgrade::versioning::{choose_target_release, rewrite_requirement};

fn v(text: &str) -> Release {
    Release::parse(text).unwrap()
}

#[test]
fn chooses_latest_compatible_release_by_default() {
    let release = choose_target_release("~1.2.0", vec![v("1.2.1"), v("1.2.9"), v("1.3.0")], false).unwrap();
    assert_eq!(release, Some(v("1.2.9")));
}

#[test]
fn chooses_latest_release_when_requested() {
    let release = choose_target_release("~1.2.0", vec![v("1.2.1"), v("1.2.9"), v("2.0.0")], true).unwrap();
    assert_eq!(release, Some(v("2.0.0")));
}

#[test]
fn preserves_requirement_style_when_rewriting() {
    assert_eq!(rewrite_requirement("~1.2.0", &v("1.2.9")), "~1.2.9");
    assert_eq!(rewrite_requirement("*", &v("3.1.4")), "^3.1.4");
}

#[test]
fn rewriting_keeps_exact_and_caret_and_drops_nothing_else() {
    assert_eq!(rewrite_requirement("=4.5.0", &v("4.6.1")), "=4.6.1");
    assert_eq!(rewrite_requirement("^1.0", &v("1.4.0")), "^1.4.0");
    assert_eq!(rewrite_requirement("1.0", &v("1.0.219")), "1.0.219");
    assert_eq!(rewrite_requirement("  ~1.0 ", &v("1.44.2")), "~1.44.2");
    assert_eq!(rewrite_requirement(">=1.0", &v("1.2.0-beta.1+b5")), "1.2.0-beta.1+b5");
}

#[test]
fn releases_are_chosen_in_semver_order_not_list_order() {
    let release = choose_target_release("1", vec![v("1.10.0"), v("1.9.0"), v("1.2.0")], false).unwrap();
    assert_eq!(release, Some(v("1.10.0")));
}

#[test]
fn rejects_requirement_semver_cannot_read() {
    match choose_target_release("not a version", vec![v("1.0.0")], false) {
        Err(UpgradeError::InvalidRequirement(message)) => assert!(!message.is_empty()),
        other => panic!("unexpected {:?}", other),
    }
}

#[test]
fn latest_mode_does_not_read_the_requirement() {
    let release = choose_target_release("not a version", vec![v("1.0.0")], true).unwrap();
    assert_eq!(release, Some(v("1.0.0")));
}

#[test]
fn wildcard_moves_to_the_newest_release() {
    assert_eq!(choose_target_release("*", vec![v("3.1.4"), v("1.0.0")], false).unwrap(), Some(v("3.1.4")));
    assert_eq!(rewrite_requirement("*", &v("3.1.4")), "^3.1.4");
    assert_eq!(choose_target_release("*", vec![v("1.0.0")], true).unwrap(), Some(v("1.0.0")));
}

#[test]
fn release_that_reads_as_the_requirement_itself_is_skipped() {
    assert_eq!(choose_target_release("1.2.9", vec![v("1.2.9")], false).unwrap(), None);
    assert_eq!(choose_target_release("1.2.9", vec![v("1.2.9"), v("1.3.0")], false).unwrap(), Some(v("1.3.0")));
}

#[test]
fn a_target_that_changes_nothing_is_no_target() {
    assert_eq!(choose_target_release("~1.2.9", vec![v("1.2.9")], true).unwrap(), None);
    assert_eq!(choose_target_release("~1.2.9", vec![v("1.2.8"), v("1.2.9")], false).unwrap(), None);
}

#[test]
fn latest_mode_never_moves_to_an_older_release() {
    assert_eq!(choose_target_release("2.0.0", vec![v("1.0.0"), v("2.0.0")], true).unwrap(), None);
    assert_eq!(choose_target_release("2.0.0", vec![v("1.0.0"), v("2.1.0")], true).unwrap(), Some(v("2.1.0")));
}

#[test]
fn no_release_means_no_target() {
    assert_eq!(choose_target_release("^1", Vec::new(), false).unwrap(), None);
    assert_eq!(choose_target_release("^1", Vec::new(), true).unwrap(), None);
}

#[test]
fn sorts_versions_as_semver_orders_them() {
    let sorted = sort_versions(vec![v("1.10.0"), v("1.2.0"), v("1.2.0-alpha")]);
    let texts = sorted.iter().map(|r| r.to_text()).collect::<Vec<_>>();
    assert_eq!(texts, vec!["1.2.0-alpha", "1.2.0", "1.10.0"]);
}

#[test]
fn version_text_round_trips() {
    let release = v("1.2.3-beta.1+build.5");
    assert_eq!(release.major(), 1);
    assert_eq!(release.minor(), 2);
    assert_eq!(release.patch(), 3);
    assert_eq!(release.to_text(), "1.2.3-beta.1+build.5");
    assert_eq!(v("10.0.7").to_text(), "10.0.7");
    assert!(Release::parse("1.2").is_none());
}

#[test]
fn requirements_parse_and_match() {
    let req = Requirement::parse("^1.2, <1.8").unwrap();
    assert_eq!(req.len(), 2);
    assert!(req.matches(&v("1.5.0")));
    assert!(!req.matches(&v("1.9.0")));
    assert_eq!(Requirement::parse("*").unwrap().len(), 0);
    assert!(Requirement::parse(">= what").is_err());
}

#[test]
fn release_lists_skip_numbers_semver_rejects() {
    let numbers = vec!["1.0.0".to_string(), "garbage".to_string(), "2.0.0-rc.1".to_string()];
    let releases = parse_release_list(&numbers);
    assert_eq!(releases.iter().map(|r| r.to_text()).collect::<Vec<_>>(), vec!["1.0.0", "2.0.0-rc.1"]);
}
