use cargo_upgrade::dependency::{DependencySection, DependencyUpdate};
use cargo_upgrade::manifest::{apply_updates, ManifestDocument, TomlShape, UpgradeDecision};

const MANIFEST: &str = "[package]\nname = \"demo\"\nversion = \"0.1.0\"\n\n[dependencies]\ntokio = { version = \"1.0\", features = [\"macros\"] }\nserde = \"1.0\" # keep me\n\n[dependencies.clap]\nversion = \"4.0\"\nfeatures = [\"derive\"]\n\n[dev-dependencies]\ninsta = \"1\"\n";

fn update(name: &str, section: DependencySection, current: &str, target: &str) -> DependencyUpdate {
    DependencyUpdate::new(name.to_string(), section, current.to_string(), target.to_string())
}

fn reparsed(document: &ManifestDocument) -> toml_edit::DocumentMut {
    document.to_text().parse::<toml_edit::DocumentMut>().unwrap()
}

#[test]
fn preserves_inline_table_fields_when_applying_updates() {
    let mut manifest = ManifestDocument::parse(
        "[package]\nname = \"demo\"\nversion = \"0.1.0\"\n\n[dependencies]\ntokio = { version = \"1.0\", features = [\"macros\"] }\n",
    )
    .unwrap();

    manifest.apply(&[DependencyUpdate::new(
        "tokio".into(),
        DependencySection::Dependencies,
        "1.0".into(),
        "1.44.2".into(),
    )]);

    let document = reparsed(&manifest);
    let dependency = &document["dependencies"]["tokio"];
    assert_eq!(dependency["version"].as_str(), Some("1.44.2"));
    assert!(dependency.to_string().contains("features"));
}

#[test]
fn keeps_each_entry_form_and_everything_else() {
    let mut manifest = ManifestDocument::parse(MANIFEST).unwrap();
    manifest.apply(&[
        update("tokio", DependencySection::Dependencies, "1.0", "1.44.2"),
        update("serde", DependencySection::Dependencies, "1.0", "1.0.219"),
        update("clap", DependencySection::Dependencies, "4.0", "4.5.1"),
        update("insta", DependencySection::DevDependencies, "1", "1.43.1"),
    ]);
    let text = manifest.to_text();
    assert!(text.contains("tokio = { version = \"1.44.2\", features = [\"macros\"] }"));
    assert!(text.contains("serde = \"1.0.219\""));
    assert!(text.contains("[dependencies.clap]\nversion = \"4.5.1\"\nfeatures = [\"derive\"]"));
    assert!(text.contains("insta = \"1.43.1\""));
    assert!(text.starts_with("[package]\nname = \"demo\"\nversion = \"0.1.0\"\n"));
    let document = reparsed(&manifest);
    assert_eq!(document["dependencies"]["clap"]["features"].as_array().map(|a| a.len()), Some(1));
    assert_eq!(document["package"]["version"].as_str(), Some("0.1.0"));
}

#[test]
fn missing_entries_and_sections_get_a_plain_requirement() {
    let mut manifest = ManifestDocument::parse(MANIFEST).unwrap();
    assert_eq!(manifest.section_shape("build-dependencies"), None);
    manifest.apply(&[
        update("cc", DependencySection::BuildDependencies, "1", "1.2.0"),
        update("anyhow", DependencySection::Dependencies, "1", "1.0.98"),
    ]);
    assert_eq!(manifest.section_shape("build-dependencies"), Some(TomlShape::InlineTable));
    let document = reparsed(&manifest);
    assert_eq!(document["build-dependencies"]["cc"].as_str(), Some("1.2.0"));
    assert_eq!(document["dependencies"]["anyhow"].as_str(), Some("1.0.98"));
}

#[test]
fn reads_section_shapes() {
    let manifest = ManifestDocument::parse("answer = 42\n[dependencies]\nserde = \"1\"\n[dev]\ninline = { a = 1 }\n").unwrap();
    assert_eq!(manifest.section_shape("dependencies"), Some(TomlShape::Table));
    assert_eq!(manifest.section_shape("answer"), Some(TomlShape::Other));
    assert_eq!(manifest.section_shape("nothing"), None);
}

#[test]
fn rejects_text_that_is_not_toml() {
    let error = ManifestDocument::parse("[dependencies\nserde = ").err().unwrap();
    assert!(!error.is_empty());
}

#[test]
fn decisions_replace_entries_with_plain_requirements() {
    let decision = UpgradeDecision::new(DependencySection::Dependencies, "tokio".to_string(), "1.44.2".to_string());
    assert_eq!(decision.table, DependencySection::Dependencies);
    assert_eq!(decision.crate_name, "tokio");
    assert_eq!(decision.next_requirement, "1.44.2");
    let mut manifest = ManifestDocument::parse(MANIFEST).unwrap();
    apply_updates(
        &mut manifest,
        &[decision, UpgradeDecision::new(DependencySection::DevDependencies, "insta".to_string(), "1.43.1".to_string())],
    );
    let document = reparsed(&manifest);
    assert_eq!(document["dependencies"]["tokio"].as_str(), Some("1.44.2"));
    assert_eq!(document["dev-dependencies"]["insta"].as_str(), Some("1.43.1"));
    assert_eq!(document["dependencies"]["serde"].as_str(), Some("1.0"));
}

#[test]
fn the_last_update_of_an_entry_is_what_reads_back() {
    let mut manifest = ManifestDocument::parse(MANIFEST).unwrap();
    manifest.apply(&[
        update("serde", DependencySection::Dependencies, "1.0", "1.0.100"),
        update("insta", DependencySection::DevDependencies, "1", "1.2.0"),
        update("serde", DependencySection::Dependencies, "1.0.100", "1.0.219"),
    ]);
    let document = reparsed(&manifest);
    assert_eq!(document["dependencies"]["serde"].as_str(), Some("1.0.219"));
    assert_eq!(document["dev-dependencies"]["insta"].as_str(), Some("1.2.0"));
    assert_eq!(document["dependencies"]["tokio"]["version"].as_str(), Some("1.0"));
}

#[test]
fn checked_apply_leaves_a_document_with_a_plain_section_alone() {
    let text = "dependencies = 3\n[dev-dependencies]\ninsta = \"1\"\n";
    let mut manifest = ManifestDocument::parse(text).unwrap();
    let applied = manifest.apply_checked(&[
        update("insta", DependencySection::DevDependencies, "1", "1.43.1"),
        update("serde", DependencySection::Dependencies, "1", "1.0.219"),
    ]);
    assert!(!applied);
    assert_eq!(manifest.to_text(), text);
    let mut fine = ManifestDocument::parse(MANIFEST).unwrap();
    assert!(fine.apply_checked(&[update("insta", DependencySection::DevDependencies, "1", "1.43.1")]));
    assert_eq!(reparsed(&fine)["dev-dependencies"]["insta"].as_str(), Some("1.43.1"));
}
