//! The command-line options of an upgrade run.

use vstd::prelude::*;

verus! {

/// What the user asked for on the command line.
///
/// `prod` and `dev` exclude each other on the command line. `recursive`,
/// `global`, `workspace`, `no_optional`, `filter` and `depth` are accepted
/// but not carried out yet.
#[derive(Debug)]
pub struct Cli {
    /// Traverse workspace member manifests recursively.
    pub recursive: bool,
    /// Allow upgrades outside the current version requirement.
    pub latest: bool,
    /// Upgrade crates installed with `cargo install`.
    pub global: bool,
    /// Use workspace-aware dependency resolution.
    pub workspace: bool,
    /// Limit upgrades to normal and build dependencies.
    pub prod: bool,
    /// Limit upgrades to development dependencies.
    pub dev: bool,
    /// Skip dependencies marked `optional = true`.
    pub no_optional: bool,
    /// Review and select upgrades in a terminal UI.
    pub interactive: bool,
    /// Show planned edits without writing `Cargo.toml`.
    pub dry_run: bool,
    /// Filter workspace members to upgrade.
    pub filter: Vec<String>,
    /// Limit recursive workspace traversal depth.
    pub depth: Option<u32>,
    /// Dependency names to upgrade; all when empty.
    pub crates: Vec<String>,
}

} // verus!
