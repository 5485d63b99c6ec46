//! Planning of dependency requirement upgrades for Cargo manifests.

pub mod text;
pub mod release;
pub mod error;
pub mod versioning;
pub mod dependency;
pub mod cli;
pub mod options;
pub mod impact;
pub mod registry;
pub mod plan;
pub mod checklist;
pub mod review;
pub mod screen;
pub mod flow;
pub mod manifest;
