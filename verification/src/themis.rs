//! Rules that the packages of a workspace have to keep, and the check of each.

pub mod rules;
pub mod semver_specs;
pub mod text;
pub mod types;

pub use types::{Error, Expected, Package, PackageOutcome, Workspace};
