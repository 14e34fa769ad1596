//! Deployment records: what a strategy placed where for one enabled mod.
use vstd::prelude::*;
use crate::metadata::ModFile;

verus! {

/// What a strategy is asked to deploy: one mod of one profile, its place in
/// the repository and the destination root.
pub struct DeploymentContext {
    pub profile_id: u128,
    pub mod_id: u128,
    pub repository_root: String,
    pub mod_root: String,
    pub destination_root: String,
    pub source_content_fingerprint: String,
    pub files: Vec<ModFile>,
}

/// A planned deployment: the files to place, the folder to place them in,
/// and what the user should know.
pub struct DeploymentPlan {
    pub operation_id: u128,
    pub profile_id: u128,
    pub mod_id: u128,
    pub strategy_id: String,
    pub destination_directory: String,
    pub source_content_fingerprint: String,
    pub entries: Vec<DeploymentEntry>,
    pub warnings: Vec<String>,
}

/// One file of a deployed mod: where it comes from inside the mod and where
/// it was placed below the deployment directory.
#[derive(Debug, Clone, PartialEq, Eq)]
pub struct DeploymentEntry {
    pub source_relative: String,
    pub destination_relative: String,
    pub size_bytes: u64,
    pub content_hash: String,
}

/// The record of one deployed mod (identifiers are UUIDs as 128-bit numbers,
/// paths are strings).
#[derive(Debug, Clone, PartialEq, Eq)]
pub struct DeploymentManifest {
    pub schema_version: u32,
    pub id: u128,
    pub profile_id: u128,
    pub mod_id: u128,
    pub strategy_id: String,
    pub destination_root: String,
    pub destination_directory: String,
    pub source_content_fingerprint: String,
    pub entries: Vec<DeploymentEntry>,
    pub created_at: i64,
}

/// The strategy that keeps each mod as a direct folder of the EFMI `Mods`
/// directory.
pub const EFMI_DIRECT_STRATEGY_ID: &'static str = "efmi.direct-folder.v1";

/// The strategy that copies mod files into a managed directory.
pub const EFMI_COPY_STRATEGY_ID: &'static str = "efmi.copy.v1";

} // verus!
