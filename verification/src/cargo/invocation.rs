//! What resolving a Cargo invocation yields.
use vstd::prelude::*;

verus! {

/// Cargo-resolved roots and the stable prediction-manifest identity for one
/// invocation; paths are carried as their UTF-8 text.
#[derive(Debug, Clone, PartialEq, Eq)]
pub struct CargoInvocation {
    /// Cargo's resolved workspace root.
    pub workspace_root: String,
    /// Cargo's resolved output directory.
    pub target_dir: String,
    /// Cargo's intermediate build directory, when reported by this Cargo version.
    pub build_dir: Option<String>,
    /// Whether a flag, environment value, or Cargo configuration explicitly selected the target.
    pub target_dir_requested: bool,
    /// Cross-checkout identity used to select the action-prediction manifest.
    pub build_identity: String,
}

} // verus!
