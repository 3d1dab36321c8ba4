//! Cargo command lines: where Cargo is pointed, where it reads a manifest,
//! and the identity that selects a workspace's prediction manifest.
pub mod args;
pub mod scope;
pub mod identity;
pub mod invocation;
pub mod resolve;
pub mod probe;
pub mod install_probe;
pub mod config;
