//! Conservative parsing and key material for C and C++ compiles.
pub mod reason;
pub mod vocabulary;
pub mod language;
pub mod invocation;
pub mod parser;
pub mod prediction;
pub mod environment;
pub mod depfile;
pub mod scan;
pub mod discovery;
pub mod manifest_dirs;
pub mod collect;
pub mod context;
pub mod action_inputs;
pub mod action_key;
