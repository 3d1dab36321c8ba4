//! The task-scoped cache session: prediction manifests, prefetch choice,
//! accounting, file-digest records and the wire vocabulary of its clients.
pub mod digest;
pub mod protocol;
pub mod manifest;
pub mod session;
pub mod prefetch;
pub mod keyed;
pub mod stats;
pub mod file_digest;
pub mod wire;
pub mod client;
pub mod budget;
pub mod identities;
pub mod fallback;
pub mod validate;
pub mod framing;
pub mod commit;
pub mod blob_fetch;
pub mod batches;
pub mod fetch;
pub mod runs;
pub mod respond;
pub mod walk;
