//! Verified core of the mbx build cache: argument models, depfile parsing,
//! prediction manifests and the bookkeeping rules of a cache session.
#![allow(unused_imports)]

pub mod text;
pub mod decimal;
pub mod cc;
pub mod path;
pub mod agent;
pub mod remote;
pub mod cargo;
