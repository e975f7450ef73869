//! Snapshot backup engine: artifact naming, the manifest of produced
//! artifacts, restore-chain resolution, the anchor/incremental policy, the
//! external-process pipelines and reconciliation with remote storage.

pub mod artifact;
pub mod chain;
pub mod commands;
pub mod config;
pub mod decimal;
pub mod digest;
pub mod error;
pub mod label;
pub mod manifest;
pub mod pipeline;
pub mod policy;
pub mod sync;
pub mod text;
pub mod timestamp;
