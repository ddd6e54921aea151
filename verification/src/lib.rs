//! A local clipboard-history library: a deduplicating, taggable clip store
//! with pin-aware retention, a content fingerprinter, and the capture
//! pipeline that turns clipboard snapshots into persisted entries.

pub mod config;
pub mod daemon;
pub mod errors;
pub mod fingerprint;
pub mod models;
pub mod pipeline;
pub mod query;
pub mod store;
pub mod text;
