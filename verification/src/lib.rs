//! Synchronization engine for a local mirror of a small family of related
//! datasets published by a remote read-only API.
//!
//! The engine decides whether a dataset needs a full or an incremental
//! refresh, drives pagination through the remote source, groups records into
//! bounded upsert batches, and derives the incremental watermark from the
//! rows already stored.  All decision logic lives here, verified; the
//! surrounding service (HTTP transport, JSON envelope decoding, the real
//! database) hands the engine plain values and carries out the actions it
//! plans.

pub mod batch;
pub mod engine;
pub mod errors;
pub mod fetch;
pub mod numfmt;
pub mod query;
pub mod record;
pub mod resource;
pub mod store;
pub mod timestamp;
