//! Tracks scheduled return events for submarines owned by game characters and
//! decides, once per poll cycle, which of them to announce.
//!
//! The crate holds the event-scheduling engine only: the per-entity
//! notification state machine, the batching of near-simultaneous events into
//! grouped alerts, the per-tick driver logic, and the parser for the
//! maintenance command's date input. Reading the backing store, showing
//! desktop notifications and posting batched alerts over HTTP are left to the
//! surrounding binary, which hands this library plain values.

pub mod adapter;
pub mod datetime;
pub mod engine;
pub mod group;
pub mod json;
pub mod listing;
pub mod model;
pub mod state;
pub mod text;
