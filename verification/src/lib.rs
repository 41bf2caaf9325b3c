//! Scheduling, mutual-exclusion and ordering core of the background
//! compaction and flush jobs of a time-series storage engine.
//!
//! The crate holds the decisions of the coordinator as verified state
//! machines over plain values. Whatever sleeps, awaits or talks to the storage
//! engine is left to the caller, which performs the actions these machines
//! hand out and reports back what happened.
//!
//! Beside them stand two smaller parts of the same engine: the cache of
//! authenticated users, and what two rules of the query analyser decide.

pub mod task;
pub mod processor;
pub mod compact_job;
pub mod flush_queue;
pub mod flush;
pub mod defer;
pub mod auth_cache;
pub mod analyse;
