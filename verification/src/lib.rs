//! Verified core of a cycles-balance monitor.
//!
//! Many independently operated canisters ("units") hold a cycles balance.
//! This crate stores periodic balance snapshots, derives windowed burn
//! estimates from them, keeps per-unit and per-project registries with
//! cached summaries, and drives the decision logic of the periodic
//! snapshot cycle.  Remote balance queries, timers, durability and caller
//! identity are collaborators supplied by the host around this crate.

use vstd::prelude::*;

pub mod burn;
pub mod codec;
pub mod fetch;
pub mod history;
pub mod orchestrator;
pub mod projects;
pub mod query;
pub mod registry;
pub mod service;
pub mod store;
pub mod types;

verus! {

/// Nanoseconds in one hour.
pub const NANOS_PER_HOUR: u64 = 3_600_000_000_000;

/// Nanoseconds in one day.
pub const NANOS_PER_DAY: u64 = 86_400_000_000_000;

/// Nanoseconds in seven days.
pub const SEVEN_DAYS_NANOS: u64 = 604_800_000_000_000;

/// Nanoseconds in thirty days: the retention horizon of the history store.
pub const RETENTION_NANOS: u64 = 2_592_000_000_000_000;

/// How many remote queries one batch of the snapshot cycle may hold.
pub const BATCH_SIZE: usize = 50;

/// Hard cap on one leaderboard page.
pub const MAX_PAGE_SIZE: usize = 100;

/// Byte budget of a stored project label or website field.
pub const MAX_FIELD_BYTES: usize = 100;

} // verus!
