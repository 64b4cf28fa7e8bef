//! Shared data types of the monitor: query-mechanism tags, import records,
//! leaderboard rows, cycle summaries and aggregate statistics.

use vstd::prelude::*;

verus! {

/// How a unit's balance is queried.
///
/// `Direct` units are asked one by one through their proxy; `GroupedRoot`
/// units share a root whose single answer carries the balances of every
/// unit under it.  Adding a mechanism is a variant plus one new branch.
#[derive(Clone, Copy, Debug, PartialEq, Eq, Structural)]
pub enum ProxyType {
    /// One remote query per unit, addressed to the unit's proxy.
    Direct,
    /// One remote query per distinct root, answering for many units.
    GroupedRoot,
}

impl Default for ProxyType {
    fn default() -> (r: Self)
        ensures
            r == ProxyType::Direct,
    {
        ProxyType::Direct
    }
}

/// One item of a bulk import.  `canister_id` names the unit; every other
/// field overwrites the stored value when supplied and preserves it (or
/// defaults on first creation) when absent.
#[derive(Clone, Debug)]
pub struct CanisterImport {
    pub canister_id: u64,
    pub proxy_id: Option<u64>,
    pub proxy_type: Option<ProxyType>,
    pub project: Option<String>,
    pub valid: Option<bool>,
}

/// One leaderboard row, built from cached fields only.
#[derive(Clone, Debug)]
pub struct LeaderboardEntry {
    pub canister_id: u64,
    pub project: Option<String>,
    pub balance: u128,
    pub burn_1h: Option<u128>,
    pub burn_24h: Option<u128>,
    pub burn_7d: Option<u128>,
}

/// Summary of one snapshot cycle.
#[derive(Clone, Copy, Debug, PartialEq, Eq, Structural)]
pub struct SnapshotResult {
    pub total: u64,
    pub success: u64,
    pub failed: u64,
    pub pruned: u64,
    pub timestamp: u64,
}

/// Aggregate statistics over the stores.
#[derive(Clone, Copy, Debug, PartialEq, Eq, Structural)]
pub struct Stats {
    pub canister_count: u64,
    pub snapshot_count: u64,
    pub project_count: u64,
    pub oldest_snapshot: Option<u64>,
    pub newest_snapshot: Option<u64>,
}

/// Tri-state update of one field: leave it, clear it, or set it.
#[derive(Clone, Debug)]
pub enum FieldUpdate<T> {
    Unchanged,
    Clear,
    Assign(T),
}

/// Failure of an administrative operation invoked without authority.
/// Nothing is changed when it is returned.
#[derive(Clone, Copy, Debug, PartialEq, Eq, Structural)]
pub enum AuthError {
    NotAuthorized,
}

} // verus!
