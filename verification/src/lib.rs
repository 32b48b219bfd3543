//! A verified core for a pool of "agent" workers that are elected to execute
//! scheduled tasks and accrue reward balances.
//!
//! The library keeps three pieces of shared state: a registry of agent
//! records, a pair of ordered queues (active and pending) that partition the
//! registered identities, and a config singleton whose aggregate available
//! balance always covers the sum of the per-agent native balances. The
//! lifecycle commands (`register_agent`, `update_agent`,
//! `withdraw_task_balance`, `accept_nomination_agent`, `unregister_agent`)
//! preserve these invariants; the queries are pure reads.
//!
//! Identities and asset denominations are interned integers: the host that
//! embeds this core maps its own address and denomination strings to them
//! one-for-one at the boundary.

pub mod agent;
pub mod balance;
pub mod error;
pub mod registry;
pub mod state;
