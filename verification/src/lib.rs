//! A reputation-weighted voting and treasury-distribution engine.
//!
//! An admin registers contributors, opens a funded voting round with a fixed
//! vote budget, contributors cast weighted votes on each other, and on round
//! close the pooled balance is split across contributors pro rata to their
//! accumulated reputation. All state transitions are authorization-gated and
//! atomic: an operation either applies completely or fails with a typed error
//! and no effect.

pub mod engine;
pub mod errors;
pub mod events;
pub mod org;
pub mod registry;
pub mod table;

use vstd::prelude::*;

verus! {

/// The opaque, comparable identity of an account. The hosting ledger system
/// decides what an identity means; the engine only compares identities and
/// keys its records by them.
pub type AccountId = u64;

/// A fund amount in the hosting ledger's smallest unit.
pub type Balance = u128;

} // verus!
