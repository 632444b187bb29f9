//! A resource-conversion engine for three interrelated token kinds: a
//! divisible fungible unit, "ticket" non-fungibles and "shard" non-fungibles.
//!
//! Bonding converts whole units of the fungible into fresh tickets; an
//! externally authorized capability assigns a shard type to each ticket;
//! swapping consumes a fully assigned ticket batch and mints one time-stamped
//! shard per ticket; destroying a batch of shards that have aged past a fixed
//! cooldown mints the fungible back, closing the loop.
//!
//! The hosting ledger (resource definitions, vaults, the clock) is an external
//! collaborator: amounts, addresses and instants appear here as plain values,
//! and every operation takes the current time as an argument.

pub mod amount;
pub mod bucket;
pub mod laws;
pub mod shardz;
