//! A small authenticated key/counter storage library with an embedded,
//! verified schema-evolution engine.
//!
//! The heart of the crate is the [`update`] module: a versioned migration
//! engine that discovers an ordered set of migration units, validates that
//! their ordinals form a contiguous run starting at 1, computes the delta
//! between the currently applied version and a target version, and applies
//! the pending units in order through a backend driver.
//!
//! Around it sit the service's model types: access scopes with their
//! parser ([`scope`]), optimistic-concurrency counter entries ([`entry`]),
//! API keys and authorizations ([`apikey`]), and small helpers.

pub mod account;
pub mod apikey;
pub mod attrs;
pub mod config;
pub mod entry;
pub mod scope;
pub mod text;
pub mod update;
