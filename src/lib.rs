//! A registry of KYC providers and the aggregation of their answers.
//!
//! The registry keeps, in a storage partition of its own, the providers in
//! the order of their registration and whether each is active or banned.
//! An account is proved when at least one active provider, asked in
//! registration order, confirms it.
//!
//! - `provider`: provider identities and the keys presented for them.
//! - `store`: the storage partition, as typed tables with a map model.
//! - `keys`: the text keys of the host dictionary that holds the partition.
//! - `registry`: initialization, registration, banning and unbanning.
//! - `aggregate`: the walk over the providers, one call at a time.
//! - `laws`: what holds of these operations together.
pub mod provider;
pub mod store;
pub mod registry;
pub mod aggregate;
pub mod laws;
pub mod keys;
