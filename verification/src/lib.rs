//! Per-owner counter records at deterministically derived addresses.
//!
//! Each principal owns at most one counter record, stored at an address
//! derived from a fixed domain tag and the principal's own public key.
//! A record is created once by `initialize` and mutated only by its stored
//! authority through `increment`; the record store rejects a second
//! allocation at an address that is already in use.

pub mod addressing;
pub mod errors;
pub mod keys;
pub mod laws;
pub mod record;
pub mod service;
pub mod store;
