//! Paying an address out of a shielded wallet.
pub mod amount;
pub mod balance;
pub mod builder;
pub mod decode;
pub mod error;
pub mod heights;
pub mod keys;
pub mod laws;
pub mod notes;
pub mod persist;
pub mod promises;
pub mod transact;
pub mod witness;
