//! Client-side engine for a permissioned ledger: it drives one read/write
//! query through its lifecycle, collects node replies under a quorum
//! predicate, and verifies Merkle digests before trusting returned state.

pub mod base58;
pub mod engine;
pub mod bytes;
pub mod did;
pub mod hash;
pub mod requests;
pub mod validation;

pub use requests::RequestState;
