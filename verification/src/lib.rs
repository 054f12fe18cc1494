//! Verified core of a command-line client for a project-tracking service.
//!
//! The library holds the logic of the client: parsing issue identifiers,
//! validating the responses of the id-resolution queries, interpreting
//! mutation results, bucketing issue listings, and encoding and decoding
//! the persisted configuration record.  All network and file traffic is
//! performed by the thin unverified shell around the library, which hands
//! plain values in and out.

pub mod cli;
pub mod config;
pub mod identifier;
pub mod issue;
pub mod listing;
pub mod mutation;
pub mod resolve;
