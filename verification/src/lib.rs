//! A deterministic bitcoin commitment layer for output scripts, together with
//! the strict binary codec for contract schema descriptors.

pub mod dbc;
pub mod hashes;
pub mod keys;
pub mod schema;
pub mod scripts;
