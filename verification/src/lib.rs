//! A verified warranty registry: uniquely identified warranty records with a
//! status lifecycle, ownership transfer, and an owner-indexed lookup.
//!
//! The registry is an explicit value passed to every operation; the caller's
//! authenticated identity and the current clock reading come in as plain
//! arguments, and every failure is a typed error. The host concerns that
//! surround such a registry in a deployment (durable storage, the
//! authentication primitive, the clock itself) live outside this crate.

pub mod index;
pub mod laws;
pub mod records;
pub mod tracker;

pub use index::OwnerEntry;
pub use records::Error;
pub use records::WarrantyData;
pub use records::WarrantyStatus;
pub use tracker::WarrantyTracker;
