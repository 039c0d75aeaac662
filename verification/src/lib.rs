//! Versioned migration engine for a key-value store of asset records.
//!
//! Stored records carry a schema version. Across upgrades the on-disk shape
//! of a record evolves: a boolean frozen flag widens to a tri-state status,
//! and identity fields widen from required to optional. The engine reads the
//! persisted schema version, applies at most one migration step per
//! invocation, rewrites every record value in place, persists the new
//! version marker, and reports the work done for resource metering.

pub mod codec;
pub mod engine;
pub mod storage;
pub mod records;
