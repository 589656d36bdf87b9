//! Explanations of SELinux denials for audit events.
//!
//! An AVC record of an audit event tells that an access was denied. The library reads from the
//! record what was asked of the policy, finds out why the policy denied it, and writes the
//! explanation back into the record.
//!
//! The policy itself is consulted by a native shim, which the embedding program calls. The
//! library decides when the shim is to be asked, what it is to be asked, and what its answers
//! mean; [`runtime`] is where an event enters and leaves.

pub mod analyzer;
pub mod attach;
pub mod audit;
pub mod cache;
pub mod disabled;
pub mod enrich;
pub mod error;
pub mod event;
pub mod laws;
pub mod native;
pub mod query;
pub mod runtime;
pub mod why;
