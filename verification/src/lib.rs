//! Bidirectional synchronization engine between a live editor object tree and a
//! mirrored filesystem directory.
//!
//! The crate keeps, for each connected editor session, a stable mapping from
//! opaque node identifiers to relative filesystem paths, an outbound queue of
//! filesystem changes to deliver to the editor, and an anti-feedback-loop
//! registry that suppresses re-reporting of writes the engine itself produced.
//! All I/O (directory probing, file writes, filesystem watching, transport) is
//! performed by the surrounding application; this library holds the verified
//! decision and bookkeeping logic.

pub mod assigner;
pub mod claim;
pub mod errors;
pub mod manager;
pub mod paths;
pub mod records;
pub mod registry;
pub mod session;
pub mod strutil;

pub use errors::SyncError;
