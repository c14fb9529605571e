//! Versioned-document core for a collaborative editor backend.
//!
//! Each logical document ("ref") points at its current content snapshot, and
//! snapshots accumulate as the document is edited.  The store supports atomic
//! ref creation, in-place autosave, and history-preserving checkpoints; the
//! resolver lazily creates or looks up a live collaboration-document handle
//! for a ref, seeding a new handle with the latest durable content.

pub mod error;
pub mod ids;
pub mod resolver;
pub mod service;
pub mod store;
