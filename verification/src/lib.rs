//! Friend relationship store: a verified persistence and reconciliation layer
//! for the contacts of a peer-to-peer messaging node.
//!
//! Each contact (`Friend`) carries a stable cryptographic identity and a
//! mutable network address. The store keeps at most one open row per identity,
//! merges remote announcements idempotently, preserves locally authored
//! fields, and cascades deletion into the dependent message rows.

pub mod friend;
pub mod hexcode;
pub mod laws;
pub mod reconcile;
pub mod session;
pub mod store;
