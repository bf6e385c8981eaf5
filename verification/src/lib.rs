//! Secondary-index layer for a blockchain full node.
//!
//! The node's primary store holds objects and checkpoints; this library
//! derives and maintains two additional lookup tables for read-oriented
//! queries: an owner index (which objects does address A own?) and a
//! transaction index (which checkpoint contains transaction T?).
//!
//! The index is never a source of truth: it is rebuilt from the primary
//! store's live-object set and checkpoint history whenever it is empty,
//! updated incrementally once per executed checkpoint, and pruned in
//! lockstep with the primary store's retention window.

pub mod keys;
pub mod laws;
pub mod model;
pub mod store;
pub mod table;
pub mod tables;
pub mod types;
