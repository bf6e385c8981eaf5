//! Plain-value data model for the inputs the index layer consumes.
//!
//! The primary store and the checkpoint pipeline hand this layer objects,
//! owners, digests and checkpoint data. Here each of those is held as the
//! plain values the indexing logic actually reads: addresses, object ids,
//! digests and type tags as integers, ownership as an enum.

use vstd::prelude::*;

verus! {

/// Who may mutate an object, as recorded in the primary store.
#[derive(Clone, Copy, Debug, PartialEq, Eq, Structural)]
pub enum Owner {
    /// Owned by a single address; the only kind the owner index records.
    AddressOwner(u64),
    /// Owned by another object (a child in an object hierarchy).
    ObjectOwner(u64),
    /// Mutable by many transactions under consensus.
    Shared { initial_shared_version: u64 },
    /// Owned by no one, read-only.
    Immutable,
}

impl Owner {
    /// True exactly when the owner is a single address.
    pub open spec fn is_address_owned(self) -> bool {
        self is AddressOwner
    }
}

/// One object as the primary store reports it: id, version, content type
/// and current owner.
#[derive(Clone, Copy, Debug, PartialEq, Eq, Structural)]
pub struct ObjectRecord {
    pub id: u64,
    pub version: u64,
    pub object_type: u64,
    pub owner: Owner,
}

/// The header of one checkpoint: its position in the chain and the digest
/// under which its contents are stored.
#[derive(Clone, Copy, Debug, PartialEq, Eq, Structural)]
pub struct CheckpointSummary {
    pub sequence_number: u64,
    pub content_digest: u64,
}

/// The contents of one checkpoint: the ordered transaction digests it
/// includes, stored in the checkpoint store under `digest`.
#[derive(Clone, Debug, PartialEq, Eq)]
pub struct CheckpointContents {
    pub digest: u64,
    pub transactions: Vec<u64>,
}

/// One changed object inside a transaction's effects: the object's state
/// after the transaction, paired with its state before it, if it existed.
#[derive(Clone, Copy, Debug, PartialEq, Eq, Structural)]
pub struct ChangedObject {
    pub object: ObjectRecord,
    pub old_object: Option<ObjectRecord>,
}

/// The object-level effects of one executed transaction: the objects it
/// removed from the live set, and the objects it changed.
#[derive(Clone, Debug, PartialEq, Eq)]
pub struct CheckpointTransaction {
    pub removed_objects: Vec<ObjectRecord>,
    pub changed_objects: Vec<ChangedObject>,
}

/// Everything the checkpoint pipeline hands over for one executed
/// checkpoint: its summary, its transaction digests, and the materialized
/// effects of its transactions, in execution order.
#[derive(Clone, Debug, PartialEq, Eq)]
pub struct CheckpointData {
    pub checkpoint_summary: CheckpointSummary,
    pub checkpoint_contents: Vec<u64>,
    pub transactions: Vec<CheckpointTransaction>,
}

/// The checkpoint store's state as read at bootstrap time: the executed
/// and pruned watermarks, and lookup data for summaries and contents.
#[derive(Clone, Debug)]
pub struct CheckpointStoreSnapshot {
    /// Highest checkpoint sequence number executed so far, none before
    /// the first checkpoint executes.
    pub highest_executed: Option<u64>,
    /// Highest checkpoint sequence number already pruned; backfill starts
    /// here.
    pub highest_pruned: u64,
    /// Checkpoint summaries, looked up by sequence number.
    pub summaries: Vec<CheckpointSummary>,
    /// Checkpoint contents, looked up by content digest.
    pub contents: Vec<CheckpointContents>,
}

/// The primary store's live-object set, snapshotted at bootstrap time.
#[derive(Clone, Debug)]
pub struct LiveObjectSetSnapshot {
    pub objects: Vec<ObjectRecord>,
}

/// Why an index operation failed.
///
/// Bootstrap fails with `MissingData` when a checkpoint summary or its
/// contents are absent from the checkpoint store although the watermarks
/// claim the checkpoint is retained: the index cannot be built correctly
/// from such a store, and the caller must not treat it as initialized.
#[derive(Clone, Copy, Debug, PartialEq, Eq, Structural)]
pub enum IndexError {
    /// A checkpoint summary referenced by the given sequence number, or
    /// its contents, does not exist in the checkpoint store.
    MissingData { sequence_number: u64 },
}

impl IndexError {
    /// A short human-readable description of the error.
    pub fn describe(&self) -> (r: &'static str)
        ensures r@.len() > 0,
    {
        proof {
            reveal_strlit("missing checkpoint");
        }
        match self {
            IndexError::MissingData { sequence_number: _ } => "missing checkpoint",
        }
    }
}

} // verus!
