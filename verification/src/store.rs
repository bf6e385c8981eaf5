//! The query facade wrapping the two index tables.
//!
//! Construction either bootstraps automatically when the index has never
//! been populated, or opens the tables as they are for read-only
//! inspection. Everything else delegates to the table aggregate: the
//! emptiness check, the per-checkpoint indexing entry point, the pruning
//! entry point, and the point/range read paths the API layer uses.

use vstd::prelude::*;

use crate::keys::OwnerIndexInfo;
use crate::keys::owner_key_code;
use crate::keys::OwnerIndexKey;
use crate::keys::TransactionInfo;
use crate::table::apply_ops;
use crate::tables::IndexStoreTables;
use crate::tables::bootstrap_lookups_ok;
use crate::tables::bootstrap_tx_ops;
use crate::tables::checkpoint_owner_ops;
use crate::tables::live_owner_map;
use crate::tables::missing_data_outcome;
use crate::tables::prune_ops;
use crate::tables::tx_put_ops;
use crate::types::CheckpointContents;
use crate::types::CheckpointData;
use crate::types::CheckpointStoreSnapshot;
use crate::types::IndexError;
use crate::types::LiveObjectSetSnapshot;

verus! {

/// The secondary-index store a node keeps beside its primary store.
pub struct RestIndexStore {
    tables: IndexStoreTables,
}

impl RestIndexStore {
    /// The underlying tables hold their invariants.
    pub closed spec fn wf(self) -> bool {
        self.tables.wf()
    }

    /// The transaction index as a map from digest code to entry.
    pub closed spec fn tx_view(self) -> Map<u128, TransactionInfo> {
        self.tables.tx_view()
    }

    /// The owner index as a map from owner-key code to entry.
    pub closed spec fn owner_view(self) -> Map<u128, OwnerIndexInfo> {
        self.tables.owner_view()
    }

    /// Opens the index over the given tables, bootstrapping from the
    /// primary store when the index has never been populated.
    ///
    /// The tables must have been reset together: an empty transaction
    /// index means a never-populated index, so the owner index must then
    /// be empty too. A missing-data error reports the first retained,
    /// executed checkpoint the checkpoint store could not serve; the
    /// tables are left untouched then, so a later attempt starts from
    /// the same empty state.
    pub fn new(
        tables: IndexStoreTables,
        authority_store: &LiveObjectSetSnapshot,
        checkpoint_store: &CheckpointStoreSnapshot,
    ) -> (r: Result<Self, IndexError>)
        requires
            tables.wf(),
            tables.tx_view() == Map::<u128, TransactionInfo>::empty()
                ==> tables.owner_view() == Map::<u128, OwnerIndexInfo>::empty(),
            checkpoint_store.highest_executed matches Some(h) ==> h < u64::MAX,
        ensures
            match r {
                Ok(store) => {
                    &&& store.wf()
                    &&& if tables.tx_view() == Map::<u128, TransactionInfo>::empty() {
                        &&& bootstrap_lookups_ok(*checkpoint_store)
                        &&& store.tx_view() == apply_ops(
                            tables.tx_view(),
                            bootstrap_tx_ops(*checkpoint_store),
                        )
                        &&& store.owner_view() == live_owner_map(
                            tables.owner_view(),
                            authority_store.objects@,
                        )
                    } else {
                        &&& store.tx_view() == tables.tx_view()
                        &&& store.owner_view() == tables.owner_view()
                    }
                },
                Err(e) => {
                    &&& tables.tx_view() == Map::<u128, TransactionInfo>::empty()
                    &&& missing_data_outcome(*checkpoint_store, e)
                    &&& !bootstrap_lookups_ok(*checkpoint_store)
                },
            },
    {
        let mut tables = tables;
        if tables.is_empty() {
            match tables.init(authority_store, checkpoint_store) {
                Ok(()) => {},
                Err(e) => {
                    return Err(e);
                },
            }
        }
        Ok(Self { tables })
    }

    /// Opens the index over the given tables without any initialization
    /// check, for read-only inspection.
    pub fn new_without_init(tables: IndexStoreTables) -> (store: Self)
        requires
            tables.wf(),
        ensures
            store.wf(),
            store.tx_view() == tables.tx_view(),
            store.owner_view() == tables.owner_view(),
    {
        Self { tables }
    }

    /// True when the index has never been populated; delegates to the
    /// transaction-index emptiness check.
    pub fn is_empty(&self) -> (r: bool)
        requires
            self.wf(),
        ensures
            r <==> self.tx_view() == Map::<u128, TransactionInfo>::empty(),
    {
        self.tables.is_empty()
    }

    /// Deletes exactly the digests contained in the given
    /// checkpoint-contents objects from the transaction index; the owner
    /// index is untouched.
    pub fn prune(&mut self, checkpoint_contents_to_prune: &Vec<CheckpointContents>)
        requires
            old(self).wf(),
        ensures
            final(self).wf(),
            final(self).tx_view() == apply_ops(
                old(self).tx_view(),
                prune_ops(checkpoint_contents_to_prune@),
            ),
            final(self).owner_view() == old(self).owner_view(),
    {
        self.tables.prune(checkpoint_contents_to_prune)
    }

    /// Applies the net effect of one executed checkpoint to both
    /// indexes.
    pub fn index_checkpoint(&mut self, checkpoint: &CheckpointData)
        requires
            old(self).wf(),
        ensures
            final(self).wf(),
            final(self).tx_view() == apply_ops(
                old(self).tx_view(),
                tx_put_ops(
                    checkpoint.checkpoint_contents@,
                    checkpoint.checkpoint_summary.sequence_number,
                ),
            ),
            final(self).owner_view() == apply_ops(
                old(self).owner_view(),
                checkpoint_owner_ops(checkpoint.transactions@),
            ),
    {
        self.tables.index_checkpoint(checkpoint)
    }

    /// Point lookup: the checkpoint that included the given transaction
    /// digest, if the transaction index still holds it.
    pub fn get_transaction(&self, digest: u64) -> (r: Option<TransactionInfo>)
        requires
            self.wf(),
        ensures
            match r {
                Some(info) => self.tx_view().contains_key(digest as u128)
                    && self.tx_view()[digest as u128] == info,
                None => !self.tx_view().contains_key(digest as u128),
            },
    {
        self.tables.get_transaction(digest)
    }

    /// Lists the objects one address owns, in ascending object-id order,
    /// from the pagination cursor `starting_id` on: exactly the owner
    /// index's entries for that address from the cursor, each as the
    /// object id with its entry.
    pub fn list_owned_objects(&self, owner: u64, starting_id: u64) -> (r: Vec<
        (u64, OwnerIndexInfo),
    >)
        requires
            self.wf(),
        ensures
            forall|j: int| 0 <= j < r@.len() ==> {
                &&& (#[trigger] r@[j]).0 >= starting_id
                &&& self.owner_view().contains_key(owner_key_code(owner, r@[j].0))
                &&& self.owner_view()[owner_key_code(owner, r@[j].0)] == r@[j].1
            },
            forall|id: u64| #[trigger]
                self.owner_view().contains_key(owner_key_code(owner, id)) && id >= starting_id
                    ==> exists|j: int| 0 <= j < r@.len() && (#[trigger] r@[j]).0 == id,
            forall|a: int, b: int| 0 <= a < b < r@.len() ==> r@[a].0 < r@[b].0,
    {
        self.tables.list_owned_objects(owner, starting_id)
    }

    /// Point lookup in the owner index.
    pub fn get_owner_entry(&self, key: &OwnerIndexKey) -> (r: Option<OwnerIndexInfo>)
        requires
            self.wf(),
        ensures
            match r {
                Some(info) => self.owner_view().contains_key(key.spec_code())
                    && self.owner_view()[key.spec_code()] == info,
                None => !self.owner_view().contains_key(key.spec_code()),
            },
    {
        self.tables.get_owner_entry(key)
    }
}

} // verus!
