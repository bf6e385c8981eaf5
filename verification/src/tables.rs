//! The two derived index tables and the procedures that maintain them:
//! incremental indexing of one checkpoint, pruning, and bootstrap from
//! the primary store.
//!
//! Every mutation stages a batch of writes and applies it as one unit;
//! the contracts state the staged batch exactly, as a sequence of
//! operations derived from the checkpoint data, so the net effect for
//! each key is the last write staged for it in checkpoint-transaction
//! order.

use vstd::prelude::*;

use crate::keys::OwnerIndexInfo;
use crate::keys::OwnerIndexKey;
use crate::keys::TransactionInfo;
use crate::keys::code_object_id;
use crate::keys::code_owner;
use crate::keys::lemma_owner_key_code_decompose;
use crate::keys::lemma_owner_key_code_invertible;
use crate::keys::owner_key_code;
use crate::keys::OWNER_KEY_RADIX;
use crate::table::IndexTable;
use crate::table::TableOp;
use crate::table::apply_ops;
use crate::types::ChangedObject;
use crate::types::CheckpointContents;
use crate::types::CheckpointData;
use crate::types::CheckpointStoreSnapshot;
use crate::types::CheckpointSummary;
use crate::types::CheckpointTransaction;
use crate::types::IndexError;
use crate::types::LiveObjectSetSnapshot;
use crate::types::ObjectRecord;
use crate::types::Owner;

verus! {

/// The transaction-index writes staged for one list of transaction
/// digests, all recording the same checkpoint.
pub open spec fn tx_put_ops(digests: Seq<u64>, checkpoint: u64) -> Seq<TableOp<TransactionInfo>> {
    digests.map(|i: int, d: u64| TableOp::Put(d as u128, TransactionInfo { checkpoint }))
}

/// The transaction-index deletions staged for one list of transaction
/// digests.
pub open spec fn tx_del_ops(digests: Seq<u64>) -> Seq<TableOp<TransactionInfo>> {
    digests.map(|i: int, d: u64| TableOp::Del(d as u128))
}

/// The transaction-index deletions staged when pruning a list of
/// checkpoint-contents objects.
pub open spec fn prune_ops(contents: Seq<CheckpointContents>) -> Seq<TableOp<TransactionInfo>>
    decreases contents.len(),
{
    if contents.len() == 0 {
        Seq::empty()
    } else {
        prune_ops(contents.drop_last()) + tx_del_ops(contents.last().transactions@)
    }
}

/// The owner-index writes staged for one object a transaction removed
/// from the live set: its key is deleted when it was address-owned,
/// nothing otherwise.
pub open spec fn removed_object_ops(o: ObjectRecord) -> Seq<TableOp<OwnerIndexInfo>> {
    match o.owner {
        Owner::AddressOwner(a) => seq![TableOp::Del(owner_key_code(a, o.id))],
        _ => Seq::empty(),
    }
}

/// The owner-index writes staged for one object a transaction changed:
/// first the prior key is deleted, when there was a prior state whose
/// owner was a different single address; then the current key is
/// inserted, when the current owner is a single address.
pub open spec fn changed_object_ops(c: ChangedObject) -> Seq<TableOp<OwnerIndexInfo>> {
    let del = match c.old_object {
        Some(o) => if o.owner != c.object.owner {
            removed_object_ops(o)
        } else {
            Seq::empty()
        },
        None => Seq::empty(),
    };
    let put = match c.object.owner {
        Owner::AddressOwner(a) => seq![
            TableOp::Put(
                owner_key_code(a, c.object.id),
                OwnerIndexInfo { version: c.object.version, type_: c.object.object_type },
            ),
        ],
        _ => Seq::empty(),
    };
    del + put
}

/// The owner-index writes staged for a transaction's removed objects, in
/// their given order.
pub open spec fn removed_objects_ops(objs: Seq<ObjectRecord>) -> Seq<TableOp<OwnerIndexInfo>>
    decreases objs.len(),
{
    if objs.len() == 0 {
        Seq::empty()
    } else {
        removed_objects_ops(objs.drop_last()) + removed_object_ops(objs.last())
    }
}

/// The owner-index writes staged for a transaction's changed objects, in
/// their given order.
pub open spec fn changed_objects_ops(cs: Seq<ChangedObject>) -> Seq<TableOp<OwnerIndexInfo>>
    decreases cs.len(),
{
    if cs.len() == 0 {
        Seq::empty()
    } else {
        changed_objects_ops(cs.drop_last()) + changed_object_ops(cs.last())
    }
}

/// The owner-index writes staged for one transaction: removals first,
/// then changes, each list in its given order.
pub open spec fn transaction_owner_ops(tx: CheckpointTransaction) -> Seq<TableOp<OwnerIndexInfo>> {
    removed_objects_ops(tx.removed_objects@) + changed_objects_ops(tx.changed_objects@)
}

/// The owner-index writes staged for one checkpoint: its transactions in
/// execution order.
pub open spec fn checkpoint_owner_ops(txs: Seq<CheckpointTransaction>) -> Seq<
    TableOp<OwnerIndexInfo>,
>
    decreases txs.len(),
{
    if txs.len() == 0 {
        Seq::empty()
    } else {
        checkpoint_owner_ops(txs.drop_last()) + transaction_owner_ops(txs.last())
    }
}

/// The first checkpoint summary stored under `seq_num`, if any.
pub open spec fn find_summary(s: Seq<CheckpointSummary>, seq_num: u64) -> Option<CheckpointSummary>
    decreases s.len(),
{
    if s.len() == 0 {
        None
    } else if s[0].sequence_number == seq_num {
        Some(s[0])
    } else {
        find_summary(s.skip(1), seq_num)
    }
}

/// The first checkpoint contents stored under `digest`, if any.
pub open spec fn find_contents(s: Seq<CheckpointContents>, digest: u64) -> Option<
    CheckpointContents,
>
    decreases s.len(),
{
    if s.len() == 0 {
        None
    } else if s[0].digest == digest {
        Some(s[0])
    } else {
        find_contents(s.skip(1), digest)
    }
}

/// True when the checkpoint store can serve checkpoint `seq_num`: its summary
/// is present and the contents under the summary's content digest are
/// present.
pub open spec fn lookup_ok(store: CheckpointStoreSnapshot, seq_num: u64) -> bool {
    match find_summary(store.summaries@, seq_num) {
        None => false,
        Some(summary) => find_contents(store.contents@, summary.content_digest) is Some,
    }
}

/// The transaction-index writes backfill stages for checkpoint `seq_num`, as
/// served by the checkpoint store. Meaningful only when `lookup_ok`
/// holds for `seq_num`.
pub open spec fn backfill_seq_ops(store: CheckpointStoreSnapshot, seq_num: u64) -> Seq<
    TableOp<TransactionInfo>,
> {
    let summary = find_summary(store.summaries@, seq_num)->Some_0;
    let contents = find_contents(store.contents@, summary.content_digest)->Some_0;
    tx_put_ops(contents.transactions@, summary.sequence_number)
}

/// The transaction-index writes backfill stages for the `n` checkpoints
/// starting at `lo`, in ascending order.
pub open spec fn backfill_ops(store: CheckpointStoreSnapshot, lo: u64, n: nat) -> Seq<
    TableOp<TransactionInfo>,
>
    decreases n,
{
    if n == 0 {
        Seq::empty()
    } else {
        backfill_ops(store, lo, (n - 1) as nat) + backfill_seq_ops(store, (lo + n - 1) as u64)
    }
}

/// The owner-index map after bootstrapping from a live-object snapshot:
/// one entry per address-owned object, inserted in snapshot order.
pub open spec fn live_owner_map(
    m: Map<u128, OwnerIndexInfo>,
    objs: Seq<ObjectRecord>,
) -> Map<u128, OwnerIndexInfo>
    decreases objs.len(),
{
    if objs.len() == 0 {
        m
    } else {
        let prev = live_owner_map(m, objs.drop_last());
        let o = objs.last();
        match o.owner {
            Owner::AddressOwner(a) => prev.insert(
                owner_key_code(a, o.id),
                OwnerIndexInfo { version: o.version, type_: o.object_type },
            ),
            _ => prev,
        }
    }
}

/// True when the checkpoint store can serve every executed checkpoint it
/// still retains: what bootstrap's transaction backfill needs.
pub open spec fn bootstrap_lookups_ok(store: CheckpointStoreSnapshot) -> bool {
    match store.highest_executed {
        None => true,
        Some(hi) => forall|s: u64| store.highest_pruned <= s <= hi ==> lookup_ok(store, s),
    }
}

/// All transaction-index writes bootstrap stages: the retained executed
/// range in ascending order, nothing when no checkpoint has executed.
pub open spec fn bootstrap_tx_ops(store: CheckpointStoreSnapshot) -> Seq<
    TableOp<TransactionInfo>,
> {
    match store.highest_executed {
        None => Seq::empty(),
        Some(hi) => if store.highest_pruned <= hi {
            backfill_ops(store, store.highest_pruned, (hi - store.highest_pruned + 1) as nat)
        } else {
            Seq::empty()
        },
    }
}

/// What a bootstrap missing-data error reports: the first retained,
/// executed checkpoint the checkpoint store could not serve.
pub open spec fn missing_data_outcome(store: CheckpointStoreSnapshot, e: IndexError) -> bool {
    e matches IndexError::MissingData { sequence_number } ==> {
        &&& store.highest_executed matches Some(hi) && store.highest_pruned <= sequence_number
            <= hi
        &&& !lookup_ok(store, sequence_number)
        &&& forall|s: u64| store.highest_pruned <= s < sequence_number ==> lookup_ok(store, s)
    }
}

/// The two derived index tables, opened together and always reset
/// together.
///
/// Before a new table is added here it must be either bounded in size by
/// the live-object set, or prunable with corresponding logic in `prune`.
pub struct IndexStoreTables {
    /// Extra metadata for transactions: the checkpoint that included
    /// each transaction yet to be pruned from the primary store.
    transactions: IndexTable<TransactionInfo>,
    /// Object ownership: one entry per live, address-owned object, in
    /// (address, object id) key order, so one address's objects form one
    /// contiguous range.
    owner: IndexTable<OwnerIndexInfo>,
}

impl IndexStoreTables {
    /// Both tables hold their key order invariant.
    pub closed spec fn wf(self) -> bool {
        self.transactions.wf() && self.owner.wf()
    }

    /// The transaction index as a map from digest code to entry.
    pub closed spec fn tx_view(self) -> Map<u128, TransactionInfo> {
        self.transactions@
    }

    /// The owner index as a map from owner-key code to entry.
    pub closed spec fn owner_view(self) -> Map<u128, OwnerIndexInfo> {
        self.owner@
    }

    /// Two freshly created, empty tables.
    pub fn open_empty() -> (t: Self)
        ensures
            t.wf(),
            t.tx_view() == Map::<u128, TransactionInfo>::empty(),
            t.owner_view() == Map::<u128, OwnerIndexInfo>::empty(),
    {
        Self { transactions: IndexTable::new(), owner: IndexTable::new() }
    }

    /// True when the index has never been populated. Checks the
    /// transaction index alone: the owner index may legitimately be
    /// empty on a populated node (no address-owned object at all), while
    /// a populated transaction index proves bootstrap ran; the two
    /// tables are only ever reset together.
    pub fn is_empty(&self) -> (r: bool)
        requires
            self.wf(),
        ensures
            r <==> self.tx_view() == Map::<u128, TransactionInfo>::empty(),
    {
        self.transactions.is_empty()
    }

    /// Reads the transaction-index entry for a digest.
    pub fn get_transaction(&self, digest: u64) -> (r: Option<TransactionInfo>)
        requires
            self.wf(),
        ensures
            match r {
                Some(info) => self.tx_view().contains_key(digest as u128)
                    && self.tx_view()[digest as u128] == info,
                None => !self.tx_view().contains_key(digest as u128),
            },
    {
        self.transactions.get(digest as u128)
    }

    /// Reads the owner-index entry for an owner key.
    pub fn get_owner_entry(&self, key: &OwnerIndexKey) -> (r: Option<OwnerIndexInfo>)
        requires
            self.wf(),
        ensures
            match r {
                Some(info) => self.owner_view().contains_key(key.spec_code())
                    && self.owner_view()[key.spec_code()] == info,
                None => !self.owner_view().contains_key(key.spec_code()),
            },
    {
        self.owner.get(key.code())
    }

    /// Lists the objects one address owns, in ascending object-id order,
    /// starting at `starting_id` — the pagination cursor; pass zero for
    /// the first page. Returns exactly the owner index's entries for
    /// that address from the cursor on, each as the object id with its
    /// entry.
    #[verifier::loop_isolation(false)]
    #[verifier::rlimit(30)]
    pub fn list_owned_objects(&self, owner: u64, starting_id: u64) -> (r: Vec<
        (u64, OwnerIndexInfo),
    >)
        requires
            self.wf(),
        ensures
            forall|j: int| 0 <= j < r@.len() ==> {
                &&& (#[trigger] r@[j]).0 >= starting_id
                &&& self.owner_view().contains_key(owner_key_code(owner, r@[j].0))
                &&& self.owner_view()[owner_key_code(owner, r@[j].0)] == r@[j].1
            },
            forall|id: u64| #[trigger]
                self.owner_view().contains_key(owner_key_code(owner, id)) && id >= starting_id
                    ==> exists|j: int| 0 <= j < r@.len() && (#[trigger] r@[j]).0 == id,
            forall|a: int, b: int| 0 <= a < b < r@.len() ==> r@[a].0 < r@[b].0,
    {
        let lo = OwnerIndexKey::new(owner, starting_id).code();
        let hi = OwnerIndexKey::new(owner, u64::MAX).code();
        proof {
            lemma_owner_key_code_invertible(owner, starting_id);
            lemma_owner_key_code_invertible(owner, u64::MAX);
        }
        let found = self.owner.range(lo, hi);
        let mut r: Vec<(u64, OwnerIndexInfo)> = Vec::new();
        let n = found.len();
        let mut i: usize = 0;
        while i < n
            invariant
                0 <= i <= n,
                r@.len() == i,
                forall|j: int| 0 <= j < i ==> (#[trigger] r@[j]) == (
                    code_object_id(found@[j].0) as u64,
                    found@[j].1,
                ),
            decreases n - i,
        {
            let entry = found[i];
            let id = (entry.0 % OWNER_KEY_RADIX) as u64;
            r.push((id, entry.1));
            i += 1;
        }
        proof {
            let radix = OWNER_KEY_RADIX as int;
            assert forall|j: int| 0 <= j < found@.len() implies code_owner(
                (#[trigger] found@[j]).0,
            ) == owner && starting_id <= code_object_id(found@[j].0) by {
                let k = found@[j].0;
                lemma_owner_key_code_decompose(k);
                assert(code_owner(k) == owner) by (nonlinear_arith)
                    requires
                        k as int == code_owner(k) * radix + code_object_id(k),
                        0 <= code_object_id(k) < radix,
                        lo as int == owner * radix + starting_id,
                        hi as int == owner * radix + (radix - 1),
                        lo <= k <= hi,
                        radix == OWNER_KEY_RADIX as int,
                        0 <= starting_id,
                ;
            };
            assert forall|j: int| 0 <= j < r@.len() implies (#[trigger] r@[j]).0 >= starting_id
                && self.owner_view().contains_key(owner_key_code(owner, r@[j].0))
                && self.owner_view()[owner_key_code(owner, r@[j].0)] == r@[j].1 by {
                let k = found@[j].0;
                lemma_owner_key_code_decompose(k);
                assert(owner_key_code(owner, r@[j].0) == k);
            };
            assert forall|id: u64| #[trigger]
                self.owner_view().contains_key(owner_key_code(owner, id)) && id >= starting_id
                    implies exists|j: int| 0 <= j < r@.len() && (#[trigger] r@[j]).0 == id by {
                lemma_owner_key_code_invertible(owner, id);
                assert(lo <= owner_key_code(owner, id) <= hi);
                let j = choose|j: int|
                    0 <= j < found@.len() && (#[trigger] found@[j]).0 == owner_key_code(
                        owner,
                        id,
                    );
                assert(r@[j].0 == id);
            };
            assert forall|a: int, b: int| 0 <= a < b < r@.len() implies r@[a].0 < r@[b].0 by {
                lemma_owner_key_code_decompose(found@[a].0);
                lemma_owner_key_code_decompose(found@[b].0);
            };
        }
        r
    }

    /// Applies the net effect of one executed checkpoint to both tables,
    /// as one staged batch per table: every transaction digest of the
    /// checkpoint is recorded under its checkpoint sequence number, and
    /// the owner index is updated by each transaction's removed and
    /// changed objects, in execution order, deletions of a stale key
    /// staged before the insertion that corrects it.
    #[verifier::loop_isolation(false)]
    pub fn index_checkpoint(&mut self, checkpoint: &CheckpointData)
        requires
            old(self).wf(),
        ensures
            final(self).wf(),
            final(self).tx_view() == apply_ops(
                old(self).tx_view(),
                tx_put_ops(
                    checkpoint.checkpoint_contents@,
                    checkpoint.checkpoint_summary.sequence_number,
                ),
            ),
            final(self).owner_view() == apply_ops(
                old(self).owner_view(),
                checkpoint_owner_ops(checkpoint.transactions@),
            ),
    {
        let seqno = checkpoint.checkpoint_summary.sequence_number;
        let mut tx_batch: Vec<TableOp<TransactionInfo>> = Vec::new();
        let n = checkpoint.checkpoint_contents.len();
        let mut i: usize = 0;
        while i < n
            invariant
                n == checkpoint.checkpoint_contents@.len(),
                0 <= i <= n,
                tx_batch@ == tx_put_ops(checkpoint.checkpoint_contents@.take(i as int), seqno),
            decreases n - i,
        {
            let info = TransactionInfo { checkpoint: seqno };
            tx_batch.push(TableOp::Put(checkpoint.checkpoint_contents[i] as u128, info));
            proof {
                assert(tx_put_ops(checkpoint.checkpoint_contents@.take(i + 1 as int), seqno)
                    =~= tx_put_ops(checkpoint.checkpoint_contents@.take(i as int), seqno).push(
                    TableOp::Put(checkpoint.checkpoint_contents@[i as int] as u128, info),
                ));
            }
            i += 1;
        }
        proof {
            assert(checkpoint.checkpoint_contents@.take(n as int)
                =~= checkpoint.checkpoint_contents@);
        }

        let mut owner_batch: Vec<TableOp<OwnerIndexInfo>> = Vec::new();
        let t = checkpoint.transactions.len();
        let mut j: usize = 0;
        while j < t
            invariant
                t == checkpoint.transactions@.len(),
                0 <= j <= t,
                owner_batch@ == checkpoint_owner_ops(checkpoint.transactions@.take(j as int)),
            decreases t - j,
        {
            stage_transaction(&mut owner_batch, &checkpoint.transactions[j]);
            proof {
                let txs = checkpoint.transactions@;
                assert(txs.take(j + 1 as int).drop_last() =~= txs.take(j as int));
                assert(txs.take(j + 1 as int).last() == txs[j as int]);
            }
            j += 1;
        }
        proof {
            assert(checkpoint.transactions@.take(t as int) =~= checkpoint.transactions@);
        }

        self.transactions.write_batch(tx_batch);
        self.owner.write_batch(owner_batch);
    }

    /// Deletes from the transaction index every digest contained in the
    /// given checkpoint-contents objects, as one staged batch. The owner
    /// index is untouched: it is bounded by the live-object set, not by
    /// the retention window. Pruning a digest that is already absent is
    /// a no-op.
    #[verifier::loop_isolation(false)]
    pub fn prune(&mut self, checkpoint_contents_to_prune: &Vec<CheckpointContents>)
        requires
            old(self).wf(),
        ensures
            final(self).wf(),
            final(self).tx_view() == apply_ops(
                old(self).tx_view(),
                prune_ops(checkpoint_contents_to_prune@),
            ),
            final(self).owner_view() == old(self).owner_view(),
    {
        let mut batch: Vec<TableOp<TransactionInfo>> = Vec::new();
        let n = checkpoint_contents_to_prune.len();
        let mut i: usize = 0;
        while i < n
            invariant
                n == checkpoint_contents_to_prune@.len(),
                0 <= i <= n,
                batch@ == prune_ops(checkpoint_contents_to_prune@.take(i as int)),
            decreases n - i,
        {
            let contents = &checkpoint_contents_to_prune[i];
            let m = contents.transactions.len();
            let mut k: usize = 0;
            while k < m
                invariant
                    m == contents.transactions@.len(),
                    0 <= k <= m,
                    batch@ == prune_ops(checkpoint_contents_to_prune@.take(i as int)) + tx_del_ops(
                        contents.transactions@.take(k as int),
                    ),
                decreases m - k,
            {
                batch.push(TableOp::Del(contents.transactions[k] as u128));
                proof {
                    assert(tx_del_ops(contents.transactions@.take(k + 1 as int))
                        =~= tx_del_ops(contents.transactions@.take(k as int)).push(
                        TableOp::Del(contents.transactions@[k as int] as u128),
                    ));
                }
                k += 1;
            }
            proof {
                let cs = checkpoint_contents_to_prune@;
                assert(contents.transactions@.take(m as int) =~= contents.transactions@);
                assert(cs.take(i + 1 as int).drop_last() =~= cs.take(i as int));
                assert(cs.take(i + 1 as int).last() == cs[i as int]);
                assert(prune_ops(cs.take(i + 1 as int)) =~= prune_ops(cs.take(i as int))
                    + tx_del_ops(cs[i as int].transactions@));
            }
            i += 1;
        }
        proof {
            assert(checkpoint_contents_to_prune@.take(n as int)
                =~= checkpoint_contents_to_prune@);
        }
        self.transactions.write_batch(batch);
    }

    /// Populates both tables from the primary store, invoked only on an
    /// empty index.
    ///
    /// Every executed checkpoint that the primary store still retains is
    /// backfilled into the transaction index, as one staged batch; a
    /// summary or contents the checkpoint store cannot serve in that
    /// range is a missing-data error, fatal for this attempt, and the
    /// index is left untouched — never partially initialized. The owner
    /// index is then populated from the live-object snapshot, one entry
    /// per address-owned object.
    #[verifier::loop_isolation(false)]
    pub fn init(
        &mut self,
        authority_store: &LiveObjectSetSnapshot,
        checkpoint_store: &CheckpointStoreSnapshot,
    ) -> (r: Result<(), IndexError>)
        requires
            old(self).wf(),
            old(self).tx_view() == Map::<u128, TransactionInfo>::empty(),
            old(self).owner_view() == Map::<u128, OwnerIndexInfo>::empty(),
            checkpoint_store.highest_executed matches Some(h) ==> h < u64::MAX,
        ensures
            final(self).wf(),
            match r {
                Ok(()) => {
                    &&& bootstrap_lookups_ok(*checkpoint_store)
                    &&& final(self).tx_view() == apply_ops(
                        old(self).tx_view(),
                        bootstrap_tx_ops(*checkpoint_store),
                    )
                    &&& final(self).owner_view() == live_owner_map(
                        old(self).owner_view(),
                        authority_store.objects@,
                    )
                },
                Err(e) => {
                    &&& missing_data_outcome(*checkpoint_store, e)
                    &&& !bootstrap_lookups_ok(*checkpoint_store)
                    &&& *final(self) == *old(self)
                },
            },
    {
        if let Some(highest_executed) = checkpoint_store.highest_executed {
            let lowest_available = checkpoint_store.highest_pruned;
            let mut batch: Vec<TableOp<TransactionInfo>> = Vec::new();
            let mut seq_num: u64 = lowest_available;
            while seq_num <= highest_executed
                invariant
                    checkpoint_store.highest_executed == Some(highest_executed),
                    highest_executed < u64::MAX,
                    lowest_available <= seq_num,
                    seq_num <= highest_executed + 1 || seq_num == lowest_available,
                    forall|s: u64|
                        lowest_available <= s < seq_num ==> lookup_ok(*checkpoint_store, s),
                    batch@ == backfill_ops(
                        *checkpoint_store,
                        lowest_available,
                        (seq_num - lowest_available) as nat,
                    ),
                    self == old(self),
                decreases highest_executed + 1 - seq_num,
            {
                let summary = match get_checkpoint_by_sequence_number(checkpoint_store, seq_num) {
                    Some(summary) => summary,
                    None => {
                        proof {
                            assert(!lookup_ok(*checkpoint_store, seq_num));
                            assert(!bootstrap_lookups_ok(*checkpoint_store)) by {
                                if bootstrap_lookups_ok(*checkpoint_store) {
                                    assert(lookup_ok(*checkpoint_store, seq_num));
                                }
                            };
                        }
                        return Err(IndexError::MissingData { sequence_number: seq_num });
                    },
                };
                let contents = match get_checkpoint_contents(
                    checkpoint_store,
                    summary.content_digest,
                ) {
                    Some(contents) => contents,
                    None => {
                        proof {
                            assert(!lookup_ok(*checkpoint_store, seq_num));
                            assert(!bootstrap_lookups_ok(*checkpoint_store)) by {
                                if bootstrap_lookups_ok(*checkpoint_store) {
                                    assert(lookup_ok(*checkpoint_store, seq_num));
                                }
                            };
                        }
                        return Err(IndexError::MissingData { sequence_number: seq_num });
                    },
                };
                let m = contents.transactions.len();
                let mut k: usize = 0;
                while k < m
                    invariant
                        m == contents.transactions@.len(),
                        0 <= k <= m,
                        batch@ == backfill_ops(
                            *checkpoint_store,
                            lowest_available,
                            (seq_num - lowest_available) as nat,
                        ) + tx_put_ops(
                            contents.transactions@.take(k as int),
                            summary.sequence_number,
                        ),
                    decreases m - k,
                {
                    let info = TransactionInfo { checkpoint: summary.sequence_number };
                    batch.push(TableOp::Put(contents.transactions[k] as u128, info));
                    proof {
                        assert(tx_put_ops(
                            contents.transactions@.take(k + 1 as int),
                            summary.sequence_number,
                        ) =~= tx_put_ops(
                            contents.transactions@.take(k as int),
                            summary.sequence_number,
                        ).push(
                            TableOp::Put(contents.transactions@[k as int] as u128, info),
                        ));
                    }
                    k += 1;
                }
                proof {
                    assert(contents.transactions@.take(m as int) =~= contents.transactions@);
                    assert(lookup_ok(*checkpoint_store, seq_num));
                    assert(backfill_seq_ops(*checkpoint_store, seq_num) == tx_put_ops(
                        contents.transactions@,
                        summary.sequence_number,
                    ));
                    assert((seq_num - lowest_available + 1) as nat != 0);
                    assert(batch@ =~= backfill_ops(
                        *checkpoint_store,
                        lowest_available,
                        (seq_num - lowest_available + 1) as nat,
                    ));
                }
                seq_num += 1;
            }
            let ghost staged = batch@;
            proof {
                assert(staged =~= bootstrap_tx_ops(*checkpoint_store));
            }
            self.transactions.write_batch(batch);
            proof {
                assert(self.tx_view() == apply_ops(
                    old(self).tx_view(),
                    bootstrap_tx_ops(*checkpoint_store),
                ));
                assert(bootstrap_lookups_ok(*checkpoint_store));
            }
        } else {
            proof {
                assert(bootstrap_tx_ops(*checkpoint_store) =~= Seq::<TableOp<TransactionInfo>>::empty());
                assert(apply_ops(
                    old(self).tx_view(),
                    Seq::<TableOp<TransactionInfo>>::empty(),
                ) == old(self).tx_view());
                assert(bootstrap_lookups_ok(*checkpoint_store));
            }
        }

        let ghost owner0 = self.owner_view();
        let ghost tx_after_backfill = self.tx_view();
        let n = authority_store.objects.len();
        let mut i: usize = 0;
        while i < n
            invariant
                n == authority_store.objects@.len(),
                0 <= i <= n,
                self.wf(),
                self.owner_view() == live_owner_map(
                    owner0,
                    authority_store.objects@.take(i as int),
                ),
                self.tx_view() == tx_after_backfill,
            decreases n - i,
        {
            let object = &authority_store.objects[i];
            match object.owner {
                Owner::AddressOwner(owner) => {
                    let owner_key = OwnerIndexKey::new(owner, object.id);
                    let owner_info = OwnerIndexInfo::new(object);
                    let mut single: Vec<TableOp<OwnerIndexInfo>> = Vec::new();
                    single.push(TableOp::Put(owner_key.code(), owner_info));
                    let ghost prev_owner = self.owner_view();
                    let ghost op = TableOp::<OwnerIndexInfo>::Put(
                        owner_key.spec_code(),
                        owner_info,
                    );
                    proof {
                        assert(single@ =~= seq![op]);
                        crate::table::lemma_apply_ops_singleton(prev_owner, op);
                    }
                    self.owner.write_batch(single);
                    proof {
                        assert(self.owner_view() == prev_owner.insert(
                            owner_key.spec_code(),
                            owner_info,
                        ));
                    }
                },
                Owner::ObjectOwner(_) | Owner::Shared { .. } | Owner::Immutable => {},
            }
            proof {
                let objs = authority_store.objects@;
                assert(objs.take(i + 1 as int).drop_last() =~= objs.take(i as int));
                assert(objs.take(i + 1 as int).last() == objs[i as int]);
                assert(self.owner_view() == live_owner_map(owner0, objs.take(i + 1 as int)));
            }
            i += 1;
        }
        proof {
            assert(authority_store.objects@.take(n as int) =~= authority_store.objects@);
        }
        Ok(())
    }
}

/// Finds the summary of checkpoint `seq_num` in the checkpoint store.
fn get_checkpoint_by_sequence_number(
    store: &CheckpointStoreSnapshot,
    seq_num: u64,
) -> (r: Option<CheckpointSummary>)
    ensures
        r == find_summary(store.summaries@, seq_num),
{
    proof {
        assert(store.summaries@.skip(0) =~= store.summaries@);
    }
    let n = store.summaries.len();
    let mut i: usize = 0;
    while i < n
        invariant
            n == store.summaries@.len(),
            0 <= i <= n,
            find_summary(store.summaries@, seq_num) == find_summary(
                store.summaries@.skip(i as int),
                seq_num,
            ),
        decreases n - i,
    {
        if store.summaries[i].sequence_number == seq_num {
            proof {
                assert(store.summaries@.skip(i as int)[0] == store.summaries@[i as int]);
            }
            return Some(store.summaries[i]);
        }
        proof {
            assert(store.summaries@.skip(i as int)[0] == store.summaries@[i as int]);
            assert(store.summaries@.skip(i as int).skip(1)
                =~= store.summaries@.skip(i + 1 as int));
        }
        i += 1;
    }
    None
}

/// Finds the checkpoint contents stored under `digest` in the checkpoint
/// store.
fn get_checkpoint_contents(store: &CheckpointStoreSnapshot, digest: u64) -> (r: Option<
    &CheckpointContents,
>)
    ensures
        match r {
            Some(contents) => find_contents(store.contents@, digest) == Some(*contents),
            None => find_contents(store.contents@, digest) is None,
        },
{
    proof {
        assert(store.contents@.skip(0) =~= store.contents@);
    }
    let n = store.contents.len();
    let mut i: usize = 0;
    while i < n
        invariant
            n == store.contents@.len(),
            0 <= i <= n,
            find_contents(store.contents@, digest) == find_contents(
                store.contents@.skip(i as int),
                digest,
            ),
        decreases n - i,
    {
        if store.contents[i].digest == digest {
            proof {
                assert(store.contents@.skip(i as int)[0] == store.contents@[i as int]);
            }
            return Some(&store.contents[i]);
        }
        proof {
            assert(store.contents@.skip(i as int)[0] == store.contents@[i as int]);
            assert(store.contents@.skip(i as int).skip(1) =~= store.contents@.skip(i + 1 as int));
        }
        i += 1;
    }
    None
}

/// Stages the owner-index writes of one transaction: removed objects
/// first, then changed objects, each in its given order.
fn stage_transaction(batch: &mut Vec<TableOp<OwnerIndexInfo>>, tx: &CheckpointTransaction)
    ensures
        final(batch)@ == old(batch)@ + transaction_owner_ops(*tx),
{
    let n = tx.removed_objects.len();
    let mut i: usize = 0;
    while i < n
        invariant
            n == tx.removed_objects@.len(),
            0 <= i <= n,
            batch@ == old(batch)@ + removed_objects_ops(tx.removed_objects@.take(i as int)),
        decreases n - i,
    {
        stage_removed(batch, &tx.removed_objects[i]);
        proof {
            let objs = tx.removed_objects@;
            assert(objs.take(i + 1 as int).drop_last() =~= objs.take(i as int));
            assert(objs.take(i + 1 as int).last() == objs[i as int]);
            assert(old(batch)@ + removed_objects_ops(objs.take(i as int)) + removed_object_ops(
                objs[i as int],
            ) =~= old(batch)@ + removed_objects_ops(objs.take(i + 1 as int)));
        }
        i += 1;
    }
    proof {
        assert(tx.removed_objects@.take(n as int) =~= tx.removed_objects@);
    }

    let m = tx.changed_objects.len();
    let mut j: usize = 0;
    while j < m
        invariant
            m == tx.changed_objects@.len(),
            0 <= j <= m,
            batch@ == old(batch)@ + removed_objects_ops(tx.removed_objects@) + changed_objects_ops(
                tx.changed_objects@.take(j as int),
            ),
        decreases m - j,
    {
        stage_changed(batch, &tx.changed_objects[j]);
        proof {
            let cs = tx.changed_objects@;
            assert(cs.take(j + 1 as int).drop_last() =~= cs.take(j as int));
            assert(cs.take(j + 1 as int).last() == cs[j as int]);
            assert(old(batch)@ + removed_objects_ops(tx.removed_objects@) + changed_objects_ops(
                cs.take(j as int),
            ) + changed_object_ops(cs[j as int]) =~= old(batch)@ + removed_objects_ops(
                tx.removed_objects@,
            ) + changed_objects_ops(cs.take(j + 1 as int)));
        }
        j += 1;
    }
    proof {
        assert(tx.changed_objects@.take(m as int) =~= tx.changed_objects@);
        assert(old(batch)@ + removed_objects_ops(tx.removed_objects@) + changed_objects_ops(
            tx.changed_objects@,
        ) =~= old(batch)@ + transaction_owner_ops(*tx));
    }
}

/// Stages the owner-index write for one removed object: delete its key
/// when it was address-owned.
fn stage_removed(batch: &mut Vec<TableOp<OwnerIndexInfo>>, removed_object: &ObjectRecord)
    ensures
        final(batch)@ == old(batch)@ + removed_object_ops(*removed_object),
{
    match removed_object.owner {
        Owner::AddressOwner(address) => {
            let owner_key = OwnerIndexKey::new(address, removed_object.id);
            batch.push(TableOp::Del(owner_key.code()));
            proof {
                assert(batch@ =~= old(batch)@ + removed_object_ops(*removed_object));
            }
        },
        Owner::ObjectOwner(_) | Owner::Shared { .. } | Owner::Immutable => {
            proof {
                assert(batch@ =~= old(batch)@ + removed_object_ops(*removed_object));
            }
        },
    }
}

/// Stages the owner-index writes for one changed object: delete the
/// prior key when the prior owner was a different single address, then
/// insert under the current key when the current owner is a single
/// address.
fn stage_changed(batch: &mut Vec<TableOp<OwnerIndexInfo>>, changed: &ChangedObject)
    ensures
        final(batch)@ == old(batch)@ + changed_object_ops(*changed),
{
    if let Some(old_object) = &changed.old_object {
        if old_object.owner != changed.object.owner {
            match old_object.owner {
                Owner::AddressOwner(address) => {
                    let owner_key = OwnerIndexKey::new(address, old_object.id);
                    batch.push(TableOp::Del(owner_key.code()));
                },
                Owner::ObjectOwner(_) | Owner::Shared { .. } | Owner::Immutable => {},
            }
        }
    }
    match changed.object.owner {
        Owner::AddressOwner(owner) => {
            let owner_key = OwnerIndexKey::new(owner, changed.object.id);
            let owner_info = OwnerIndexInfo::new(&changed.object);
            batch.push(TableOp::Put(owner_key.code(), owner_info));
        },
        Owner::ObjectOwner(_) | Owner::Shared { .. } | Owner::Immutable => {},
    }
    proof {
        assert(batch@ =~= old(batch)@ + changed_object_ops(*changed));
    }
}

} // verus!
