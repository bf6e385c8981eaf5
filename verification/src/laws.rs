//! The laws the index layer keeps, proved over the contracts of the
//! table operations: idempotence of checkpoint application, exactness of
//! pruning, correctness of the owner index against the modelled primary
//! state, exclusion of non-address owners, and equivalence of bootstrap
//! and incremental indexing.

use vstd::prelude::*;

use crate::keys::OwnerIndexInfo;
use crate::keys::TransactionInfo;
use crate::keys::lemma_owner_key_code_decompose;
use crate::keys::lemma_owner_key_code_invertible;
use crate::keys::owner_key_code;
use crate::keys::code_object_id;
use crate::keys::code_owner;
use crate::model::address_owned_entries;
use crate::model::changed_consistent;
use crate::model::changed_list_consistent;
use crate::model::checkpoint_consistent;
use crate::model::history_consistent;
use crate::model::removed_consistent;
use crate::model::removed_list_consistent;
use crate::model::snapshot_represents;
use crate::model::state_after_changed;
use crate::model::state_after_checkpoint;
use crate::model::state_after_checkpoints;
use crate::model::state_after_removed;
use crate::model::state_after_tx;
use crate::model::tx_consistent;

use crate::table::TableOp;
use crate::table::apply_ops;
use crate::table::lemma_apply_ops_concat;
use crate::table::lemma_apply_ops_singleton;
use crate::tables::backfill_seq_ops;
use crate::tables::backfill_ops;
use crate::tables::bootstrap_tx_ops;
use crate::tables::changed_object_ops;
use crate::tables::changed_objects_ops;
use crate::tables::checkpoint_owner_ops;
use crate::tables::find_contents;
use crate::tables::find_summary;
use crate::tables::live_owner_map;
use crate::tables::removed_object_ops;
use crate::tables::removed_objects_ops;
use crate::tables::transaction_owner_ops;
use crate::tables::prune_ops;
use crate::tables::tx_del_ops;
use crate::tables::tx_put_ops;
use crate::types::ChangedObject;
use crate::types::CheckpointContents;
use crate::types::CheckpointTransaction;
use crate::types::CheckpointData;
use crate::types::CheckpointStoreSnapshot;
use crate::types::ObjectRecord;
use crate::types::Owner;

verus! {

/// The key a staged write touches.
pub open spec fn op_key<V>(op: TableOp<V>) -> u128 {
    match op {
        TableOp::Put(k, _) => k,
        TableOp::Del(k) => k,
    }
}

/// The last staged write in a batch that touches key `k`, if any.
pub open spec fn last_op_on<V>(ops: Seq<TableOp<V>>, k: u128) -> Option<TableOp<V>>
    decreases ops.len(),
{
    if ops.len() == 0 {
        None
    } else if op_key(ops.last()) == k {
        Some(ops.last())
    } else {
        last_op_on(ops.drop_last(), k)
    }
}

/// What a batch leaves under key `k`: the last write staged for `k`
/// decides, and a key no write touches keeps its binding.
pub proof fn lemma_apply_ops_last_write<V>(m: Map<u128, V>, ops: Seq<TableOp<V>>, k: u128)
    ensures
        match last_op_on(ops, k) {
            Some(op) => match op {
                TableOp::Put(_, v) => apply_ops(m, ops).contains_key(k) && apply_ops(m, ops)[k]
                    == v,
                TableOp::Del(_) => !apply_ops(m, ops).contains_key(k),
            },
            None => apply_ops(m, ops).contains_key(k) == m.contains_key(k) && (m.contains_key(k)
                ==> apply_ops(m, ops)[k] == m[k]),
        },
    decreases ops.len(),
{
    if ops.len() > 0 {
        lemma_apply_ops_last_write(m, ops.drop_last(), k);
    }
}

/// Applying one batch twice in a row leaves what applying it once
/// leaves: every staged write is an unconditional upsert or deletion, so
/// the second application repeats what the first already did.
pub proof fn lemma_apply_ops_idempotent<V>(m: Map<u128, V>, ops: Seq<TableOp<V>>)
    ensures
        apply_ops(apply_ops(m, ops), ops) == apply_ops(m, ops),
{
    let m1 = apply_ops(m, ops);
    let m2 = apply_ops(m1, ops);
    assert forall|k: u128| #[trigger] m2.contains_key(k) == m1.contains_key(k) by {
        lemma_apply_ops_last_write(m, ops, k);
        lemma_apply_ops_last_write(m1, ops, k);
    };
    assert forall|k: u128| m1.contains_key(k) implies m2[k] == m1[k] by {
        lemma_apply_ops_last_write(m, ops, k);
        lemma_apply_ops_last_write(m1, ops, k);
    };
    assert(m2 =~= m1);
}

/// Applying the same checkpoint's indexing step twice in a row — a
/// crash-retry — yields the same table contents as applying it once, on
/// both indexes.
pub proof fn lemma_index_checkpoint_idempotent(
    tx0: Map<u128, TransactionInfo>,
    owner0: Map<u128, OwnerIndexInfo>,
    checkpoint: CheckpointData,
)
    ensures
        apply_ops(
            apply_ops(
                tx0,
                tx_put_ops(
                    checkpoint.checkpoint_contents@,
                    checkpoint.checkpoint_summary.sequence_number,
                ),
            ),
            tx_put_ops(
                checkpoint.checkpoint_contents@,
                checkpoint.checkpoint_summary.sequence_number,
            ),
        ) == apply_ops(
            tx0,
            tx_put_ops(
                checkpoint.checkpoint_contents@,
                checkpoint.checkpoint_summary.sequence_number,
            ),
        ),
        apply_ops(
            apply_ops(owner0, checkpoint_owner_ops(checkpoint.transactions@)),
            checkpoint_owner_ops(checkpoint.transactions@),
        ) == apply_ops(owner0, checkpoint_owner_ops(checkpoint.transactions@)),
{
    lemma_apply_ops_idempotent(
        tx0,
        tx_put_ops(
            checkpoint.checkpoint_contents@,
            checkpoint.checkpoint_summary.sequence_number,
        ),
    );
    lemma_apply_ops_idempotent(owner0, checkpoint_owner_ops(checkpoint.transactions@));
}

/// The codes of the digests in one digest list.
pub open spec fn digest_codes(ds: Seq<u64>) -> Set<u128> {
    Set::new(|k: u128| exists|i: int| 0 <= i < ds.len() && (#[trigger] ds[i]) as u128 == k)
}

/// The codes of every digest contained in a list of checkpoint-contents
/// objects.
pub open spec fn pruned_digest_codes(contents: Seq<CheckpointContents>) -> Set<u128> {
    Set::new(
        |k: u128|
            exists|ci: int|
                0 <= ci < contents.len() && digest_codes(
                    (#[trigger] contents[ci]).transactions@,
                ).contains(k),
    )
}

/// Deleting a digest list removes exactly those digests' bindings.
pub proof fn lemma_tx_del_ops_removes(m: Map<u128, TransactionInfo>, ds: Seq<u64>)
    ensures
        apply_ops(m, tx_del_ops(ds)) == m.remove_keys(digest_codes(ds)),
    decreases ds.len(),
{
    if ds.len() == 0 {
        assert(tx_del_ops(ds) =~= Seq::<TableOp<TransactionInfo>>::empty());
        assert(digest_codes(ds) =~= Set::<u128>::empty());
        assert(m.remove_keys(digest_codes(ds)) =~= m);
    } else {
        let d = ds.last();
        lemma_tx_del_ops_removes(m, ds.drop_last());
        assert(tx_del_ops(ds).drop_last() =~= tx_del_ops(ds.drop_last()));
        assert(tx_del_ops(ds).last() == TableOp::<TransactionInfo>::Del(d as u128));
        assert(apply_ops(m, tx_del_ops(ds)) == m.remove_keys(digest_codes(ds.drop_last())).remove(
            d as u128,
        ));
        assert forall|k: u128| #[trigger] digest_codes(ds).contains(k)
            == (digest_codes(ds.drop_last()).contains(k) || k == d as u128) by {
            if digest_codes(ds).contains(k) {
                let i = choose|i: int| 0 <= i < ds.len() && (#[trigger] ds[i]) as u128 == k;
                if i < ds.len() - 1 {
                    assert(ds.drop_last()[i] as u128 == k);
                }
            }
            if digest_codes(ds.drop_last()).contains(k) {
                let i = choose|i: int|
                    0 <= i < ds.drop_last().len() && (#[trigger] ds.drop_last()[i]) as u128 == k;
                assert(ds[i] as u128 == k);
            }
            if k == d as u128 {
                assert(ds[ds.len() - 1] as u128 == k);
            }
        };
        assert(m.remove_keys(digest_codes(ds.drop_last())).remove(d as u128) =~= m.remove_keys(
            digest_codes(ds),
        ));
    }
}

/// Pruning exactness: for the checkpoint-contents objects passed to the
/// pruner, exactly the transaction digests they contain are removed from
/// the transaction index; every other binding remains, and digests
/// already absent are a no-op.
pub proof fn lemma_prune_exact(m: Map<u128, TransactionInfo>, contents: Seq<CheckpointContents>)
    ensures
        apply_ops(m, prune_ops(contents)) == m.remove_keys(pruned_digest_codes(contents)),
    decreases contents.len(),
{
    if contents.len() == 0 {
        assert(pruned_digest_codes(contents) =~= Set::<u128>::empty());
        assert(m.remove_keys(pruned_digest_codes(contents)) =~= m);
    } else {
        let front = contents.drop_last();
        let lastc = contents.last();
        lemma_prune_exact(m, front);
        lemma_apply_ops_concat(m, prune_ops(front), tx_del_ops(lastc.transactions@));
        lemma_tx_del_ops_removes(m.remove_keys(pruned_digest_codes(front)), lastc.transactions@);
        assert forall|k: u128| #[trigger] pruned_digest_codes(contents).contains(k)
            == (pruned_digest_codes(front).contains(k) || digest_codes(
            lastc.transactions@,
        ).contains(k)) by {
            if pruned_digest_codes(contents).contains(k) {
                let ci = choose|ci: int|
                    0 <= ci < contents.len() && digest_codes(
                        (#[trigger] contents[ci]).transactions@,
                    ).contains(k);
                if ci < contents.len() - 1 {
                    assert(front[ci] == contents[ci]);
                    assert(digest_codes((front[ci]).transactions@).contains(k));
                }
            }
            if pruned_digest_codes(front).contains(k) {
                let ci = choose|ci: int|
                    0 <= ci < front.len() && digest_codes(
                        (#[trigger] front[ci]).transactions@,
                    ).contains(k);
                assert(contents[ci] == front[ci]);
                assert(digest_codes((contents[ci]).transactions@).contains(k));
            }
            if digest_codes(lastc.transactions@).contains(k) {
                assert(digest_codes((contents[contents.len() - 1]).transactions@).contains(k));
            }
        };
        assert(m.remove_keys(pruned_digest_codes(front)).remove_keys(
            digest_codes(lastc.transactions@),
        ) =~= m.remove_keys(pruned_digest_codes(contents)));
    }
}

/// One removed object's staged writes turn the owner entries of the
/// state before the removal into those of the state after it.
pub proof fn lemma_removed_step(s: Map<u64, ObjectRecord>, o: ObjectRecord)
    requires
        removed_consistent(s, o),
    ensures
        apply_ops(address_owned_entries(s), removed_object_ops(o)) == address_owned_entries(
            s.remove(o.id),
        ),
{
    let m = address_owned_entries(s);
    let m2 = address_owned_entries(s.remove(o.id));
    match o.owner {
        Owner::AddressOwner(a) => {
            let key = owner_key_code(a, o.id);
            lemma_apply_ops_singleton(m, TableOp::Del(key));
            lemma_owner_key_code_invertible(a, o.id);
            assert forall|k: u128| #[trigger] m.remove(key).contains_key(k) == m2.contains_key(
                k,
            ) by {
                lemma_owner_key_code_decompose(k);
            };
            assert forall|k: u128| m2.contains_key(k) implies m.remove(key)[k] == m2[k] by {
                lemma_owner_key_code_decompose(k);
            };
            assert(m.remove(key) =~= m2);
        },
        Owner::ObjectOwner(_) | Owner::Shared { .. } | Owner::Immutable => {
            assert(removed_object_ops(o) =~= Seq::<TableOp<OwnerIndexInfo>>::empty());
            assert(apply_ops(m, removed_object_ops(o)) == m);
            assert forall|k: u128| #[trigger] m.contains_key(k) == m2.contains_key(k) by {
                lemma_owner_key_code_decompose(k);
            };
            assert forall|k: u128| m2.contains_key(k) implies m[k] == m2[k] by {
                lemma_owner_key_code_decompose(k);
            };
            assert(m =~= m2);
        },
    }
}

/// One changed object's staged writes turn the owner entries of the
/// state before the change into those of the state after it: the stale
/// key goes, the current key comes, keys of other objects stay.
pub proof fn lemma_changed_step(s: Map<u64, ObjectRecord>, c: ChangedObject)
    requires
        changed_consistent(s, c),
    ensures
        apply_ops(address_owned_entries(s), changed_object_ops(c)) == address_owned_entries(
            s.insert(c.object.id, c.object),
        ),
{
    let m = address_owned_entries(s);
    let id = c.object.id;
    let m2 = address_owned_entries(s.insert(id, c.object));
    let ops = changed_object_ops(c);
    let del = match c.old_object {
        Some(o) => if o.owner != c.object.owner {
            removed_object_ops(o)
        } else {
            Seq::empty()
        },
        None => Seq::empty(),
    };
    let put = match c.object.owner {
        Owner::AddressOwner(a) => seq![
            TableOp::Put(
                owner_key_code(a, id),
                OwnerIndexInfo { version: c.object.version, type_: c.object.object_type },
            ),
        ],
        _ => Seq::<TableOp<OwnerIndexInfo>>::empty(),
    };
    assert(ops =~= del + put);
    lemma_apply_ops_concat(m, del, put);
    let md = apply_ops(m, del);
    match c.old_object {
        Some(o) => {
            if o.owner != c.object.owner {
                match o.owner {
                    Owner::AddressOwner(b) => {
                        lemma_apply_ops_singleton(m, TableOp::Del(owner_key_code(b, o.id)));
                        lemma_owner_key_code_invertible(b, o.id);
                        assert(md == m.remove(owner_key_code(b, id)));
                    },
                    Owner::ObjectOwner(_) | Owner::Shared { .. } | Owner::Immutable => {
                        assert(del =~= Seq::<TableOp<OwnerIndexInfo>>::empty());
                        assert(md == m);
                    },
                }
            } else {
                assert(md == m);
            }
        },
        None => {
            assert(md == m);
        },
    }
    let fin = apply_ops(md, put);
    match c.object.owner {
        Owner::AddressOwner(a) => {
            let info = OwnerIndexInfo { version: c.object.version, type_: c.object.object_type };
            lemma_apply_ops_singleton(md, TableOp::Put(owner_key_code(a, id), info));
            lemma_owner_key_code_invertible(a, id);
            assert(fin == md.insert(owner_key_code(a, id), info));
        },
        Owner::ObjectOwner(_) | Owner::Shared { .. } | Owner::Immutable => {
            assert(put =~= Seq::<TableOp<OwnerIndexInfo>>::empty());
            assert(fin == md);
        },
    }
    assert forall|k: u128| #[trigger] fin.contains_key(k) == m2.contains_key(k) by {
        lemma_owner_key_code_decompose(k);
    };
    assert forall|k: u128| m2.contains_key(k) implies fin[k] == m2[k] by {
        lemma_owner_key_code_decompose(k);
    };
    assert(fin =~= m2);
    assert(apply_ops(m, ops) == fin);
}

/// A transaction's removal list keeps the owner entries aligned with the
/// evolving state.
pub proof fn lemma_removed_list(s: Map<u64, ObjectRecord>, objs: Seq<ObjectRecord>)
    requires
        removed_list_consistent(s, objs),
    ensures
        apply_ops(address_owned_entries(s), removed_objects_ops(objs)) == address_owned_entries(
            state_after_removed(s, objs),
        ),
    decreases objs.len(),
{
    if objs.len() > 0 {
        lemma_removed_list(s, objs.drop_last());
        lemma_apply_ops_concat(
            address_owned_entries(s),
            removed_objects_ops(objs.drop_last()),
            removed_object_ops(objs.last()),
        );
        lemma_removed_step(state_after_removed(s, objs.drop_last()), objs.last());
    }
}

/// A transaction's change list keeps the owner entries aligned with the
/// evolving state.
pub proof fn lemma_changed_list(s: Map<u64, ObjectRecord>, cs: Seq<ChangedObject>)
    requires
        changed_list_consistent(s, cs),
    ensures
        apply_ops(address_owned_entries(s), changed_objects_ops(cs)) == address_owned_entries(
            state_after_changed(s, cs),
        ),
    decreases cs.len(),
{
    if cs.len() > 0 {
        lemma_changed_list(s, cs.drop_last());
        lemma_apply_ops_concat(
            address_owned_entries(s),
            changed_objects_ops(cs.drop_last()),
            changed_object_ops(cs.last()),
        );
        lemma_changed_step(state_after_changed(s, cs.drop_last()), cs.last());
    }
}

/// One transaction's staged owner writes keep the owner entries aligned
/// with the state its effects produce.
pub proof fn lemma_tx_step(s: Map<u64, ObjectRecord>, tx: CheckpointTransaction)
    requires
        tx_consistent(s, tx),
    ensures
        apply_ops(address_owned_entries(s), transaction_owner_ops(tx)) == address_owned_entries(
            state_after_tx(s, tx),
        ),
{
    lemma_apply_ops_concat(
        address_owned_entries(s),
        removed_objects_ops(tx.removed_objects@),
        changed_objects_ops(tx.changed_objects@),
    );
    lemma_removed_list(s, tx.removed_objects@);
    lemma_changed_list(state_after_removed(s, tx.removed_objects@), tx.changed_objects@);
}

/// One checkpoint's staged owner writes keep the owner entries aligned
/// with the state its transactions produce.
pub proof fn lemma_checkpoint_step(
    s: Map<u64, ObjectRecord>,
    txs: Seq<CheckpointTransaction>,
)
    requires
        checkpoint_consistent(s, txs),
    ensures
        apply_ops(address_owned_entries(s), checkpoint_owner_ops(txs)) == address_owned_entries(
            state_after_checkpoint(s, txs),
        ),
    decreases txs.len(),
{
    if txs.len() > 0 {
        lemma_checkpoint_step(s, txs.drop_last());
        lemma_apply_ops_concat(
            address_owned_entries(s),
            checkpoint_owner_ops(txs.drop_last()),
            transaction_owner_ops(txs.last()),
        );
        lemma_tx_step(state_after_checkpoint(s, txs.drop_last()), txs.last());
    }
}

/// The owner index after indexing a checkpoint sequence incrementally,
/// starting from the given owner-index map.
pub open spec fn incremental_owner_index(
    m: Map<u128, OwnerIndexInfo>,
    cps: Seq<CheckpointData>,
) -> Map<u128, OwnerIndexInfo>
    decreases cps.len(),
{
    if cps.len() == 0 {
        m
    } else {
        apply_ops(
            incremental_owner_index(m, cps.drop_last()),
            checkpoint_owner_ops(cps.last().transactions@),
        )
    }
}

/// The transaction index after indexing a checkpoint sequence
/// incrementally, starting from the given transaction-index map.
pub open spec fn incremental_tx_index(
    m: Map<u128, TransactionInfo>,
    cps: Seq<CheckpointData>,
) -> Map<u128, TransactionInfo>
    decreases cps.len(),
{
    if cps.len() == 0 {
        m
    } else {
        apply_ops(
            incremental_tx_index(m, cps.drop_last()),
            tx_put_ops(
                cps.last().checkpoint_contents@,
                cps.last().checkpoint_summary.sequence_number,
            ),
        )
    }
}

/// Incremental indexing of a faithful history keeps the owner index
/// aligned with the live state, from any aligned starting point.
pub proof fn lemma_owner_index_tracks(s: Map<u64, ObjectRecord>, cps: Seq<CheckpointData>)
    requires
        history_consistent(s, cps),
    ensures
        incremental_owner_index(address_owned_entries(s), cps) == address_owned_entries(
            state_after_checkpoints(s, cps),
        ),
    decreases cps.len(),
{
    if cps.len() > 0 {
        lemma_owner_index_tracks(s, cps.drop_last());
        lemma_checkpoint_step(
            state_after_checkpoints(s, cps.drop_last()),
            cps.last().transactions@,
        );
    }
}

/// Owner-index correctness: after incrementally indexing a faithful
/// checkpoint history from genesis, the owner index holds exactly one
/// entry per live, address-owned object — the entries derivable by
/// replaying every checkpoint's effects from the empty state.
pub proof fn lemma_owner_index_correct(cps: Seq<CheckpointData>)
    requires
        history_consistent(Map::empty(), cps),
    ensures
        incremental_owner_index(Map::empty(), cps) == address_owned_entries(
            state_after_checkpoints(Map::empty(), cps),
        ),
{
    assert(address_owned_entries(Map::empty()) =~= Map::<u128, OwnerIndexInfo>::empty());
    lemma_owner_index_tracks(Map::empty(), cps);
}

/// Ownership-kind exclusion: every key the incrementally built owner
/// index holds belongs to an object that is live and owned by exactly
/// the single address in the key. Objects owned by another object,
/// shared objects and immutable objects never appear, even if they were
/// address-owned earlier.
pub proof fn lemma_ownership_kind_exclusion(cps: Seq<CheckpointData>, k: u128)
    requires
        history_consistent(Map::empty(), cps),
        incremental_owner_index(Map::empty(), cps).contains_key(k),
    ensures
        state_after_checkpoints(Map::empty(), cps).contains_key(code_object_id(k) as u64),
        state_after_checkpoints(Map::empty(), cps)[code_object_id(k) as u64].owner
            == Owner::AddressOwner(code_owner(k) as u64),
{
    lemma_owner_index_correct(cps);
}

/// The checkpoint store serves exactly the given history: full
/// retention, one summary per checkpoint under its sequence number, and
/// contents under each summary's content digest listing that
/// checkpoint's transaction digests.
pub open spec fn store_serves(store: CheckpointStoreSnapshot, cps: Seq<CheckpointData>) -> bool {
    &&& store.highest_pruned == 0
    &&& store.highest_executed == (if cps.len() == 0 {
        Option::<u64>::None
    } else {
        Option::<u64>::Some((cps.len() - 1) as u64)
    })
    &&& cps.len() < 0x1_0000_0000_0000_0000
    &&& forall|i: int| 0 <= i < cps.len() ==> {
        &&& (#[trigger] cps[i]).checkpoint_summary.sequence_number == i as u64
        &&& find_summary(store.summaries@, i as u64) == Some(cps[i].checkpoint_summary)
        &&& match find_contents(store.contents@, cps[i].checkpoint_summary.content_digest) {
            Some(contents) => contents.transactions@ == cps[i].checkpoint_contents@,
            None => false,
        }
    }
}

/// Backfilling the first `n` checkpoints from a store that serves the
/// history stages the same transaction-index writes as indexing those
/// `n` checkpoints incrementally.
pub proof fn lemma_backfill_matches(
    store: CheckpointStoreSnapshot,
    cps: Seq<CheckpointData>,
    m: Map<u128, TransactionInfo>,
    n: int,
)
    requires
        store_serves(store, cps),
        0 <= n <= cps.len(),
    ensures
        apply_ops(m, backfill_ops(store, 0, n as nat)) == incremental_tx_index(m, cps.take(n)),
    decreases n,
{
    if n == 0 {
        assert(backfill_ops(store, 0, 0) =~= Seq::<TableOp<TransactionInfo>>::empty());
    } else {
        lemma_backfill_matches(store, cps, m, n - 1);
        lemma_apply_ops_concat(
            m,
            backfill_ops(store, 0, (n - 1) as nat),
            backfill_seq_ops(store, (n - 1) as u64),
        );
        assert(backfill_seq_ops(store, (n - 1) as u64) == tx_put_ops(
            cps[n - 1].checkpoint_contents@,
            cps[n - 1].checkpoint_summary.sequence_number,
        ));
        assert(cps.take(n).drop_last() =~= cps.take(n - 1));
        assert(cps.take(n).last() == cps[n - 1]);
    }
}

/// Bootstrapping the owner index from a snapshot that lists exactly the
/// live objects of state `s` builds exactly the owner entries of `s`.
pub proof fn lemma_snapshot_builds_owner_index(
    objs: Seq<ObjectRecord>,
    s: Map<u64, ObjectRecord>,
)
    requires
        snapshot_represents(objs, s),
    ensures
        live_owner_map(Map::empty(), objs) == address_owned_entries(s),
    decreases objs.len(),
{
    if objs.len() == 0 {
        assert(s =~= Map::<u64, ObjectRecord>::empty());
        assert forall|k: u128| !address_owned_entries(s).contains_key(k) by {};
        assert(address_owned_entries(s) =~= Map::<u128, OwnerIndexInfo>::empty());
    } else {
        let o = objs.last();
        let front = objs.drop_last();
        let s1 = s.remove(o.id);
        assert(objs[objs.len() - 1] == o);
        assert(s.contains_key(o.id) && s[o.id] == o);
        assert(snapshot_represents(front, s1)) by {
            assert forall|i: int| 0 <= i < front.len() implies s1.contains_key(
                (#[trigger] front[i]).id,
            ) && s1[front[i].id] == front[i] by {
                assert(front[i] == objs[i]);
                assert(objs[i].id != o.id);
            };
            assert forall|id: u64| #[trigger] s1.contains_key(id) implies exists|i: int|
                0 <= i < front.len() && (#[trigger] front[i]).id == id by {
                assert(s.contains_key(id));
                let i = choose|i: int| 0 <= i < objs.len() && (#[trigger] objs[i]).id == id;
                assert(id != o.id);
                assert(i < objs.len() - 1);
                assert(front[i].id == id);
            };
        };
        lemma_snapshot_builds_owner_index(front, s1);
        let c = ChangedObject { object: o, old_object: None };
        assert(!s1.contains_key(o.id));
        lemma_changed_step(s1, c);
        assert(s1.insert(o.id, o) =~= s);
        let prev = live_owner_map(Map::empty(), front);
        match o.owner {
            Owner::AddressOwner(a) => {
                let info = OwnerIndexInfo { version: o.version, type_: o.object_type };
                let put = seq![TableOp::Put(owner_key_code(a, o.id), info)];
                assert(changed_object_ops(c) =~= put);
                lemma_apply_ops_singleton(prev, TableOp::Put(owner_key_code(a, o.id), info));
                assert(live_owner_map(Map::empty(), objs) == prev.insert(
                    owner_key_code(a, o.id),
                    info,
                ));
            },
            Owner::ObjectOwner(_) | Owner::Shared { .. } | Owner::Immutable => {
                assert(changed_object_ops(c) =~= Seq::<TableOp<OwnerIndexInfo>>::empty());
                assert(apply_ops(prev, changed_object_ops(c)) == prev);
                assert(live_owner_map(Map::empty(), objs) == prev);
            },
        }
    }
}

/// Bootstrap equivalence: bootstrapping from a live-object snapshot
/// taken after a faithful history, against a checkpoint store that
/// serves that whole history, yields the same transaction index and the
/// same owner index as incrementally indexing the history from an empty
/// index.
pub proof fn lemma_bootstrap_equivalence(
    store: CheckpointStoreSnapshot,
    cps: Seq<CheckpointData>,
    objs: Seq<ObjectRecord>,
)
    requires
        store_serves(store, cps),
        history_consistent(Map::empty(), cps),
        snapshot_represents(objs, state_after_checkpoints(Map::empty(), cps)),
    ensures
        apply_ops(Map::<u128, TransactionInfo>::empty(), bootstrap_tx_ops(store))
            == incremental_tx_index(Map::empty(), cps),
        live_owner_map(Map::<u128, OwnerIndexInfo>::empty(), objs) == incremental_owner_index(
            Map::empty(),
            cps,
        ),
{
    if cps.len() == 0 {
        assert(bootstrap_tx_ops(store) =~= Seq::<TableOp<TransactionInfo>>::empty());
    } else {
        lemma_backfill_matches(store, cps, Map::empty(), cps.len() as int);
        assert(cps.take(cps.len() as int) =~= cps);
        assert(bootstrap_tx_ops(store) == backfill_ops(store, 0, cps.len()));
    }
    lemma_snapshot_builds_owner_index(objs, state_after_checkpoints(Map::empty(), cps));
    lemma_owner_index_correct(cps);
}

/// At most one owner-index entry exists per object id: after indexing a
/// faithful history, two keys that carry the same object id are the same
/// key — an owner change deletes the old `(owner, object_id)` entry
/// alongside inserting the new one.
pub proof fn lemma_one_entry_per_object(cps: Seq<CheckpointData>, k1: u128, k2: u128)
    requires
        history_consistent(Map::empty(), cps),
        incremental_owner_index(Map::empty(), cps).contains_key(k1),
        incremental_owner_index(Map::empty(), cps).contains_key(k2),
        code_object_id(k1) == code_object_id(k2),
    ensures
        k1 == k2,
{
    lemma_owner_index_correct(cps);
    lemma_owner_key_code_decompose(k1);
    lemma_owner_key_code_decompose(k2);
}

/// The last checkpoint in a history whose contents include digest code
/// `k`, if any.
pub open spec fn last_including_checkpoint(cps: Seq<CheckpointData>, k: u128) -> Option<u64>
    decreases cps.len(),
{
    if cps.len() == 0 {
        None
    } else if digest_codes(cps.last().checkpoint_contents@).contains(k) {
        Some(cps.last().checkpoint_summary.sequence_number)
    } else {
        last_including_checkpoint(cps.drop_last(), k)
    }
}

/// The last staged write a checkpoint's transaction-index batch makes
/// for key `k`: an upsert to that checkpoint exactly when `k` is one of
/// its digests.
pub proof fn lemma_last_op_on_put_ops(ds: Seq<u64>, c: u64, k: u128)
    ensures
        match last_op_on(tx_put_ops(ds, c), k) {
            Some(op) => digest_codes(ds).contains(k) && op == TableOp::<TransactionInfo>::Put(
                k,
                TransactionInfo { checkpoint: c },
            ),
            None => !digest_codes(ds).contains(k),
        },
    decreases ds.len(),
{
    if ds.len() == 0 {
        assert(tx_put_ops(ds, c) =~= Seq::<TableOp<TransactionInfo>>::empty());
        assert(!digest_codes(ds).contains(k));
    } else {
        assert(tx_put_ops(ds, c).drop_last() =~= tx_put_ops(ds.drop_last(), c));
        assert(tx_put_ops(ds, c).last() == TableOp::<TransactionInfo>::Put(
            ds.last() as u128,
            TransactionInfo { checkpoint: c },
        ));
        lemma_last_op_on_put_ops(ds.drop_last(), c, k);
        if ds.last() as u128 == k {
            assert(ds[ds.len() - 1] as u128 == k);
            assert(digest_codes(ds).contains(k));
        } else {
            assert(digest_codes(ds).contains(k) == digest_codes(ds.drop_last()).contains(k)) by {
                if digest_codes(ds).contains(k) {
                    let i = choose|i: int| 0 <= i < ds.len() && (#[trigger] ds[i]) as u128 == k;
                    assert(i < ds.len() - 1);
                    assert(ds.drop_last()[i] as u128 == k);
                }
                if digest_codes(ds.drop_last()).contains(k) {
                    let i = choose|i: int|
                        0 <= i < ds.drop_last().len() && (#[trigger] ds.drop_last()[i]) as u128
                            == k;
                    assert(ds[i] as u128 == k);
                }
            };
        }
    }
}

/// What the transaction index holds after incrementally indexing a
/// history from empty: exactly the digests of its checkpoints, each
/// mapped to the last checkpoint whose contents included it.
pub proof fn lemma_transaction_index_contents(cps: Seq<CheckpointData>, k: u128)
    ensures
        match last_including_checkpoint(cps, k) {
            Some(c) => incremental_tx_index(Map::empty(), cps).contains_key(k)
                && incremental_tx_index(Map::empty(), cps)[k] == (TransactionInfo {
                checkpoint: c,
            }),
            None => !incremental_tx_index(Map::empty(), cps).contains_key(k),
        },
    decreases cps.len(),
{
    if cps.len() > 0 {
        lemma_transaction_index_contents(cps.drop_last(), k);
        let prev = incremental_tx_index(Map::empty(), cps.drop_last());
        let last_cp = cps.last();
        lemma_apply_ops_last_write(
            prev,
            tx_put_ops(last_cp.checkpoint_contents@, last_cp.checkpoint_summary.sequence_number),
            k,
        );
        lemma_last_op_on_put_ops(
            last_cp.checkpoint_contents@,
            last_cp.checkpoint_summary.sequence_number,
            k,
        );
    }
}

} // verus!
