//! The specification-level model of the primary store.
//!
//! The index layer never sees the primary store directly; it sees
//! checkpoint effects. This module models the live-object set a
//! checkpoint history produces — a map from object id to record — and
//! says what it means for checkpoint data to describe that evolution
//! faithfully: each removed object was live with the stated owner, each
//! changed object's prior state is the object's actual prior state. The
//! laws relate the index tables to this model.

use vstd::prelude::*;

use crate::keys::OwnerIndexInfo;
use crate::keys::code_object_id;
use crate::keys::code_owner;
use crate::types::ChangedObject;
use crate::types::CheckpointData;
use crate::types::CheckpointTransaction;
use crate::types::ObjectRecord;
use crate::types::Owner;

verus! {

/// The owner-index contents a live-object state calls for: one entry per
/// address-owned live object, keyed by its owner-key code, holding its
/// version and type.
pub open spec fn address_owned_entries(s: Map<u64, ObjectRecord>) -> Map<u128, OwnerIndexInfo> {
    Map::new(
        |k: u128|
            s.contains_key(code_object_id(k) as u64) && s[code_object_id(k) as u64].owner
                == Owner::AddressOwner(code_owner(k) as u64),
        |k: u128|
            (OwnerIndexInfo {
                version: s[code_object_id(k) as u64].version,
                type_: s[code_object_id(k) as u64].object_type,
            }),
    )
}

/// The live-object state after a transaction's removals, in their given
/// order.
pub open spec fn state_after_removed(
    s: Map<u64, ObjectRecord>,
    objs: Seq<ObjectRecord>,
) -> Map<u64, ObjectRecord>
    decreases objs.len(),
{
    if objs.len() == 0 {
        s
    } else {
        state_after_removed(s, objs.drop_last()).remove(objs.last().id)
    }
}

/// The live-object state after a transaction's changes, in their given
/// order.
pub open spec fn state_after_changed(
    s: Map<u64, ObjectRecord>,
    cs: Seq<ChangedObject>,
) -> Map<u64, ObjectRecord>
    decreases cs.len(),
{
    if cs.len() == 0 {
        s
    } else {
        state_after_changed(s, cs.drop_last()).insert(cs.last().object.id, cs.last().object)
    }
}

/// The live-object state after one transaction: removals first, then
/// changes.
pub open spec fn state_after_tx(
    s: Map<u64, ObjectRecord>,
    tx: CheckpointTransaction,
) -> Map<u64, ObjectRecord> {
    state_after_changed(state_after_removed(s, tx.removed_objects@), tx.changed_objects@)
}

/// The live-object state after one checkpoint's transactions, in
/// execution order.
pub open spec fn state_after_checkpoint(
    s: Map<u64, ObjectRecord>,
    txs: Seq<CheckpointTransaction>,
) -> Map<u64, ObjectRecord>
    decreases txs.len(),
{
    if txs.len() == 0 {
        s
    } else {
        state_after_tx(state_after_checkpoint(s, txs.drop_last()), txs.last())
    }
}

/// The live-object state after a whole checkpoint history, in order.
pub open spec fn state_after_checkpoints(
    s: Map<u64, ObjectRecord>,
    cps: Seq<CheckpointData>,
) -> Map<u64, ObjectRecord>
    decreases cps.len(),
{
    if cps.len() == 0 {
        s
    } else {
        state_after_checkpoint(
            state_after_checkpoints(s, cps.drop_last()),
            cps.last().transactions@,
        )
    }
}

/// A removed-object record is faithful to state `s`: the object is live
/// and its recorded owner is its actual owner.
pub open spec fn removed_consistent(s: Map<u64, ObjectRecord>, o: ObjectRecord) -> bool {
    s.contains_key(o.id) && s[o.id].owner == o.owner
}

/// A changed-object record is faithful to state `s`: its prior state is
/// present exactly when the object was live, under the same id, with the
/// prior state's recorded owner the actual one.
pub open spec fn changed_consistent(s: Map<u64, ObjectRecord>, c: ChangedObject) -> bool {
    match c.old_object {
        None => !s.contains_key(c.object.id),
        Some(o) => o.id == c.object.id && s.contains_key(c.object.id) && s[c.object.id].owner
            == o.owner,
    }
}

/// A transaction's removal list is faithful to state `s`, each record
/// judged against the state the removals before it produce.
pub open spec fn removed_list_consistent(s: Map<u64, ObjectRecord>, objs: Seq<ObjectRecord>) -> bool
    decreases objs.len(),
{
    if objs.len() == 0 {
        true
    } else {
        removed_list_consistent(s, objs.drop_last()) && removed_consistent(
            state_after_removed(s, objs.drop_last()),
            objs.last(),
        )
    }
}

/// A transaction's change list is faithful to state `s`, each record
/// judged against the state the changes before it produce.
pub open spec fn changed_list_consistent(s: Map<u64, ObjectRecord>, cs: Seq<ChangedObject>) -> bool
    decreases cs.len(),
{
    if cs.len() == 0 {
        true
    } else {
        changed_list_consistent(s, cs.drop_last()) && changed_consistent(
            state_after_changed(s, cs.drop_last()),
            cs.last(),
        )
    }
}

/// A transaction's effects are faithful to state `s`.
pub open spec fn tx_consistent(s: Map<u64, ObjectRecord>, tx: CheckpointTransaction) -> bool {
    removed_list_consistent(s, tx.removed_objects@) && changed_list_consistent(
        state_after_removed(s, tx.removed_objects@),
        tx.changed_objects@,
    )
}

/// A checkpoint's transactions are faithful to state `s`, each judged
/// against the state the transactions before it produce.
pub open spec fn checkpoint_consistent(
    s: Map<u64, ObjectRecord>,
    txs: Seq<CheckpointTransaction>,
) -> bool
    decreases txs.len(),
{
    if txs.len() == 0 {
        true
    } else {
        checkpoint_consistent(s, txs.drop_last()) && tx_consistent(
            state_after_checkpoint(s, txs.drop_last()),
            txs.last(),
        )
    }
}

/// A checkpoint history is faithful to starting state `s`: each
/// checkpoint's effects describe the state all earlier checkpoints
/// produce.
pub open spec fn history_consistent(s: Map<u64, ObjectRecord>, cps: Seq<CheckpointData>) -> bool
    decreases cps.len(),
{
    if cps.len() == 0 {
        true
    } else {
        history_consistent(s, cps.drop_last()) && checkpoint_consistent(
            state_after_checkpoints(s, cps.drop_last()),
            cps.last().transactions@,
        )
    }
}

/// A live-object snapshot lists exactly the records of state `s`, each
/// object once, under its own id.
pub open spec fn snapshot_represents(objs: Seq<ObjectRecord>, s: Map<u64, ObjectRecord>) -> bool {
    &&& forall|i: int|
        0 <= i < objs.len() ==> s.contains_key((#[trigger] objs[i]).id) && s[objs[i].id]
            == objs[i]
    &&& forall|id: u64| #[trigger]
        s.contains_key(id) ==> exists|i: int| 0 <= i < objs.len() && (#[trigger] objs[i]).id == id
    &&& forall|i: int, j: int|
        0 <= i < j < objs.len() ==> (#[trigger] objs[i]).id != (#[trigger] objs[j]).id
}

} // verus!
