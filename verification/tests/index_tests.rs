use rest_index::keys::OwnerIndexKey;
use rest_index::store::RestIndexStore;
use rest_index::tables::IndexStoreTables;
use rest_index::types::ChangedObject;
use rest_index::types::CheckpointContents;
use rest_index::types::CheckpointData;
use rest_index::types::CheckpointSummary;
use rest_index::types::CheckpointTransaction;
use rest_index::types::ObjectRecord;
use rest_index::types::Owner;

fn obj(id: u64, version: u64, object_type: u64, owner: Owner) -> ObjectRecord {
    ObjectRecord { id, version, object_type, owner }
}

fn checkpoint(
    seq: u64,
    digests: Vec<u64>,
    transactions: Vec<CheckpointTransaction>,
) -> CheckpointData {
    CheckpointData {
        checkpoint_summary: CheckpointSummary { sequence_number: seq, content_digest: 1000 + seq },
        checkpoint_contents: digests,
        transactions,
    }
}

fn created(object: ObjectRecord) -> CheckpointTransaction {
    CheckpointTransaction {
        removed_objects: vec![],
        changed_objects: vec![ChangedObject { object, old_object: None }],
    }
}

fn changed(object: ObjectRecord, old_object: ObjectRecord) -> CheckpointTransaction {
    CheckpointTransaction {
        removed_objects: vec![],
        changed_objects: vec![ChangedObject { object, old_object: Some(old_object) }],
    }
}

fn removed(object: ObjectRecord) -> CheckpointTransaction {
    CheckpointTransaction { removed_objects: vec![object], changed_objects: vec![] }
}

const A: u64 = 10;
const B: u64 = 20;
const O1: u64 = 1;

#[test]
fn scenario_create_transfer_delete_prune() {
    let mut store = RestIndexStore::new_without_init(IndexStoreTables::open_empty());

    // Checkpoint 1: O1 created address-owned by A.
    let v1 = obj(O1, 1, 77, Owner::AddressOwner(A));
    let cp1 = checkpoint(1, vec![101, 102], vec![created(v1)]);
    store.index_checkpoint(&cp1);
    assert!(store.get_owner_entry(&OwnerIndexKey::new(A, O1)).is_some());
    let entry = store.get_owner_entry(&OwnerIndexKey::new(A, O1)).unwrap();
    assert_eq!(entry.version, 1);
    assert_eq!(entry.type_, 77);

    // Checkpoint 2: O1 transferred to B.
    let v2 = obj(O1, 2, 77, Owner::AddressOwner(B));
    let cp2 = checkpoint(2, vec![201], vec![changed(v2, v1)]);
    store.index_checkpoint(&cp2);
    assert!(store.get_owner_entry(&OwnerIndexKey::new(A, O1)).is_none());
    assert!(store.get_owner_entry(&OwnerIndexKey::new(B, O1)).is_some());
    assert_eq!(store.get_owner_entry(&OwnerIndexKey::new(B, O1)).unwrap().version, 2);

    // Checkpoint 3: O1 deleted.
    let cp3 = checkpoint(3, vec![301], vec![removed(v2)]);
    store.index_checkpoint(&cp3);
    assert!(store.get_owner_entry(&OwnerIndexKey::new(A, O1)).is_none());
    assert!(store.get_owner_entry(&OwnerIndexKey::new(B, O1)).is_none());

    // Pruning checkpoint 1's contents removes its transaction digests but
    // leaves the owner index untouched.
    let remaining = obj(9, 1, 5, Owner::AddressOwner(A));
    let cp4 = checkpoint(4, vec![401], vec![created(remaining)]);
    store.index_checkpoint(&cp4);
    store.prune(&vec![CheckpointContents { digest: 1001, transactions: vec![101, 102] }]);
    assert!(store.get_transaction(101).is_none());
    assert!(store.get_transaction(102).is_none());
    assert_eq!(store.get_transaction(201).unwrap().checkpoint, 2);
    assert_eq!(store.get_transaction(301).unwrap().checkpoint, 3);
    assert!(store.get_owner_entry(&OwnerIndexKey::new(A, 9)).is_some());
}

#[test]
fn transaction_index_records_checkpoint_sequence() {
    let mut store = RestIndexStore::new_without_init(IndexStoreTables::open_empty());
    let cp = checkpoint(7, vec![11, 12, 13], vec![]);
    store.index_checkpoint(&cp);
    assert_eq!(store.get_transaction(11).unwrap().checkpoint, 7);
    assert_eq!(store.get_transaction(12).unwrap().checkpoint, 7);
    assert_eq!(store.get_transaction(13).unwrap().checkpoint, 7);
    assert!(store.get_transaction(14).is_none());
}

#[test]
fn index_checkpoint_applied_twice_is_idempotent() {
    let mut once = RestIndexStore::new_without_init(IndexStoreTables::open_empty());
    let mut twice = RestIndexStore::new_without_init(IndexStoreTables::open_empty());
    let v1 = obj(O1, 1, 3, Owner::AddressOwner(A));
    let v2 = obj(2, 5, 4, Owner::AddressOwner(B));
    let cp = checkpoint(
        1,
        vec![100, 200],
        vec![created(v1), changed(obj(O1, 2, 3, Owner::AddressOwner(B)), v1), created(v2)],
    );
    once.index_checkpoint(&cp);
    twice.index_checkpoint(&cp);
    twice.index_checkpoint(&cp);
    for digest in [100u64, 200, 999] {
        assert_eq!(once.get_transaction(digest), twice.get_transaction(digest));
    }
    for owner in [A, B] {
        for id in [O1, 2, 3] {
            let key = OwnerIndexKey::new(owner, id);
            assert_eq!(once.get_owner_entry(&key), twice.get_owner_entry(&key));
        }
    }
    assert!(once.get_owner_entry(&OwnerIndexKey::new(A, O1)).is_none());
    assert_eq!(once.get_owner_entry(&OwnerIndexKey::new(B, O1)).unwrap().version, 2);
}

#[test]
fn prune_removes_exactly_the_passed_digests() {
    let mut store = RestIndexStore::new_without_init(IndexStoreTables::open_empty());
    store.index_checkpoint(&checkpoint(1, vec![101, 102], vec![]));
    store.index_checkpoint(&checkpoint(2, vec![201, 202], vec![]));
    let contents1 = CheckpointContents { digest: 1001, transactions: vec![101, 102] };
    store.prune(&vec![contents1.clone()]);
    assert!(store.get_transaction(101).is_none());
    assert!(store.get_transaction(102).is_none());
    assert!(store.get_transaction(201).is_some());
    assert!(store.get_transaction(202).is_some());
    // Pruning already-pruned digests is a no-op.
    store.prune(&vec![contents1]);
    assert!(store.get_transaction(201).is_some());
    assert!(store.get_transaction(202).is_some());
}

#[test]
fn non_address_owners_never_enter_the_owner_index() {
    let mut store = RestIndexStore::new_without_init(IndexStoreTables::open_empty());
    let shared = obj(2, 1, 9, Owner::Shared { initial_shared_version: 1 });
    let immutable = obj(3, 1, 9, Owner::Immutable);
    let child = obj(4, 1, 9, Owner::ObjectOwner(O1));
    let owned = obj(O1, 1, 9, Owner::AddressOwner(A));
    let cp1 = checkpoint(
        1,
        vec![101],
        vec![created(shared), created(immutable), created(child), created(owned)],
    );
    store.index_checkpoint(&cp1);
    assert!(store.get_owner_entry(&OwnerIndexKey::new(A, O1)).is_some());
    for id in [2u64, 3, 4] {
        for owner in [A, B, O1, 0] {
            assert!(store.get_owner_entry(&OwnerIndexKey::new(owner, id)).is_none());
        }
    }

    // A previously address-owned object that becomes shared leaves the
    // index.
    let now_shared = obj(O1, 2, 9, Owner::Shared { initial_shared_version: 2 });
    store.index_checkpoint(&checkpoint(2, vec![201], vec![changed(now_shared, owned)]));
    assert!(store.get_owner_entry(&OwnerIndexKey::new(A, O1)).is_none());
}

#[test]
fn last_writer_in_checkpoint_order_wins() {
    // A later transaction in the same checkpoint re-introduces the same
    // object id under a different owner.
    let mut store = RestIndexStore::new_without_init(IndexStoreTables::open_empty());
    let v1 = obj(O1, 1, 3, Owner::AddressOwner(A));
    let v2 = obj(O1, 2, 3, Owner::AddressOwner(B));
    let cp = checkpoint(1, vec![100], vec![created(v1), changed(v2, v1)]);
    store.index_checkpoint(&cp);
    assert!(store.get_owner_entry(&OwnerIndexKey::new(A, O1)).is_none());
    assert_eq!(store.get_owner_entry(&OwnerIndexKey::new(B, O1)).unwrap().version, 2);
}

#[test]
fn empty_index_reports_empty_until_a_checkpoint_lands() {
    let mut store = RestIndexStore::new_without_init(IndexStoreTables::open_empty());
    assert!(store.is_empty());
    store.index_checkpoint(&checkpoint(0, vec![5], vec![]));
    assert!(!store.is_empty());
}

#[test]
fn same_owner_change_updates_version_in_place() {
    let mut store = RestIndexStore::new_without_init(IndexStoreTables::open_empty());
    let v1 = obj(O1, 1, 77, Owner::AddressOwner(A));
    store.index_checkpoint(&checkpoint(1, vec![100], vec![created(v1)]));
    let v2 = obj(O1, 6, 77, Owner::AddressOwner(A));
    store.index_checkpoint(&checkpoint(2, vec![200], vec![changed(v2, v1)]));
    let entry = store.get_owner_entry(&OwnerIndexKey::new(A, O1)).unwrap();
    assert_eq!(entry.version, 6);
    // Still exactly one entry for the object.
    let page = store.list_owned_objects(A, 0);
    assert_eq!(page.len(), 1);
    assert_eq!(page[0].0, O1);
}

#[test]
fn digest_in_two_checkpoints_maps_to_the_later_one() {
    let mut store = RestIndexStore::new_without_init(IndexStoreTables::open_empty());
    store.index_checkpoint(&checkpoint(1, vec![55, 56], vec![]));
    store.index_checkpoint(&checkpoint(2, vec![55], vec![]));
    assert_eq!(store.get_transaction(55).unwrap().checkpoint, 2);
    assert_eq!(store.get_transaction(56).unwrap().checkpoint, 1);
}
