use rest_index::keys::OwnerIndexKey;
use rest_index::store::RestIndexStore;
use rest_index::tables::IndexStoreTables;
use rest_index::types::ChangedObject;
use rest_index::types::CheckpointContents;
use rest_index::types::CheckpointData;
use rest_index::types::CheckpointStoreSnapshot;
use rest_index::types::CheckpointSummary;
use rest_index::types::CheckpointTransaction;
use rest_index::types::IndexError;
use rest_index::types::LiveObjectSetSnapshot;
use rest_index::types::ObjectRecord;
use rest_index::types::Owner;

fn object(id: u64, version: u64, object_type: u64, owner: Owner) -> ObjectRecord {
    ObjectRecord { id, version, object_type, owner }
}

fn create_tx(o: ObjectRecord) -> CheckpointTransaction {
    CheckpointTransaction {
        removed_objects: vec![],
        changed_objects: vec![ChangedObject { object: o, old_object: None }],
    }
}

/// A two-checkpoint history: checkpoint 0 creates an address-owned object
/// and a shared object, checkpoint 1 transfers the first to another
/// address.
fn history() -> Vec<CheckpointData> {
    let first = object(1, 1, 50, Owner::AddressOwner(10));
    let shared = object(2, 1, 60, Owner::Shared { initial_shared_version: 1 });
    let moved = object(1, 2, 50, Owner::AddressOwner(20));
    vec![
        CheckpointData {
            checkpoint_summary: CheckpointSummary { sequence_number: 0, content_digest: 900 },
            checkpoint_contents: vec![100, 101],
            transactions: vec![create_tx(first), create_tx(shared)],
        },
        CheckpointData {
            checkpoint_summary: CheckpointSummary { sequence_number: 1, content_digest: 901 },
            checkpoint_contents: vec![110],
            transactions: vec![CheckpointTransaction {
                removed_objects: vec![],
                changed_objects: vec![ChangedObject { object: moved, old_object: Some(first) }],
            }],
        },
    ]
}

/// The checkpoint store serving exactly that history, fully retained.
fn serving_store() -> CheckpointStoreSnapshot {
    CheckpointStoreSnapshot {
        highest_executed: Some(1),
        highest_pruned: 0,
        summaries: vec![
            CheckpointSummary { sequence_number: 0, content_digest: 900 },
            CheckpointSummary { sequence_number: 1, content_digest: 901 },
        ],
        contents: vec![
            CheckpointContents { digest: 900, transactions: vec![100, 101] },
            CheckpointContents { digest: 901, transactions: vec![110] },
        ],
    }
}

/// The live-object set after that history.
fn live_snapshot() -> LiveObjectSetSnapshot {
    LiveObjectSetSnapshot {
        objects: vec![
            object(1, 2, 50, Owner::AddressOwner(20)),
            object(2, 1, 60, Owner::Shared { initial_shared_version: 1 }),
        ],
    }
}

#[test]
fn bootstrap_equals_incremental_indexing() {
    let bootstrapped =
        RestIndexStore::new(IndexStoreTables::open_empty(), &live_snapshot(), &serving_store())
            .unwrap();

    let mut incremental = RestIndexStore::new_without_init(IndexStoreTables::open_empty());
    for cp in history() {
        incremental.index_checkpoint(&cp);
    }

    for digest in [100u64, 101, 110, 999] {
        assert_eq!(bootstrapped.get_transaction(digest), incremental.get_transaction(digest));
    }
    for owner in [10u64, 20] {
        for id in [1u64, 2, 3] {
            let key = OwnerIndexKey::new(owner, id);
            assert_eq!(bootstrapped.get_owner_entry(&key), incremental.get_owner_entry(&key));
        }
    }
    assert_eq!(bootstrapped.get_transaction(100).unwrap().checkpoint, 0);
    assert_eq!(bootstrapped.get_transaction(110).unwrap().checkpoint, 1);
    assert!(bootstrapped.get_owner_entry(&OwnerIndexKey::new(10, 1)).is_none());
    assert_eq!(bootstrapped.get_owner_entry(&OwnerIndexKey::new(20, 1)).unwrap().version, 2);
    assert!(bootstrapped.get_owner_entry(&OwnerIndexKey::new(20, 2)).is_none());
}

#[test]
fn bootstrap_skipped_when_transaction_index_nonempty() {
    let mut tables = IndexStoreTables::open_empty();
    tables.index_checkpoint(&CheckpointData {
        checkpoint_summary: CheckpointSummary { sequence_number: 5, content_digest: 77 },
        checkpoint_contents: vec![500],
        transactions: vec![],
    });
    // The store below would backfill digests 100, 101 and 110; a
    // non-empty transaction index means "already bootstrapped", so none
    // of them appear.
    let store = RestIndexStore::new(tables, &live_snapshot(), &serving_store()).unwrap();
    assert!(store.get_transaction(100).is_none());
    assert!(store.get_transaction(110).is_none());
    assert_eq!(store.get_transaction(500).unwrap().checkpoint, 5);
    assert!(store.get_owner_entry(&OwnerIndexKey::new(20, 1)).is_none());
}

#[test]
fn bootstrap_without_executed_checkpoints_fills_owner_index_only() {
    let store = RestIndexStore::new(
        IndexStoreTables::open_empty(),
        &live_snapshot(),
        &CheckpointStoreSnapshot {
            highest_executed: None,
            highest_pruned: 0,
            summaries: vec![],
            contents: vec![],
        },
    )
    .unwrap();
    assert!(store.is_empty());
    assert!(store.get_transaction(100).is_none());
    assert_eq!(store.get_owner_entry(&OwnerIndexKey::new(20, 1)).unwrap().type_, 50);
    assert!(store.get_owner_entry(&OwnerIndexKey::new(10, 1)).is_none());
}

#[test]
fn bootstrap_fails_on_missing_summary() {
    let mut store = serving_store();
    store.summaries.remove(1);
    let result = RestIndexStore::new(IndexStoreTables::open_empty(), &live_snapshot(), &store);
    let error = result.err().unwrap();
    assert_eq!(error, IndexError::MissingData { sequence_number: 1 });
    assert!(!error.describe().is_empty());
}

#[test]
fn bootstrap_fails_on_missing_contents() {
    let mut store = serving_store();
    store.contents.remove(0);
    let result = RestIndexStore::new(IndexStoreTables::open_empty(), &live_snapshot(), &store);
    assert_eq!(result.err().unwrap(), IndexError::MissingData { sequence_number: 0 });
}

#[test]
fn bootstrap_respects_the_pruned_watermark() {
    let mut store = serving_store();
    store.highest_pruned = 1;
    let built =
        RestIndexStore::new(IndexStoreTables::open_empty(), &live_snapshot(), &store).unwrap();
    // Only checkpoint 1 is backfilled; checkpoint 0 lies below the
    // watermark.
    assert!(built.get_transaction(100).is_none());
    assert!(built.get_transaction(101).is_none());
    assert_eq!(built.get_transaction(110).unwrap().checkpoint, 1);
}

#[test]
fn owner_key_codes_order_address_major() {
    let low_addr_high_id = OwnerIndexKey::new(10, u64::MAX).code();
    let high_addr_low_id = OwnerIndexKey::new(11, 0).code();
    assert!(low_addr_high_id < high_addr_low_id);
    let same_addr_low = OwnerIndexKey::new(11, 3).code();
    let same_addr_high = OwnerIndexKey::new(11, 4).code();
    assert!(same_addr_low < same_addr_high);
    assert_ne!(OwnerIndexKey::new(1, 2).code(), OwnerIndexKey::new(2, 1).code());
}

#[test]
fn listing_owned_objects_pages_in_id_order() {
    let mut store = RestIndexStore::new_without_init(IndexStoreTables::open_empty());
    let cp = CheckpointData {
        checkpoint_summary: CheckpointSummary { sequence_number: 0, content_digest: 1 },
        checkpoint_contents: vec![1],
        transactions: vec![
            create_tx(object(30, 1, 5, Owner::AddressOwner(10))),
            create_tx(object(7, 1, 6, Owner::AddressOwner(10))),
            create_tx(object(12, 1, 7, Owner::AddressOwner(11))),
            create_tx(object(19, 1, 8, Owner::AddressOwner(10))),
            create_tx(object(21, 1, 9, Owner::Shared { initial_shared_version: 1 })),
        ],
    };
    store.index_checkpoint(&cp);
    let page = store.list_owned_objects(10, 0);
    let ids: Vec<u64> = page.iter().map(|p| p.0).collect();
    assert_eq!(ids, vec![7, 19, 30]);
    assert_eq!(page[0].1.type_, 6);
    // Pagination: continue after object 7.
    let rest = store.list_owned_objects(10, 8);
    let rest_ids: Vec<u64> = rest.iter().map(|p| p.0).collect();
    assert_eq!(rest_ids, vec![19, 30]);
    // Another address sees only its own objects.
    let other = store.list_owned_objects(11, 0);
    assert_eq!(other.len(), 1);
    assert_eq!(other[0].0, 12);
    // An address owning nothing gets an empty page.
    assert!(store.list_owned_objects(99, 0).is_empty());
}
