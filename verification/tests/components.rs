use dotsnotbots::registry::{ConnectionRegistry, RegistryError};
use dotsnotbots::store::{PresenceStore, StoreError};
use dotsnotbots::presence::Position;

#[test]
fn registry_register_lookup_remove() {
    let mut reg = ConnectionRegistry::new();
    assert_eq!(reg.len(), 0);
    assert!(reg.register(1, 100).is_ok());
    assert!(reg.register(2, 200).is_ok());
    assert_eq!(reg.len(), 2);
    assert_eq!(reg.lookup(1), Some(100));
    assert_eq!(reg.lookup(2), Some(200));
    assert_eq!(reg.lookup(3), None);
    // remove returns the token in the same step
    assert_eq!(reg.remove(1), Some(100));
    assert_eq!(reg.lookup(1), None);
    assert_eq!(reg.remove(1), None);
    assert_eq!(reg.len(), 1);
}

#[test]
fn registry_rejects_a_second_registration() {
    let mut reg = ConnectionRegistry::new();
    assert!(reg.register(1, 100).is_ok());
    assert_eq!(reg.register(1, 300), Err(RegistryError::AlreadyRegistered));
    // the failed call changed nothing
    assert_eq!(reg.lookup(1), Some(100));
    assert_eq!(reg.len(), 1);
}

#[test]
fn registry_evicts_by_token() {
    let mut reg = ConnectionRegistry::new();
    assert!(reg.register(1, 100).is_ok());
    assert!(reg.register(2, 200).is_ok());
    assert_eq!(reg.remove_token(100), Some(1));
    assert_eq!(reg.lookup(1), None);
    assert_eq!(reg.lookup(2), Some(200));
    assert_eq!(reg.remove_token(100), None);
}

#[test]
fn store_create_update_remove() {
    let mut store = PresenceStore::new();
    assert_eq!(store.len(), 0);
    let rec = store.create(7, 1, String::from("#FF8080"));
    assert_eq!(rec.id, 1);
    assert!(rec.position.is_none());
    assert_eq!(rec.color, "#FF8080");
    assert_eq!(store.len(), 1);

    let updated = store
        .update_position(7, Position { x: 4, y: 5 })
        .expect("the token has a record");
    assert_eq!(updated.id, 1);
    assert_eq!(updated.color, "#FF8080");
    assert_eq!(updated.position, Some(Position { x: 4, y: 5 }));

    let removed = store.remove(7).expect("the record is returned on removal");
    assert_eq!(removed.position, Some(Position { x: 4, y: 5 }));
    assert_eq!(store.len(), 0);
    assert!(store.remove(7).is_none());
}

#[test]
fn store_update_of_missing_token_fails_not_found() {
    let mut store = PresenceStore::new();
    let err = store
        .update_position(9, Position { x: 0, y: 0 })
        .unwrap_err();
    assert_eq!(err, StoreError::NotFound);
    assert_eq!(store.len(), 0);
}

#[test]
fn store_create_replaces_on_duplicate_token() {
    let mut store = PresenceStore::new();
    store.create(7, 1, String::from("#FF8080"));
    let replaced = store.create(7, 2, String::from("#80FF80"));
    assert_eq!(store.len(), 1);
    assert_eq!(replaced.id, 2);
    let got = store.record(7).expect("one record remains");
    assert_eq!(got.id, 2);
    assert_eq!(got.color, "#80FF80");
    assert!(got.position.is_none());
}

#[test]
fn store_snapshot_lists_records_in_insertion_order() {
    let mut store = PresenceStore::new();
    store.create(7, 1, String::from("#FF8080"));
    store.create(8, 2, String::from("#80FF80"));
    store.create(9, 3, String::from("#8080FF"));
    let snap = store.snapshot();
    let ids: Vec<u64> = snap.iter().map(|r| r.id).collect();
    assert_eq!(ids, vec![1, 2, 3]);
}
