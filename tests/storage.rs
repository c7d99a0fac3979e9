use tangle_sync::storage::{multi_fetch, same_id, MemoryStorage, StorageBackend};

/// Generic access checks for the message table of a storage backend.
fn message_id_to_message_metadata_access<S: StorageBackend>(storage: &mut S) {
    let (message_id, message_metadata) = ([3u8; 32], vec![1u8, 2, 3, 4]);

    assert!(!storage.exist(&message_id));
    assert!(storage.fetch(&message_id).is_none());
    let results = multi_fetch(storage, &vec![message_id]);
    assert_eq!(results.len(), 1);
    assert!(matches!(results.get(0), Some(None)));

    storage.insert(&message_id, &message_metadata);

    assert!(storage.exist(&message_id));
    assert_eq!(storage.fetch(&message_id).unwrap(), message_metadata);
    let results = multi_fetch(storage, &vec![message_id]);
    assert_eq!(results.len(), 1);
    assert!(matches!(results.get(0), Some(Some(v)) if v == &message_metadata));

    storage.delete(&message_id);

    assert!(!storage.exist(&message_id));
    assert!(storage.fetch(&message_id).is_none());
    let results = multi_fetch(storage, &vec![message_id]);
    assert_eq!(results.len(), 1);
    assert!(matches!(results.get(0), Some(None)));

    let mut message_ids = Vec::new();
    let mut message_metadatas = Vec::new();

    for i in 0..10u8 {
        let (message_id, message_metadata) = ([i + 10; 32], vec![i; 5]);
        storage.insert(&message_id, &message_metadata);
        storage.delete(&message_id);
        message_ids.push(message_id);
        message_metadatas.push((message_id, None));
    }

    for i in 0..10u8 {
        let (message_id, message_metadata) = ([i + 100; 32], vec![i; 7]);
        storage.insert(&message_id, &message_metadata);
        message_ids.push(message_id);
        message_metadatas.push((message_id, Some(message_metadata)));
    }

    let mut count = 0;
    for (message_id, message_metadata) in storage.iter() {
        assert!(message_metadatas.contains(&(message_id, Some(message_metadata))));
        count += 1;
    }
    assert_eq!(count, 10);

    let results = multi_fetch(storage, &message_ids);
    assert_eq!(results.len(), message_ids.len());
    for ((_, message_metadata), result) in message_metadatas.into_iter().zip(results.into_iter()) {
        assert_eq!(message_metadata, result);
    }

    storage.truncate();
    assert!(storage.iter().is_empty());

    // Truncating an already empty table.
    storage.truncate();
}

#[test]
fn memory_storage_access() {
    let mut storage = MemoryStorage::new();
    message_id_to_message_metadata_access(&mut storage);
}

#[test]
fn insert_replaces_value() {
    let mut s = MemoryStorage::new();
    s.insert(&[1u8; 32], &[1]);
    s.insert(&[1u8; 32], &[2, 2]);
    assert_eq!(s.fetch(&[1u8; 32]), Some(vec![2, 2]));
    assert_eq!(s.iter().len(), 1);
}

#[test]
fn ids_compare_by_value() {
    assert!(same_id(&[4u8; 32], &[4u8; 32]));
    let mut b = [4u8; 32];
    b[0] = 5;
    assert!(!same_id(&[4u8; 32], &b));
}
