use layerx_agentd::store::{
    decode_image, encode_image, migrate, migrate_forward, MigrationError, MigrationStep,
    ObjectKind, StorageClass, Store, StoreError, TenantId, TenantKey, TenantScoped,
};
use layerx_agentd::store::migrate::migrate_image;

fn tenant(name: &str) -> TenantId {
    TenantId::new(name.to_owned()).unwrap()
}

fn key(t: &str, kind: ObjectKind, id: &[u8]) -> TenantKey {
    TenantKey::new(tenant(t), kind, id.to_vec()).unwrap()
}

fn sized(body: &[u8]) -> Vec<u8> {
    let mut out = (body.len() as u32).to_be_bytes().to_vec();
    out.extend_from_slice(body);
    out
}

#[test]
fn tenant_identifiers_are_bounded() {
    assert!(matches!(TenantId::new(String::new()), Err(StoreError::InvalidTenant)));
    assert!(matches!(TenantId::new("a\0b".to_owned()), Err(StoreError::InvalidTenant)));
    assert!(matches!(TenantId::new("x".repeat(256)), Err(StoreError::InvalidTenant)));
    assert_eq!(TenantId::new("x".repeat(255)).unwrap().as_str().len(), 255);
    assert!(tenant("a").same(&tenant("a")));
    assert!(!tenant("a").same(&tenant("b")));
}

#[test]
fn object_identifiers_are_bounded() {
    assert!(matches!(TenantKey::new(tenant("a"), ObjectKind::Audit, vec![]), Err(StoreError::InvalidObjectId)));
    assert!(matches!(
        TenantKey::new(tenant("a"), ObjectKind::Audit, vec![1; 4097]),
        Err(StoreError::InvalidObjectId)
    ));
    let k = key("a", ObjectKind::Audit, &[1; 4096]);
    assert_eq!(k.kind(), ObjectKind::Audit);
    assert_eq!(k.object_id().len(), 4096);
    assert_eq!(k.tenant().as_str(), "a");
}

#[test]
fn object_kind_and_class_codes_round_trip() {
    assert_eq!(ObjectKind::Identity.code(), 1);
    assert_eq!(ObjectKind::Configuration.code(), 12);
    assert_eq!(ObjectKind::from_byte(11).unwrap(), ObjectKind::Idempotency);
    assert!(ObjectKind::from_byte(0).is_err());
    assert!(ObjectKind::from_byte(13).is_err());
    assert_eq!(StorageClass::from_byte(StorageClass::CoreProducedCache.code()).unwrap(), StorageClass::CoreProducedCache);
}

#[test]
fn reads_see_writes_and_core_cache_is_not_removable() {
    let mut store = Store::new();
    store.put_local(key("a", ObjectKind::Session, b"s1"), b"one".to_vec()).unwrap();
    store.put_local(key("a", ObjectKind::Session, b"s1"), b"two".to_vec()).unwrap();
    let got = store.get(&key("a", ObjectKind::Session, b"s1")).unwrap();
    assert_eq!(got.bytes(), b"two");
    assert_eq!(got.class(), StorageClass::LocalOnly);
    assert!(store.get(&key("b", ObjectKind::Session, b"s1")).is_none());
    assert_eq!(store.remove_local(&key("a", ObjectKind::Session, b"s1")).unwrap(), true);
    assert_eq!(store.remove_local(&key("a", ObjectKind::Session, b"s1")).unwrap(), false);
    store.put_core_cache(key("a", ObjectKind::Receipt, b"r"), b"core".to_vec()).unwrap();
    assert!(matches!(store.remove_local(&key("a", ObjectKind::Receipt, b"r")), Err(StoreError::Corrupt(_))));
    assert_eq!(store.get(&key("a", ObjectKind::Receipt, b"r")).unwrap().bytes(), b"core");
}

#[test]
fn listing_is_tenant_scoped_and_ordered() {
    let mut store = Store::new();
    store.put_local(key("a", ObjectKind::Audit, b"z"), vec![1]).unwrap();
    store.put_local(key("a", ObjectKind::Audit, b"b"), vec![1]).unwrap();
    store.put_local(key("a", ObjectKind::Session, b"c"), vec![1]).unwrap();
    store.put_local(key("b", ObjectKind::Audit, b"a"), vec![1]).unwrap();
    assert_eq!(store.list_object_ids(&tenant("a"), ObjectKind::Audit), vec![b"b".to_vec(), b"z".to_vec()]);
    assert_eq!(store.list_object_ids(&tenant("c"), ObjectKind::Audit), Vec::<Vec<u8>>::new());
}

#[test]
fn image_round_trips() {
    let mut store = Store::new();
    store.put_local(key("a", ObjectKind::Audit, b"x"), b"local".to_vec()).unwrap();
    store.put_core_cache(key("b", ObjectKind::Identity, b"y"), b"core".to_vec()).unwrap();
    let image = encode_image(&store).unwrap();
    assert_eq!(&image[0..4], b"LXAS");
    assert_eq!(&image[4..8], &3u32.to_be_bytes());
    assert_eq!(&image[8..12], &2u32.to_be_bytes());
    let back = decode_image(&image).unwrap();
    assert_eq!(back.get(&key("a", ObjectKind::Audit, b"x")).unwrap().bytes(), b"local");
    let core = back.get(&key("b", ObjectKind::Identity, b"y")).unwrap();
    assert_eq!(core.class(), StorageClass::CoreProducedCache);
    assert_eq!(encode_image(&back).unwrap(), image);
}

#[test]
fn damaged_images_are_refused() {
    let mut store = Store::new();
    store.put_local(key("a", ObjectKind::Audit, b"x"), b"local".to_vec()).unwrap();
    let image = encode_image(&store).unwrap();
    assert!(decode_image(&image[..image.len() - 1]).is_err());
    let mut trailing = image.clone();
    trailing.push(0);
    assert!(decode_image(&trailing).is_err());
    assert!(decode_image(b"nope").is_err());
}

#[test]
fn submission_records_three_local_objects() {
    let mut store = Store::new();
    store.record_submission(tenant("a"), b"k1".to_vec(), b"signed".to_vec(), b"state".to_vec()).unwrap();
    assert_eq!(store.get(&key("a", ObjectKind::PreparedActivity, b"k1")).unwrap().bytes(), b"signed");
    assert_eq!(store.get(&key("a", ObjectKind::Outbox, b"k1")).unwrap().bytes(), b"state");
    assert!(store.get(&key("a", ObjectKind::Idempotency, b"k1")).is_some());
    let mut untouched = Store::new();
    assert!(matches!(
        untouched.record_submission(tenant("a"), vec![], b"s".to_vec(), b"t".to_vec()),
        Err(StoreError::InvalidObjectId)
    ));
    assert!(untouched.list_object_ids(&tenant("a"), ObjectKind::Outbox).is_empty());
}

#[test]
fn verified_receipts_refuse_conflicting_indexes() {
    let mut store = Store::new();
    let receipts = vec![key("a", ObjectKind::Receipt, b"r1"), key("a", ObjectKind::Receipt, b"r2")];
    store
        .record_verified_receipt(&receipts, b"receipt", key("a", ObjectKind::Configuration, b"m"), b"meta".to_vec())
        .unwrap();
    assert_eq!(store.get(&receipts[1]).unwrap().class(), StorageClass::CoreProducedCache);
    assert!(store
        .record_verified_receipt(&receipts, b"other", key("a", ObjectKind::Configuration, b"m"), b"meta".to_vec())
        .is_err());
    assert!(store
        .record_verified_receipt(&receipts, b"receipt", key("a", ObjectKind::Audit, b"m"), b"meta".to_vec())
        .is_err());
}

#[test]
fn core_cache_is_restored_byte_for_byte() {
    let mut store = Store::new();
    store
        .restore_core_cache(vec![(key("a", ObjectKind::Budget, b"b"), b"mirror".to_vec())])
        .unwrap();
    let value = store.get(&key("a", ObjectKind::Budget, b"b")).unwrap();
    assert_eq!((value.class(), value.bytes()), (StorageClass::CoreProducedCache, &b"mirror"[..]));
}

#[test]
fn schema_one_images_migrate_to_current() {
    let mut v1 = b"LXAS".to_vec();
    v1.extend_from_slice(&1u32.to_be_bytes());
    v1.extend_from_slice(&2u32.to_be_bytes());
    v1.extend(sized(b"a"));
    v1.push(1);
    v1.extend(sized(b"id"));
    v1.extend(sized(b"core"));
    v1.extend(sized(b"a"));
    v1.push(10);
    v1.extend(sized(b"au"));
    v1.extend(sized(b"local"));
    let (current, report) = migrate_image(v1.clone()).unwrap();
    assert_eq!(report.original_version, 1);
    assert_eq!(report.final_version, 3);
    assert_eq!(report.steps, vec![MigrationStep { from: 1, to: 2 }, MigrationStep { from: 2, to: 3 }]);
    assert_eq!(report.core_produced_records_preserved, 1);
    let store = decode_image(&current).unwrap();
    assert_eq!(store.get(&key("a", ObjectKind::Identity, b"id")).unwrap().class(), StorageClass::CoreProducedCache);
    assert_eq!(store.get(&key("a", ObjectKind::Audit, b"au")).unwrap().class(), StorageClass::LocalOnly);
    let (written, _) = migrate_forward(Some(v1)).unwrap();
    assert_eq!(written, Some(current.clone()));
    assert_eq!(migrate(Some(current)).unwrap(), None);
    assert_eq!(migrate(None).unwrap(), None);
}

#[test]
fn unsupported_schemas_are_refused() {
    let mut newer = b"LXAS".to_vec();
    newer.extend_from_slice(&4u32.to_be_bytes());
    newer.extend_from_slice(&0u32.to_be_bytes());
    assert!(matches!(migrate_image(newer), Err(MigrationError::NewerSchema { found: 4, supported: 3 })));
    let mut older = b"LXAS".to_vec();
    older.extend_from_slice(&0u32.to_be_bytes());
    assert!(matches!(migrate_image(older), Err(MigrationError::UnsupportedOldSchema(0))));
    assert!(matches!(migrate_image(b"JUNKJUNK".to_vec()), Err(MigrationError::InvalidHeader)));
    let mut corrupt = b"LXAS".to_vec();
    corrupt.extend_from_slice(&1u32.to_be_bytes());
    corrupt.extend_from_slice(&1u32.to_be_bytes());
    assert!(matches!(migrate_image(corrupt), Err(MigrationError::CorruptV1)));
}

#[test]
fn tenant_scoped_values_keep_their_tenant() {
    let scoped = TenantScoped::new(tenant("a"), 5u32);
    assert_eq!(scoped.tenant().as_str(), "a");
    assert_eq!(*scoped.value(), 5);
    let (t, v) = scoped.into_parts();
    assert_eq!((t.as_str(), v), ("a", 5));
}

fn failing(_image: Vec<u8>) -> Result<(), StoreError> {
    Err(StoreError::Corrupt("disk refused the write"))
}

#[test]
fn failed_writes_leave_the_store_as_it_was() {
    let mut store = Store::new();
    let written = std::cell::RefCell::new(Vec::new());
    let keep = |image: Vec<u8>| -> Result<(), StoreError> {
        *written.borrow_mut() = image;
        Ok(())
    };
    store.put_local_durably(key("a", ObjectKind::Configuration, b"x"), b"one".to_vec(), &keep).unwrap();
    assert_eq!(*written.borrow(), encode_image(&store).unwrap());
    assert_eq!(store.get(&key("a", ObjectKind::Configuration, b"x")).unwrap().bytes(), b"one");

    let refused = store.put_local_durably(key("a", ObjectKind::Configuration, b"x"), b"two".to_vec(), &failing);
    assert!(matches!(refused, Err(StoreError::Corrupt(_))));
    assert_eq!(store.get(&key("a", ObjectKind::Configuration, b"x")).unwrap().bytes(), b"one");

    let removal = store.remove_local_durably(&key("a", ObjectKind::Configuration, b"x"), &failing);
    assert!(matches!(removal, Err(StoreError::Corrupt(_))));
    assert_eq!(store.get(&key("a", ObjectKind::Configuration, b"x")).unwrap().bytes(), b"one");
    assert_eq!(store.remove_local_durably(&key("a", ObjectKind::Configuration, b"y"), &failing).unwrap(), false);
    assert_eq!(store.remove_local_durably(&key("a", ObjectKind::Configuration, b"x"), &keep).unwrap(), true);
    assert!(store.get(&key("a", ObjectKind::Configuration, b"x")).is_none());

    let submission = store.record_submission_durably(tenant("a"), b"id".to_vec(), b"signed".to_vec(), b"state".to_vec(), &failing);
    assert!(submission.is_err());
    assert!(store.get(&key("a", ObjectKind::Outbox, b"id")).is_none());
    assert!(store.get(&key("a", ObjectKind::PreparedActivity, b"id")).is_none());

    store.put_core_cache_durably(key("a", ObjectKind::Receipt, b"r"), b"core".to_vec(), &keep).unwrap();
    let cache_removal = store.remove_local_durably(&key("a", ObjectKind::Receipt, b"r"), &keep);
    assert!(matches!(cache_removal, Err(StoreError::Corrupt(_))));
    let restore = store.restore_core_cache_durably(vec![(key("a", ObjectKind::Receipt, b"s"), b"more".to_vec())], &failing);
    assert!(restore.is_err());
    assert!(store.get(&key("a", ObjectKind::Receipt, b"s")).is_none());
}
