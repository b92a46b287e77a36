use rarog::fresh::ScopeCounter;
use rarog::checkpoint::{
    encode_storage_checkpoint, restore_storage_checkpoint, StorageCheckpointErrorKind,
    StorageCheckpointLimits, STORAGE_CHECKPOINT_VERSION,
};
use rarog::origin::{Origin, UrlHost};
use rarog::process::{ProcessTopology, StorageProcessId};
use rarog::storage::{StorageErrorKind, StorageLimits, StorageProcessState};
use rarog::web_url::WebUrl;

fn origin(url: &str) -> Origin {
    let mut scopes = ScopeCounter::new();
    WebUrl::parse(url).unwrap().origin(&mut scopes).unwrap()
}

fn process() -> StorageProcessId {
    ProcessTopology::try_new(1)
        .unwrap()
        .ensure_storage_process()
        .unwrap()
        .process()
}

fn limits() -> StorageLimits {
    StorageLimits {
        max_origins: 2,
        max_entries_per_origin: 2,
        max_key_bytes: 8,
        max_value_bytes: 16,
        max_origin_bytes: 20,
        max_total_bytes: 24,
    }
}

#[test]
fn exact_origins_are_separate_even_when_they_are_same_site() {
    let first = origin("https://a.example.com/");
    let second = origin("https://b.example.com/");
    assert!(first.site().same_site(&second.site()));
    assert!(!first.same_origin(&second));

    let mut storage = StorageProcessState::try_new(process(), limits()).unwrap();
    storage.put(&first, "key", b"one").unwrap();
    storage.put(&second, "key", b"two").unwrap();

    assert_eq!(storage.get(&first, "key"), Some(b"one".as_slice()));
    assert_eq!(storage.get(&second, "key"), Some(b"two".as_slice()));
    assert_eq!(storage.origin_count(), 2);
}

#[test]
fn opaque_origin_is_rejected_without_mutation() {
    let opaque = origin("data:text/plain,hello");
    let mut storage = StorageProcessState::try_new(process(), limits()).unwrap();

    let error = storage.put(&opaque, "key", b"value").unwrap_err();

    assert_eq!(error.kind, StorageErrorKind::OpaqueOrigin);
    assert_eq!(storage.origin_count(), 0);
    assert_eq!(storage.total_bytes(), 0);
}

#[test]
fn replacement_quota_failure_is_atomic() {
    let origin = origin("https://example.com/");
    let mut storage = StorageProcessState::try_new(process(), limits()).unwrap();
    storage.put(&origin, "k", b"old").unwrap();
    let before_bytes = storage.total_bytes();

    let error = storage.put(&origin, "k", &[7; 17]).unwrap_err();

    assert_eq!(error.kind, StorageErrorKind::ValueTooLarge);
    assert_eq!(storage.get(&origin, "k"), Some(b"old".as_slice()));
    assert_eq!(storage.total_bytes(), before_bytes);
}

#[test]
fn entry_origin_and_global_quotas_fail_before_mutation() {
    let first = origin("https://a.example/");
    let second = origin("https://b.example/");
    let third = origin("https://c.example/");
    let mut storage = StorageProcessState::try_new(process(), limits()).unwrap();

    storage.put(&first, "a", &[1; 8]).unwrap();
    storage.put(&first, "b", &[2; 8]).unwrap();
    let entry_error = storage.put(&first, "c", b"x").unwrap_err();
    assert_eq!(entry_error.kind, StorageErrorKind::EntryLimitExceeded);

    storage.put(&second, "a", b"x").unwrap();
    let origin_error = storage.put(&third, "a", b"x").unwrap_err();
    assert_eq!(origin_error.kind, StorageErrorKind::OriginLimitExceeded);
    assert_eq!(storage.origin_count(), 2);
    assert_eq!(storage.get(&third, "a"), None);
}

#[test]
fn origin_byte_quota_failure_preserves_existing_value() {
    let origin = origin("https://example.com/");
    let mut storage = StorageProcessState::try_new(process(), limits()).unwrap();
    storage.put(&origin, "a", &[1; 8]).unwrap();
    storage.put(&origin, "b", &[2; 8]).unwrap();

    let error = storage.put(&origin, "a", &[3; 16]).unwrap_err();

    assert_eq!(error.kind, StorageErrorKind::OriginByteLimitExceeded);
    assert_eq!(storage.get(&origin, "a"), Some([1; 8].as_slice()));
    assert_eq!(storage.get(&origin, "b"), Some([2; 8].as_slice()));
}

#[test]
fn total_byte_quota_failure_is_atomic() {
    let first = origin("https://a.example/");
    let second = origin("https://b.example/");
    let mut storage = StorageProcessState::try_new(process(), limits()).unwrap();
    storage.put(&first, "a", &[1; 10]).unwrap();
    storage.put(&second, "b", &[2; 10]).unwrap();
    let before = storage.total_bytes();

    let error = storage.put(&second, "b", &[3; 13]).unwrap_err();

    assert_eq!(error.kind, StorageErrorKind::TotalByteLimitExceeded);
    assert_eq!(storage.get(&second, "b"), Some([2; 10].as_slice()));
    assert_eq!(storage.total_bytes(), before);
}

#[test]
fn removal_releases_origin_and_global_quota() {
    let first = origin("https://a.example/");
    let second = origin("https://b.example/");
    let third = origin("https://c.example/");
    let mut storage = StorageProcessState::try_new(process(), limits()).unwrap();
    storage.put(&first, "a", b"one").unwrap();
    storage.put(&second, "b", b"two").unwrap();

    assert!(storage.clear_origin(&first).unwrap());
    assert_eq!(storage.origin_count(), 1);
    storage.put(&third, "c", b"three").unwrap();
    assert_eq!(storage.origin_count(), 2);

    assert!(storage.remove(&second, "b").unwrap());
    assert_eq!(storage.entry_count(&second), 0);
    assert_eq!(storage.origin_count(), 1);
}

#[test]
fn invalid_nested_limits_are_rejected() {
    let invalid = StorageLimits {
        max_origin_bytes: 4,
        max_value_bytes: 5,
        ..limits()
    };
    let error = StorageProcessState::try_new(process(), invalid).unwrap_err();
    assert_eq!(error.kind, StorageErrorKind::InvalidLimits);
}

#[test]
fn put_accounts_key_bytes_and_replacement() {
    let origin = origin("https://example.com/");
    let mut storage = StorageProcessState::try_new(process(), limits()).unwrap();
    storage.put(&origin, "ké", b"abc").unwrap();
    assert_eq!(storage.total_bytes(), 6);
    assert_eq!(storage.origin_bytes(&origin), 6);
    storage.put(&origin, "ké", b"a").unwrap();
    assert_eq!(storage.total_bytes(), 4);
    assert_eq!(storage.entry_count(&origin), 1);
    assert!(!storage.remove(&origin, "missing").unwrap());
    assert!(storage.remove(&origin, "ké").unwrap());
    assert_eq!(storage.total_bytes(), 0);
    assert_eq!(storage.get(&origin, "ké"), None);
}

#[test]
fn oversized_identity_is_stored_but_not_checkpointed_and_long_keys_are_rejected() {
    let long_domain = Origin::Tuple {
        scheme: String::from("https"),
        host: UrlHost::Domain("a".repeat(2049)),
        port: 443,
    };
    let mut storage = StorageProcessState::try_new(process(), limits()).unwrap();
    storage.put(&long_domain, "k", b"v").unwrap();
    assert_eq!(storage.get(&long_domain, "k"), Some(&b"v"[..]));
    assert_eq!(
        encode_storage_checkpoint(&storage, checkpoint_limits()).unwrap_err().kind,
        StorageCheckpointErrorKind::Storage(StorageErrorKind::OriginIdentityTooLarge)
    );
    let exact = origin("https://example.com/");
    assert_eq!(
        storage.put(&exact, "123456789", b"v").unwrap_err().kind,
        StorageErrorKind::KeyTooLarge
    );
}

fn checkpoint_storage_limits() -> StorageLimits {
    StorageLimits {
        max_origins: 4,
        max_entries_per_origin: 8,
        max_key_bytes: 16,
        max_value_bytes: 32,
        max_origin_bytes: 128,
        max_total_bytes: 256,
    }
}

fn checkpoint_limits() -> StorageCheckpointLimits {
    StorageCheckpointLimits {
        max_checkpoint_bytes: 4096,
    }
}

#[test]
fn checkpoint_round_trip_preserves_exact_origins_entries_and_accounting() {
    let process = process();
    let first = origin("https://a.example.com/");
    let second = origin("https://b.example.com:8443/");
    let mut source = StorageProcessState::try_new(process, checkpoint_storage_limits()).unwrap();
    source.put(&second, "z", b"last").unwrap();
    source.put(&first, "b", b"two").unwrap();
    source.put(&first, "a", b"one").unwrap();
    let bytes = encode_storage_checkpoint(&source, checkpoint_limits()).unwrap();

    let mut restored = StorageProcessState::try_new(process, checkpoint_storage_limits()).unwrap();
    restore_storage_checkpoint(&mut restored, &bytes, checkpoint_limits()).unwrap();

    assert_eq!(restored.origin_count(), 2);
    assert_eq!(restored.total_bytes(), source.total_bytes());
    assert_eq!(restored.origin_bytes(&first), source.origin_bytes(&first));
    assert_eq!(restored.get(&first, "a"), Some(b"one".as_slice()));
    assert_eq!(restored.get(&first, "b"), Some(b"two".as_slice()));
    assert_eq!(restored.get(&second, "z"), Some(b"last".as_slice()));
}

#[test]
fn checkpoint_encoding_is_deterministic_across_insertion_order() {
    let process = process();
    let first = origin("https://a.example/");
    let second = origin("https://b.example/");
    let mut left = StorageProcessState::try_new(process, checkpoint_storage_limits()).unwrap();
    left.put(&second, "z", b"2").unwrap();
    left.put(&first, "a", b"1").unwrap();
    let mut right = StorageProcessState::try_new(process, checkpoint_storage_limits()).unwrap();
    right.put(&first, "a", b"1").unwrap();
    right.put(&second, "z", b"2").unwrap();

    assert_eq!(
        encode_storage_checkpoint(&left, checkpoint_limits()).unwrap(),
        encode_storage_checkpoint(&right, checkpoint_limits()).unwrap()
    );
}

#[test]
fn restore_keeps_target_process_identity() {
    let mut scopes = ScopeCounter::new();
    let first_process = process();
    let mut topology = ProcessTopology::try_new(1).unwrap();
    topology
        .assign_site(WebUrl::parse("https://site.example/").unwrap().site_identity(&mut scopes).unwrap())
        .unwrap();
    let second_process = topology.ensure_storage_process().unwrap().process();
    assert_ne!(first_process, second_process);
    let exact = origin("https://example.com/");
    let mut source = StorageProcessState::try_new(first_process, checkpoint_storage_limits()).unwrap();
    source.put(&exact, "key", b"value").unwrap();
    let checkpoint = encode_storage_checkpoint(&source, checkpoint_limits()).unwrap();
    let mut target = StorageProcessState::try_new(second_process, checkpoint_storage_limits()).unwrap();

    restore_storage_checkpoint(&mut target, &checkpoint, checkpoint_limits()).unwrap();
    assert_eq!(target.process(), second_process);
    assert_eq!(target.get(&exact, "key"), Some(b"value".as_slice()));
}

#[test]
fn malformed_truncated_version_and_trailing_data_fail_without_mutation() {
    let process = process();
    let exact = origin("https://example.com/");
    let mut source = StorageProcessState::try_new(process, checkpoint_storage_limits()).unwrap();
    source.put(&exact, "key", b"new").unwrap();
    let valid = encode_storage_checkpoint(&source, checkpoint_limits()).unwrap();

    let cases = [
        {
            let mut bytes = valid.clone();
            bytes[0] ^= 0xff;
            bytes
        },
        valid[..valid.len() - 1].to_vec(),
        {
            let mut bytes = valid.clone();
            bytes[8..10].copy_from_slice(&(STORAGE_CHECKPOINT_VERSION + 1).to_be_bytes());
            bytes
        },
        {
            let mut bytes = valid.clone();
            bytes.push(0);
            bytes
        },
    ];

    for bytes in cases {
        let mut target = StorageProcessState::try_new(process, checkpoint_storage_limits()).unwrap();
        target.put(&exact, "key", b"old").unwrap();
        assert!(restore_storage_checkpoint(&mut target, &bytes, checkpoint_limits()).is_err());
        assert_eq!(target.get(&exact, "key"), Some(b"old".as_slice()));
        assert_eq!(target.origin_count(), 1);
    }
}

#[test]
fn checkpoint_size_limit_is_enforced_before_decode_or_encode_growth() {
    let process = process();
    let exact = origin("https://example.com/");
    let mut storage = StorageProcessState::try_new(process, checkpoint_storage_limits()).unwrap();
    storage.put(&exact, "key", &[7; 32]).unwrap();
    let tiny = StorageCheckpointLimits {
        max_checkpoint_bytes: 8 + 2 + 4,
    };
    assert_eq!(
        encode_storage_checkpoint(&storage, tiny).unwrap_err().kind,
        StorageCheckpointErrorKind::CheckpointTooLarge
    );
    assert_eq!(
        encode_storage_checkpoint(&storage, tiny).unwrap_err().message,
        "storage checkpoint would require 18 bytes; limit is 14"
    );

    let oversized = vec![0_u8; tiny.max_checkpoint_bytes + 1];
    assert_eq!(
        restore_storage_checkpoint(&mut storage, &oversized, tiny).unwrap_err().kind,
        StorageCheckpointErrorKind::CheckpointTooLarge
    );
}

#[test]
fn restore_quota_failure_is_transactional() {
    let process = process();
    let exact = origin("https://example.com/");
    let mut source = StorageProcessState::try_new(process, checkpoint_storage_limits()).unwrap();
    source.put(&exact, "a", b"12345678").unwrap();
    source.put(&exact, "b", b"12345678").unwrap();
    let checkpoint = encode_storage_checkpoint(&source, checkpoint_limits()).unwrap();
    let tight = StorageLimits {
        max_value_bytes: 12,
        max_origin_bytes: 12,
        max_total_bytes: 12,
        ..checkpoint_storage_limits()
    };
    let mut target = StorageProcessState::try_new(process, tight).unwrap();
    target.put(&exact, "old", b"value").unwrap();
    let before = target.total_bytes();

    assert!(restore_storage_checkpoint(&mut target, &checkpoint, checkpoint_limits()).is_err());
    assert_eq!(target.get(&exact, "old"), Some(b"value".as_slice()));
    assert_eq!(target.get(&exact, "a"), None);
    assert_eq!(target.total_bytes(), before);
}

#[test]
fn checkpoint_has_the_documented_layout() {
    let process = process();
    let exact = Origin::Tuple {
        scheme: String::from("ws"),
        host: UrlHost::Ipv4([10, 0, 0, 1]),
        port: 80,
    };
    let mut storage = StorageProcessState::try_new(process, checkpoint_storage_limits()).unwrap();
    storage.put(&exact, "k", b"v").unwrap();
    let bytes = encode_storage_checkpoint(&storage, checkpoint_limits()).unwrap();
    let mut expected: Vec<u8> = b"RAROGST1".to_vec();
    expected.extend_from_slice(&[0, 1, 0, 0, 0, 1]);
    expected.extend_from_slice(&[0, 0, 0, 2, b'w', b's', 1, 10, 0, 0, 1, 0, 80]);
    expected.extend_from_slice(&[0, 0, 0, 1, 0, 0, 0, 1, b'k', 0, 0, 0, 1, b'v']);
    assert_eq!(bytes, expected);

    let mut bad_tag = expected.clone();
    bad_tag[20] = 9;
    let mut target = StorageProcessState::try_new(process, checkpoint_storage_limits()).unwrap();
    assert_eq!(
        restore_storage_checkpoint(&mut target, &bad_tag, checkpoint_limits()).unwrap_err().kind,
        StorageCheckpointErrorKind::InvalidHostTag
    );
    restore_storage_checkpoint(&mut target, &expected, checkpoint_limits()).unwrap();
    assert_eq!(target.get(&exact, "k"), Some(b"v".as_slice()));
}
