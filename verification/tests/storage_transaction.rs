use rarog::fresh::ScopeCounter;
use rarog::origin::Origin;
use rarog::process::{ProcessTopology, StorageProcessId};
use rarog::storage::{StorageErrorKind, StorageLimits, StorageProcessState};
use rarog::storage_transaction::{
    StorageDurabilityHint, StorageTransactionErrorKind, StorageTransactionLimits,
    StorageTransactionManager, StorageTransactionMode, StorageTransactionState,
};
use rarog::web_url::WebUrl;

fn origin(url: &str) -> Origin {
    let mut scopes = ScopeCounter::new();
    WebUrl::parse(url).unwrap().origin(&mut scopes).unwrap()
}

fn process() -> StorageProcessId {
    ProcessTopology::try_new(1)
        .unwrap()
        .ensure_storage_process()
        .unwrap()
        .process()
}

fn storage_limits() -> StorageLimits {
    StorageLimits {
        max_origins: 4,
        max_entries_per_origin: 8,
        max_key_bytes: 16,
        max_value_bytes: 32,
        max_origin_bytes: 64,
        max_total_bytes: 96,
    }
}

fn transaction_limits() -> StorageTransactionLimits {
    StorageTransactionLimits {
        max_transactions: 8,
        max_mutations_per_transaction: 4,
        max_staged_bytes_per_transaction: 48,
        max_total_staged_bytes: 64,
    }
}

fn manager(process: StorageProcessId) -> StorageTransactionManager {
    StorageTransactionManager::try_new(process, storage_limits(), transaction_limits()).unwrap()
}

#[test]
fn read_only_transactions_overlap_but_write_scope_waits() {
    let process = process();
    let shared = origin("https://example.com/");
    let mut manager = manager(process);
    let first = manager
        .begin(
            shared.clone(),
            StorageTransactionMode::ReadOnly,
            StorageDurabilityHint::Default,
        )
        .unwrap();
    let second = manager
        .begin(
            shared.clone(),
            StorageTransactionMode::ReadOnly,
            StorageDurabilityHint::Relaxed,
        )
        .unwrap();
    let writer = manager
        .begin(
            shared,
            StorageTransactionMode::ReadWrite,
            StorageDurabilityHint::Strict,
        )
        .unwrap();

    assert_eq!(manager.state(first).unwrap(), StorageTransactionState::Active);
    assert_eq!(manager.state(second).unwrap(), StorageTransactionState::Active);
    assert_eq!(manager.state(writer).unwrap(), StorageTransactionState::Waiting);
    assert_eq!(
        manager.stage_put(writer, "k", b"v").unwrap_err().kind,
        StorageTransactionErrorKind::TransactionNotActive
    );
    manager.abort(first).unwrap();
    assert_eq!(manager.state(writer).unwrap(), StorageTransactionState::Waiting);
    manager.abort(second).unwrap();
    assert_eq!(manager.state(writer).unwrap(), StorageTransactionState::Active);
}

#[test]
fn older_writer_blocks_later_overlapping_readers_and_writers_only() {
    let process = process();
    let first_origin = origin("https://a.example/");
    let other_origin = origin("https://b.example/");
    let mut manager = manager(process);
    let writer = manager
        .begin(
            first_origin.clone(),
            StorageTransactionMode::ReadWrite,
            StorageDurabilityHint::Default,
        )
        .unwrap();
    let reader = manager
        .begin(
            first_origin.clone(),
            StorageTransactionMode::ReadOnly,
            StorageDurabilityHint::Default,
        )
        .unwrap();
    let later_writer = manager
        .begin(
            first_origin,
            StorageTransactionMode::ReadWrite,
            StorageDurabilityHint::Default,
        )
        .unwrap();
    let independent = manager
        .begin(
            other_origin,
            StorageTransactionMode::ReadWrite,
            StorageDurabilityHint::Default,
        )
        .unwrap();

    assert_eq!(manager.state(writer).unwrap(), StorageTransactionState::Active);
    assert_eq!(manager.state(reader).unwrap(), StorageTransactionState::Waiting);
    assert_eq!(manager.state(later_writer).unwrap(), StorageTransactionState::Waiting);
    assert_eq!(manager.state(independent).unwrap(), StorageTransactionState::Active);
    manager.abort(writer).unwrap();
    assert_eq!(manager.state(reader).unwrap(), StorageTransactionState::Active);
    assert_eq!(manager.state(later_writer).unwrap(), StorageTransactionState::Waiting);
    manager.abort(reader).unwrap();
    assert_eq!(manager.state(later_writer).unwrap(), StorageTransactionState::Active);
}

#[test]
fn read_only_transaction_cannot_stage_mutation() {
    let process = process();
    let mut manager = manager(process);
    let transaction = manager
        .begin(
            origin("https://example.com/"),
            StorageTransactionMode::ReadOnly,
            StorageDurabilityHint::Default,
        )
        .unwrap();
    assert_eq!(
        manager.stage_put(transaction, "key", b"value").unwrap_err().kind,
        StorageTransactionErrorKind::ReadOnlyMutation
    );
    assert_eq!(manager.staged_mutations(transaction).unwrap(), 0);
}

#[test]
fn staged_writes_are_read_your_writes_and_exact_origin_scoped() {
    let process = process();
    let first = origin("https://a.example/");
    let second = origin("https://b.example/");
    let mut storage = StorageProcessState::try_new(process, storage_limits()).unwrap();
    storage.put(&first, "key", b"one").unwrap();
    storage.put(&second, "key", b"two").unwrap();
    let mut manager = manager(process);
    let transaction = manager
        .begin(
            first.clone(),
            StorageTransactionMode::ReadWrite,
            StorageDurabilityHint::Default,
        )
        .unwrap();

    assert_eq!(manager.read(transaction, &storage, "key").unwrap(), Some(b"one".to_vec()));
    manager.stage_put(transaction, "key", b"changed").unwrap();
    assert_eq!(manager.read(transaction, &storage, "key").unwrap(), Some(b"changed".to_vec()));
    assert_eq!(storage.get(&second, "key"), Some(b"two".as_slice()));
    manager.stage_clear(transaction).unwrap();
    assert_eq!(manager.read(transaction, &storage, "key").unwrap(), None);
    manager.stage_put(transaction, "key", b"after-clear").unwrap();
    assert_eq!(manager.read(transaction, &storage, "key").unwrap(), Some(b"after-clear".to_vec()));
}

#[test]
fn multi_mutation_commit_is_atomic_and_reports_durability_hint() {
    let process = process();
    let exact = origin("https://example.com/");
    let mut storage = StorageProcessState::try_new(process, storage_limits()).unwrap();
    storage.put(&exact, "old", b"value").unwrap();
    let mut manager = manager(process);
    let transaction = manager
        .begin(
            exact.clone(),
            StorageTransactionMode::ReadWrite,
            StorageDurabilityHint::Strict,
        )
        .unwrap();
    manager.stage_remove(transaction, "old").unwrap();
    manager.stage_put(transaction, "a", b"one").unwrap();
    manager.stage_put(transaction, "b", b"two").unwrap();

    assert_eq!(storage.get(&exact, "a"), None);
    let commit = manager.commit(transaction, &mut storage).unwrap();
    assert_eq!(commit.transaction(), transaction);
    assert_eq!(commit.durability(), StorageDurabilityHint::Strict);
    assert!(commit.mutated());
    assert_eq!(storage.get(&exact, "old"), None);
    assert_eq!(storage.get(&exact, "a"), Some(b"one".as_slice()));
    assert_eq!(storage.get(&exact, "b"), Some(b"two".as_slice()));
    assert_eq!(manager.active_transactions(), 0);
    assert_eq!(manager.total_staged_bytes(), 0);
}

#[test]
fn failed_commit_aborts_and_preserves_committed_state() {
    let process = process();
    let exact = origin("https://example.com/");
    let limited = StorageLimits {
        max_total_bytes: 12,
        max_origin_bytes: 12,
        max_value_bytes: 12,
        ..storage_limits()
    };
    let mut storage = StorageProcessState::try_new(process, limited).unwrap();
    storage.put(&exact, "base", b"old").unwrap();
    let mut manager = StorageTransactionManager::try_new(process, limited, transaction_limits()).unwrap();
    let transaction = manager
        .begin(
            exact.clone(),
            StorageTransactionMode::ReadWrite,
            StorageDurabilityHint::Default,
        )
        .unwrap();
    manager.stage_put(transaction, "a", b"1234").unwrap();
    manager.stage_put(transaction, "b", b"1234").unwrap();

    let error = manager.commit(transaction, &mut storage).unwrap_err();
    assert_eq!(
        error.kind,
        StorageTransactionErrorKind::Storage(StorageErrorKind::OriginByteLimitExceeded)
    );
    assert_eq!(storage.get(&exact, "base"), Some(b"old".as_slice()));
    assert_eq!(storage.get(&exact, "a"), None);
    assert_eq!(storage.get(&exact, "b"), None);
    assert_eq!(manager.active_transactions(), 0);
    assert_eq!(
        manager.state(transaction).unwrap_err().kind,
        StorageTransactionErrorKind::UnknownTransaction
    );
}

#[test]
fn abort_discards_staged_state_and_transaction_id_stays_stale() {
    let process = process();
    let exact = origin("https://example.com/");
    let mut storage = StorageProcessState::try_new(process, storage_limits()).unwrap();
    let mut manager = manager(process);
    let first = manager
        .begin(
            exact.clone(),
            StorageTransactionMode::ReadWrite,
            StorageDurabilityHint::Default,
        )
        .unwrap();
    manager.stage_put(first, "key", b"value").unwrap();
    manager.abort(first).unwrap();
    assert_eq!(storage.get(&exact, "key"), None);
    assert_eq!(
        manager.stage_clear(first).unwrap_err().kind,
        StorageTransactionErrorKind::UnknownTransaction
    );
    let second = manager
        .begin(
            exact,
            StorageTransactionMode::ReadWrite,
            StorageDurabilityHint::Default,
        )
        .unwrap();
    assert_ne!(first, second);
}

#[test]
fn mutation_and_staged_byte_limits_fail_before_tracking() {
    let process = process();
    let exact = origin("https://example.com/");
    let limits = StorageTransactionLimits {
        max_transactions: 2,
        max_mutations_per_transaction: 1,
        max_staged_bytes_per_transaction: 5,
        max_total_staged_bytes: 5,
    };
    let mut manager = StorageTransactionManager::try_new(process, storage_limits(), limits).unwrap();
    let transaction = manager
        .begin(
            exact,
            StorageTransactionMode::ReadWrite,
            StorageDurabilityHint::Default,
        )
        .unwrap();
    assert_eq!(
        manager.stage_put(transaction, "key", b"123").unwrap_err().kind,
        StorageTransactionErrorKind::StagedByteLimitExceeded
    );
    assert_eq!(manager.staged_mutations(transaction).unwrap(), 0);
    manager.stage_put(transaction, "k", b"1234").unwrap();
    let before = manager.total_staged_bytes();
    assert_eq!(
        manager.stage_clear(transaction).unwrap_err().kind,
        StorageTransactionErrorKind::MutationLimitExceeded
    );
    assert_eq!(manager.total_staged_bytes(), before);
}

#[test]
fn wrong_process_is_rejected_before_commit_or_read() {
    let mut scopes = ScopeCounter::new();
    let process = process();
    let mut topology = ProcessTopology::try_new(1).unwrap();
    topology
        .assign_site(WebUrl::parse("https://site.example/").unwrap().site_identity(&mut scopes).unwrap())
        .unwrap();
    let other = topology.ensure_storage_process().unwrap().process();
    assert_ne!(process, other);
    let mut manager = manager(process);
    let transaction = manager
        .begin(
            origin("https://example.com/"),
            StorageTransactionMode::ReadWrite,
            StorageDurabilityHint::Default,
        )
        .unwrap();
    let mut wrong = StorageProcessState::try_new(other, storage_limits()).unwrap();
    assert_eq!(
        manager.read(transaction, &wrong, "key").unwrap_err().kind,
        StorageTransactionErrorKind::WrongProcess
    );
    assert_eq!(
        manager.commit(transaction, &mut wrong).unwrap_err().kind,
        StorageTransactionErrorKind::WrongProcess
    );
}

#[test]
fn commit_applies_removals_and_clears_in_order() {
    let process = process();
    let exact = origin("https://example.com/");
    let other = origin("https://other.example/");
    let mut storage = StorageProcessState::try_new(process, storage_limits()).unwrap();
    storage.put(&exact, "a", b"1").unwrap();
    storage.put(&exact, "b", b"2").unwrap();
    storage.put(&other, "a", b"3").unwrap();
    let mut manager = manager(process);
    let transaction = manager
        .begin(
            exact.clone(),
            StorageTransactionMode::ReadWrite,
            StorageDurabilityHint::Relaxed,
        )
        .unwrap();
    manager.stage_clear(transaction).unwrap();
    manager.stage_put(transaction, "c", b"4").unwrap();
    manager.stage_remove(transaction, "c").unwrap();
    manager.stage_put(transaction, "d", b"5").unwrap();
    assert_eq!(manager.staged_mutations(transaction).unwrap(), 4);
    assert_eq!(manager.staged_bytes(transaction).unwrap(), 0 + 2 + 1 + 2);
    assert_eq!(manager.total_staged_bytes(), 5);
    assert_eq!(manager.read(transaction, &storage, "c").unwrap(), None);
    assert_eq!(manager.read(transaction, &storage, "d").unwrap(), Some(b"5".to_vec()));
    let commit = manager.commit(transaction, &mut storage).unwrap();
    assert!(commit.mutated());
    assert_eq!(commit.durability(), StorageDurabilityHint::Relaxed);
    assert_eq!(storage.get(&exact, "a"), None);
    assert_eq!(storage.get(&exact, "b"), None);
    assert_eq!(storage.get(&exact, "d"), Some(b"5".as_slice()));
    assert_eq!(storage.get(&other, "a"), Some(b"3".as_slice()));
    assert_eq!(manager.total_staged_bytes(), 0);
}

#[test]
fn read_only_commit_reports_no_mutation_and_unblocks_writers() {
    let mut scopes = ScopeCounter::new();
    let process = process();
    let exact = origin("https://example.com/");
    let mut storage = StorageProcessState::try_new(process, storage_limits()).unwrap();
    let mut manager = manager(process);
    let reader = manager
        .begin(
            exact.clone(),
            StorageTransactionMode::ReadOnly,
            StorageDurabilityHint::Default,
        )
        .unwrap();
    let writer = manager
        .begin(exact, StorageTransactionMode::ReadWrite, StorageDurabilityHint::Default)
        .unwrap();
    assert_eq!(manager.state(writer).unwrap(), StorageTransactionState::Waiting);
    assert_eq!(
        manager.commit(writer, &mut storage).unwrap_err().kind,
        StorageTransactionErrorKind::TransactionNotActive
    );
    let commit = manager.commit(reader, &mut storage).unwrap();
    assert!(!commit.mutated());
    assert_eq!(commit.transaction(), reader);
    assert_eq!(manager.state(writer).unwrap(), StorageTransactionState::Active);
    assert_eq!(writer.to_string(), format!("storage-transaction:{}", writer.get()));
    let opaque = WebUrl::parse("data:text/plain,x").unwrap().origin(&mut scopes).unwrap();
    assert_eq!(
        manager
            .begin(opaque, StorageTransactionMode::ReadOnly, StorageDurabilityHint::Default)
            .unwrap_err()
            .kind,
        StorageTransactionErrorKind::Storage(StorageErrorKind::OpaqueOrigin)
    );
    let invalid = StorageTransactionLimits {
        max_staged_bytes_per_transaction: 100,
        max_total_staged_bytes: 10,
        ..transaction_limits()
    };
    assert_eq!(
        StorageTransactionManager::try_new(process, storage_limits(), invalid)
            .unwrap_err()
            .kind,
        StorageTransactionErrorKind::InvalidLimits
    );
}
