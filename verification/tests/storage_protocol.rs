use rarog::fresh::ScopeCounter;
use rarog::origin::Origin;
use rarog::process::{ProcessTopology, StorageProcessId};
use rarog::storage::{StorageLimits, StorageProcessState};
use rarog::storage_protocol::{
    execute_storage_request, StorageCommand, StorageOperationKind, StorageProtocolErrorKind,
    StorageRequestLimits, StorageRequestQueue, StorageResponse, StorageResponsePayload,
};
use rarog::web_url::WebUrl;

fn origin(url: &str) -> Origin {
    let mut scopes = ScopeCounter::new();
    WebUrl::parse(url).unwrap().origin(&mut scopes).unwrap()
}

fn process() -> StorageProcessId {
    ProcessTopology::try_new(1)
        .unwrap()
        .ensure_storage_process()
        .unwrap()
        .process()
}

fn different_process() -> StorageProcessId {
    let mut scopes = ScopeCounter::new();
    let mut topology = ProcessTopology::try_new(1).unwrap();
    topology
        .assign_site(WebUrl::parse("https://example.org/").unwrap().site_identity(&mut scopes).unwrap())
        .unwrap();
    topology.ensure_storage_process().unwrap().process()
}

fn storage_limits() -> StorageLimits {
    StorageLimits {
        max_origins: 4,
        max_entries_per_origin: 8,
        max_key_bytes: 16,
        max_value_bytes: 32,
        max_origin_bytes: 128,
        max_total_bytes: 256,
    }
}

fn request_limits() -> StorageRequestLimits {
    StorageRequestLimits {
        max_request_bytes: 96,
        max_pending_requests: 4,
        max_pending_bytes: 192,
    }
}

#[test]
fn protocol_typed_request_response_round_trips_all_operations() {
    let process = process();
    let origin = origin("https://example.com/");
    let mut storage = StorageProcessState::try_new(process, storage_limits()).unwrap();
    let mut queue = StorageRequestQueue::try_new(process, storage_limits(), request_limits())
        .unwrap();

    queue
        .enqueue(
            origin.clone(),
            StorageCommand::Put {
                key: String::from("key"),
                value: b"value".to_vec(),
            },
        )
        .unwrap();
    let request = queue.take_next().unwrap();
    let response = execute_storage_request(&mut storage, &request).unwrap();
    assert_eq!(
        queue.complete(response).unwrap(),
        StorageResponsePayload::Written
    );

    queue
        .enqueue(
            origin.clone(),
            StorageCommand::Get {
                key: String::from("key"),
            },
        )
        .unwrap();
    let request = queue.take_next().unwrap();
    let response = execute_storage_request(&mut storage, &request).unwrap();
    assert_eq!(
        queue.complete(response).unwrap(),
        StorageResponsePayload::Value(Some(b"value".to_vec()))
    );

    queue
        .enqueue(
            origin.clone(),
            StorageCommand::Remove {
                key: String::from("key"),
            },
        )
        .unwrap();
    let request = queue.take_next().unwrap();
    let response = execute_storage_request(&mut storage, &request).unwrap();
    assert_eq!(
        queue.complete(response).unwrap(),
        StorageResponsePayload::Removed(true)
    );

    queue.enqueue(origin, StorageCommand::Clear).unwrap();
    let request = queue.take_next().unwrap();
    let response = execute_storage_request(&mut storage, &request).unwrap();
    assert_eq!(
        queue.complete(response).unwrap(),
        StorageResponsePayload::Cleared(false)
    );
    assert_eq!(queue.pending_requests(), 0);
    assert_eq!(queue.tracked_bytes(), 0);
}

#[test]
fn protocol_pending_count_and_byte_limits_apply_before_enqueue() {
    let process = process();
    let origin = origin("https://example.com/");
    let mut one = StorageRequestQueue::try_new(
        process,
        storage_limits(),
        StorageRequestLimits {
            max_request_bytes: 64,
            max_pending_requests: 1,
            max_pending_bytes: 64,
        },
    )
    .unwrap();
    one.enqueue(
        origin.clone(),
        StorageCommand::Get {
            key: String::from("a"),
        },
    )
    .unwrap();
    let before = one.tracked_bytes();
    assert_eq!(
        one.enqueue(
            origin.clone(),
            StorageCommand::Get {
                key: String::from("b"),
            },
        )
        .unwrap_err()
        .kind,
        StorageProtocolErrorKind::PendingRequestLimitExceeded
    );
    assert_eq!(one.pending_requests(), 1);
    assert_eq!(one.tracked_bytes(), before);

    let mut bytes = StorageRequestQueue::try_new(
        process,
        storage_limits(),
        StorageRequestLimits {
            max_request_bytes: 64,
            max_pending_requests: 4,
            max_pending_bytes: 30,
        },
    )
    .unwrap();
    bytes
        .enqueue(
            origin.clone(),
            StorageCommand::Get {
                key: String::from("a"),
            },
        )
        .unwrap();
    let before = bytes.tracked_bytes();
    assert_eq!(
        bytes
            .enqueue(
                origin,
                StorageCommand::Get {
                    key: String::from("b"),
                },
            )
            .unwrap_err()
            .kind,
        StorageProtocolErrorKind::PendingByteLimitExceeded
    );
    assert_eq!(bytes.pending_requests(), 1);
    assert_eq!(bytes.tracked_bytes(), before);
}

#[test]
fn protocol_oversized_and_opaque_requests_fail_without_tracking() {
    let process = process();
    let mut queue = StorageRequestQueue::try_new(process, storage_limits(), request_limits())
        .unwrap();
    let opaque = origin("data:text/plain,hello");
    assert_eq!(
        queue
            .enqueue(opaque, StorageCommand::Clear)
            .unwrap_err()
            .kind,
        StorageProtocolErrorKind::OpaqueOrigin
    );
    assert_eq!(queue.pending_requests(), 0);

    let exact = origin("https://example.com/");
    assert_eq!(
        queue
            .enqueue(
                exact,
                StorageCommand::Put {
                    key: String::from("key"),
                    value: vec![0; 33],
                },
            )
            .unwrap_err()
            .kind,
        StorageProtocolErrorKind::ValueTooLarge
    );
    assert_eq!(queue.pending_requests(), 0);
    assert_eq!(queue.tracked_bytes(), 0);
}

#[test]
fn protocol_completed_and_cancelled_request_ids_stay_stale() {
    let process = process();
    let origin = origin("https://example.com/");
    let mut storage = StorageProcessState::try_new(process, storage_limits()).unwrap();
    let mut queue = StorageRequestQueue::try_new(process, storage_limits(), request_limits())
        .unwrap();

    let first = queue
        .enqueue(origin.clone(), StorageCommand::Clear)
        .unwrap();
    let request = queue.take_next().unwrap();
    let response = execute_storage_request(&mut storage, &request).unwrap();
    let replay = response.clone();
    queue.complete(response).unwrap();
    assert_eq!(
        queue.complete(replay).unwrap_err().kind,
        StorageProtocolErrorKind::UnknownRequest
    );

    let second = queue.enqueue(origin, StorageCommand::Clear).unwrap();
    assert_ne!(first, second);
    let request = queue.take_next().unwrap();
    let response = execute_storage_request(&mut storage, &request).unwrap();
    assert!(queue.cancel(second).unwrap());
    assert_eq!(
        queue.complete(response).unwrap_err().kind,
        StorageProtocolErrorKind::UnknownRequest
    );
    assert_eq!(queue.pending_requests(), 0);
    assert_eq!(queue.tracked_bytes(), 0);
}

#[test]
fn protocol_wrong_storage_process_fails_before_state_access() {
    let process = process();
    let wrong = different_process();
    assert_ne!(process, wrong);
    let origin = origin("https://example.com/");
    let mut queue = StorageRequestQueue::try_new(process, storage_limits(), request_limits())
        .unwrap();
    queue
        .enqueue(
            origin.clone(),
            StorageCommand::Put {
                key: String::from("key"),
                value: b"value".to_vec(),
            },
        )
        .unwrap();
    let request = queue.take_next().unwrap();
    let mut wrong_storage = StorageProcessState::try_new(wrong, storage_limits()).unwrap();

    assert_eq!(
        execute_storage_request(&mut wrong_storage, &request)
            .unwrap_err()
            .kind,
        StorageProtocolErrorKind::WrongProcess
    );
    assert_eq!(wrong_storage.get(&origin, "key"), None);
    assert_eq!(queue.pending_requests(), 1);
}

#[test]
fn protocol_mismatched_response_does_not_consume_pending_authority() {
    let process = process();
    let origin = origin("https://example.com/");
    let mut storage = StorageProcessState::try_new(process, storage_limits()).unwrap();
    let mut queue = StorageRequestQueue::try_new(process, storage_limits(), request_limits())
        .unwrap();
    let id = queue
        .enqueue(
            origin,
            StorageCommand::Get {
                key: String::from("key"),
            },
        )
        .unwrap();
    let request = queue.take_next().unwrap();
    let valid = execute_storage_request(&mut storage, &request).unwrap();
    let mismatched = StorageResponse {
        request: id,
        process,
        kind: StorageOperationKind::Put,
        payload: StorageResponsePayload::Written,
    };

    assert_eq!(
        queue.complete(mismatched).unwrap_err().kind,
        StorageProtocolErrorKind::ResponseMismatch
    );
    assert_eq!(queue.pending_requests(), 1);
    assert_eq!(
        queue.complete(valid).unwrap(),
        StorageResponsePayload::Value(None)
    );
    assert_eq!(queue.pending_requests(), 0);
}

#[test]
fn tests_typed_request_response_round_trips_all_operations() {
    let process = process();
    let origin = origin("https://example.com/");
    let mut storage = StorageProcessState::try_new(process, storage_limits()).unwrap();
    let mut queue = StorageRequestQueue::try_new(process, storage_limits(), request_limits())
        .unwrap();

    queue
        .enqueue(
            origin.clone(),
            StorageCommand::Put {
                key: String::from("key"),
                value: b"value".to_vec(),
            },
        )
        .unwrap();
    let request = queue.take_next().unwrap();
    let response = execute_storage_request(&mut storage, &request).unwrap();
    assert_eq!(
        queue.complete(response).unwrap(),
        StorageResponsePayload::Written
    );

    queue
        .enqueue(
            origin.clone(),
            StorageCommand::Get {
                key: String::from("key"),
            },
        )
        .unwrap();
    let request = queue.take_next().unwrap();
    let response = execute_storage_request(&mut storage, &request).unwrap();
    assert_eq!(
        queue.complete(response).unwrap(),
        StorageResponsePayload::Value(Some(b"value".to_vec()))
    );

    queue
        .enqueue(
            origin.clone(),
            StorageCommand::Remove {
                key: String::from("key"),
            },
        )
        .unwrap();
    let request = queue.take_next().unwrap();
    let response = execute_storage_request(&mut storage, &request).unwrap();
    assert_eq!(
        queue.complete(response).unwrap(),
        StorageResponsePayload::Removed(true)
    );

    queue.enqueue(origin, StorageCommand::Clear).unwrap();
    let request = queue.take_next().unwrap();
    let response = execute_storage_request(&mut storage, &request).unwrap();
    assert_eq!(
        queue.complete(response).unwrap(),
        StorageResponsePayload::Cleared(false)
    );
    assert_eq!(queue.pending_requests(), 0);
    assert_eq!(queue.tracked_bytes(), 0);
}

#[test]
fn tests_pending_count_and_byte_limits_apply_before_enqueue() {
    let process = process();
    let origin = origin("https://example.com/");
    let mut one = StorageRequestQueue::try_new(
        process,
        storage_limits(),
        StorageRequestLimits {
            max_request_bytes: 64,
            max_pending_requests: 1,
            max_pending_bytes: 64,
        },
    )
    .unwrap();
    one.enqueue(
        origin.clone(),
        StorageCommand::Get {
            key: String::from("a"),
        },
    )
    .unwrap();
    let before = one.tracked_bytes();
    assert_eq!(
        one.enqueue(
            origin.clone(),
            StorageCommand::Get {
                key: String::from("b"),
            },
        )
        .unwrap_err()
        .kind,
        StorageProtocolErrorKind::PendingRequestLimitExceeded
    );
    assert_eq!(one.pending_requests(), 1);
    assert_eq!(one.tracked_bytes(), before);

    let mut bytes = StorageRequestQueue::try_new(
        process,
        storage_limits(),
        StorageRequestLimits {
            max_request_bytes: 64,
            max_pending_requests: 4,
            max_pending_bytes: 30,
        },
    )
    .unwrap();
    bytes
        .enqueue(
            origin.clone(),
            StorageCommand::Get {
                key: String::from("a"),
            },
        )
        .unwrap();
    let before = bytes.tracked_bytes();
    assert_eq!(
        bytes
            .enqueue(
                origin,
                StorageCommand::Get {
                    key: String::from("b"),
                },
            )
            .unwrap_err()
            .kind,
        StorageProtocolErrorKind::PendingByteLimitExceeded
    );
    assert_eq!(bytes.pending_requests(), 1);
    assert_eq!(bytes.tracked_bytes(), before);
}

#[test]
fn tests_oversized_and_opaque_requests_fail_without_tracking() {
    let process = process();
    let mut queue = StorageRequestQueue::try_new(process, storage_limits(), request_limits())
        .unwrap();
    let opaque = origin("data:text/plain,hello");
    assert_eq!(
        queue
            .enqueue(opaque, StorageCommand::Clear)
            .unwrap_err()
            .kind,
        StorageProtocolErrorKind::OpaqueOrigin
    );
    assert_eq!(queue.pending_requests(), 0);

    let exact = origin("https://example.com/");
    assert_eq!(
        queue
            .enqueue(
                exact,
                StorageCommand::Put {
                    key: String::from("key"),
                    value: vec![0; 33],
                },
            )
            .unwrap_err()
            .kind,
        StorageProtocolErrorKind::ValueTooLarge
    );
    assert_eq!(queue.pending_requests(), 0);
    assert_eq!(queue.tracked_bytes(), 0);
}

#[test]
fn tests_completed_and_cancelled_request_ids_stay_stale() {
    let process = process();
    let origin = origin("https://example.com/");
    let mut storage = StorageProcessState::try_new(process, storage_limits()).unwrap();
    let mut queue = StorageRequestQueue::try_new(process, storage_limits(), request_limits())
        .unwrap();

    let first = queue
        .enqueue(origin.clone(), StorageCommand::Clear)
        .unwrap();
    let request = queue.take_next().unwrap();
    let response = execute_storage_request(&mut storage, &request).unwrap();
    let replay = response.clone();
    queue.complete(response).unwrap();
    assert_eq!(
        queue.complete(replay).unwrap_err().kind,
        StorageProtocolErrorKind::UnknownRequest
    );

    let second = queue.enqueue(origin, StorageCommand::Clear).unwrap();
    assert_ne!(first, second);
    let request = queue.take_next().unwrap();
    let response = execute_storage_request(&mut storage, &request).unwrap();
    assert!(queue.cancel(second).unwrap());
    assert_eq!(
        queue.complete(response).unwrap_err().kind,
        StorageProtocolErrorKind::UnknownRequest
    );
    assert_eq!(queue.pending_requests(), 0);
    assert_eq!(queue.tracked_bytes(), 0);
}

#[test]
fn tests_wrong_storage_process_fails_before_state_access() {
    let process = process();
    let wrong = different_process();
    assert_ne!(process, wrong);
    let origin = origin("https://example.com/");
    let mut queue = StorageRequestQueue::try_new(process, storage_limits(), request_limits())
        .unwrap();
    queue
        .enqueue(
            origin.clone(),
            StorageCommand::Put {
                key: String::from("key"),
                value: b"value".to_vec(),
            },
        )
        .unwrap();
    let request = queue.take_next().unwrap();
    let mut wrong_storage = StorageProcessState::try_new(wrong, storage_limits()).unwrap();

    assert_eq!(
        execute_storage_request(&mut wrong_storage, &request)
            .unwrap_err()
            .kind,
        StorageProtocolErrorKind::WrongProcess
    );
    assert_eq!(wrong_storage.get(&origin, "key"), None);
    assert_eq!(queue.pending_requests(), 1);
}

#[test]
fn tests_mismatched_response_does_not_consume_pending_authority() {
    let process = process();
    let origin = origin("https://example.com/");
    let mut storage = StorageProcessState::try_new(process, storage_limits()).unwrap();
    let mut queue = StorageRequestQueue::try_new(process, storage_limits(), request_limits())
        .unwrap();
    let id = queue
        .enqueue(
            origin,
            StorageCommand::Get {
                key: String::from("key"),
            },
        )
        .unwrap();
    let request = queue.take_next().unwrap();
    let valid = execute_storage_request(&mut storage, &request).unwrap();
    let mismatched = StorageResponse {
        request: id,
        process,
        kind: StorageOperationKind::Put,
        payload: StorageResponsePayload::Written,
    };

    assert_eq!(
        queue.complete(mismatched).unwrap_err().kind,
        StorageProtocolErrorKind::ResponseMismatch
    );
    assert_eq!(queue.pending_requests(), 1);
    assert_eq!(
        queue.complete(valid).unwrap(),
        StorageResponsePayload::Value(None)
    );
    assert_eq!(queue.pending_requests(), 0);
}

#[test]
fn request_bytes_count_origin_serialization_key_and_value() {
    let mut queue =
        StorageRequestQueue::try_new(process(), storage_limits(), request_limits()).unwrap();
    let exact = origin("https://example.com/");
    let first = queue
        .enqueue(
            exact.clone(),
            StorageCommand::Put {
                key: String::from("key"),
                value: b"value".to_vec(),
            },
        )
        .unwrap();
    assert_eq!(queue.tracked_bytes(), 19 + 3 + 5);
    let second = queue.enqueue(exact.clone(), StorageCommand::Clear).unwrap();
    assert_eq!(second.get(), first.get() + 1);
    assert_eq!(queue.queued_requests(), 2);
    assert!(queue.cancel(first).unwrap());
    assert!(!queue.cancel(first).unwrap());
    assert_eq!(queue.queued_requests(), 1);
    assert_eq!(queue.take_next().unwrap().id(), second);
    assert!(queue.take_next().is_none());
    let mut small = StorageRequestQueue::try_new(
        process(),
        storage_limits(),
        StorageRequestLimits {
            max_request_bytes: 40,
            max_pending_requests: 4,
            max_pending_bytes: 192,
        },
    )
    .unwrap();
    let too_large = small
        .enqueue(
            exact,
            StorageCommand::Put {
                key: String::from("key"),
                value: vec![0; 32],
            },
        )
        .unwrap_err();
    assert_eq!(too_large.kind, StorageProtocolErrorKind::RequestTooLarge);
}

#[test]
fn invalid_request_limits_and_zero_ids_are_refused() {
    let invalid = StorageRequestLimits {
        max_request_bytes: 64,
        max_pending_requests: 0,
        max_pending_bytes: 100,
    };
    assert_eq!(
        StorageRequestQueue::try_new(process(), storage_limits(), invalid)
            .unwrap_err()
            .kind,
        StorageProtocolErrorKind::InvalidLimits
    );
    assert_eq!(
        rarog::storage_protocol::StorageRequestId::try_new(0)
            .unwrap_err()
            .kind,
        StorageProtocolErrorKind::InvalidRequestId
    );
    assert!(!different_process_equals_default());
}

fn different_process_equals_default() -> bool {
    different_process() == process()
}
