use rarog::websocket::{WebSocketLimits, WebSocketMessage};
use rarog::websocket_queue::{
    WebSocketMessageQueues, WebSocketQueueErrorKind, WebSocketQueueLimits, WebSocketQueueSnapshot,
};

fn message(text: &str) -> WebSocketMessage {
    WebSocketMessage::text(text, WebSocketLimits::default()).unwrap()
}

fn limits() -> WebSocketQueueLimits {
    WebSocketQueueLimits {
        max_outbound_messages: 2,
        max_outbound_bytes: 5,
        max_inbound_messages: 2,
        max_inbound_bytes: 5,
    }
}

#[test]
fn queue_invalid_limits_are_rejected() {
    let mut invalid = limits();
    invalid.max_inbound_bytes = 0;
    assert_eq!(
        WebSocketMessageQueues::try_new(invalid).unwrap_err().kind,
        WebSocketQueueErrorKind::InvalidLimits
    );
}

#[test]
fn outbound_queue_is_fifo_and_recovers_exact_capacity() {
    let mut queues = WebSocketMessageQueues::try_new(limits()).unwrap();
    queues.enqueue_outbound(message("ab")).unwrap();
    queues.enqueue_outbound(message("cde")).unwrap();
    assert_eq!(queues.snapshot().outbound_messages(), 2);
    assert_eq!(queues.snapshot().outbound_bytes(), 5);
    assert_eq!(queues.outbound_front().unwrap().as_text(), Some("ab"));
    assert_eq!(
        queues.enqueue_outbound(message("x")).unwrap_err().kind,
        WebSocketQueueErrorKind::OutboundMessageLimitExceeded
    );
    assert_eq!(queues.complete_outbound().unwrap().unwrap().as_text(), Some("ab"));
    assert_eq!(queues.snapshot().outbound_bytes(), 3);
    queues.enqueue_outbound(message("xy")).unwrap();
    assert_eq!(queues.snapshot().outbound_bytes(), 5);
}

#[test]
fn outbound_byte_rejection_does_not_mutate_accounting() {
    let mut queues = WebSocketMessageQueues::try_new(limits()).unwrap();
    queues.enqueue_outbound(message("abcd")).unwrap();
    assert_eq!(
        queues.enqueue_outbound(message("xy")).unwrap_err().kind,
        WebSocketQueueErrorKind::OutboundByteLimitExceeded
    );
    assert_eq!(queues.snapshot().outbound_messages(), 1);
    assert_eq!(queues.snapshot().outbound_bytes(), 4);
    assert_eq!(queues.outbound_front().unwrap().as_text(), Some("abcd"));
}

#[test]
fn inbound_queue_is_fifo_and_exposes_remaining_receive_bound() {
    let mut queues = WebSocketMessageQueues::try_new(limits()).unwrap();
    assert_eq!(queues.inbound_receive_limit().unwrap(), Some(5));
    queues.enqueue_inbound(message("abc")).unwrap();
    assert_eq!(queues.inbound_receive_limit().unwrap(), Some(2));
    queues.enqueue_inbound(message("de")).unwrap();
    assert_eq!(queues.inbound_receive_limit().unwrap(), None);
    assert_eq!(queues.snapshot().inbound_messages(), 2);
    assert_eq!(queues.snapshot().inbound_bytes(), 5);
    assert_eq!(queues.take_inbound().unwrap().unwrap().as_text(), Some("abc"));
    assert_eq!(queues.inbound_receive_limit().unwrap(), Some(3));
}

#[test]
fn byte_full_inbound_queue_can_still_accept_empty_message_when_count_allows() {
    let mut custom = limits();
    custom.max_inbound_messages = 2;
    custom.max_inbound_bytes = 1;
    let mut queues = WebSocketMessageQueues::try_new(custom).unwrap();
    queues.enqueue_inbound(message("x")).unwrap();
    assert_eq!(queues.inbound_receive_limit().unwrap(), Some(0));
    queues.enqueue_inbound(message("")).unwrap();
    assert_eq!(queues.snapshot().inbound_messages(), 2);
    assert_eq!(queues.snapshot().inbound_bytes(), 1);
    assert_eq!(queues.inbound_receive_limit().unwrap(), None);
}

#[test]
fn inbound_byte_rejection_does_not_mutate_accounting() {
    let mut queues = WebSocketMessageQueues::try_new(limits()).unwrap();
    queues.enqueue_inbound(message("abcd")).unwrap();
    assert_eq!(
        queues.enqueue_inbound(message("xy")).unwrap_err().kind,
        WebSocketQueueErrorKind::InboundByteLimitExceeded
    );
    assert_eq!(queues.snapshot().inbound_messages(), 1);
    assert_eq!(queues.snapshot().inbound_bytes(), 4);
}

#[test]
fn clear_releases_both_direction_budgets() {
    let mut queues = WebSocketMessageQueues::try_new(limits()).unwrap();
    queues.enqueue_outbound(message("abc")).unwrap();
    queues.enqueue_inbound(message("de")).unwrap();
    queues.clear();
    assert_eq!(queues.snapshot(), WebSocketQueueSnapshot::default());
    assert_eq!(queues.inbound_receive_limit().unwrap(), Some(5));
    queues.enqueue_outbound(message("12345")).unwrap();
    queues.enqueue_inbound(message("12345")).unwrap();
}

#[test]
fn empty_queues_complete_and_take_nothing_and_default_limits_are_valid() {
    let mut queues = WebSocketMessageQueues::default();
    assert!(queues.complete_outbound().unwrap().is_none());
    assert!(queues.take_inbound().unwrap().is_none());
    assert!(queues.outbound_front().is_none());
    assert_eq!(queues.limits(), WebSocketQueueLimits::default());
    assert!(queues.limits().is_valid());
    assert_eq!(queues.inbound_receive_limit().unwrap(), Some(4 * 1024 * 1024));
}

#[test]
fn inbound_message_count_limit_is_enforced() {
    let mut queues = WebSocketMessageQueues::try_new(limits()).unwrap();
    queues.enqueue_inbound(message("a")).unwrap();
    queues.enqueue_inbound(message("b")).unwrap();
    assert_eq!(
        queues.enqueue_inbound(message("c")).unwrap_err().kind,
        WebSocketQueueErrorKind::InboundMessageLimitExceeded
    );
}
