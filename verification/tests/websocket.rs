use rarog::websocket::{
    WebSocketCloseErrorKind, WebSocketCloseIntent, WebSocketCloseLimits, WebSocketErrorKind,
    WebSocketLifecycle, WebSocketLifecycleErrorKind, WebSocketLimits, WebSocketMessage,
    WebSocketMessageKind, WebSocketProtocols, WebSocketReadyState, WebSocketSubprotocol,
    WebSocketHandshakeIntent, WebSocketTransportTicket, WebSocketUrl,
    MAX_WEBSOCKET_CLOSE_REASON_BYTES,
};
use rarog::web_url::WebUrl;

fn limits() -> WebSocketLimits {
    WebSocketLimits {
        max_url_bytes: 128,
        max_subprotocols: 3,
        max_subprotocol_bytes: 12,
        max_message_bytes: 4,
    }
}

#[test]
fn close_intent_validates_code_and_utf8_reason_before_copy() {
    let limits = WebSocketCloseLimits::default();
    let normal = WebSocketCloseIntent::try_new(Some(1000), "done", limits).unwrap();
    assert_eq!(normal.code(), Some(1000));
    assert_eq!(normal.reason(), "done");
    assert_eq!(WebSocketCloseIntent::empty().code(), None);

    assert_eq!(
        WebSocketCloseIntent::try_new(None, "reason", limits).unwrap_err().kind,
        WebSocketCloseErrorKind::ReasonRequiresCode
    );
    assert_eq!(
        WebSocketCloseIntent::try_new(Some(1001), "", limits).unwrap_err().kind,
        WebSocketCloseErrorKind::InvalidCode
    );
    assert!(WebSocketCloseIntent::try_new(Some(3000), "", limits).is_ok());
    assert!(WebSocketCloseIntent::try_new(Some(4999), "", limits).is_ok());

    let mut tiny = limits;
    tiny.max_reason_bytes = 3;
    assert_eq!(
        WebSocketCloseIntent::try_new(Some(1000), "éé", tiny).unwrap_err().kind,
        WebSocketCloseErrorKind::ReasonLimitExceeded
    );
    tiny.max_reason_bytes = MAX_WEBSOCKET_CLOSE_REASON_BYTES + 1;
    assert_eq!(
        WebSocketCloseIntent::try_new(Some(1000), "", tiny).unwrap_err().kind,
        WebSocketCloseErrorKind::InvalidLimits
    );
}

#[test]
fn lifecycle_never_revives_after_terminal_close() {
    let mut lifecycle = WebSocketLifecycle::new();
    assert_eq!(lifecycle.state(), WebSocketReadyState::Connecting);
    lifecycle.mark_open().unwrap();
    assert_eq!(lifecycle.state(), WebSocketReadyState::Open);
    lifecycle.begin_closing().unwrap();
    assert_eq!(lifecycle.state(), WebSocketReadyState::Closing);
    lifecycle.mark_closed().unwrap();
    lifecycle.mark_closed().unwrap();
    assert_eq!(lifecycle.state(), WebSocketReadyState::Closed);
    assert_eq!(
        lifecycle.mark_open().unwrap_err().kind,
        WebSocketLifecycleErrorKind::InvalidTransition
    );
    assert_eq!(
        lifecycle.begin_closing().unwrap_err().kind,
        WebSocketLifecycleErrorKind::InvalidTransition
    );

    let mut connecting = WebSocketLifecycle::new();
    connecting.begin_closing().unwrap();
    connecting.mark_closed().unwrap();
    assert_eq!(connecting.state(), WebSocketReadyState::Closed);
}

#[test]
fn subprotocols_preserve_order_and_validate_http_tokens() {
    let protocols = WebSocketProtocols::try_new(&["chat", "super.v2", "x_y"], limits()).unwrap();
    assert_eq!(
        protocols.iter().map(WebSocketSubprotocol::as_str).collect::<Vec<_>>(),
        vec!["chat", "super.v2", "x_y"]
    );

    for invalid in ["", "two words", "a,b", "ümlaut"] {
        let error = WebSocketProtocols::try_new(&[invalid], limits()).unwrap_err();
        assert_eq!(error.kind, WebSocketErrorKind::InvalidSubprotocol);
    }
}

#[test]
fn duplicate_protocols_are_rejected_case_sensitively() {
    let duplicate = WebSocketProtocols::try_new(&["chat", "chat"], limits()).unwrap_err();
    assert_eq!(duplicate.kind, WebSocketErrorKind::DuplicateSubprotocol);

    let distinct = WebSocketProtocols::try_new(&["chat", "Chat"], limits()).unwrap();
    assert_eq!(distinct.len(), 2);
}

#[test]
fn protocol_count_and_bytes_are_bounded() {
    let count = WebSocketProtocols::try_new(&["a", "b", "c", "d"], limits()).unwrap_err();
    assert_eq!(count.kind, WebSocketErrorKind::SubprotocolCountLimitExceeded);

    let bytes = WebSocketProtocols::try_new(&["this-is-longer"], limits()).unwrap_err();
    assert_eq!(bytes.kind, WebSocketErrorKind::SubprotocolBytesLimitExceeded);
}

#[test]
fn ready_state_values_match_websocket_semantics() {
    assert_eq!(WebSocketReadyState::default(), WebSocketReadyState::Connecting);
    assert_eq!(WebSocketReadyState::Connecting.as_u8(), 0);
    assert_eq!(WebSocketReadyState::Open.as_u8(), 1);
    assert_eq!(WebSocketReadyState::Closing.as_u8(), 2);
    assert_eq!(WebSocketReadyState::Closed.as_u8(), 3);
}

#[test]
fn text_messages_are_bounded_by_utf8_bytes() {
    let message = WebSocketMessage::text("éé", limits()).unwrap();
    assert_eq!(message.kind(), WebSocketMessageKind::Text);
    assert_eq!(message.len(), 4);
    assert_eq!(message.as_text(), Some("éé"));
    assert_eq!(message.as_binary(), None);

    let error = WebSocketMessage::text("ééé", limits()).unwrap_err();
    assert_eq!(error.kind, WebSocketErrorKind::MessageLimitExceeded);
}

#[test]
fn binary_messages_are_bounded_before_copy() {
    let message = WebSocketMessage::binary(&[1, 2, 3, 4], limits()).unwrap();
    assert_eq!(message.kind(), WebSocketMessageKind::Binary);
    assert_eq!(message.len(), 4);
    assert_eq!(message.as_binary(), Some(&[1, 2, 3, 4][..]));
    assert_eq!(message.as_text(), None);

    let error = WebSocketMessage::binary(&[1, 2, 3, 4, 5], limits()).unwrap_err();
    assert_eq!(error.kind, WebSocketErrorKind::MessageLimitExceeded);
}

#[test]
fn zero_limits_are_rejected_by_message_and_protocol_constructors() {
    let invalid = WebSocketLimits { max_url_bytes: 0, ..limits() };
    assert!(!invalid.is_valid());
    assert_eq!(
        WebSocketMessage::text("a", invalid).unwrap_err().kind,
        WebSocketErrorKind::InvalidLimits
    );
    assert_eq!(
        WebSocketProtocols::try_new(&["chat"], invalid).unwrap_err().kind,
        WebSocketErrorKind::InvalidLimits
    );
    assert!(WebSocketLimits::default().is_valid());
}

#[test]
fn empty_message_and_protocol_list_edges() {
    let message = WebSocketMessage::text("", limits()).unwrap();
    assert!(message.is_empty());
    let protocols = WebSocketProtocols::try_new(&[], limits()).unwrap();
    assert!(protocols.is_empty());
    assert_eq!(protocols.get(0).map(|p| p.as_str()), None);
    let protocols = WebSocketProtocols::try_new(&["a"], limits()).unwrap();
    assert_eq!(protocols.get(0).map(|p| p.as_str()), Some("a"));
    assert_eq!(WebSocketTransportTicket::new(9).get(), 9);
}

#[test]
fn constructor_schemes_normalize_to_websocket_schemes() {
    let ws = WebSocketUrl::parse("http://Example.com/chat?q=1", limits()).unwrap();
    assert_eq!(ws.as_str(), "ws://example.com/chat?q=1");
    assert!(!ws.is_secure());

    let wss = WebSocketUrl::parse("https://Example.com/chat", limits()).unwrap();
    assert_eq!(wss.as_str(), "wss://example.com/chat");
    assert!(wss.is_secure());

    assert_eq!(
        WebSocketUrl::parse("ws://example.com/", limits())
            .unwrap()
            .as_str(),
        "ws://example.com/"
    );
    assert_eq!(
        WebSocketUrl::parse("wss://example.com/", limits())
            .unwrap()
            .as_str(),
        "wss://example.com/"
    );
}

#[test]
fn invalid_scheme_and_fragment_are_rejected() {
    let scheme = WebSocketUrl::parse("ftp://example.com/socket", limits()).unwrap_err();
    assert_eq!(scheme.kind, WebSocketErrorKind::InvalidScheme);

    let fragment = WebSocketUrl::parse("wss://example.com/socket#fragment", limits()).unwrap_err();
    assert_eq!(fragment.kind, WebSocketErrorKind::FragmentNotAllowed);
}

#[test]
fn websocket_url_is_bounded_before_and_after_canonicalization() {
    let mut small = limits();
    small.max_url_bytes = 8;
    let raw = WebSocketUrl::parse("wss://example.com/", small).unwrap_err();
    assert_eq!(raw.kind, WebSocketErrorKind::UrlLimitExceeded);

    let mut canonical = limits();
    canonical.max_url_bytes = 24;
    let encoded = WebSocketUrl::parse("ws://example.com/a b c", canonical).unwrap_err();
    assert_eq!(encoded.kind, WebSocketErrorKind::UrlLimitExceeded);
}

#[test]
fn from_web_url_bounds_source_before_scheme_rewrite() {
    let source = WebUrl::parse("https://example.com/a-long-path").unwrap();
    let mut small = limits();
    small.max_url_bytes = 16;
    let error = WebSocketUrl::from_web_url(source, small).unwrap_err();
    assert_eq!(error.kind, WebSocketErrorKind::UrlLimitExceeded);
}

#[test]
fn resource_name_contains_path_and_query_but_not_fragment() {
    let url = WebSocketUrl::parse("wss://example.com/chat/room?q=one", limits()).unwrap();
    assert_eq!(url.resource_name(), "/chat/room?q=one");
}

#[test]
fn handshake_intent_owns_only_validated_semantic_data() {
    let handshake = WebSocketHandshakeIntent::try_new(
        "https://example.com/socket?room=1",
        &["chat", "super.v2"],
        limits(),
    )
    .unwrap();
    assert_eq!(handshake.url().as_str(), "wss://example.com/socket?room=1");
    assert_eq!(handshake.protocols().len(), 2);
}

#[test]
fn zero_limits_are_rejected() {
    let invalid = WebSocketLimits {
        max_url_bytes: 0,
        ..limits()
    };
    let error = WebSocketUrl::parse("ws://example.com/", invalid).unwrap_err();
    assert_eq!(error.kind, WebSocketErrorKind::InvalidLimits);
}

#[test]
fn websocket_url_edges_keep_the_root_resource_and_refuse_other_schemes() {
    let root = WebSocketUrl::parse("wss://example.com", limits()).unwrap();
    assert_eq!(root.resource_name(), "/");
    assert_eq!(root.as_web_url().as_str(), "wss://example.com/");
    let error = WebSocketUrl::parse("not a url", limits()).unwrap_err();
    assert_eq!(error.kind, WebSocketErrorKind::InvalidUrl);
    let intent = WebSocketHandshakeIntent::from_url(root.clone(), &["chat", "chat"], limits())
        .unwrap_err();
    assert_eq!(intent.kind, WebSocketErrorKind::DuplicateSubprotocol);
    let mut tight = limits();
    tight.max_url_bytes = 10;
    let long = WebSocketHandshakeIntent::from_url(root, &[], tight).unwrap_err();
    assert_eq!(long.kind, WebSocketErrorKind::UrlLimitExceeded);
}
