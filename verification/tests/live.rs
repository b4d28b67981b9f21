use bsearch::events::Frame;
use bsearch::live::{next_frame, subscribe_url, Incoming, LiveParams, Message};

fn params(cursor: Option<u64>) -> LiveParams {
    LiveParams {
        hostname: "jetstream.us-east.bsky.network".to_string(),
        dids: vec!["did:plc:abc123".to_string()],
        collections: vec!["app.bsky.feed.post".to_string(), "app.bsky.feed.like".to_string()],
        cursor,
    }
}

#[test]
fn test_subscribe_url_with_seq_cursor() {
    assert_eq!(
        subscribe_url(&params(Some(42))),
        "wss://jetstream.us-east.bsky.network/xrpc/network.bsky.jetstream.subscribeEvents\
         ?dids=did%3Aplc%3Aabc123\
         &collections=app.bsky.feed.post\
         &collections=app.bsky.feed.like\
         &cursor=42"
    );
}

#[test]
fn test_subscribe_url_with_legacy_timestamp_cursor() {
    let url = subscribe_url(&params(Some(1_785_009_595_019_071)));
    assert!(url.ends_with("&cursor=1785009595019071"));
}

#[test]
fn test_subscribe_url_without_cursor_starts_at_tip() {
    let url = subscribe_url(&params(None));
    assert!(!url.contains("cursor"));
}

#[test]
fn test_subscribe_url_without_filters_has_no_query() {
    let p = LiveParams {
        hostname: "example.test".to_string(),
        dids: vec![],
        collections: vec![],
        cursor: None,
    };
    assert_eq!(
        subscribe_url(&p),
        "wss://example.test/xrpc/network.bsky.jetstream.subscribeEvents"
    );
}

#[test]
fn a_lone_cursor_is_the_whole_query() {
    let p = LiveParams { hostname: "h".to_string(), dids: vec![], collections: vec![], cursor: Some(0) };
    assert_eq!(subscribe_url(&p), "wss://h/xrpc/network.bsky.jetstream.subscribeEvents?cursor=0");
}

#[test]
fn reserved_and_wide_characters_are_escaped() {
    let p = LiveParams {
        hostname: "h".to_string(),
        dids: vec!["a b&c=\u{e9}".to_string()],
        collections: vec![],
        cursor: None,
    };
    assert_eq!(
        subscribe_url(&p),
        "wss://h/xrpc/network.bsky.jetstream.subscribeEvents?dids=a%20b%26c%3D%C3%A9"
    );
}

#[test]
fn messages_are_sorted() {
    assert!(matches!(next_frame(&Message::Ended), Some(Incoming::Closed)));
    assert!(matches!(next_frame(&Message::Close), Some(Incoming::Closed)));
    assert!(matches!(next_frame(&Message::Failed), Some(Incoming::Failed)));
    assert!(next_frame(&Message::Other).is_none());
    assert!(matches!(next_frame(&Message::Text("{".to_string())), Some(Incoming::Failed)));
    assert!(matches!(
        next_frame(&Message::Text(r#"{"$type":"heartbeat"}"#.to_string())),
        Some(Incoming::Frame(Frame::Unknown))
    ));
}
