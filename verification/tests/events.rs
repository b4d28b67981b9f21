use bsearch::encoding::{cid_for_digest, record_cid};
use bsearch::events::{
    classify_cursor, decode_frame, parse_time_us, Frame, FrameError, Payload, StoredCursor, CURSOR_SEQ_MAX_THRESHOLD,
};
use bsearch::ipld::{ipld_to_json, record_json, Data};
use bsearch::json::Json;
use ipld_core::ipld::Ipld;
use serde_json::Value;

fn object(members: Vec<(&str, Value)>) -> Value {
    Value::Object(members.into_iter().map(|(k, v)| (k.to_string(), v)).collect())
}

/// The document of the library that holds what a `serde_json::Value` holds.
fn json(value: &Value) -> Json {
    match value {
        Value::Null => Json::Null,
        Value::Bool(b) => Json::Bool(*b),
        Value::Number(n) => {
            if let Some(u) = n.as_u64() {
                Json::Unsigned(u)
            } else if let Some(i) = n.as_i64() {
                Json::Negative(i)
            } else {
                Json::Float { bits: n.as_f64().unwrap().to_bits() }
            }
        }
        Value::String(s) => Json::String(s.clone()),
        Value::Array(items) => Json::Array(items.iter().map(json).collect()),
        Value::Object(fields) => Json::Object(fields.iter().map(|(k, v)| (k.clone(), json(v))).collect()),
    }
}

#[test]
fn test_classify_cursor_boundaries() {
    assert_eq!(classify_cursor(0), StoredCursor::Sequence(0));
    assert_eq!(classify_cursor(123_456), StoredCursor::Sequence(123_456));
    assert_eq!(
        classify_cursor(CURSOR_SEQ_MAX_THRESHOLD - 1),
        StoredCursor::Sequence((CURSOR_SEQ_MAX_THRESHOLD - 1) as u64)
    );
    assert_eq!(
        classify_cursor(CURSOR_SEQ_MAX_THRESHOLD),
        StoredCursor::LegacyTimeUs(CURSOR_SEQ_MAX_THRESHOLD)
    );
    assert_eq!(
        classify_cursor(1_785_009_595_019_071),
        StoredCursor::LegacyTimeUs(1_785_009_595_019_071)
    );
}

#[test]
fn test_decode_commit_frame() {
    let text = r#"{
      "$type": "message",
      "payload": {
        "$type": "network.bsky.jetstream.subscribeEvents#commit",
        "seq": 12345,
        "did": "did:plc:eygmaihciaxprqvxpfvl6flk",
        "time": "2024-09-09T19:46:02.329308Z",
        "rev": "3l3qo2vutsw2b",
        "operation": "create",
        "collection": "app.bsky.feed.like",
        "rkey": "3l3qo2vuowo2b",
        "cid": "bafyreidwaivazkwu67xztlmuobx35hs2lnfh3kolmgfmucldvhd3sgzcqi",
        "record": { "$type": "app.bsky.feed.like" }
      }
    }"#;
    let Frame::Event(event) = decode_frame(text).expect("decode") else {
        panic!("expected an event frame");
    };
    assert_eq!(event.seq, 12345);
    assert_eq!(event.did, "did:plc:eygmaihciaxprqvxpfvl6flk");
    assert_eq!(event.time_us, 1_725_911_162_329_308);
    let Payload::Commit(commit) = event.payload else {
        panic!("expected a commit payload");
    };
    assert_eq!(commit.operation, "create");
    assert_eq!(commit.collection, "app.bsky.feed.like");
    assert_eq!(commit.rkey, "3l3qo2vuowo2b");
    assert_eq!(commit.rev, "3l3qo2vutsw2b");
    assert!(commit.record.is_some());
    assert!(commit.cid.is_some());
}

#[test]
fn test_decode_delete_commit_without_record_or_cid() {
    let text = r#"{"$type":"message","payload":{
        "$type":"network.bsky.jetstream.subscribeEvents#commit",
        "seq":7,"did":"did:plc:abc","time":"2026-01-01T00:00:00.000000Z",
        "rev":"3abc","operation":"delete",
        "collection":"app.bsky.feed.post","rkey":"gone"}}"#;
    let Frame::Event(event) = decode_frame(text).expect("decode") else {
        panic!("expected an event frame");
    };
    let Payload::Commit(commit) = event.payload else {
        panic!("expected a commit payload");
    };
    assert_eq!(commit.operation, "delete");
    assert_eq!(commit.record, None);
    assert_eq!(commit.cid, None);
}

#[test]
fn test_decode_identity_frame_ignores_wrapped_upstream_event() {
    let text = r#"{"$type":"message","payload":{
        "$type":"network.bsky.jetstream.subscribeEvents#identity",
        "seq":99,"did":"did:plc:abc","time":"2026-01-01T00:00:00.000000Z",
        "identity":{"seq":1,"did":"did:plc:abc","handle":"a.example",
                    "time":"2020-01-01T00:00:00.000Z"}}}"#;
    let Frame::Event(event) = decode_frame(text).expect("decode") else {
        panic!("expected an event frame");
    };
    assert_eq!(event.seq, 99);
    assert_eq!(event.payload, Payload::Identity);
}

#[test]
fn test_decode_info_frame() {
    let text = r#"{"$type":"message","payload":{
        "$type":"network.bsky.jetstream.subscribeEvents#info",
        "name":"OutdatedCursor","message":"resumed from seq 42"}}"#;
    assert_eq!(
        decode_frame(text).expect("decode"),
        Frame::Info {
            name: "OutdatedCursor".to_string(),
            message: Some("resumed from seq 42".to_string()),
        }
    );
}

#[test]
fn test_decode_error_frame() {
    let text = r#"{"$type":"error","error":"ConsumerTooSlow","message":"too slow"}"#;
    assert_eq!(
        decode_frame(text).expect("decode"),
        Frame::Error {
            error: "ConsumerTooSlow".to_string(),
            message: Some("too slow".to_string()),
        }
    );
}

#[test]
fn test_unknown_types_are_skipped_not_errors() {
    let unknown_payload = r#"{"$type":"message","payload":{
        "$type":"network.bsky.jetstream.subscribeEvents#brandnew","seq":1}}"#;
    assert_eq!(decode_frame(unknown_payload).expect("decode"), Frame::Unknown);
    let unknown_envelope = r#"{"$type":"heartbeat"}"#;
    assert_eq!(decode_frame(unknown_envelope).expect("decode"), Frame::Unknown);
}

#[test]
fn test_record_json_round_trips_a_post_record() {
    let record = object(vec![
        ("$type", Value::from("app.bsky.feed.post")),
        ("text", Value::from("a post about ferrets")),
        ("createdAt", Value::from("2026-07-25T21:01:36.005Z")),
        ("langs", Value::Array(vec![Value::from("en")])),
    ]);
    let ipld: Ipld = ipld_core::serde::from_ipld::<Ipld>(
        serde_ipld_dagcbor::from_slice(&serde_ipld_dagcbor::to_vec(&record).expect("encode")).expect("decode"),
    )
    .expect("ipld");
    let bytes = serde_ipld_dagcbor::to_vec(&ipld).expect("re-encode");
    assert_eq!(record_json(&bytes).expect("record_json"), json(&record));
}

#[test]
fn test_record_cid_shape_and_determinism() {
    let bytes = serde_ipld_dagcbor::to_vec(&object(vec![("text", Value::from("hi"))])).expect("cbor");
    let cid = record_cid(&bytes);
    assert!(cid.starts_with("bafyrei"), "unexpected cid {cid}");
    assert_eq!(cid, record_cid(&bytes));
    let other = serde_ipld_dagcbor::to_vec(&object(vec![("text", Value::from("bye"))])).expect("cbor");
    assert_ne!(cid, record_cid(&other));
}

#[test]
fn large_cursors_are_timestamps() {
    assert_eq!(classify_cursor(CURSOR_SEQ_MAX_THRESHOLD + 1), StoredCursor::LegacyTimeUs(1_000_000_000_000_001));
    assert_eq!(classify_cursor(i64::MAX), StoredCursor::LegacyTimeUs(i64::MAX));
}

#[test]
fn misshapen_frames_are_told_apart() {
    assert_eq!(decode_frame("not json"), Err(FrameError::Undecodable));
    assert_eq!(decode_frame("[1,2"), Err(FrameError::Undecodable));
    assert_eq!(decode_frame(r#"{"seq":1}"#), Err(FrameError::Undecodable));
    assert_eq!(decode_frame(r#"{"$type":"message"}"#), Err(FrameError::NoPayload));
    assert_eq!(
        decode_frame(r#"{"$type":"message","payload":{"$type":"network.bsky.jetstream.subscribeEvents#info"}}"#),
        Err(FrameError::BadInfo)
    );
    assert_eq!(
        decode_frame(
            r#"{"$type":"message","payload":{"$type":"network.bsky.jetstream.subscribeEvents#sync","did":"d"}}"#
        ),
        Err(FrameError::BadEvent)
    );
    assert_eq!(
        decode_frame(
            r#"{"$type":"message","payload":{"$type":"network.bsky.jetstream.subscribeEvents#sync","seq":-1,"did":"d","time":"2026-01-01T00:00:00Z"}}"#
        ),
        Err(FrameError::BadEvent)
    );
}

#[test]
fn account_and_sync_frames_are_events() {
    for (suffix, payload) in [("account", Payload::Account), ("sync", Payload::Sync)] {
        let text = format!(
            "{{\"$type\":\"message\",\"payload\":{{\"$type\":\"network.bsky.jetstream.subscribeEvents#{suffix}\",\"seq\":5,\"did\":\"did:plc:abc\",\"time\":\"garbled\"}}}}"
        );
        let Ok(Frame::Event(event)) = decode_frame(&text) else {
            panic!("expected an event frame");
        };
        assert_eq!(event.payload, payload);
        assert_eq!(event.time_us, 0);
    }
}

#[test]
fn times_are_microseconds_since_the_epoch() {
    assert_eq!(parse_time_us("1970-01-01T00:00:01.000002Z"), 1_000_002);
    assert_eq!(parse_time_us("1970-01-01T01:00:00+01:00"), 0);
    assert_eq!(parse_time_us("1969-12-31T23:59:59.999999Z"), -1);
    assert_eq!(parse_time_us("yesterday"), 0);
}

#[test]
fn record_cid_of_known_bytes() {
    // The empty map, whose address is widely known.
    assert_eq!(
        record_cid(&[0xa0]),
        "bafyreigbtj4x7ip5legnfznufuopl4sg4knzc2cof6duas4b3q2fy6swua"
    );
}

#[test]
fn a_digest_is_framed_as_a_content_address() {
    let digest = [0u8; 32];
    assert_eq!(
        cid_for_digest(&digest),
        format!("bafyrei{}", "a".repeat(52))
    );
}

#[test]
fn bytes_and_links_become_tagged_objects() {
    let bytes = ipld_to_json(&Data::Bytes(vec![0xff, 0xfe, 0xfd, 0xfc]));
    assert_eq!(
        bytes,
        Json::Object(vec![("$bytes".to_string(), Json::String("//79/A".to_string()))])
    );
    let link = ipld_to_json(&Data::Link("bafyabc".to_string()));
    assert_eq!(
        link,
        Json::Object(vec![("$link".to_string(), Json::String("bafyabc".to_string()))])
    );
}

#[test]
fn scalars_and_lists_keep_their_values() {
    assert_eq!(ipld_to_json(&Data::Integer(-5)), Json::Negative(-5));
    assert_eq!(ipld_to_json(&Data::Integer(18_446_744_073_709_551_615)), Json::Negative(-1));
    assert_eq!(
        ipld_to_json(&Data::List(vec![Data::Null, Data::Bool(true), Data::Integer(7)])),
        Json::Array(vec![Json::Null, Json::Bool(true), Json::Unsigned(7)])
    );
    assert_eq!(
        ipld_to_json(&Data::Float { bits: 1.5f64.to_bits() }),
        Json::Float { bits: 1.5f64.to_bits() }
    );
}

#[test]
fn undecodable_records_are_none() {
    assert_eq!(record_json(&[0xff, 0x00]), None);
    assert_eq!(record_json(&[]), None);
}

#[test]
fn a_known_member_stands_once() {
    assert_eq!(decode_frame(r#"{"$type":"error","$type":"error"}"#), Err(FrameError::Undecodable));
    assert_eq!(decode_frame(r#"{"$type":"error","error":"a","error":"a"}"#), Err(FrameError::Undecodable));
    // The same name, spelled differently.
    assert_eq!(decode_frame(r#"{"$type":"error","\u0065rror":"a","error":"b"}"#), Err(FrameError::Undecodable));
    assert_eq!(
        decode_frame(r#"{"$type":"error","\u0065rror":"a"}"#),
        Ok(Frame::Error { error: "a".to_string(), message: None })
    );
    // What is not known may stand there as often as it likes.
    assert_eq!(decode_frame(r#"{"x":1,"$type":"later","x":2}"#), Ok(Frame::Unknown));
    // Within the payload the last member counts.
    let text = r#"{"$type":"message","payload":{"$type":"a","$type":"b"}}"#;
    assert_eq!(decode_frame(text), Ok(Frame::Unknown));
}

#[test]
fn unknown_members_are_passed_over_unread() {
    let deep = format!("{}{}", "[".repeat(500), "]".repeat(500));
    for ignored in ["1e999", "-1e999", deep.as_str(), r#""\ud800""#, "[{}, {\"a\" : null}]"] {
        let text = format!(r#"{{"x":{ignored},"$type":"error","error":"e"}}"#);
        assert_eq!(
            decode_frame(&text),
            Ok(Frame::Error { error: "e".to_string(), message: None }),
            "{ignored}"
        );
        let known = format!(r#"{{"$type":"message","payload":{ignored}}}"#);
        if ignored.starts_with("[{") {
            assert_eq!(decode_frame(&known), Ok(Frame::Unknown));
        } else {
            assert_eq!(decode_frame(&known), Err(FrameError::Undecodable), "{ignored}");
        }
    }
    // Even what is passed over has to be a value.
    assert_eq!(decode_frame(r#"{"x":tru,"$type":"error"}"#), Err(FrameError::Undecodable));
    assert_eq!(decode_frame(r#"{"x":01,"$type":"error"}"#), Err(FrameError::Undecodable));
}

#[test]
fn nesting_counts_the_frame_around_it() {
    let frame = |levels: usize| {
        format!(r#"{{"$type":"message","payload":{}{}}}"#, "[".repeat(levels), "]".repeat(levels))
    };
    assert_eq!(decode_frame(&frame(126)), Ok(Frame::Unknown));
    assert_eq!(decode_frame(&frame(127)), Err(FrameError::Undecodable));
}

#[test]
fn frames_are_objects_or_lists_and_nothing_else() {
    let error = Frame::Error { error: "e".to_string(), message: Some("m".to_string()) };
    assert_eq!(decode_frame(r#" { "error" : "e" , "message":"m",  "$type"  :"error"} "#), Ok(error));
    let error = Frame::Error { error: "e".to_string(), message: None };
    assert_eq!(decode_frame(r#"["error", null, "e", null]"#), Ok(error));
    for text in [
        "", " ", "null", "\"error\"", "{", "{}x", "[]", "{\"$type\":\"error\",}", "{,\"$type\":\"error\"}",
        "{\"$type\" \"error\"}", "{$type:\"error\"}", "{\"$type\":\"error\"", "{\"$type\":\"error\"}}",
        "{\"$type\":\"error\" \"x\":1}", "[\"error\",null,null]", "[\"error\",null,null,null,null]",
        "[\"error\",null,null,null,]", "{\"$type\":1}", "{\"\\ud800\":1,\"$type\":\"error\"}",
    ] {
        assert_eq!(decode_frame(text), Err(FrameError::Undecodable), "{text}");
    }
}
