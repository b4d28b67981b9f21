use bsearch::events::Payload;
use bsearch::jss::{
    decode_block_body, decode_block_frame, for_each_block, read_header, segment_frames, BlockError, RawEvent, RowError,
    SegmentError, KIND_ACCOUNT, KIND_CREATE, KIND_CREATE_RESYNC, KIND_DELETE, KIND_IDENTITY, KIND_SYNC, KIND_UPDATE,
    MAX_BLOCK_EVENTS, MAX_BLOCK_UNCOMPRESSED, RESERVED_HEADER_BYTES,
};
use bsearch::json::Json;
use serde_json::Value;

/// Writes the columns of a block body as the segment writer does.
fn encode_block_body(events: &[RawEvent]) -> Vec<u8> {
    let mut buf = Vec::new();
    buf.extend_from_slice(&(events.len() as u32).to_le_bytes());
    for e in events {
        buf.extend_from_slice(&e.seq.to_le_bytes());
    }
    for e in events {
        buf.extend_from_slice(&(e.witnessed_at as u64).to_le_bytes());
    }
    for e in events {
        buf.extend_from_slice(&(e.indexed_at as u64).to_le_bytes());
    }
    for e in events {
        buf.push(e.kind);
    }
    for e in events {
        buf.push(e.collection.len() as u8);
    }
    for e in events {
        buf.extend_from_slice(&(e.did.len() as u16).to_le_bytes());
    }
    for e in events {
        buf.push(e.rkey.len() as u8);
    }
    for e in events {
        buf.push(e.rev.len() as u8);
    }
    for e in events {
        buf.extend_from_slice(&(e.payload.len() as u32).to_le_bytes());
    }
    for e in events {
        buf.extend_from_slice(e.collection.as_bytes());
    }
    for e in events {
        buf.extend_from_slice(e.did.as_bytes());
    }
    for e in events {
        buf.extend_from_slice(e.rkey.as_bytes());
    }
    for e in events {
        buf.extend_from_slice(e.rev.as_bytes());
    }
    for e in events {
        buf.extend_from_slice(&e.payload);
    }
    buf
}

fn compress_block(events: &[RawEvent]) -> Vec<u8> {
    zstd::bulk::compress(&encode_block_body(events), 3).expect("compress")
}

/// A minimal sealed segment file: header, blocks, and a footer stub that is
/// never read.
fn segment_bytes(frames: &[Vec<u8>]) -> Vec<u8> {
    let mut body = Vec::new();
    for frame in frames {
        body.extend_from_slice(&(frame.len() as u64).to_le_bytes());
        body.extend_from_slice(frame);
    }
    let footer_offset = RESERVED_HEADER_BYTES + body.len() as u64;
    let mut bytes = vec![0u8; 256];
    bytes[0..4].copy_from_slice(b"jss0");
    bytes[4..12].copy_from_slice(&1u64.to_le_bytes());
    bytes[12..14].copy_from_slice(&1u16.to_le_bytes());
    bytes[14..18].copy_from_slice(&(frames.len() as u32).to_le_bytes());
    bytes[58..66].copy_from_slice(&footer_offset.to_le_bytes());
    bytes.extend_from_slice(&body);
    bytes.extend_from_slice(b"footer bytes the reader must ignore");
    bytes
}

fn object(members: Vec<(&str, Value)>) -> Value {
    Value::Object(members.into_iter().map(|(k, v)| (k.to_string(), v)).collect())
}

fn sample_events() -> Vec<RawEvent> {
    let record = object(vec![
        ("$type", Value::from("app.bsky.feed.post")),
        ("text", Value::from("a segment post about ferrets")),
        ("createdAt", Value::from("2026-07-25T21:01:36.005Z")),
    ]);
    let payload = serde_ipld_dagcbor::to_vec(&record).expect("cbor");
    vec![
        RawEvent {
            seq: 100,
            witnessed_at: 1_785_009_595_019_071,
            indexed_at: 0,
            kind: KIND_CREATE,
            collection: "app.bsky.feed.post".to_string(),
            did: "did:plc:abc123".to_string(),
            rkey: "3lxyz123".to_string(),
            rev: "3mrir7qvgmk2o".to_string(),
            payload,
        },
        RawEvent {
            seq: 101,
            witnessed_at: 1_785_009_595_019_072,
            indexed_at: 0,
            kind: KIND_IDENTITY,
            collection: String::new(),
            did: "did:plc:abc123".to_string(),
            rkey: String::new(),
            rev: String::new(),
            payload: Vec::new(),
        },
        RawEvent {
            seq: 102,
            witnessed_at: 1_785_009_595_019_073,
            indexed_at: 0,
            kind: KIND_DELETE,
            collection: "app.bsky.feed.post".to_string(),
            did: "did:plc:abc123".to_string(),
            rkey: "gone".to_string(),
            rev: "3mrir7qvgmk2p".to_string(),
            payload: Vec::new(),
        },
    ]
}

fn commit_kind_row(kind: u8) -> RawEvent {
    let mut row = sample_events()[0].clone();
    row.kind = kind;
    row
}

#[test]
fn test_block_frame_round_trips() {
    let events = sample_events();
    let decoded = decode_block_frame(&compress_block(&events)).expect("decode");
    assert_eq!(decoded, events);
}

#[test]
fn test_zero_event_block_is_empty_not_an_error() {
    assert_eq!(decode_block_frame(&compress_block(&[])).expect("decode"), Vec::new());
}

#[test]
fn test_truncated_body_is_an_error() {
    let mut body = encode_block_body(&sample_events());
    body.truncate(body.len() - 10);
    let frame = zstd::bulk::compress(&body, 3).expect("compress");
    assert!(decode_block_frame(&frame).is_err());
}

#[test]
fn test_invalid_kind_is_an_error() {
    let mut events = sample_events();
    events[0].kind = 42;
    assert!(decode_block_frame(&compress_block(&events)).is_err());
}

#[test]
fn test_corrupt_frame_is_an_error() {
    let mut frame = compress_block(&sample_events());
    let mid = frame.len() / 2;
    frame[mid] ^= 0xff;
    assert!(decode_block_frame(&frame).is_err());
}

#[test]
fn test_raw_create_converts_with_record_and_cid() {
    let raw = &sample_events()[0];
    let event = raw.to_event(true).expect("convert");
    assert_eq!(event.seq, 100);
    assert_eq!(event.time_us, 1_785_009_595_019_071);
    let Payload::Commit(commit) = event.payload else {
        panic!("expected commit");
    };
    assert_eq!(commit.operation, "create");
    assert_eq!(
        commit
            .record
            .as_ref()
            .and_then(|r| r.get("text"))
            .and_then(|t| t.as_str()),
        Some("a segment post about ferrets")
    );
    assert!(commit.cid.expect("cid").starts_with("bafyrei"));
}

#[test]
fn test_raw_delete_converts_without_record() {
    let raw = &sample_events()[2];
    let event = raw.to_event(true).expect("convert");
    let Payload::Commit(commit) = event.payload else {
        panic!("expected commit");
    };
    assert_eq!(commit.operation, "delete");
    assert_eq!(commit.record, None);
    assert_eq!(commit.cid, None);
}

#[test]
fn test_indexed_at_overrides_witnessed_at() {
    let mut raw = sample_events()[0].clone();
    assert_eq!(raw.time_us(), raw.witnessed_at);
    raw.indexed_at = 42;
    assert_eq!(raw.time_us(), 42);
}

#[test]
fn test_for_each_block_walks_a_sealed_file() {
    let events = sample_events();
    let bytes = segment_bytes(&[compress_block(&events), compress_block(&events[..1])]);
    let (blocks, end) = for_each_block(&bytes);
    assert_eq!(end, None);
    let seen: Vec<usize> = blocks.iter().map(|block| block.len()).collect();
    assert_eq!(seen, vec![3, 1]);
}

#[test]
fn test_for_each_block_rejects_an_active_segment() {
    // Zero checksum marks an active file whose header is unfinalised.
    let mut bytes = vec![0u8; 256];
    bytes[0..4].copy_from_slice(b"jss0");
    assert!(for_each_block(&bytes).1.is_some());
}

#[test]
fn test_for_each_block_rejects_block_count_mismatch() {
    let events = sample_events();
    let mut bytes = segment_bytes(&[compress_block(&events)]);
    // Corrupt the promised block count.
    bytes[14..18].copy_from_slice(&9u32.to_le_bytes());
    assert!(for_each_block(&bytes).1.is_some());
}

#[test]
fn every_kind_of_damage_to_a_body_has_its_error() {
    assert_eq!(decode_block_body(&[]), Err(BlockError::Truncated { wanted: 4, left: 0 }));
    assert_eq!(decode_block_body(&[0, 0, 0, 0]), Ok(Vec::new()));
    assert_eq!(decode_block_body(&[0, 0, 0, 0, 7]), Err(BlockError::TrailingAfterEmpty));
    let many = (MAX_BLOCK_EVENTS as u32 + 1).to_le_bytes();
    assert_eq!(
        decode_block_body(&many),
        Err(BlockError::TooManyEvents { events: MAX_BLOCK_EVENTS + 1 })
    );
    assert_eq!(
        decode_block_body(&[1, 0, 0, 0]),
        Err(BlockError::TruncatedColumns { events: 1, left: 0 })
    );
    let mut extra = encode_block_body(&sample_events());
    extra.push(0);
    assert_eq!(decode_block_body(&extra), Err(BlockError::TrailingBytes { left: 1 }));
    let mut short = encode_block_body(&sample_events());
    let last = short.len() - 1;
    short.truncate(last);
    assert!(matches!(decode_block_body(&short), Err(BlockError::Truncated { .. })));
    assert_eq!(
        decode_block_body(&encode_block_body(&[commit_kind_row(42)])),
        Err(BlockError::InvalidKind { kind: 42 })
    );
    assert_eq!(
        decode_block_body(&encode_block_body(&[commit_kind_row(0)])),
        Err(BlockError::InvalidKind { kind: 0 })
    );
    let mut garbled = encode_block_body(&sample_events());
    let at = 4 + 34 * 3;
    garbled[at] = 0xff;
    assert_eq!(decode_block_body(&garbled), Err(BlockError::NotUtf8));
}

#[test]
fn every_kind_of_damage_to_a_frame_has_its_error() {
    assert_eq!(decode_block_frame(b"no frame at all"), Err(BlockError::BadFrame));
    assert_eq!(decode_block_frame(&[]), Err(BlockError::BadFrame));
    // A frame header with an eight-byte content size, and nothing behind it.
    let mut big = vec![0x28, 0xb5, 0x2f, 0xfd, 0xc0, 0x00];
    big.extend_from_slice(&(MAX_BLOCK_UNCOMPRESSED + 1).to_le_bytes());
    assert_eq!(
        decode_block_frame(&big),
        Err(BlockError::TooLarge { declared: MAX_BLOCK_UNCOMPRESSED + 1 })
    );
    // A frame header that declares no size.
    let undeclared = [0x28, 0xb5, 0x2f, 0xfd, 0x00, 0x58, 0x01, 0x00, 0x00];
    assert_eq!(decode_block_frame(&undeclared), Err(BlockError::UndeclaredSize));
    let frame = compress_block(&sample_events());
    assert_eq!(decode_block_frame(&frame[..frame.len() - 3]), Err(BlockError::Corrupt));
}

#[test]
fn every_kind_of_damage_to_a_segment_has_its_error() {
    let frame = compress_block(&sample_events());
    let good = segment_bytes(&[frame.clone(), frame.clone()]);
    assert_eq!(segment_frames(&good), (vec![frame.clone(), frame.clone()], None));
    assert_eq!(segment_frames(&good[..100]).1, Some(SegmentError::ShortHeader));

    let mut bytes = good.clone();
    bytes[0] = b'x';
    assert_eq!(segment_frames(&bytes), (vec![], Some(SegmentError::BadMagic)));

    let mut bytes = good.clone();
    bytes[4..12].copy_from_slice(&[0; 8]);
    assert_eq!(segment_frames(&bytes), (vec![], Some(SegmentError::Unsealed)));

    let mut bytes = good.clone();
    bytes[12..14].copy_from_slice(&2u16.to_le_bytes());
    assert_eq!(segment_frames(&bytes), (vec![], Some(SegmentError::UnsupportedVersion { version: 2 })));

    let mut bytes = good.clone();
    bytes[14..18].copy_from_slice(&9u32.to_le_bytes());
    assert_eq!(segment_frames(&bytes).1, Some(SegmentError::BlockCount { promised: 9, seen: 2 }));

    let mut bytes = good.clone();
    bytes[256..264].copy_from_slice(&u64::MAX.to_le_bytes());
    assert_eq!(segment_frames(&bytes), (vec![], Some(SegmentError::PastFooter { offset: 256 })));

    let cut = 256 + 8 + frame.len() + 4;
    assert_eq!(
        segment_frames(&good[..cut]),
        (vec![frame.clone()], Some(SegmentError::ShortLength { offset: 256 + 8 + frame.len() as u64 }))
    );
    let cut = 256 + 8 + frame.len() + 8 + 2;
    assert_eq!(
        segment_frames(&good[..cut]),
        (vec![frame.clone()], Some(SegmentError::ShortFrame { offset: 256 + 8 + frame.len() as u64 }))
    );

    let bad = segment_bytes(&[frame.clone(), b"no frame".to_vec()]);
    let (blocks, end) = for_each_block(&bad);
    assert_eq!(blocks, vec![sample_events()]);
    assert_eq!(end, Some(SegmentError::Block(BlockError::BadFrame)));
}

#[test]
fn a_header_is_read_field_by_field() {
    let mut header = [0u8; 256];
    header[0..4].copy_from_slice(b"jss0");
    header[4..12].copy_from_slice(&77u64.to_le_bytes());
    header[12..14].copy_from_slice(&1u16.to_le_bytes());
    header[14..18].copy_from_slice(&3u32.to_le_bytes());
    header[18..22].copy_from_slice(&500u32.to_le_bytes());
    header[58..66].copy_from_slice(&4096u64.to_le_bytes());
    let read = read_header(&header).expect("header");
    assert_eq!(read.version, 1);
    assert_eq!(read.block_count, 3);
    assert_eq!(read.event_count, 500);
    assert_eq!(read.footer_offset, 4096);
}

#[test]
fn rows_convert_by_their_kind() {
    for (kind, operation) in [(KIND_CREATE, "create"), (KIND_CREATE_RESYNC, "create"), (KIND_UPDATE, "update")] {
        let event = commit_kind_row(kind).to_event(true).expect("convert");
        let Payload::Commit(commit) = event.payload else {
            panic!("expected commit");
        };
        assert_eq!(commit.operation, operation);
        assert!(commit.record.is_some());
    }
    for (kind, payload) in [(KIND_IDENTITY, Payload::Identity), (KIND_ACCOUNT, Payload::Account), (KIND_SYNC, Payload::Sync)] {
        let event = commit_kind_row(kind).to_event(true).expect("convert");
        assert_eq!(event.payload, payload);
        assert_eq!(event.did, "did:plc:abc123");
    }
    assert_eq!(commit_kind_row(42).to_event(true), Err(RowError::UnknownKind { kind: 42 }));
}

#[test]
fn records_are_decoded_only_where_they_are_wanted() {
    let mut row = commit_kind_row(KIND_CREATE);
    row.payload = vec![0xff];
    assert_eq!(row.to_event(true), Err(RowError::UndecodableRecord));
    let event = row.to_event(false).expect("convert");
    let Payload::Commit(commit) = event.payload else {
        panic!("expected commit");
    };
    assert_eq!(commit.record, None);
    let mut row = commit_kind_row(KIND_CREATE);
    row.payload = vec![0xa1, 0x61, 0x61, 0x01];
    let event = row.to_event(true).expect("convert");
    let Payload::Commit(commit) = event.payload else {
        panic!("expected commit");
    };
    assert_eq!(commit.record, Some(Json::Object(vec![("a".to_string(), Json::Unsigned(1))])));
}

#[test]
fn a_decoded_body_is_written_again_as_it_was() {
    let body = encode_block_body(&sample_events());
    assert_eq!(encode_block_body(&decode_block_body(&body).expect("decode")), body);
}

#[test]
fn decoded_rows_have_known_kinds() {
    let rows = decode_block_body(&encode_block_body(&sample_events())).expect("decode");
    for row in &rows {
        assert!(row.to_event(false).is_ok());
    }
}
