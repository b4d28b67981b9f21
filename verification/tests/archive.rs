use bsearch::archive::{
    answer_segment, check, decode_plan, etag_name, method_url, next_delay, part_name, range_from, request_document,
    start_segment, ArchiveError, BlockRange, SegmentAnswer, SegmentStart, SnapshotPlan, SnapshotRequest,
};
use bsearch::json::Json;

fn text(s: &str) -> Json {
    Json::String(s.to_string())
}

fn member(name: &str, value: Json) -> (String, Json) {
    (name.to_string(), value)
}

#[test]
fn test_plan_deserialises_both_modes() {
    let json = r#"{
      "plannedThroughSeq": 900,
      "sealedTipSeq": 900,
      "segments": [
        {"name": "seg_0000000001.jss", "index": 1,
         "checksum": "0123456789abcdef", "minSeq": 1, "maxSeq": 500,
         "mode": "segment"},
        {"name": "seg_0000000002.jss", "index": 2,
         "checksum": "fedcba9876543210", "minSeq": 501, "maxSeq": 900,
         "mode": "blocks", "blocks": [{"first": 3, "last": 4}, {"first": 9, "last": 9}]}
      ],
      "stats": {"segmentsExamined": 40, "segmentsMatched": 2,
                "blocksMatched": 3, "entries": 2}
    }"#;
    let plan: SnapshotPlan = decode_plan(json).expect("deserialise");
    assert_eq!(plan.planned_through_seq, 900);
    assert_eq!(plan.sealed_tip_seq, 900);
    assert_eq!(plan.segments.len(), 2);
    assert_eq!(plan.segments[0].mode, "segment");
    assert!(plan.segments[0].blocks.is_empty());
    assert_eq!(plan.segments[1].mode, "blocks");
    assert_eq!(
        plan.segments[1].blocks,
        vec![BlockRange { first: 3, last: 4 }, BlockRange { first: 9, last: 9 }]
    );
    assert_eq!(plan.stats.segments_examined, 40);
}

#[test]
fn test_request_serialises_with_lexicon_field_names() {
    let req = SnapshotRequest {
        dids: vec!["did:plc:abc".to_string()],
        collections: vec!["app.bsky.feed.post".to_string()],
        after_seq: 0,
        before_seq: None,
    };
    assert_eq!(
        request_document(&req),
        Json::Object(vec![
            member("dids", Json::Array(vec![text("did:plc:abc")])),
            member("collections", Json::Array(vec![text("app.bsky.feed.post")])),
            member("afterSeq", Json::Unsigned(0)),
        ])
    );
}

#[test]
fn test_request_pins_before_seq_on_later_pages() {
    let req = SnapshotRequest { dids: vec![], collections: vec![], after_seq: 900, before_seq: Some(1_000) };
    assert_eq!(
        request_document(&req),
        Json::Object(vec![
            member("afterSeq", Json::Unsigned(900)),
            member("beforeSeq", Json::Unsigned(1000)),
        ])
    );
}

#[test]
fn test_next_delay_doubles_to_a_minute() {
    assert_eq!(next_delay(0), 1);
    assert_eq!(next_delay(1), 2);
    assert_eq!(next_delay(5), 32);
    assert_eq!(next_delay(6), 60);
    assert_eq!(next_delay(60), 60);
}

#[test]
fn test_range_from_spool_length() {
    assert_eq!(range_from(0), None);
    assert_eq!(range_from(1024), Some("bytes=1024-".to_string()));
}

#[test]
fn delays_never_shrink() {
    for attempt in 0..70 {
        assert!(next_delay(attempt) <= next_delay(attempt + 1));
        assert!(1 <= next_delay(attempt) && next_delay(attempt) <= 60);
    }
    assert_eq!(next_delay(u32::MAX), 60);
}

#[test]
fn plans_with_missing_members_are_refused() {
    assert!(decode_plan("").is_none());
    assert!(decode_plan("{}").is_none());
    assert!(decode_plan(r#"{"plannedThroughSeq":1,"sealedTipSeq":2,"segments":[]}"#).is_none());
    let stats = r#""stats":{"segmentsExamined":0,"segmentsMatched":0,"blocksMatched":0,"entries":0}"#;
    let negative = format!("{{\"plannedThroughSeq\":-1,\"sealedTipSeq\":2,\"segments\":[],{stats}}}");
    assert!(decode_plan(&negative).is_none());
    let good = format!("{{\"plannedThroughSeq\":1,\"sealedTipSeq\":2,\"segments\":[],{stats},\"extra\":null}}");
    assert_eq!(decode_plan(&good).expect("plan").sealed_tip_seq, 2);
    let unit = format!(
        "{{\"plannedThroughSeq\":1,\"sealedTipSeq\":2,\"segments\":[{{\"name\":\"a\"}}],{stats}}}"
    );
    assert!(decode_plan(&unit).is_none());
}

#[test]
fn methods_have_addresses() {
    assert_eq!(
        method_url("jetstream.example", "planSnapshot"),
        "https://jetstream.example/xrpc/network.bsky.jetstream.planSnapshot"
    );
}

#[test]
fn statuses_map_to_errors() {
    assert_eq!(check(200, None, "ok".to_string()), Ok(()));
    assert_eq!(check(206, None, String::new()), Ok(()));
    assert_eq!(
        check(401, None, "bad key".to_string()),
        Err(ArchiveError::Unauthorized("bad key".to_string()))
    );
    assert_eq!(
        check(429, Some("30"), "slow".to_string()),
        Err(ArchiveError::RateLimited { retry_after: Some(30) })
    );
    assert_eq!(
        check(429, Some("soon"), String::new()),
        Err(ArchiveError::RateLimited { retry_after: None })
    );
    assert_eq!(check(429, None, String::new()), Err(ArchiveError::RateLimited { retry_after: None }));
    assert_eq!(
        check(503, Some("30"), "down".to_string()),
        Err(ArchiveError::Http { status: 503, body: "down".to_string() })
    );
}

#[test]
fn a_download_is_taken_up_where_it_stopped() {
    assert_eq!(part_name("seg.jss"), "seg.jss.part");
    assert_eq!(etag_name("seg.jss"), "seg.jss.etag");
    assert_eq!(start_segment(true, 10, Some("\"x\"")), SegmentStart::Spooled);
    assert_eq!(
        start_segment(false, 0, Some("\"x\"")),
        SegmentStart::Request { range: None, if_range: None }
    );
    assert_eq!(
        start_segment(false, 10, Some(" \"x\"\n")),
        SegmentStart::Request { range: Some("bytes=10-".to_string()), if_range: Some("\"x\"".to_string()) }
    );
    assert_eq!(
        start_segment(false, 10, None),
        SegmentStart::Request { range: Some("bytes=10-".to_string()), if_range: None }
    );
}

#[test]
fn an_answer_says_where_the_body_goes() {
    assert_eq!(answer_segment(10, 416, None, String::new()), Ok(SegmentAnswer::Complete));
    assert_eq!(
        answer_segment(0, 416, None, "range".to_string()),
        Err(ArchiveError::Http { status: 416, body: "range".to_string() })
    );
    assert_eq!(answer_segment(10, 206, None, String::new()), Ok(SegmentAnswer::Download { resumed: true }));
    assert_eq!(answer_segment(10, 200, None, String::new()), Ok(SegmentAnswer::Download { resumed: false }));
    assert_eq!(
        answer_segment(10, 429, Some("7"), String::new()),
        Err(ArchiveError::RateLimited { retry_after: Some(7) })
    );
}

#[test]
fn plans_name_each_field_once() {
    let stats = r#"{"segmentsExamined":1,"segmentsMatched":1,"blocksMatched":1,"entries":1}"#;
    let unit = r#"{"name":"s","index":0,"checksum":"c","minSeq":1,"maxSeq":9,"mode":"blocks","blocks":[{"first":1,"last":2}]}"#;
    let plan = |units: &str, stats: &str, more: &str| {
        format!(r#"{{"plannedThroughSeq":7,"sealedTipSeq":9,"segments":[{units}],"stats":{stats}{more}}}"#)
    };
    let good = decode_plan(&plan(unit, stats, "")).expect("plan");
    assert_eq!(good.segments[0].blocks, vec![BlockRange { first: 1, last: 2 }]);
    // Unknown members are passed over, at every level.
    let strange = unit.replace("\"index\"", "\"x\":1e999,\"x\":[[]],\"index\"");
    let counted = stats.replace("\"entries\"", "\"y\":-1e999,\"entries\"");
    assert_eq!(decode_plan(&plan(&strange, &counted, ",\"z\":1e999")).expect("plan").segments.len(), 1);
    // Known ones stand once, at every level.
    assert!(decode_plan(&plan(unit, stats, ",\"sealedTipSeq\":9")).is_none());
    assert!(decode_plan(&plan(&unit.replace("\"mode\"", "\"name\":\"s\",\"mode\""), stats, "")).is_none());
    assert!(decode_plan(&plan(&unit.replace("\"last\"", "\"first\":1,\"last\""), stats, "")).is_none());
    assert!(decode_plan(&plan(unit, &stats.replace("\"entries\"", "\"entries\":1,\"entries\""), "")).is_none());
    // The block ranges may be left out, but not be null.
    let bare = unit.replace(",\"blocks\":[{\"first\":1,\"last\":2}]", "");
    assert!(decode_plan(&plan(&bare, stats, "")).expect("plan").segments[0].blocks.is_empty());
    assert!(decode_plan(&plan(&unit.replace("[{\"first\":1,\"last\":2}]", "null"), stats, "")).is_none());
    // Records may be lists of their fields.
    let rows = r#"["s",0,"c",1,9,"blocks",[[1,2]]],["t",1,"d",1,9,"segment"]"#;
    let listed = decode_plan(&plan(rows, "[1,2,3,4]", "")).expect("plan");
    assert_eq!(listed.segments[0].blocks, vec![BlockRange { first: 1, last: 2 }]);
    assert_eq!(listed.segments[1].name, "t");
    assert_eq!(listed.stats.entries, 4);
}
