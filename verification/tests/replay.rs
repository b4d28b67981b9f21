use bsearch::archive::{ArchiveError, BlockRange, PlanSegment, PlanStats, SnapshotPlan, SnapshotRequest};
use bsearch::events::Event;
use bsearch::jss::{RawEvent, KIND_CREATE, KIND_IDENTITY, RESERVED_HEADER_BYTES};
use bsearch::replay::{
    segment_vanished, unknown_mode_text, Action, Replay, ReplayError, ReplayFilters, ReplayOutcome, Reply,
};
use serde_json::Value;
use std::collections::HashMap;

/// Writes the columns of a block body as the segment writer does.
fn encode_block_body(events: &[RawEvent]) -> Vec<u8> {
    let mut buf = Vec::new();
    buf.extend_from_slice(&(events.len() as u32).to_le_bytes());
    for e in events {
        buf.extend_from_slice(&e.seq.to_le_bytes());
    }
    for e in events {
        buf.extend_from_slice(&(e.witnessed_at as u64).to_le_bytes());
    }
    for e in events {
        buf.extend_from_slice(&(e.indexed_at as u64).to_le_bytes());
    }
    for e in events {
        buf.push(e.kind);
    }
    for e in events {
        buf.push(e.collection.len() as u8);
    }
    for e in events {
        buf.extend_from_slice(&(e.did.len() as u16).to_le_bytes());
    }
    for e in events {
        buf.push(e.rkey.len() as u8);
    }
    for e in events {
        buf.push(e.rev.len() as u8);
    }
    for e in events {
        buf.extend_from_slice(&(e.payload.len() as u32).to_le_bytes());
    }
    for e in events {
        buf.extend_from_slice(e.collection.as_bytes());
    }
    for e in events {
        buf.extend_from_slice(e.did.as_bytes());
    }
    for e in events {
        buf.extend_from_slice(e.rkey.as_bytes());
    }
    for e in events {
        buf.extend_from_slice(e.rev.as_bytes());
    }
    for e in events {
        buf.extend_from_slice(&e.payload);
    }
    buf
}

fn compress_block(events: &[RawEvent]) -> Vec<u8> {
    zstd::bulk::compress(&encode_block_body(events), 3).expect("compress")
}

/// A minimal sealed segment file: header, blocks, and a footer stub that is
/// never read.
fn segment_bytes(frames: &[Vec<u8>]) -> Vec<u8> {
    let mut body = Vec::new();
    for frame in frames {
        body.extend_from_slice(&(frame.len() as u64).to_le_bytes());
        body.extend_from_slice(frame);
    }
    let footer_offset = RESERVED_HEADER_BYTES + body.len() as u64;
    let mut bytes = vec![0u8; 256];
    bytes[0..4].copy_from_slice(b"jss0");
    bytes[4..12].copy_from_slice(&1u64.to_le_bytes());
    bytes[12..14].copy_from_slice(&1u16.to_le_bytes());
    bytes[14..18].copy_from_slice(&(frames.len() as u32).to_le_bytes());
    bytes[58..66].copy_from_slice(&footer_offset.to_le_bytes());
    bytes.extend_from_slice(&body);
    bytes.extend_from_slice(b"footer bytes the reader must ignore");
    bytes
}

fn object(members: Vec<(&str, Value)>) -> Value {
    Value::Object(members.into_iter().map(|(k, v)| (k.to_string(), v)).collect())
}

const DID: &str = "did:plc:me";

fn filters() -> ReplayFilters {
    ReplayFilters {
        did: DID.to_string(),
        collections: vec!["app.bsky.feed.post".to_string(), "app.bsky.feed.like".to_string()],
    }
}

fn post_row(seq: u64, did: &str) -> RawEvent {
    let record = object(vec![
        ("$type", Value::from("app.bsky.feed.post")),
        ("text", Value::from(format!("post {seq}"))),
        ("createdAt", Value::from("2026-07-25T21:01:36.005Z")),
    ]);
    RawEvent {
        seq,
        witnessed_at: 1_785_000_000_000_000 + seq as i64,
        indexed_at: 0,
        kind: KIND_CREATE,
        collection: "app.bsky.feed.post".to_string(),
        did: did.to_string(),
        rkey: format!("rkey{seq}"),
        rev: "3rev".to_string(),
        payload: serde_ipld_dagcbor::to_vec(&record).expect("cbor"),
    }
}

fn identity_row(seq: u64) -> RawEvent {
    RawEvent {
        seq,
        witnessed_at: 1_785_000_000_000_000 + seq as i64,
        indexed_at: 0,
        kind: KIND_IDENTITY,
        collection: String::new(),
        did: DID.to_string(),
        rkey: String::new(),
        rev: String::new(),
        payload: Vec::new(),
    }
}

fn stats() -> PlanStats {
    PlanStats { segments_examined: 0, segments_matched: 0, blocks_matched: 0, entries: 0 }
}

fn blocks_unit(name: &str, ranges: &[(u64, u64)]) -> PlanSegment {
    PlanSegment {
        name: name.to_string(),
        index: 0,
        checksum: "0123456789abcdef".to_string(),
        min_seq: 0,
        max_seq: 0,
        mode: "blocks".to_string(),
        blocks: ranges.iter().map(|(first, last)| BlockRange { first: *first, last: *last }).collect(),
    }
}

/// A programmable archive. Plans are consumed in order; blocks are served
/// from a map keyed by (segment, index).
#[derive(Default)]
struct MockFetcher {
    plans: Vec<SnapshotPlan>,
    blocks: HashMap<(String, u64), Vec<u8>>,
    block_errors: HashMap<(String, u64), Vec<ArchiveError>>,
    segments: HashMap<String, Vec<u8>>,
    requests: Vec<SnapshotRequest>,
    waited: u64,
    cancel_at_wait: bool,
}

impl MockFetcher {
    fn add_plan(&mut self, plan: SnapshotPlan) {
        self.plans.push(plan);
    }

    fn add_block(&mut self, segment: &str, index: u64, rows: &[RawEvent]) {
        self.blocks.insert((segment.to_string(), index), compress_block(rows));
    }

    fn fail_block_once(&mut self, segment: &str, index: u64, error: ArchiveError) {
        self.block_errors.entry((segment.to_string(), index)).or_default().push(error);
    }

    fn fetch_block(&mut self, segment: String, index: u64) -> Result<Vec<u8>, ArchiveError> {
        let key = (segment, index);
        if let Some(errors) = self.block_errors.get_mut(&key) {
            if !errors.is_empty() {
                return Err(errors.remove(0));
            }
        }
        self.blocks
            .get(&key)
            .cloned()
            .ok_or_else(|| ArchiveError::Http { status: 404, body: "BlockNotFound".to_string() })
    }
}

/// Records applied seqs; can be told to fail at a given seq to model a crash
/// in the middle of a replay.
#[derive(Default)]
struct RecordingSink {
    seqs: Vec<u64>,
    fail_at: Option<u64>,
}

impl RecordingSink {
    fn apply(&mut self, event: &Event) -> bool {
        if self.fail_at == Some(event.seq) {
            return false;
        }
        self.seqs.push(event.seq);
        true
    }
}

/// Performs the actions of a replay until it ends.
fn replay(
    fetcher: &mut MockFetcher,
    filters: ReplayFilters,
    after_seq: u64,
    sink: &mut RecordingSink,
) -> Result<ReplayOutcome, ReplayError> {
    let mut cancelled = false;
    let (mut replay, mut action) = Replay::start(filters, after_seq, cancelled);
    loop {
        let reply = match action {
            Action::Plan(request) => {
                fetcher.requests.push(request);
                if fetcher.plans.is_empty() {
                    panic!("unexpected planSnapshot call");
                }
                Reply::Planned(Ok(fetcher.plans.remove(0)))
            }
            Action::FetchBlock { segment, index } => Reply::Block(fetcher.fetch_block(segment, index)),
            Action::FetchSegment { name } => Reply::Segment(
                fetcher
                    .segments
                    .get(&name)
                    .cloned()
                    .ok_or_else(|| ArchiveError::Http { status: 404, body: "SegmentNotFound".to_string() }),
            ),
            Action::Apply(event) => Reply::Applied(sink.apply(&event)),
            Action::Wait { seconds } => {
                if fetcher.cancel_at_wait {
                    cancelled = true;
                } else {
                    fetcher.waited += seconds;
                }
                Reply::Waited
            }
            Action::RemoveSegment { name } => {
                fetcher.segments.remove(&name);
                Reply::Removed
            }
            Action::Done(outcome) => return Ok(outcome),
            Action::Failed(error) => return Err(error),
        };
        let (next, asked) = replay.step(reply, cancelled);
        replay = next;
        action = asked;
    }
}

fn plan(planned_through: u64, tip: u64, segments: Vec<PlanSegment>) -> SnapshotPlan {
    SnapshotPlan { planned_through_seq: planned_through, sealed_tip_seq: tip, segments, stats: stats() }
}

#[test]
fn test_empty_plan_goes_straight_to_handoff() {
    let mut fetcher = MockFetcher::default();
    fetcher.add_plan(plan(500, 500, vec![]));
    let mut sink = RecordingSink::default();
    let outcome = replay(&mut fetcher, filters(), 120, &mut sink).expect("replay");
    assert_eq!(outcome, ReplayOutcome { last_seq: None, sealed_tip_seq: 500, events_applied: 0 });
    assert!(sink.seqs.is_empty());
}

#[test]
fn test_replays_pages_in_order_with_boundary_dedupe() {
    let mut fetcher = MockFetcher::default();
    // Block 0 straddles the floor: seqs 90 and 100 are already applied, 110
    // is new. Others' events (seq 115) never surface.
    fetcher.add_block(
        "seg_a",
        0,
        &[post_row(90, DID), post_row(100, DID), post_row(110, DID), post_row(115, "did:plc:other")],
    );
    fetcher.add_block("seg_a", 1, &[identity_row(120), post_row(130, DID)]);
    fetcher.add_block("seg_b", 0, &[post_row(200, DID)]);
    fetcher.add_plan(plan(150, 250, vec![blocks_unit("seg_a", &[(0, 1)])]));
    fetcher.add_plan(plan(250, 250, vec![blocks_unit("seg_b", &[(0, 0)])]));

    let mut sink = RecordingSink::default();
    let outcome = replay(&mut fetcher, filters(), 100, &mut sink).expect("replay");

    assert_eq!(sink.seqs, vec![110, 120, 130, 200]);
    assert_eq!(outcome.last_seq, Some(200));
    assert_eq!(outcome.sealed_tip_seq, 250);
    assert_eq!(outcome.events_applied, 4);
    assert_eq!(fetcher.requests.len(), 2);
}

#[test]
fn test_sink_failure_surfaces_and_rerun_does_not_duplicate() {
    let build = || {
        let mut fetcher = MockFetcher::default();
        fetcher.add_block("seg_a", 0, &[post_row(110, DID), post_row(120, DID)]);
        fetcher
    };

    // First run: the sink dies inside the block, exactly like a crash after
    // seq 110 was durably applied.
    let mut fetcher = build();
    fetcher.add_plan(plan(200, 200, vec![blocks_unit("seg_a", &[(0, 0)])]));
    let mut crashing = RecordingSink { fail_at: Some(120), ..Default::default() };
    let err = replay(&mut fetcher, filters(), 100, &mut crashing);
    assert!(err.is_err());
    assert_eq!(crashing.seqs, vec![110]);

    // Restart replans from the stored cursor; 110 is not applied again.
    let mut fetcher = build();
    fetcher.add_plan(plan(200, 200, vec![blocks_unit("seg_a", &[(0, 0)])]));
    let mut sink = RecordingSink::default();
    replay(&mut fetcher, filters(), 110, &mut sink).expect("replay");
    assert_eq!(sink.seqs, vec![120]);
}

#[test]
fn test_rate_limit_waits_and_retries() {
    let mut fetcher = MockFetcher::default();
    fetcher.add_block("seg_a", 0, &[post_row(110, DID)]);
    fetcher.fail_block_once("seg_a", 0, ArchiveError::RateLimited { retry_after: Some(30) });
    fetcher.add_plan(plan(200, 200, vec![blocks_unit("seg_a", &[(0, 0)])]));

    let mut sink = RecordingSink::default();
    replay(&mut fetcher, filters(), 100, &mut sink).expect("replay");
    assert_eq!(sink.seqs, vec![110]);
    assert!(fetcher.waited >= 30, "the Retry-After pause must be honoured");
}

#[test]
fn test_cancellation_wins_over_rate_limit_pause() {
    let mut fetcher = MockFetcher { cancel_at_wait: true, ..Default::default() };
    fetcher.add_block("seg_a", 0, &[post_row(110, DID)]);
    fetcher.fail_block_once("seg_a", 0, ArchiveError::RateLimited { retry_after: Some(3600) });
    fetcher.add_plan(plan(200, 200, vec![blocks_unit("seg_a", &[(0, 0)])]));

    let mut sink = RecordingSink::default();
    let outcome = replay(&mut fetcher, filters(), 100, &mut sink).expect("cancellation is not an error");
    assert_eq!(outcome.events_applied, 0);
    assert_eq!(fetcher.waited, 0, "must not wait out the rate limit");
}

#[test]
fn test_vanished_segment_triggers_replan() {
    let mut fetcher = MockFetcher::default();
    // The first plan names a segment that compaction has removed; only the
    // second plan's block exists.
    fetcher.add_block("seg_new", 0, &[post_row(110, DID)]);
    fetcher.add_plan(plan(200, 200, vec![blocks_unit("seg_gone", &[(0, 0)])]));
    fetcher.add_plan(plan(200, 200, vec![blocks_unit("seg_new", &[(0, 0)])]));

    let mut sink = RecordingSink::default();
    replay(&mut fetcher, filters(), 100, &mut sink).expect("replay");
    assert_eq!(sink.seqs, vec![110]);
    assert_eq!(fetcher.requests.len(), 2);
}

#[test]
fn test_unauthorised_is_fatal() {
    let mut fetcher = MockFetcher::default();
    fetcher.add_plan(plan(200, 200, vec![blocks_unit("seg_a", &[(0, 0)])]));
    fetcher.fail_block_once("seg_a", 0, ArchiveError::Unauthorized("invalid bearer credential".to_string()));
    let mut sink = RecordingSink::default();
    let err = replay(&mut fetcher, filters(), 100, &mut sink).expect_err("must fail");
    assert!(err.context().contains("getBlock"));
    assert_eq!(err.context(), "getBlock seg_a 0");
}

#[test]
fn test_whole_segment_unit_is_decoded_and_spool_removed() {
    let mut fetcher = MockFetcher::default();
    let bytes = segment_bytes(&[compress_block(&[post_row(110, DID), post_row(120, DID)])]);
    fetcher.segments.insert("seg_whole.jss".to_string(), bytes);
    let mut unit = blocks_unit("seg_whole.jss", &[]);
    unit.mode = "segment".to_string();
    unit.blocks.clear();
    fetcher.add_plan(plan(200, 200, vec![unit]));

    let mut sink = RecordingSink::default();
    replay(&mut fetcher, filters(), 100, &mut sink).expect("replay");
    assert_eq!(sink.seqs, vec![110, 120]);
    assert!(!fetcher.segments.contains_key("seg_whole.jss"), "the spool file is deleted after ingest");
}

#[test]
fn test_unknown_unit_mode_is_an_error() {
    let mut fetcher = MockFetcher::default();
    let mut unit = blocks_unit("seg_a", &[]);
    unit.mode = "torrent".to_string();
    fetcher.add_plan(plan(200, 200, vec![unit]));
    let mut sink = RecordingSink::default();
    assert!(replay(&mut fetcher, filters(), 100, &mut sink).is_err());
}

#[test]
fn the_snapshot_is_pinned_after_the_first_page() {
    let mut fetcher = MockFetcher::default();
    fetcher.add_plan(plan(150, 250, vec![]));
    fetcher.add_plan(plan(250, 400, vec![]));
    let mut sink = RecordingSink::default();
    let outcome = replay(&mut fetcher, filters(), 100, &mut sink).expect("replay");
    assert_eq!(outcome.sealed_tip_seq, 250);
    assert_eq!(fetcher.requests[0].after_seq, 100);
    assert_eq!(fetcher.requests[0].before_seq, None);
    assert_eq!(fetcher.requests[0].dids, vec![DID.to_string()]);
    assert_eq!(fetcher.requests[1].after_seq, 150);
    assert_eq!(fetcher.requests[1].before_seq, Some(250));
}

#[test]
fn a_plan_that_stands_still_is_an_error() {
    let mut fetcher = MockFetcher::default();
    fetcher.add_plan(plan(100, 250, vec![]));
    let mut sink = RecordingSink::default();
    let error = replay(&mut fetcher, filters(), 100, &mut sink).expect_err("must fail");
    assert_eq!(error, ReplayError::NoProgress { planned_through: 100, floor: 100 });
    assert_eq!(
        error.context(),
        "snapshot plan does not advance: plannedThroughSeq 100 at floor 100"
    );
}

#[test]
fn lost_connections_are_tried_again_with_growing_pauses() {
    let mut fetcher = MockFetcher::default();
    fetcher.add_block("seg_a", 0, &[post_row(110, DID)]);
    for _ in 0..3 {
        fetcher.fail_block_once("seg_a", 0, ArchiveError::Other("reset".to_string()));
    }
    fetcher.add_plan(plan(200, 200, vec![blocks_unit("seg_a", &[(0, 0)])]));
    let mut sink = RecordingSink::default();
    replay(&mut fetcher, filters(), 100, &mut sink).expect("replay");
    assert_eq!(sink.seqs, vec![110]);
    assert_eq!(fetcher.waited, 1 + 2 + 4);
}

#[test]
fn a_run_cancelled_before_it_starts_asks_for_nothing() {
    let (_, action) = Replay::start(filters(), 42, true);
    let Action::Done(outcome) = action else {
        panic!("expected the end");
    };
    assert_eq!(outcome.events_applied, 0);
    assert_eq!(outcome.last_seq, None);
}

#[test]
fn damage_in_the_archive_ends_the_replay() {
    let mut fetcher = MockFetcher::default();
    fetcher.blocks.insert(("seg_a".to_string(), 4), b"garbage".to_vec());
    fetcher.add_plan(plan(200, 200, vec![blocks_unit("seg_a", &[(4, 4)])]));
    let mut sink = RecordingSink::default();
    let error = replay(&mut fetcher, filters(), 100, &mut sink).expect_err("must fail");
    assert_eq!(error.context(), "decode block 4 of seg_a");

    let mut fetcher = MockFetcher::default();
    let mut bytes = segment_bytes(&[compress_block(&[post_row(110, DID)])]);
    bytes[14..18].copy_from_slice(&9u32.to_le_bytes());
    fetcher.segments.insert("seg_w".to_string(), bytes);
    let mut unit = blocks_unit("seg_w", &[]);
    unit.mode = "segment".to_string();
    fetcher.add_plan(plan(200, 200, vec![unit]));
    let mut sink = RecordingSink::default();
    let error = replay(&mut fetcher, filters(), 100, &mut sink).expect_err("must fail");
    assert_eq!(error.context(), "decode segment seg_w");
}

#[test]
fn replies_out_of_step_are_refused() {
    let (replay, _) = Replay::start(filters(), 0, false);
    let (_, action) = replay.step(Reply::Removed, false);
    assert!(matches!(action, Action::Failed(ReplayError::OutOfStep)));
}

#[test]
fn only_a_missing_file_vanishes() {
    assert!(segment_vanished(&ArchiveError::Http { status: 404, body: String::new() }));
    assert!(!segment_vanished(&ArchiveError::Http { status: 500, body: String::new() }));
    assert!(!segment_vanished(&ArchiveError::Unauthorized(String::new())));
}

#[test]
fn filters_admit_markers_and_the_listed_collections() {
    let f = filters();
    assert!(f.matches(&post_row(1, DID)));
    assert!(f.matches(&identity_row(1)));
    assert!(!f.matches(&post_row(1, "did:plc:other")));
    let mut row = post_row(1, DID);
    row.collection = "app.bsky.graph.follow".to_string();
    assert!(!f.matches(&row));
}

#[test]
fn an_interrupted_run_and_its_rerun_take_what_one_run_takes() {
    let rows = || [post_row(110, DID), post_row(120, DID), post_row(130, DID)];
    let build = |after: u64| {
        let mut fetcher = MockFetcher::default();
        fetcher.add_block("seg_a", 0, &rows());
        fetcher.add_block("seg_b", 0, &[post_row(150, DID), post_row(160, DID)]);
        if after < 130 {
            fetcher.add_plan(plan(140, 200, vec![blocks_unit("seg_a", &[(0, 0)])]));
        }
        fetcher.add_plan(plan(200, 200, vec![blocks_unit("seg_b", &[(0, 0)])]));
        fetcher
    };
    let mut whole = RecordingSink::default();
    replay(&mut build(100), filters(), 100, &mut whole).expect("replay");
    assert_eq!(whole.seqs, vec![110, 120, 130, 150, 160]);

    for fail_at in [110, 120, 130, 150, 160] {
        let mut crashing = RecordingSink { fail_at: Some(fail_at), ..Default::default() };
        assert!(replay(&mut build(100), filters(), 100, &mut crashing).is_err());
        let from = crashing.seqs.last().copied().unwrap_or(100);
        let mut sink = RecordingSink::default();
        replay(&mut build(from), filters(), from, &mut sink).expect("replay");
        let both: Vec<u64> = crashing.seqs.iter().chain(sink.seqs.iter()).copied().collect();
        assert_eq!(both, whole.seqs, "failed at {fail_at}");
    }
}

#[test]
fn an_unknown_mode_is_quoted() {
    let said = |mode: &str| {
        ReplayError::UnknownMode { mode: mode.to_string(), segment: "seg_a".to_string() }.context()
    };
    assert_eq!(said("torrent"), "unknown plan unit mode \"torrent\" for segment seg_a");
    assert_eq!(said("a\"b\\c\n"), r#"unknown plan unit mode "a\"b\\c\n" for segment seg_a"#);
    assert_eq!(unknown_mode_text("'x'", "seg_b"), "unknown plan unit mode 'x' for segment seg_b");
}
