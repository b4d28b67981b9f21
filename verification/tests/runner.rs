use bsearch::archive::ArchiveError;
use bsearch::events::{Event, Frame, Payload};
use bsearch::live::Incoming;
use bsearch::replay::{ReplayError, ReplayOutcome};
use bsearch::runner::{
    catchup_after_seq, cutover_cursor, handled_step, is_unauthorized, live_cursor_without_archive, read_step,
    ConnectionEnd, Notice, ReadStep, RunAction, RunReply, Runner, MAX_STALLED_CATCHUPS, NOTIFY_REPLAY_EVENTS,
    RECONNECT_DELAY_SECS,
};

const LEGACY_TIME_US: i64 = 1_785_009_595_019_071;

#[test]
fn test_catchup_starts_from_a_seq_cursor() {
    assert_eq!(catchup_after_seq(Some(42)), 42);
}

#[test]
fn test_catchup_sweeps_full_history_for_legacy_or_missing_cursors() {
    assert_eq!(catchup_after_seq(Some(LEGACY_TIME_US)), 0);
    assert_eq!(catchup_after_seq(None), 0);
}

#[test]
fn test_live_cursor_without_archive_passes_values_through() {
    assert_eq!(live_cursor_without_archive(None), None);
    assert_eq!(live_cursor_without_archive(Some(42)), Some(42));
    // A legacy timestamp is translated by the server, not by us.
    assert_eq!(live_cursor_without_archive(Some(LEGACY_TIME_US)), Some(LEGACY_TIME_US as u64));
}

#[test]
fn test_cutover_takes_the_later_of_tip_and_last_applied() {
    let outcome = ReplayOutcome { last_seq: Some(900), sealed_tip_seq: 500, events_applied: 10 };
    assert_eq!(cutover_cursor(&outcome), Some(900));
    let outcome = ReplayOutcome { last_seq: Some(400), sealed_tip_seq: 500, events_applied: 10 };
    assert_eq!(cutover_cursor(&outcome), Some(500));
}

#[test]
fn test_cutover_on_an_empty_archive_starts_at_the_tip() {
    let outcome = ReplayOutcome { last_seq: None, sealed_tip_seq: 0, events_applied: 0 };
    assert_eq!(cutover_cursor(&outcome), None);
}

fn outcome(events_applied: u64) -> ReplayOutcome {
    ReplayOutcome { last_seq: Some(900), sealed_tip_seq: 1_000, events_applied }
}

#[test]
fn a_service_with_a_key_sweeps_before_it_listens() {
    let (runner, action) = Runner::start(true, false);
    assert_eq!(action, RunAction::ReadCursor);
    let (runner, action, notice) = runner.step(RunReply::Cursor(Some(42)), false);
    assert_eq!((action, notice), (RunAction::Sweep { after_seq: 42 }, None));
    let (runner, action, notice) = runner.step(RunReply::Swept(outcome(NOTIFY_REPLAY_EVENTS)), false);
    assert_eq!(action, RunAction::Connect { cursor: Some(1_000) });
    assert_eq!(notice, Some(Notice::HistoryRecovered { events: NOTIFY_REPLAY_EVENTS }));
    let (runner, action, _) = runner.step(RunReply::Connected, false);
    assert_eq!(action, RunAction::Listen);
    // A recycled connection needs no sweep.
    let (runner, action, notice) = runner.step(RunReply::Ended(ConnectionEnd::Recycled), false);
    assert_eq!((action, notice), (RunAction::Pause { seconds: RECONNECT_DELAY_SECS }, None));
    let (runner, action, _) = runner.step(RunReply::Paused, false);
    assert_eq!(action, RunAction::ReadCursor);
    let (runner, action, _) = runner.step(RunReply::Cursor(Some(1_100)), false);
    assert_eq!(action, RunAction::Connect { cursor: Some(1_100) });
    // One that the server closed does.
    let (runner, _, _) = runner.step(RunReply::Connected, false);
    let (runner, _, notice) = runner.step(RunReply::Ended(ConnectionEnd::Closed), false);
    assert_eq!(notice, Some(Notice::Disconnected));
    let (runner, _, _) = runner.step(RunReply::Paused, false);
    let (_, action, _) = runner.step(RunReply::Cursor(Some(1_200)), false);
    assert_eq!(action, RunAction::Sweep { after_seq: 1_200 });
}

#[test]
fn a_service_without_a_key_never_sweeps() {
    let (runner, _) = Runner::start(false, false);
    let (runner, action, _) = runner.step(RunReply::Cursor(Some(LEGACY_TIME_US)), false);
    assert_eq!(action, RunAction::Connect { cursor: Some(LEGACY_TIME_US as u64) });
    let (runner, action, notice) = runner.step(RunReply::Rejected { status: 400 }, false);
    assert_eq!((action, notice), (RunAction::ClearCursor, Some(Notice::GapInHistory)));
    let (runner, action, _) = runner.step(RunReply::Cleared, false);
    assert_eq!(action, RunAction::Pause { seconds: RECONNECT_DELAY_SECS });
    let (runner, _, _) = runner.step(RunReply::Paused, false);
    let (_, action, _) = runner.step(RunReply::Cursor(None), false);
    assert_eq!(action, RunAction::Connect { cursor: None });
}

#[test]
fn a_refused_key_ends_the_sweeps() {
    let (runner, _) = Runner::start(true, false);
    let (runner, _, _) = runner.step(RunReply::Cursor(Some(42)), false);
    let (runner, action, notice) = runner.step(RunReply::KeyRefused, false);
    assert_eq!((action, notice), (RunAction::Connect { cursor: Some(42) }, Some(Notice::InvalidKey)));
    assert!(!runner.state.has_archive);
}

#[test]
fn one_cursor_is_not_retried_for_ever() {
    let (mut runner, _) = Runner::start(true, false);
    for round in 0..=MAX_STALLED_CATCHUPS {
        let (next, action, _) = runner.step(RunReply::Cursor(Some(42)), false);
        assert!(matches!(action, RunAction::Sweep { .. }));
        let (next, _, _) = next.step(RunReply::Swept(outcome(0)), false);
        let (next, action, notice) = next.step(RunReply::Rejected { status: 400 }, false);
        if round == MAX_STALLED_CATCHUPS {
            assert_eq!(action, RunAction::GiveUp { cursor: Some(1_000), rejected: MAX_STALLED_CATCHUPS + 1 });
            assert_eq!(notice, Some(Notice::Stalled));
            return;
        }
        assert_eq!(action, RunAction::Pause { seconds: RECONNECT_DELAY_SECS });
        let (next, _, _) = next.step(RunReply::Paused, false);
        runner = next;
    }
    panic!("the service must give up");
}

#[test]
fn a_stopping_service_winds_down() {
    let (_, action) = Runner::start(true, true);
    assert_eq!(action, RunAction::Stop);
    let (runner, _) = Runner::start(true, false);
    let (runner, _, _) = runner.step(RunReply::Cursor(Some(42)), false);
    let (_, action, _) = runner.step(RunReply::SweepFailed, true);
    assert_eq!(action, RunAction::Stop);
}

#[test]
fn other_refusals_only_pause() {
    let (runner, _) = Runner::start(true, false);
    let (runner, _, _) = runner.step(RunReply::Cursor(None), false);
    let (runner, _, _) = runner.step(RunReply::SweepFailed, false);
    let (runner, action, notice) = runner.step(RunReply::Rejected { status: 503 }, false);
    assert_eq!((action, notice), (RunAction::Pause { seconds: RECONNECT_DELAY_SECS }, None));
    assert_eq!(runner.state.stalled_catchups, 0);
}

#[test]
fn notices_have_texts() {
    let notice = Notice::HistoryRecovered { events: 120 };
    assert!(notice.body().contains("120"), "{}", notice.body());
    for notice in [
        Notice::InvalidKey,
        Notice::Disconnected,
        Notice::ConnectionError,
        Notice::Stalled,
        Notice::GapInHistory,
    ] {
        assert!(!notice.title().is_empty());
        assert!(!notice.body().is_empty());
    }
}

#[test]
fn only_a_refused_key_is_unauthorized() {
    let refused = || ArchiveError::Unauthorized("no".to_string());
    assert!(is_unauthorized(&ReplayError::Plan { error: refused() }));
    assert!(is_unauthorized(&ReplayError::Block { segment: "s".to_string(), index: 0, error: refused() }));
    assert!(is_unauthorized(&ReplayError::Segment { name: "s".to_string(), error: refused() }));
    assert!(!is_unauthorized(&ReplayError::Sink));
    assert!(!is_unauthorized(&ReplayError::Plan { error: ArchiveError::Http { status: 500, body: String::new() } }));
}

#[test]
fn frames_are_read_step_by_step() {
    let event = Event { seq: 1, did: "d".to_string(), time_us: 0, payload: Payload::Sync };
    assert!(matches!(read_step(Incoming::Frame(Frame::Event(event))), ReadStep::Handle(e) if e.seq == 1));
    assert!(matches!(read_step(Incoming::Frame(Frame::Unknown)), ReadStep::Continue));
    assert!(matches!(
        read_step(Incoming::Frame(Frame::Info { name: "n".to_string(), message: None })),
        ReadStep::Continue
    ));
    assert!(matches!(
        read_step(Incoming::Frame(Frame::Error { error: "e".to_string(), message: None })),
        ReadStep::End(ConnectionEnd::Errored)
    ));
    assert!(matches!(read_step(Incoming::Closed), ReadStep::End(ConnectionEnd::Closed)));
    assert!(matches!(read_step(Incoming::Failed), ReadStep::End(ConnectionEnd::Errored)));
    assert!(matches!(read_step(Incoming::Cancelled), ReadStep::End(ConnectionEnd::Recycled)));
    assert!(matches!(handled_step(true), ReadStep::Continue));
    assert!(matches!(handled_step(false), ReadStep::End(ConnectionEnd::Errored)));
}
