//! The consumption loop: archive catch-up when there is ground to make up,
//! then the live tail, reconnecting until cancelled.
//!
//! With an archive the service heals itself: any gap is swept from the sealed
//! archive before the live tail resumes at the sealed tip. Without one it
//! runs on the live tail alone. The loop is a state machine: each step takes
//! what the last action came back with and says what to do next.
use vstd::prelude::*;
use vstd::string::StringExecFns;

use crate::archive::ArchiveError;
use crate::events::{
    classify_cursor, cursor_meaning, Event, EventView, Frame, FrameView, StoredCursor,
};
use crate::live::{Incoming, IncomingView};
use crate::replay::{ReplayError, ReplayErrorView, ReplayOutcome};
use crate::text::{decimal, u64_to_string};

verus! {

/// The pause before the next connection.
pub const RECONNECT_DELAY_SECS: u64 = 5;

/// Rejections of one and the same cursor before the service gives up.
pub const MAX_STALLED_CATCHUPS: u32 = 5;

/// A replay that applied at least this many events is announced.
pub const NOTIFY_REPLAY_EVENTS: u64 = 100;

// ---- cursors ----

/// Where the archive sweep starts, given the stored cursor: behind a stored
/// seq, and from the beginning where there is none or only a timestamp.
pub open spec fn sweep_start(stored: Option<i64>) -> u64 {
    match stored {
        Some(value) => match cursor_meaning(value) {
            StoredCursor::Sequence(seq) => seq,
            StoredCursor::LegacyTimeUs(_) => 0,
        },
        None => 0,
    }
}

/// Where the archive sweep starts, given the stored cursor.
pub fn catchup_after_seq(stored: Option<i64>) -> (r: u64)
    ensures
        r == sweep_start(stored),
{
    match stored {
        Some(value) => match classify_cursor(value) {
            StoredCursor::Sequence(seq) => seq,
            StoredCursor::LegacyTimeUs(_) => 0,
        },
        None => 0,
    }
}

/// The live cursor that a stored value stands for: itself, and zero where it
/// is negative.
pub open spec fn stored_live_cursor(stored: Option<i64>) -> Option<u64> {
    match stored {
        Some(value) => Some(
            if value < 0 {
                0
            } else {
                value as u64
            },
        ),
        None => None,
    }
}

/// The live cursor when no sweep was made. Any stored value passes through:
/// the server tells seqs from timestamps by magnitude.
pub fn live_cursor_without_archive(stored: Option<i64>) -> (r: Option<u64>)
    ensures
        r == stored_live_cursor(stored),
{
    match stored {
        Some(value) => if value < 0 {
            Some(0)
        } else {
            Some(value as u64)
        },
        None => None,
    }
}

/// The live cursor after a sweep: the later of the sealed tip and the last
/// applied seq, and none at all where both are zero.
pub open spec fn cutover(outcome: ReplayOutcome) -> Option<u64> {
    let last = match outcome.last_seq {
        Some(seq) => seq,
        None => 0,
    };
    let cursor = if outcome.sealed_tip_seq < last {
        last
    } else {
        outcome.sealed_tip_seq
    };
    if cursor > 0 {
        Some(cursor)
    } else {
        None
    }
}

/// The live cursor after a completed sweep.
pub fn cutover_cursor(outcome: &ReplayOutcome) -> (r: Option<u64>)
    ensures
        r == cutover(*outcome),
{
    let last: u64 = match outcome.last_seq {
        Some(seq) => seq,
        None => 0,
    };
    let cursor: u64 = if outcome.sealed_tip_seq < last {
        last
    } else {
        outcome.sealed_tip_seq
    };
    if cursor > 0 {
        Some(cursor)
    } else {
        None
    }
}

/// The tail resumes behind nothing that was swept: the cutover cursor is at
/// least the sealed tip and the last applied seq, it is one of the two, and it
/// is never zero, which would mean to replay everything.
pub proof fn law_cutover_leaves_no_gap(outcome: ReplayOutcome)
    ensures
        match cutover(outcome) {
            Some(cursor) => {
                &&& cursor > 0
                &&& cursor >= outcome.sealed_tip_seq
                &&& outcome.last_seq matches Some(seq) ==> cursor >= seq
                &&& cursor == outcome.sealed_tip_seq || outcome.last_seq == Some(cursor)
            },
            None => outcome.sealed_tip_seq == 0 && (outcome.last_seq is None || outcome.last_seq
                == Some(0u64)),
        },
{
}

/// Whether a replay failed because the archive key was refused.
pub open spec fn refused_key(error: ReplayErrorView) -> bool {
    match error {
        ReplayErrorView::Plan { error } => error is Unauthorized,
        ReplayErrorView::Block { error, .. } => error is Unauthorized,
        ReplayErrorView::Segment { error, .. } => error is Unauthorized,
        _ => false,
    }
}

fn unauthorized(error: &ArchiveError) -> (r: bool)
    ensures
        r == (error@ is Unauthorized),
{
    match error {
        ArchiveError::Unauthorized(_) => true,
        _ => false,
    }
}

/// Whether a replay failed because the archive key was refused.
pub fn is_unauthorized(error: &ReplayError) -> (r: bool)
    ensures
        r == refused_key(error@),
{
    match error {
        ReplayError::Plan { error } => unauthorized(error),
        ReplayError::Block { error, .. } => unauthorized(error),
        ReplayError::Segment { error, .. } => unauthorized(error),
        _ => false,
    }
}

// ---- reading a connection ----

/// How a connection ended.
#[derive(Debug, Clone, Copy, PartialEq, Eq, Structural)]
pub enum ConnectionEnd {
    /// It was given up: its time was over, or the service stops.
    Recycled,
    /// The server closed it.
    Closed,
    Errored,
}

/// What to do with something that a connection delivered.
#[derive(Debug)]
pub enum ReadStep {
    /// Read on.
    Continue,
    /// Hand the event to the ingest rules.
    Handle(Event),
    End(ConnectionEnd),
}

#[verifier::ext_equal]
pub enum ReadStepView {
    Continue,
    Handle(EventView),
    End(ConnectionEnd),
}

impl View for ReadStep {
    type V = ReadStepView;

    open spec fn view(&self) -> ReadStepView {
        match self {
            ReadStep::Continue => ReadStepView::Continue,
            ReadStep::Handle(event) => ReadStepView::Handle(event@),
            ReadStep::End(end) => ReadStepView::End(*end),
        }
    }
}

/// What to do with something that a connection delivered: events are handled,
/// advisories and unknown frames are passed over, and everything else ends
/// the connection.
pub open spec fn reading(incoming: IncomingView) -> ReadStepView {
    match incoming {
        IncomingView::Frame(FrameView::Event(event)) => ReadStepView::Handle(event),
        IncomingView::Frame(FrameView::Info { .. }) => ReadStepView::Continue,
        IncomingView::Frame(FrameView::Error { .. }) => ReadStepView::End(ConnectionEnd::Errored),
        IncomingView::Frame(FrameView::Unknown) => ReadStepView::Continue,
        IncomingView::Closed => ReadStepView::End(ConnectionEnd::Closed),
        IncomingView::Failed => ReadStepView::End(ConnectionEnd::Errored),
        IncomingView::Cancelled => ReadStepView::End(ConnectionEnd::Recycled),
    }
}

/// Decides what to do with something that a connection delivered.
pub fn read_step(incoming: Incoming) -> (r: ReadStep)
    ensures
        r@ == reading(incoming@),
{
    match incoming {
        Incoming::Frame(Frame::Event(event)) => ReadStep::Handle(event),
        Incoming::Frame(Frame::Info { .. }) => ReadStep::Continue,
        Incoming::Frame(Frame::Error { .. }) => ReadStep::End(ConnectionEnd::Errored),
        Incoming::Frame(Frame::Unknown) => ReadStep::Continue,
        Incoming::Closed => ReadStep::End(ConnectionEnd::Closed),
        Incoming::Failed => ReadStep::End(ConnectionEnd::Errored),
        Incoming::Cancelled => ReadStep::End(ConnectionEnd::Recycled),
    }
}

/// After an event was handed over: reading goes on where it was taken. Where
/// it was not, its cursor was not stored either, so the next connection
/// delivers it again.
pub fn handled_step(taken: bool) -> (r: ReadStep)
    ensures
        r@ == if taken {
            ReadStepView::Continue
        } else {
            ReadStepView::End(ConnectionEnd::Errored)
        },
{
    if taken {
        ReadStep::Continue
    } else {
        ReadStep::End(ConnectionEnd::Errored)
    }
}

// ---- the loop ----

/// What the loop remembers between two steps.
#[derive(Debug, Clone, Copy, PartialEq, Eq, Structural)]
pub struct RunState {
    /// Whether the sealed archive can be swept.
    pub has_archive: bool,
    /// Whether a sweep is due before the next connection.
    pub needs_catchup: bool,
    /// How often the last rejected cursor was rejected in a row.
    pub stalled_catchups: u32,
    /// The cursor of the last rejected connection.
    pub last_rejected_cursor: Option<Option<u64>>,
}

/// What the loop waits for.
#[derive(Debug, Clone, Copy, PartialEq, Eq, Structural)]
pub enum RunPhase {
    ReadingCursor,
    Sweeping { stored: Option<i64> },
    Connecting { cursor: Option<u64> },
    Listening,
    ClearingCursor,
    Pausing,
    Over,
}

/// What the loop asks its caller to do.
#[derive(Debug, Clone, Copy, PartialEq, Eq, Structural)]
pub enum RunAction {
    ReadCursor,
    /// Replay the sealed archive behind a seq.
    Sweep { after_seq: u64 },
    Connect { cursor: Option<u64> },
    /// Read the connection to its end.
    Listen,
    ClearCursor,
    Pause { seconds: u64 },
    Stop,
    /// End with an error: the cursor was rejected this often without
    /// progress.
    GiveUp { cursor: Option<u64>, rejected: u32 },
}

/// What an action came back with.
#[derive(Debug, Clone, Copy, PartialEq, Eq, Structural)]
pub enum RunReply {
    /// The stored cursor.
    Cursor(Option<i64>),
    Swept(ReplayOutcome),
    /// The archive refused the key.
    KeyRefused,
    SweepFailed,
    Connected,
    Rejected { status: u16 },
    ConnectFailed,
    Ended(ConnectionEnd),
    Cleared,
    Paused,
}

/// Something the user is told.
#[derive(Debug, Clone, Copy, PartialEq, Eq, Structural)]
pub enum Notice {
    HistoryRecovered { events: u64 },
    InvalidKey,
    Disconnected,
    ConnectionError,
    Stalled,
    GapInHistory,
}

impl Notice {
    /// The headline of a notice.
    pub open spec fn headline(self) -> Seq<char> {
        match self {
            Notice::HistoryRecovered { .. } => "bsearch: history recovered"@,
            Notice::InvalidKey => "bsearch: invalid Jetstream API key"@,
            Notice::Disconnected => "bsearch: disconnected"@,
            Notice::ConnectionError => "bsearch: error"@,
            Notice::Stalled => "bsearch: stalled"@,
            Notice::GapInHistory => "bsearch: gap in history"@,
        }
    }

    /// The text of a notice.
    pub open spec fn words(self) -> Seq<char> {
        match self {
            Notice::HistoryRecovered { events } => "Replayed "@ + decimal(events as nat)
                + " events from the Jetstream archive."@,
            Notice::InvalidKey => "Archive replay is disabled until the key is fixed."@,
            Notice::Disconnected => "Jetstream connection closed."@,
            Notice::ConnectionError => "Jetstream connection error."@,
            Notice::Stalled => "Jetstream keeps rejecting the cursor; the daemon gave up."@,
            Notice::GapInHistory =>
                "The cursor is too old for the live buffer and no API key is configured to recover the gap."@,
        }
    }

    /// The headline of a notice.
    pub fn title(&self) -> (r: String)
        ensures
            r@ == self.headline(),
    {
        match self {
            Notice::HistoryRecovered { .. } => "bsearch: history recovered".to_owned(),
            Notice::InvalidKey => "bsearch: invalid Jetstream API key".to_owned(),
            Notice::Disconnected => "bsearch: disconnected".to_owned(),
            Notice::ConnectionError => "bsearch: error".to_owned(),
            Notice::Stalled => "bsearch: stalled".to_owned(),
            Notice::GapInHistory => "bsearch: gap in history".to_owned(),
        }
    }

    /// The text of a notice.
    pub fn body(&self) -> (r: String)
        ensures
            r@ == self.words(),
    {
        match self {
            Notice::HistoryRecovered { events } => {
                let mut text = "Replayed ".to_owned();
                let count = u64_to_string(*events);
                text.append(count.as_str());
                text.append(" events from the Jetstream archive.");
                text
            },
            Notice::InvalidKey => "Archive replay is disabled until the key is fixed.".to_owned(),
            Notice::Disconnected => "Jetstream connection closed.".to_owned(),
            Notice::ConnectionError => "Jetstream connection error.".to_owned(),
            Notice::Stalled =>
                "Jetstream keeps rejecting the cursor; the daemon gave up.".to_owned(),
            Notice::GapInHistory =>
                "The cursor is too old for the live buffer and no API key is configured to recover the gap.".to_owned(),
        }
    }
}

/// The state behind a step, what it waits for, what to do, and what to tell
/// the user.
#[derive(Debug, Clone, Copy, PartialEq, Eq, Structural)]
pub struct RunStep {
    pub state: RunState,
    pub phase: RunPhase,
    pub action: RunAction,
    pub notice: Option<Notice>,
}

/// Ends the loop.
pub open spec fn stop(state: RunState, notice: Option<Notice>) -> RunStep {
    RunStep { state, phase: RunPhase::Over, action: RunAction::Stop, notice }
}

/// Connects, unless the service stops.
pub open spec fn connect_step(
    state: RunState,
    cursor: Option<u64>,
    notice: Option<Notice>,
    cancelled: bool,
) -> RunStep {
    if cancelled {
        stop(state, notice)
    } else {
        RunStep {
            state,
            phase: RunPhase::Connecting { cursor },
            action: RunAction::Connect { cursor },
            notice,
        }
    }
}

/// Pauses before the next connection, unless the service stops.
pub open spec fn pause_step(state: RunState, notice: Option<Notice>, cancelled: bool) -> RunStep {
    if cancelled {
        stop(state, notice)
    } else {
        RunStep {
            state,
            phase: RunPhase::Pausing,
            action: RunAction::Pause { seconds: RECONNECT_DELAY_SECS },
            notice,
        }
    }
}

/// Reads the stored cursor, unless the service stops.
pub open spec fn cursor_step(state: RunState, cancelled: bool) -> RunStep {
    if cancelled {
        stop(state, None)
    } else {
        RunStep {
            state,
            phase: RunPhase::ReadingCursor,
            action: RunAction::ReadCursor,
            notice: None,
        }
    }
}

/// A cursor was rejected while the archive can be swept: sweep the gap and
/// try again, but not for ever with one cursor.
pub open spec fn rejected_step(state: RunState, cursor: Option<u64>, cancelled: bool) -> RunStep {
    let stalled = if state.last_rejected_cursor == Some(cursor) {
        (state.stalled_catchups + 1) as u32
    } else {
        1u32
    };
    let counted = RunState {
        stalled_catchups: stalled,
        last_rejected_cursor: Some(cursor),
        ..state
    };
    if stalled > MAX_STALLED_CATCHUPS {
        RunStep {
            state: counted,
            phase: RunPhase::Over,
            action: RunAction::GiveUp { cursor, rejected: stalled },
            notice: Some(Notice::Stalled),
        }
    } else {
        pause_step(RunState { needs_catchup: true, ..counted }, None, cancelled)
    }
}

/// One step of the loop.
pub open spec fn run_step(
    state: RunState,
    phase: RunPhase,
    reply: RunReply,
    cancelled: bool,
) -> RunStep {
    match (phase, reply) {
        (RunPhase::ReadingCursor, RunReply::Cursor(stored)) => if state.has_archive
            && state.needs_catchup {
            RunStep {
                state,
                phase: RunPhase::Sweeping { stored },
                action: RunAction::Sweep { after_seq: sweep_start(stored) },
                notice: None,
            }
        } else {
            connect_step(state, stored_live_cursor(stored), None, cancelled)
        },
        (RunPhase::Sweeping { stored }, RunReply::Swept(outcome)) => connect_step(
            RunState { needs_catchup: false, ..state },
            cutover(outcome),
            if outcome.events_applied >= NOTIFY_REPLAY_EVENTS {
                Some(Notice::HistoryRecovered { events: outcome.events_applied })
            } else {
                None
            },
            cancelled,
        ),
        (RunPhase::Sweeping { stored }, RunReply::KeyRefused) => connect_step(
            RunState { has_archive: false, ..state },
            stored_live_cursor(stored),
            Some(Notice::InvalidKey),
            cancelled,
        ),
        (RunPhase::Sweeping { stored }, RunReply::SweepFailed) => connect_step(
            state,
            stored_live_cursor(stored),
            None,
            cancelled,
        ),
        (RunPhase::Connecting { cursor }, RunReply::Connected) => RunStep {
            state: RunState { last_rejected_cursor: None, stalled_catchups: 0, ..state },
            phase: RunPhase::Listening,
            action: RunAction::Listen,
            notice: None,
        },
        (RunPhase::Connecting { cursor }, RunReply::Rejected { status }) => if status == 400
            && state.has_archive {
            rejected_step(state, cursor, cancelled)
        } else if status == 400 {
            RunStep {
                state,
                phase: RunPhase::ClearingCursor,
                action: RunAction::ClearCursor,
                notice: Some(Notice::GapInHistory),
            }
        } else {
            pause_step(state, None, cancelled)
        },
        (RunPhase::Connecting { cursor }, RunReply::ConnectFailed) => pause_step(
            state,
            None,
            cancelled,
        ),
        (RunPhase::Listening, RunReply::Ended(end)) => match end {
            ConnectionEnd::Recycled => pause_step(state, None, cancelled),
            ConnectionEnd::Closed => pause_step(
                RunState { needs_catchup: state.has_archive, ..state },
                Some(Notice::Disconnected),
                cancelled,
            ),
            ConnectionEnd::Errored => pause_step(
                RunState { needs_catchup: state.has_archive, ..state },
                Some(Notice::ConnectionError),
                cancelled,
            ),
        },
        (RunPhase::ClearingCursor, RunReply::Cleared) => pause_step(state, None, cancelled),
        (RunPhase::Pausing, RunReply::Paused) => cursor_step(state, cancelled),
        _ => stop(state, None),
    }
}

/// Whether the count of rejections is one that the loop can reach.
pub open spec fn run_valid(state: RunState) -> bool {
    state.stalled_catchups <= MAX_STALLED_CATCHUPS
}

/// The consumption loop of the service.
#[derive(Debug, Clone, Copy, PartialEq, Eq, Structural)]
pub struct Runner {
    pub state: RunState,
    pub phase: RunPhase,
}

fn make_stop(state: RunState, notice: Option<Notice>) -> (r: RunStep)
    ensures
        r == stop(state, notice),
{
    RunStep { state, phase: RunPhase::Over, action: RunAction::Stop, notice }
}

fn make_connect_step(
    state: RunState,
    cursor: Option<u64>,
    notice: Option<Notice>,
    cancelled: bool,
) -> (r: RunStep)
    ensures
        r == connect_step(state, cursor, notice, cancelled),
{
    if cancelled {
        return make_stop(state, notice);
    }
    RunStep {
        state,
        phase: RunPhase::Connecting { cursor },
        action: RunAction::Connect { cursor },
        notice,
    }
}

fn make_pause_step(state: RunState, notice: Option<Notice>, cancelled: bool) -> (r: RunStep)
    ensures
        r == pause_step(state, notice, cancelled),
{
    if cancelled {
        return make_stop(state, notice);
    }
    RunStep {
        state,
        phase: RunPhase::Pausing,
        action: RunAction::Pause { seconds: RECONNECT_DELAY_SECS },
        notice,
    }
}

fn make_cursor_step(state: RunState, cancelled: bool) -> (r: RunStep)
    ensures
        r == cursor_step(state, cancelled),
{
    if cancelled {
        return make_stop(state, None);
    }
    RunStep {
        state,
        phase: RunPhase::ReadingCursor,
        action: RunAction::ReadCursor,
        notice: None,
    }
}

fn same_rejection(last: Option<Option<u64>>, cursor: Option<u64>) -> (r: bool)
    ensures
        r == (last == Some(cursor)),
{
    match (last, cursor) {
        (Some(Some(a)), Some(b)) => a == b,
        (Some(None), None) => true,
        _ => false,
    }
}

fn make_rejected_step(state: RunState, cursor: Option<u64>, cancelled: bool) -> (r: RunStep)
    requires
        run_valid(state),
    ensures
        r == rejected_step(state, cursor, cancelled),
{
    let stalled: u32 = if same_rejection(state.last_rejected_cursor, cursor) {
        state.stalled_catchups + 1
    } else {
        1
    };
    let counted = RunState {
        stalled_catchups: stalled,
        last_rejected_cursor: Some(cursor),
        ..state
    };
    if stalled > MAX_STALLED_CATCHUPS {
        return RunStep {
            state: counted,
            phase: RunPhase::Over,
            action: RunAction::GiveUp { cursor, rejected: stalled },
            notice: Some(Notice::Stalled),
        };
    }
    make_pause_step(RunState { needs_catchup: true, ..counted }, None, cancelled)
}

impl Runner {
    /// Whether the loop stands where it can stand.
    pub open spec fn valid(self) -> bool {
        run_valid(self.state) || self.phase is Over
    }

    /// Begins the loop: a sweep is due before the first connection.
    pub fn start(has_archive: bool, cancelled: bool) -> (r: (Runner, RunAction))
        ensures
            r.0.valid(),
            ({
                let step = cursor_step(
                    RunState {
                        has_archive,
                        needs_catchup: true,
                        stalled_catchups: 0,
                        last_rejected_cursor: None,
                    },
                    cancelled,
                );
                r.0.state == step.state && r.0.phase == step.phase && r.1 == step.action
            }),
    {
        let state = RunState {
            has_archive,
            needs_catchup: true,
            stalled_catchups: 0,
            last_rejected_cursor: None,
        };
        let step = make_cursor_step(state, cancelled);
        (Runner { state: step.state, phase: step.phase }, step.action)
    }

    /// Takes what the last action came back with, and says what to do next.
    /// `cancelled` is whether the service has been asked to stop.
    pub fn step(self, reply: RunReply, cancelled: bool) -> (r: (Runner, RunAction, Option<Notice>))
        requires
            self.valid(),
        ensures
            r.0.valid(),
            ({
                let step = run_step(self.state, self.phase, reply, cancelled);
                r.0.state == step.state && r.0.phase == step.phase && r.1 == step.action && r.2
                    == step.notice
            }),
    {
        let state = self.state;
        let step = match (self.phase, reply) {
            (RunPhase::ReadingCursor, RunReply::Cursor(stored)) => if state.has_archive
                && state.needs_catchup {
                RunStep {
                    state,
                    phase: RunPhase::Sweeping { stored },
                    action: RunAction::Sweep { after_seq: catchup_after_seq(stored) },
                    notice: None,
                }
            } else {
                make_connect_step(state, live_cursor_without_archive(stored), None, cancelled)
            },
            (RunPhase::Sweeping { stored }, RunReply::Swept(outcome)) => {
                let notice = if outcome.events_applied >= NOTIFY_REPLAY_EVENTS {
                    Some(Notice::HistoryRecovered { events: outcome.events_applied })
                } else {
                    None
                };
                make_connect_step(
                    RunState { needs_catchup: false, ..state },
                    cutover_cursor(&outcome),
                    notice,
                    cancelled,
                )
            },
            (RunPhase::Sweeping { stored }, RunReply::KeyRefused) => make_connect_step(
                RunState { has_archive: false, ..state },
                live_cursor_without_archive(stored),
                Some(Notice::InvalidKey),
                cancelled,
            ),
            (RunPhase::Sweeping { stored }, RunReply::SweepFailed) => make_connect_step(
                state,
                live_cursor_without_archive(stored),
                None,
                cancelled,
            ),
            (RunPhase::Connecting { .. }, RunReply::Connected) => RunStep {
                state: RunState { last_rejected_cursor: None, stalled_catchups: 0, ..state },
                phase: RunPhase::Listening,
                action: RunAction::Listen,
                notice: None,
            },
            (RunPhase::Connecting { cursor }, RunReply::Rejected { status }) => if status == 400
                && state.has_archive {
                make_rejected_step(state, cursor, cancelled)
            } else if status == 400 {
                RunStep {
                    state,
                    phase: RunPhase::ClearingCursor,
                    action: RunAction::ClearCursor,
                    notice: Some(Notice::GapInHistory),
                }
            } else {
                make_pause_step(state, None, cancelled)
            },
            (RunPhase::Connecting { .. }, RunReply::ConnectFailed) => make_pause_step(
                state,
                None,
                cancelled,
            ),
            (RunPhase::Listening, RunReply::Ended(end)) => match end {
                ConnectionEnd::Recycled => make_pause_step(state, None, cancelled),
                ConnectionEnd::Closed => make_pause_step(
                    RunState { needs_catchup: state.has_archive, ..state },
                    Some(Notice::Disconnected),
                    cancelled,
                ),
                ConnectionEnd::Errored => make_pause_step(
                    RunState { needs_catchup: state.has_archive, ..state },
                    Some(Notice::ConnectionError),
                    cancelled,
                ),
            },
            (RunPhase::ClearingCursor, RunReply::Cleared) => make_pause_step(
                state,
                None,
                cancelled,
            ),
            (RunPhase::Pausing, RunReply::Paused) => make_cursor_step(state, cancelled),
            _ => make_stop(state, None),
        };
        (Runner { state: step.state, phase: step.phase }, step.action, step.notice)
    }
}

// ---- what holds of every run ----

/// Without an archive nothing is swept, and an archive whose key was refused
/// does not come back.
pub proof fn law_no_sweep_without_archive(
    state: RunState,
    phase: RunPhase,
    reply: RunReply,
    cancelled: bool,
)
    ensures
        ({
            let step = run_step(state, phase, reply, cancelled);
            &&& !state.has_archive ==> !(step.action is Sweep) && !step.state.has_archive
            &&& reply is KeyRefused && phase is Sweeping ==> !step.state.has_archive
        }),
{
}

/// A quiet recycle goes straight back to the live tail; any other end of a
/// connection makes a sweep due wherever there is an archive.
pub proof fn law_only_abnormal_ends_are_swept(state: RunState, end: ConnectionEnd, cancelled: bool)
    ensures
        ({
            let step = run_step(state, RunPhase::Listening, RunReply::Ended(end), cancelled);
            &&& end == ConnectionEnd::Recycled ==> step.state.needs_catchup == state.needs_catchup
                && step.notice is None
            &&& end != ConnectionEnd::Recycled ==> step.state.needs_catchup == state.has_archive
                && step.notice is Some
        }),
{
}

/// The count of rejections in a row never passes its bound while the loop
/// runs: the service gives up on the rejection behind the last allowed one,
/// and only where the archive could not help.
pub proof fn law_gives_up_in_time(state: RunState, phase: RunPhase, reply: RunReply, cancelled: bool)
    requires
        run_valid(state),
    ensures
        ({
            let step = run_step(state, phase, reply, cancelled);
            &&& run_valid(step.state) || step.phase is Over
            &&& step.action is GiveUp <==> {
                &&& phase matches RunPhase::Connecting { cursor }
                &&& reply == RunReply::Rejected { status: 400 }
                &&& state.has_archive
                &&& state.stalled_catchups == MAX_STALLED_CATCHUPS
                &&& state.last_rejected_cursor == Some(cursor)
            }
        }),
{
}

/// A service that was asked to stop makes no further connection and no
/// further pause.
pub proof fn law_cancelled_service_winds_down(state: RunState, phase: RunPhase, reply: RunReply)
    ensures
        ({
            let action = run_step(state, phase, reply, true).action;
            !(action is Connect) && !(action is Pause) && !(action is ReadCursor)
        }),
{
}

/// Every refused cursor is answered: with an archive by a sweep before the
/// next connection, without one by starting over at the tip.
pub proof fn law_rejected_cursor_is_answered(state: RunState, cursor: Option<u64>, stored: Option<i64>)
    requires
        state.stalled_catchups < MAX_STALLED_CATCHUPS,
    ensures
        ({
            let phase = RunPhase::Connecting { cursor };
            let rejected = run_step(state, phase, RunReply::Rejected { status: 400 }, false);
            let paused = run_step(rejected.state, rejected.phase, RunReply::Paused, false);
            let read = run_step(paused.state, paused.phase, RunReply::Cursor(stored), false);
            &&& state.has_archive ==> read.action == (RunAction::Sweep {
                after_seq: sweep_start(stored),
            })
            &&& !state.has_archive ==> rejected.action == RunAction::ClearCursor
        }),
{
}

} // verus!
