//! The archive replay: page a snapshot plan, download and decode its units,
//! and feed matching events to the sink in seq order.
//!
//! The driver is a state machine. Each step takes what the last action came
//! back with and says what to do next; the caller performs the downloads,
//! the waits and the writes. The stored cursor is the only checkpoint: a run
//! that ends anywhere is taken up again by planning from the cursor.
use vstd::prelude::*;
use vstd::string::StringExecFns;

use crate::archive::{
    delay_after, next_delay, unit_views, ArchiveError, ArchiveErrorView, PlanSegment,
    PlanSegmentView, SnapshotPlan, SnapshotPlanView, SnapshotRequest, SnapshotRequestView,
};
use crate::events::{Event, EventView};
use crate::jss::{
    block_views, commit_kind, decode_block_frame, for_each_block, frame_rows, row_views,
    segment_blocks, BlockError, RawEvent, RawEventView, RowError, SegmentError, KIND_CREATE,
    KIND_CREATE_RESYNC, KIND_DELETE, KIND_UPDATE,
};
use crate::text::{
    contains_text, debug_of, debug_text, decimal, str_eq, text_views, u64_to_string,
};

verus! {

/// What to replay: one account's commits in the given collections, and the
/// markers that no collection filter suppresses.
#[derive(Debug, Clone)]
pub struct ReplayFilters {
    pub did: String,
    pub collections: Vec<String>,
}

#[verifier::ext_equal]
pub struct FiltersView {
    pub did: Seq<char>,
    pub collections: Seq<Seq<char>>,
}

impl View for ReplayFilters {
    type V = FiltersView;

    open spec fn view(&self) -> FiltersView {
        FiltersView { did: self.did@, collections: text_views(self.collections@) }
    }
}

impl FiltersView {
    /// Whether a row is to be replayed.
    pub open spec fn matches(self, row: RawEventView) -> bool {
        &&& row.did == self.did
        &&& commit_kind(row.kind) ==> self.collections.contains(row.collection)
    }
}

impl ReplayFilters {
    /// The exact row selector. A plan names whole blocks or files, so every
    /// row is checked before it surfaces.
    pub fn matches(&self, raw: &RawEvent) -> (r: bool)
        ensures
            r == self@.matches(raw@),
            r ==> raw.did@ == self.did@,
    {
        if !str_eq(raw.did.as_str(), self.did.as_str()) {
            return false;
        }
        if raw.kind == KIND_CREATE || raw.kind == KIND_UPDATE || raw.kind == KIND_DELETE || raw.kind
            == KIND_CREATE_RESYNC {
            contains_text(&self.collections, raw.collection.as_str())
        } else {
            true
        }
    }
}

/// How far a replay came.
#[derive(Debug, Clone, Copy, PartialEq, Eq, Structural)]
pub struct ReplayOutcome {
    /// Seq of the last event applied, if any survived the filter.
    pub last_seq: Option<u64>,
    /// The pinned sealed-archive tip.
    pub sealed_tip_seq: u64,
    pub events_applied: u64,
}

/// Where a replay stands.
#[derive(Debug, Clone, Copy, PartialEq, Eq, Structural)]
pub struct Progress {
    /// The replay started behind this seq.
    pub after_seq: u64,
    /// Rows at or below this seq are dropped.
    pub floor: u64,
    pub last_seq: Option<u64>,
    pub events_applied: u64,
    /// The tip of the first page: the snapshot does not move while it is
    /// downloaded.
    pub pinned_tip: Option<u64>,
}

impl Progress {
    /// The outcome of a replay that ends here.
    pub open spec fn outcome(self) -> ReplayOutcome {
        ReplayOutcome {
            last_seq: self.last_seq,
            sealed_tip_seq: match self.pinned_tip {
                Some(tip) => tip,
                None => self.after_seq,
            },
            events_applied: self.events_applied,
        }
    }

    /// Each applied event raised the floor by at least one.
    pub open spec fn valid(self) -> bool {
        self.events_applied <= self.floor - self.after_seq
    }

    /// The progress behind an applied event.
    pub open spec fn applied(self, seq: u64) -> Progress {
        Progress {
            floor: seq,
            last_seq: Some(seq),
            events_applied: (self.events_applied + 1) as u64,
            ..self
        }
    }
}

/// Why a replay failed.
#[derive(Debug, PartialEq)]
pub enum ReplayError {
    Plan { error: ArchiveError },
    Block { segment: String, index: u64, error: ArchiveError },
    Segment { name: String, error: ArchiveError },
    DecodeBlock { segment: String, index: u64, error: BlockError },
    DecodeSegment { name: String, error: SegmentError },
    Row { error: RowError },
    /// The sink refused an event.
    Sink,
    UnknownMode { mode: String, segment: String },
    /// A page without units that does not reach past its own start.
    NoProgress { planned_through: u64, floor: u64 },
    /// A reply that no pending action asked for.
    OutOfStep,
}

#[verifier::ext_equal]
pub enum ReplayErrorView {
    Plan { error: ArchiveErrorView },
    Block { segment: Seq<char>, index: u64, error: ArchiveErrorView },
    Segment { name: Seq<char>, error: ArchiveErrorView },
    DecodeBlock { segment: Seq<char>, index: u64, error: BlockError },
    DecodeSegment { name: Seq<char>, error: SegmentError },
    Row { error: RowError },
    Sink,
    UnknownMode { mode: Seq<char>, segment: Seq<char> },
    NoProgress { planned_through: u64, floor: u64 },
    OutOfStep,
}

impl View for ReplayError {
    type V = ReplayErrorView;

    open spec fn view(&self) -> ReplayErrorView {
        match self {
            ReplayError::Plan { error } => ReplayErrorView::Plan { error: error@ },
            ReplayError::Block { segment, index, error } => ReplayErrorView::Block {
                segment: segment@,
                index: *index,
                error: error@,
            },
            ReplayError::Segment { name, error } => ReplayErrorView::Segment {
                name: name@,
                error: error@,
            },
            ReplayError::DecodeBlock { segment, index, error } => ReplayErrorView::DecodeBlock {
                segment: segment@,
                index: *index,
                error: *error,
            },
            ReplayError::DecodeSegment { name, error } => ReplayErrorView::DecodeSegment {
                name: name@,
                error: *error,
            },
            ReplayError::Row { error } => ReplayErrorView::Row { error: *error },
            ReplayError::Sink => ReplayErrorView::Sink,
            ReplayError::UnknownMode { mode, segment } => ReplayErrorView::UnknownMode {
                mode: mode@,
                segment: segment@,
            },
            ReplayError::NoProgress { planned_through, floor } => ReplayErrorView::NoProgress {
                planned_through: *planned_through,
                floor: *floor,
            },
            ReplayError::OutOfStep => ReplayErrorView::OutOfStep,
        }
    }
}

/// What a replay was about when it failed, in words.
pub open spec fn failure_context(error: ReplayErrorView) -> Seq<char> {
    match error {
        ReplayErrorView::Plan { .. } => "planSnapshot"@,
        ReplayErrorView::Block { segment, index, .. } => "getBlock "@ + segment + " "@ + decimal(
            index as nat,
        ),
        ReplayErrorView::Segment { name, .. } => "getSegment "@ + name,
        ReplayErrorView::DecodeBlock { segment, index, .. } => "decode block "@ + decimal(
            index as nat,
        ) + " of "@ + segment,
        ReplayErrorView::DecodeSegment { name, .. } => "decode segment "@ + name,
        ReplayErrorView::Row { .. } => "convert archived event"@,
        ReplayErrorView::Sink => "apply archived event"@,
        ReplayErrorView::UnknownMode { mode, segment } => unknown_mode(debug_text(mode), segment),
        ReplayErrorView::NoProgress { planned_through, floor } => "snapshot plan does not advance: plannedThroughSeq "@
            + decimal(planned_through as nat) + " at floor "@ + decimal(floor as nat),
        ReplayErrorView::OutOfStep => "reply out of step"@,
    }
}

/// What is said of a unit of a plan with an unknown mode.
pub open spec fn unknown_mode(quoted: Seq<char>, segment: Seq<char>) -> Seq<char> {
    "unknown plan unit mode "@ + quoted + " for segment "@ + segment
}

/// Says that a segment is to be fetched in a mode that this client does not
/// know, given the mode as it is quoted.
pub fn unknown_mode_text(quoted: &str, segment: &str) -> (r: String)
    ensures
        r@ == unknown_mode(quoted@, segment@),
{
    let mut text = "unknown plan unit mode ".to_owned();
    text.append(quoted);
    text.append(" for segment ");
    text.append(segment);
    text
}

impl ReplayError {
    /// What the replay was about when it failed, for the log.
    pub fn context(&self) -> (r: String)
        ensures
            r@ == failure_context(self@),
    {
        let mut text: String;
        match self {
            ReplayError::Plan { .. } => {
                text = "planSnapshot".to_owned();
            },
            ReplayError::Block { segment, index, .. } => {
                text = "getBlock ".to_owned();
                text.append(segment.as_str());
                text.append(" ");
                text.append(u64_to_string(*index).as_str());
            },
            ReplayError::Segment { name, .. } => {
                text = "getSegment ".to_owned();
                text.append(name.as_str());
            },
            ReplayError::DecodeBlock { segment, index, .. } => {
                text = "decode block ".to_owned();
                text.append(u64_to_string(*index).as_str());
                text.append(" of ");
                text.append(segment.as_str());
            },
            ReplayError::DecodeSegment { name, .. } => {
                text = "decode segment ".to_owned();
                text.append(name.as_str());
            },
            ReplayError::Row { .. } => {
                text = "convert archived event".to_owned();
            },
            ReplayError::Sink => {
                text = "apply archived event".to_owned();
            },
            ReplayError::UnknownMode { mode, segment } => {
                text = unknown_mode_text(debug_of(mode.as_str()).as_str(), segment.as_str());
            },
            ReplayError::NoProgress { planned_through, floor } => {
                text = "snapshot plan does not advance: plannedThroughSeq ".to_owned();
                text.append(u64_to_string(*planned_through).as_str());
                text.append(" at floor ");
                text.append(u64_to_string(*floor).as_str());
            },
            ReplayError::OutOfStep => {
                text = "reply out of step".to_owned();
            },
        }
        text
    }
}

/// What the driver asks its caller to do.
#[derive(Debug)]
pub enum Action {
    Plan(SnapshotRequest),
    FetchBlock { segment: String, index: u64 },
    FetchSegment { name: String },
    /// Hand the event to the sink.
    Apply(Event),
    Wait { seconds: u64 },
    /// Delete the spooled file of a segment that was ingested.
    RemoveSegment { name: String },
    Done(ReplayOutcome),
    Failed(ReplayError),
}

#[verifier::ext_equal]
pub enum ActionView {
    Plan(SnapshotRequestView),
    FetchBlock { segment: Seq<char>, index: u64 },
    FetchSegment { name: Seq<char> },
    Apply(EventView),
    Wait { seconds: u64 },
    RemoveSegment { name: Seq<char> },
    Done(ReplayOutcome),
    Failed(ReplayErrorView),
}

impl View for Action {
    type V = ActionView;

    open spec fn view(&self) -> ActionView {
        match self {
            Action::Plan(request) => ActionView::Plan(request@),
            Action::FetchBlock { segment, index } => ActionView::FetchBlock {
                segment: segment@,
                index: *index,
            },
            Action::FetchSegment { name } => ActionView::FetchSegment { name: name@ },
            Action::Apply(event) => ActionView::Apply(event@),
            Action::Wait { seconds } => ActionView::Wait { seconds: *seconds },
            Action::RemoveSegment { name } => ActionView::RemoveSegment { name: name@ },
            Action::Done(outcome) => ActionView::Done(*outcome),
            Action::Failed(error) => ActionView::Failed(error@),
        }
    }
}

/// What an action came back with.
#[derive(Debug)]
pub enum Reply {
    Planned(Result<SnapshotPlan, ArchiveError>),
    /// The frame of the block asked for.
    Block(Result<Vec<u8>, ArchiveError>),
    /// The bytes of the segment file asked for.
    Segment(Result<Vec<u8>, ArchiveError>),
    /// Whether the sink took the event.
    Applied(bool),
    Waited,
    Removed,
}

#[verifier::ext_equal]
pub enum ReplyView {
    Planned(Result<SnapshotPlanView, ArchiveErrorView>),
    Block(Result<Seq<u8>, ArchiveErrorView>),
    Segment(Result<Seq<u8>, ArchiveErrorView>),
    Applied(bool),
    Waited,
    Removed,
}

impl View for Reply {
    type V = ReplyView;

    open spec fn view(&self) -> ReplyView {
        match self {
            Reply::Planned(Ok(plan)) => ReplyView::Planned(Ok(plan@)),
            Reply::Planned(Err(e)) => ReplyView::Planned(Err(e@)),
            Reply::Block(Ok(frame)) => ReplyView::Block(Ok(frame@)),
            Reply::Block(Err(e)) => ReplyView::Block(Err(e@)),
            Reply::Segment(Ok(bytes)) => ReplyView::Segment(Ok(bytes@)),
            Reply::Segment(Err(e)) => ReplyView::Segment(Err(e@)),
            Reply::Applied(ok) => ReplyView::Applied(*ok),
            Reply::Waited => ReplyView::Waited,
            Reply::Removed => ReplyView::Removed,
        }
    }
}

// ---- the walk over a plan ----

/// A download that a plan asks for, by its place in the plan.
#[derive(Debug, Clone, Copy, PartialEq, Eq, Structural)]
pub enum Work {
    Block { unit: usize, range: usize, index: u64 },
    Segment { unit: usize },
    /// A unit of a mode that this client does not know.
    UnknownMode { unit: usize },
    /// Nothing is left.
    End,
}

/// The next download from a place in the plan on: a unit, one of its block
/// ranges, and a block of it, the first where none is given.
pub open spec fn next_work(
    units: Seq<PlanSegmentView>,
    unit: int,
    range: int,
    index: Option<u64>,
) -> Work
    decreases units.len() - unit, units[unit].blocks.len() - range,
{
    if unit >= units.len() {
        Work::End
    } else if units[unit].mode == "blocks"@ {
        if range >= units[unit].blocks.len() {
            next_work(units, unit + 1, 0, None)
        } else {
            match index {
                Some(index) => Work::Block { unit: unit as usize, range: range as usize, index },
                None => if units[unit].blocks[range].first <= units[unit].blocks[range].last {
                    Work::Block {
                        unit: unit as usize,
                        range: range as usize,
                        index: units[unit].blocks[range].first,
                    }
                } else {
                    next_work(units, unit, range + 1, None)
                },
            }
        }
    } else if units[unit].mode == "segment"@ {
        Work::Segment { unit: unit as usize }
    } else {
        Work::UnknownMode { unit: unit as usize }
    }
}

/// The download behind a block.
pub open spec fn work_after_block(
    units: Seq<PlanSegmentView>,
    unit: int,
    range: int,
    index: u64,
) -> Work {
    if index < units[unit].blocks[range].last {
        next_work(units, unit, range, Some((index + 1) as u64))
    } else {
        next_work(units, unit, range + 1, None)
    }
}

/// Whether a download is one that a plan with these units can ask for.
pub open spec fn work_in(units: Seq<PlanSegmentView>, work: Work) -> bool {
    match work {
        Work::Block { unit, range, index } => {
            &&& unit < units.len()
            &&& units[unit as int].mode == "blocks"@
            &&& range < units[unit as int].blocks.len()
            &&& units[unit as int].blocks[range as int].first <= index
            &&& index <= units[unit as int].blocks[range as int].last
        },
        Work::Segment { unit } => unit < units.len() && units[unit as int].mode == "segment"@,
        Work::UnknownMode { unit } => unit < units.len() && units[unit as int].mode != "blocks"@
            && units[unit as int].mode != "segment"@,
        Work::End => true,
    }
}

/// The first row from `from` on that is above the floor and passes the
/// filter.
pub open spec fn next_row(
    filters: FiltersView,
    rows: Seq<RawEventView>,
    from: int,
    floor: u64,
) -> Option<int>
    decreases rows.len() - from,
{
    if from >= rows.len() {
        None
    } else if rows[from].seq > floor && filters.matches(rows[from]) {
        Some(from)
    } else {
        next_row(filters, rows, from + 1, floor)
    }
}

/// Whether the record of a row is decoded before it is applied.
pub open spec fn wants_record(kind: u8) -> bool {
    kind == KIND_CREATE || kind == KIND_UPDATE || kind == KIND_CREATE_RESYNC
}

/// The rows of consecutive blocks, put together.
pub open spec fn flattened(blocks: Seq<Seq<RawEventView>>) -> Seq<RawEventView>
    decreases blocks.len(),
{
    if blocks.len() == 0 {
        Seq::empty()
    } else {
        flattened(blocks.drop_last()) + blocks.last()
    }
}

// ---- the machine ----

/// A page of the plan, and the floor it was asked for with.
#[verifier::ext_equal]
pub struct PageView {
    pub plan: SnapshotPlanView,
    pub floor: u64,
}

/// What the driver waits for.
#[verifier::ext_equal]
pub enum PhaseView {
    Planning { attempt: u32 },
    Working { page: PageView, work: Work, attempt: u32 },
    Applying { page: PageView, work: Work, rows: Seq<RawEventView>, next: int },
    Removing { page: PageView, unit: usize },
    Over,
}

/// The state behind a step, and the action it asks for.
#[verifier::ext_equal]
pub struct StepView {
    pub progress: Progress,
    pub phase: PhaseView,
    pub action: ActionView,
}

/// The plan request that covers what is left.
pub open spec fn plan_request(filters: FiltersView, p: Progress) -> SnapshotRequestView {
    SnapshotRequestView {
        dids: seq![filters.did],
        collections: filters.collections,
        after_seq: p.floor,
        before_seq: p.pinned_tip,
    }
}

pub open spec fn finished(p: Progress) -> StepView {
    StepView { progress: p, phase: PhaseView::Over, action: ActionView::Done(p.outcome()) }
}

pub open spec fn failed(p: Progress, error: ReplayErrorView) -> StepView {
    StepView { progress: p, phase: PhaseView::Over, action: ActionView::Failed(error) }
}

/// Asks for the next page, unless the run was cancelled.
pub open spec fn plan_step(filters: FiltersView, p: Progress, attempt: u32, cancelled: bool) -> StepView {
    if cancelled {
        finished(p)
    } else {
        StepView {
            progress: p,
            phase: PhaseView::Planning { attempt },
            action: ActionView::Plan(plan_request(filters, p)),
        }
    }
}

/// The action that a download is.
pub open spec fn fetch_action(plan: SnapshotPlanView, work: Work) -> ActionView {
    match work {
        Work::Block { unit, range, index } => ActionView::FetchBlock {
            segment: plan.segments[unit as int].name,
            index,
        },
        Work::Segment { unit } => ActionView::FetchSegment {
            name: plan.segments[unit as int].name,
        },
        _ => ActionView::Failed(ReplayErrorView::OutOfStep),
    }
}

/// Behind the last unit of a page: the replay is over once the tip is
/// reached; a page that leads nowhere is an error; else the next page is due.
pub open spec fn page_end(
    filters: FiltersView,
    p: Progress,
    page: PageView,
    cancelled: bool,
) -> StepView {
    let planned = page.plan.planned_through_seq;
    let lower = if p.floor < page.floor { p.floor } else { page.floor };
    if p.pinned_tip is None || planned >= p.pinned_tip->0 {
        finished(p)
    } else if planned <= lower && page.plan.segments.len() == 0 {
        failed(p, ReplayErrorView::NoProgress { planned_through: planned, floor: page.floor })
    } else {
        plan_step(
            filters,
            Progress { floor: if p.floor < planned { planned } else { p.floor }, ..p },
            0,
            cancelled,
        )
    }
}

/// Turns to a download of a page, unless the run was cancelled.
pub open spec fn work_step(
    filters: FiltersView,
    p: Progress,
    page: PageView,
    work: Work,
    attempt: u32,
    cancelled: bool,
) -> StepView {
    match work {
        Work::End => page_end(filters, p, page, cancelled),
        Work::UnknownMode { unit } => failed(
            p,
            ReplayErrorView::UnknownMode {
                mode: page.plan.segments[unit as int].mode,
                segment: page.plan.segments[unit as int].name,
            },
        ),
        _ => if cancelled {
            finished(p)
        } else {
            StepView {
                progress: p,
                phase: PhaseView::Working { page, work, attempt },
                action: fetch_action(page.plan, work),
            }
        },
    }
}

/// Behind the rows of a download: the next block of the plan, or the removal
/// of the spooled segment.
pub open spec fn rows_end(
    filters: FiltersView,
    p: Progress,
    page: PageView,
    work: Work,
    cancelled: bool,
) -> StepView {
    match work {
        Work::Block { unit, range, index } => work_step(
            filters,
            p,
            page,
            work_after_block(page.plan.segments, unit as int, range as int, index),
            0,
            cancelled,
        ),
        Work::Segment { unit } => StepView {
            progress: p,
            phase: PhaseView::Removing { page, unit },
            action: ActionView::RemoveSegment { name: page.plan.segments[unit as int].name },
        },
        _ => failed(p, ReplayErrorView::OutOfStep),
    }
}

/// Turns to the next row to apply.
pub open spec fn rows_step(
    filters: FiltersView,
    p: Progress,
    page: PageView,
    work: Work,
    rows: Seq<RawEventView>,
    from: int,
    cancelled: bool,
) -> StepView {
    match next_row(filters, rows, from, p.floor) {
        None => rows_end(filters, p, page, work, cancelled),
        Some(next) => match rows[next].event(wants_record(rows[next].kind)) {
            Err(error) => failed(p, ReplayErrorView::Row { error }),
            Ok(event) => StepView {
                progress: p,
                phase: PhaseView::Applying { page, work, rows, next },
                action: ActionView::Apply(event),
            },
        },
    }
}

/// The seconds to wait before a failed call is tried again; nothing where
/// trying again cannot help.
pub open spec fn retry_delay(error: ArchiveErrorView, attempt: u32) -> Option<u64> {
    match error {
        ArchiveErrorView::RateLimited { retry_after: Some(seconds) } => Some(seconds),
        ArchiveErrorView::RateLimited { retry_after: None } => Some(delay_after(attempt) as u64),
        ArchiveErrorView::Other(_) => Some(delay_after(attempt) as u64),
        _ => None,
    }
}

/// The number of the attempt behind one that failed.
pub open spec fn attempt_after(attempt: u32) -> u32 {
    if attempt == u32::MAX {
        attempt
    } else {
        (attempt + 1) as u32
    }
}

/// Waits, unless the run was cancelled.
pub open spec fn wait_step(
    p: Progress,
    phase: PhaseView,
    seconds: u64,
    cancelled: bool,
) -> StepView {
    if cancelled {
        finished(p)
    } else {
        StepView { progress: p, phase, action: ActionView::Wait { seconds } }
    }
}

/// The segment named by the plan no longer exists: the plan is stale.
pub open spec fn vanished(error: ArchiveErrorView) -> bool {
    error matches ArchiveErrorView::Http { status, .. } && status == 404
}

/// The error that a failed download ends the replay with.
pub open spec fn fetch_error(
    plan: SnapshotPlanView,
    work: Work,
    error: ArchiveErrorView,
) -> ReplayErrorView {
    match work {
        Work::Block { unit, range, index } => ReplayErrorView::Block {
            segment: plan.segments[unit as int].name,
            index,
            error,
        },
        Work::Segment { unit } => ReplayErrorView::Segment {
            name: plan.segments[unit as int].name,
            error,
        },
        _ => ReplayErrorView::OutOfStep,
    }
}

/// A download failed: wait and try again, plan anew where the segment is
/// gone, or give up.
pub open spec fn fetch_failed(
    filters: FiltersView,
    p: Progress,
    page: PageView,
    work: Work,
    attempt: u32,
    error: ArchiveErrorView,
    cancelled: bool,
) -> StepView {
    match retry_delay(error, attempt) {
        Some(seconds) => wait_step(
            p,
            PhaseView::Working { page, work, attempt: attempt_after(attempt) },
            seconds,
            cancelled,
        ),
        None => if vanished(error) {
            plan_step(filters, p, 0, cancelled)
        } else {
            failed(p, fetch_error(page.plan, work, error))
        },
    }
}

/// One step of the replay.
pub open spec fn replay_step(
    filters: FiltersView,
    p: Progress,
    phase: PhaseView,
    reply: ReplyView,
    cancelled: bool,
) -> StepView {
    match (phase, reply) {
        (PhaseView::Planning { attempt }, ReplyView::Planned(Ok(plan))) => work_step(
            filters,
            Progress {
                pinned_tip: match p.pinned_tip {
                    Some(tip) => Some(tip),
                    None => Some(plan.sealed_tip_seq),
                },
                ..p
            },
            PageView { plan, floor: p.floor },
            next_work(plan.segments, 0, 0, None),
            0,
            cancelled,
        ),
        (PhaseView::Planning { attempt }, ReplyView::Planned(Err(error))) => match retry_delay(
            error,
            attempt,
        ) {
            Some(seconds) => wait_step(
                p,
                PhaseView::Planning { attempt: attempt_after(attempt) },
                seconds,
                cancelled,
            ),
            None => failed(p, ReplayErrorView::Plan { error }),
        },
        (PhaseView::Planning { attempt }, ReplyView::Waited) => plan_step(
            filters,
            p,
            attempt,
            cancelled,
        ),
        (PhaseView::Working { page, work, attempt }, ReplyView::Waited) => work_step(
            filters,
            p,
            page,
            work,
            attempt,
            cancelled,
        ),
        (
            PhaseView::Working { page, work: Work::Block { unit, range, index }, attempt },
            ReplyView::Block(Ok(frame)),
        ) => match frame_rows(frame) {
            Err(error) => failed(
                p,
                ReplayErrorView::DecodeBlock {
                    segment: page.plan.segments[unit as int].name,
                    index,
                    error,
                },
            ),
            Ok(rows) => rows_step(
                filters,
                p,
                page,
                Work::Block { unit, range, index },
                rows,
                0,
                cancelled,
            ),
        },
        (
            PhaseView::Working { page, work: Work::Block { unit, range, index }, attempt },
            ReplyView::Block(Err(error)),
        ) => fetch_failed(
            filters,
            p,
            page,
            Work::Block { unit, range, index },
            attempt,
            error,
            cancelled,
        ),
        (
            PhaseView::Working { page, work: Work::Segment { unit }, attempt },
            ReplyView::Segment(Ok(bytes)),
        ) => match segment_blocks(bytes).1 {
            Some(error) => failed(
                p,
                ReplayErrorView::DecodeSegment {
                    name: page.plan.segments[unit as int].name,
                    error,
                },
            ),
            None => rows_step(
                filters,
                p,
                page,
                Work::Segment { unit },
                flattened(segment_blocks(bytes).0),
                0,
                cancelled,
            ),
        },
        (
            PhaseView::Working { page, work: Work::Segment { unit }, attempt },
            ReplyView::Segment(Err(error)),
        ) => fetch_failed(filters, p, page, Work::Segment { unit }, attempt, error, cancelled),
        (PhaseView::Applying { page, work, rows, next }, ReplyView::Applied(true)) => rows_step(
            filters,
            p.applied(rows[next].seq),
            page,
            work,
            rows,
            next + 1,
            cancelled,
        ),
        (PhaseView::Applying { page, work, rows, next }, ReplyView::Applied(false)) => failed(
            p,
            ReplayErrorView::Sink,
        ),
        (PhaseView::Removing { page, unit }, ReplyView::Removed) => work_step(
            filters,
            p,
            page,
            next_work(page.plan.segments, unit + 1, 0, None),
            0,
            cancelled,
        ),
        _ => failed(p, ReplayErrorView::OutOfStep),
    }
}

/// Whether a phase can follow from its progress.
pub open spec fn phase_valid(filters: FiltersView, p: Progress, phase: PhaseView) -> bool {
    match phase {
        PhaseView::Planning { attempt } => true,
        PhaseView::Working { page, work, attempt } => {
            &&& p.pinned_tip is Some
            &&& work_in(page.plan.segments, work)
            &&& work is Block || work is Segment
        },
        PhaseView::Applying { page, work, rows, next } => {
            &&& p.pinned_tip is Some
            &&& work_in(page.plan.segments, work)
            &&& work is Block || work is Segment
            &&& 0 <= next < rows.len()
            &&& rows[next].seq > p.floor
            &&& filters.matches(rows[next])
        },
        PhaseView::Removing { page, unit } => {
            &&& p.pinned_tip is Some
            &&& unit < page.plan.segments.len()
        },
        PhaseView::Over => true,
    }
}

struct Page {
    plan: SnapshotPlan,
    floor: u64,
}

impl Page {
    spec fn model(self) -> PageView {
        PageView { plan: self.plan@, floor: self.floor }
    }
}

enum Phase {
    Planning { attempt: u32 },
    Working { page: Page, work: Work, attempt: u32 },
    Applying { page: Page, work: Work, rows: Vec<RawEvent>, next: usize },
    Removing { page: Page, unit: usize },
    Over,
}

impl Phase {
    spec fn model(self) -> PhaseView {
        match self {
            Phase::Planning { attempt } => PhaseView::Planning { attempt },
            Phase::Working { page, work, attempt } => PhaseView::Working {
                page: page.model(),
                work,
                attempt,
            },
            Phase::Applying { page, work, rows, next } => PhaseView::Applying {
                page: page.model(),
                work,
                rows: row_views(rows@),
                next: next as int,
            },
            Phase::Removing { page, unit } => PhaseView::Removing { page: page.model(), unit },
            Phase::Over => PhaseView::Over,
        }
    }
}

struct Step {
    progress: Progress,
    phase: Phase,
    action: Action,
}

impl Step {
    spec fn model(self) -> StepView {
        StepView {
            progress: self.progress,
            phase: self.phase.model(),
            action: self.action@,
        }
    }

    spec fn valid(self, filters: FiltersView) -> bool {
        self.progress.valid() && phase_valid(filters, self.progress, self.phase.model())
    }
}

/// The next download from a place in the plan on.
fn find_work(units: &Vec<PlanSegment>, unit: usize, range: usize, index: Option<u64>) -> (r: Work)
    requires
        unit <= units@.len(),
        index matches Some(i) ==> unit < units@.len() && range < units@[unit as int].blocks@.len()
            && units@[unit as int].blocks@[range as int].first <= i
            <= units@[unit as int].blocks@[range as int].last,
    ensures
        r == next_work(unit_views(units@), unit as int, range as int, index),
        work_in(unit_views(units@), r),
{
    let ghost views = unit_views(units@);
    let mut u: usize = unit;
    let mut g: usize = range;
    let mut i: Option<u64> = index;
    while u < units.len()
        invariant
            views == unit_views(units@),
            u <= units@.len(),
            i matches Some(k) ==> u < units@.len() && g < units@[u as int].blocks@.len()
                && units@[u as int].blocks@[g as int].first <= k
                <= units@[u as int].blocks@[g as int].last,
            next_work(views, unit as int, range as int, index) == next_work(
                views,
                u as int,
                g as int,
                i,
            ),
        decreases units@.len() - u, (if u < units@.len() { units@[u as int].blocks@.len() } else { 0 }) - g,
    {
        let one = &units[u];
        assert(views[u as int] == one@);
        if str_eq(one.mode.as_str(), "blocks") {
            if g >= one.blocks.len() {
                u = u + 1;
                g = 0;
                i = None;
            } else {
                match i {
                    Some(k) => {
                        return Work::Block { unit: u, range: g, index: k };
                    },
                    None => {
                        let blocks = one.blocks[g];
                        if blocks.first <= blocks.last {
                            return Work::Block { unit: u, range: g, index: blocks.first };
                        }
                        g = g + 1;
                    },
                }
            }
        } else if str_eq(one.mode.as_str(), "segment") {
            return Work::Segment { unit: u };
        } else {
            return Work::UnknownMode { unit: u };
        }
    }
    Work::End
}

/// The download behind a block.
fn find_work_after_block(units: &Vec<PlanSegment>, unit: usize, range: usize, index: u64) -> (r: Work)
    requires
        work_in(unit_views(units@), (Work::Block { unit, range, index })),
    ensures
        r == work_after_block(unit_views(units@), unit as int, range as int, index),
        work_in(unit_views(units@), r),
{
    assert(unit_views(units@)[unit as int] == units@[unit as int]@);
    let ranges: usize = units[unit].blocks.len();
    assert(range < ranges);
    if index < units[unit].blocks[range].last {
        find_work(units, unit, range, Some(index + 1))
    } else {
        find_work(units, unit, range + 1, None)
    }
}

/// The first row from `from` on that is to be applied.
fn find_row(filters: &ReplayFilters, rows: &Vec<RawEvent>, from: usize, floor: u64) -> (r: Option<
    usize,
>)
    requires
        from <= rows@.len(),
    ensures
        match next_row(filters@, row_views(rows@), from as int, floor) {
            Some(i) => r == Some(i as usize) && 0 <= i < rows@.len() && rows@[i]@.seq > floor
                && filters@.matches(rows@[i]@),
            None => r is None,
        },
{
    let ghost views = row_views(rows@);
    let mut i: usize = from;
    while i < rows.len()
        invariant
            views == row_views(rows@),
            i <= rows@.len(),
            next_row(filters@, views, from as int, floor) == next_row(
                filters@,
                views,
                i as int,
                floor,
            ),
        decreases rows@.len() - i,
    {
        assert(views[i as int] == rows@[i as int]@);
        if rows[i].seq > floor && filters.matches(&rows[i]) {
            return Some(i);
        }
        i = i + 1;
    }
    None
}

/// The rows of consecutive blocks, put together.
fn flatten(blocks: Vec<Vec<RawEvent>>) -> (r: Vec<RawEvent>)
    ensures
        row_views(r@) == flattened(block_views(blocks@)),
{
    let ghost all = block_views(blocks@);
    let mut rows: Vec<RawEvent> = Vec::new();
    let mut left = blocks;
    let mut i: usize = 0;
    assert(all.take(0) =~= Seq::<Seq<RawEventView>>::empty());
    assert(row_views(rows@) =~= Seq::<RawEventView>::empty());
    while i < left.len()
        invariant
            i <= left@.len() == blocks@.len(),
            all == block_views(blocks@),
            forall|j: int| i <= j < left@.len() ==> #[trigger] left@[j] == blocks@[j],
            row_views(rows@) == flattened(all.take(i as int)),
        decreases left@.len() - i,
    {
        let mut block: Vec<RawEvent> = Vec::new();
        std::mem::swap(&mut block, &mut left[i]);
        let ghost had = rows@;
        let ghost added = block@;
        rows.append(&mut block);
        assert(row_views(rows@) =~= row_views(had) + row_views(added));
        assert(all.take(i + 1).drop_last() =~= all.take(i as int));
        assert(all.take(i + 1).last() == row_views(added));
        i = i + 1;
    }
    assert(all.take(i as int) =~= all);
    rows
}

fn outcome_of(p: Progress) -> (r: ReplayOutcome)
    ensures
        r == p.outcome(),
{
    ReplayOutcome {
        last_seq: p.last_seq,
        sealed_tip_seq: match p.pinned_tip {
            Some(tip) => tip,
            None => p.after_seq,
        },
        events_applied: p.events_applied,
    }
}

fn finish(p: Progress) -> (r: Step)
    ensures
        r.model() == finished(p),
{
    Step { progress: p, phase: Phase::Over, action: Action::Done(outcome_of(p)) }
}

fn fail(p: Progress, error: ReplayError) -> (r: Step)
    ensures
        r.model() == failed(p, error@),
{
    Step { progress: p, phase: Phase::Over, action: Action::Failed(error) }
}

fn copy_texts(texts: &Vec<String>) -> (r: Vec<String>)
    ensures
        text_views(r@) == text_views(texts@),
{
    let mut copies: Vec<String> = Vec::new();
    let mut i: usize = 0;
    while i < texts.len()
        invariant
            i <= texts@.len(),
            copies@.len() == i,
            forall|j: int| 0 <= j < i ==> (#[trigger] copies@[j])@ == texts@[j]@,
        decreases texts@.len() - i,
    {
        copies.push(texts[i].clone());
        i = i + 1;
    }
    assert(text_views(copies@) =~= text_views(texts@));
    copies
}

fn make_plan_step(filters: &ReplayFilters, p: Progress, attempt: u32, cancelled: bool) -> (r: Step)
    ensures
        r.model() == plan_step(filters@, p, attempt, cancelled),
        p.valid() ==> r.valid(filters@),
{
    if cancelled {
        return finish(p);
    }
    let mut dids: Vec<String> = Vec::new();
    dids.push(filters.did.clone());
    assert(text_views(dids@) =~= seq![filters.did@]);
    let request = SnapshotRequest {
        dids,
        collections: copy_texts(&filters.collections),
        after_seq: p.floor,
        before_seq: p.pinned_tip,
    };
    Step { progress: p, phase: Phase::Planning { attempt }, action: Action::Plan(request) }
}

fn make_page_end(filters: &ReplayFilters, p: Progress, page: Page, cancelled: bool) -> (r: Step)
    ensures
        r.model() == page_end(filters@, p, page.model(), cancelled),
        p.valid() && p.pinned_tip is Some ==> r.valid(filters@),
{
    let planned: u64 = page.plan.planned_through_seq;
    let tip: u64 = match p.pinned_tip {
        None => {
            return finish(p);
        },
        Some(tip) => tip,
    };
    if planned >= tip {
        return finish(p);
    }
    let lower: u64 = if p.floor < page.floor {
        p.floor
    } else {
        page.floor
    };
    if planned <= lower && page.plan.segments.len() == 0 {
        return fail(p, ReplayError::NoProgress { planned_through: planned, floor: page.floor });
    }
    let floor: u64 = if p.floor < planned {
        planned
    } else {
        p.floor
    };
    make_plan_step(filters, Progress { floor, ..p }, 0, cancelled)
}

fn make_work_step(
    filters: &ReplayFilters,
    p: Progress,
    page: Page,
    work: Work,
    attempt: u32,
    cancelled: bool,
) -> (r: Step)
    requires
        work_in(page.plan@.segments, work),
    ensures
        r.model() == work_step(filters@, p, page.model(), work, attempt, cancelled),
        p.valid() && p.pinned_tip is Some ==> r.valid(filters@),
{
    let action = match work {
        Work::End => {
            return make_page_end(filters, p, page, cancelled);
        },
        Work::UnknownMode { unit } => {
            let one = &page.plan.segments[unit];
            return fail(
                p,
                ReplayError::UnknownMode { mode: one.mode.clone(), segment: one.name.clone() },
            );
        },
        Work::Block { unit, range, index } => Action::FetchBlock {
            segment: page.plan.segments[unit].name.clone(),
            index,
        },
        Work::Segment { unit } => Action::FetchSegment {
            name: page.plan.segments[unit].name.clone(),
        },
    };
    if cancelled {
        return finish(p);
    }
    Step { progress: p, phase: Phase::Working { page, work, attempt }, action }
}

fn make_rows_end(
    filters: &ReplayFilters,
    p: Progress,
    page: Page,
    work: Work,
    cancelled: bool,
) -> (r: Step)
    requires
        work_in(page.plan@.segments, work),
    ensures
        r.model() == rows_end(filters@, p, page.model(), work, cancelled),
        p.valid() && p.pinned_tip is Some ==> r.valid(filters@),
{
    match work {
        Work::Block { unit, range, index } => {
            let next = find_work_after_block(&page.plan.segments, unit, range, index);
            make_work_step(filters, p, page, next, 0, cancelled)
        },
        Work::Segment { unit } => {
            let name = page.plan.segments[unit].name.clone();
            Step {
                progress: p,
                phase: Phase::Removing { page, unit },
                action: Action::RemoveSegment { name },
            }
        },
        _ => fail(p, ReplayError::OutOfStep),
    }
}

fn make_rows_step(
    filters: &ReplayFilters,
    p: Progress,
    page: Page,
    work: Work,
    rows: Vec<RawEvent>,
    from: usize,
    cancelled: bool,
) -> (r: Step)
    requires
        work_in(page.plan@.segments, work),
        from <= rows@.len(),
    ensures
        r.model() == rows_step(
            filters@,
            p,
            page.model(),
            work,
            row_views(rows@),
            from as int,
            cancelled,
        ),
        p.valid() && p.pinned_tip is Some && !(work is End || work is UnknownMode) ==> r.valid(
            filters@,
        ),
{
    match find_row(filters, &rows, from, p.floor) {
        None => make_rows_end(filters, p, page, work, cancelled),
        Some(next) => {
            let kind: u8 = rows[next].kind;
            let wanted = kind == KIND_CREATE || kind == KIND_UPDATE || kind == KIND_CREATE_RESYNC;
            assert(row_views(rows@)[next as int] == rows@[next as int]@);
            match rows[next].to_event(wanted) {
                Err(error) => fail(p, ReplayError::Row { error }),
                Ok(event) => Step {
                    progress: p,
                    phase: Phase::Applying { page, work, rows, next },
                    action: Action::Apply(event),
                },
            }
        },
    }
}

fn find_retry_delay(error: &ArchiveError, attempt: u32) -> (r: Option<u64>)
    ensures
        r == retry_delay(error@, attempt),
{
    match error {
        ArchiveError::RateLimited { retry_after } => match retry_after {
            Some(seconds) => Some(*seconds),
            None => Some(next_delay(attempt)),
        },
        ArchiveError::Other(_) => Some(next_delay(attempt)),
        _ => None,
    }
}

/// Whether the segment named by the plan no longer exists.
pub fn segment_vanished(error: &ArchiveError) -> (r: bool)
    ensures
        r == vanished(error@),
{
    match error {
        ArchiveError::Http { status, .. } => *status == 404,
        _ => false,
    }
}

fn make_wait_step(p: Progress, phase: Phase, seconds: u64, cancelled: bool) -> (r: Step)
    ensures
        r.model() == wait_step(p, phase.model(), seconds, cancelled),
{
    if cancelled {
        return finish(p);
    }
    Step { progress: p, phase, action: Action::Wait { seconds } }
}

fn next_attempt(attempt: u32) -> (r: u32)
    ensures
        r == attempt_after(attempt),
{
    if attempt == u32::MAX {
        attempt
    } else {
        attempt + 1
    }
}

fn make_fetch_failed(
    filters: &ReplayFilters,
    p: Progress,
    page: Page,
    work: Work,
    attempt: u32,
    error: ArchiveError,
    cancelled: bool,
) -> (r: Step)
    requires
        work_in(page.plan@.segments, work),
        work is Block || work is Segment,
    ensures
        r.model() == fetch_failed(filters@, p, page.model(), work, attempt, error@, cancelled),
        p.valid() && p.pinned_tip is Some ==> r.valid(filters@),
{
    match find_retry_delay(&error, attempt) {
        Some(seconds) => make_wait_step(
            p,
            Phase::Working { page, work, attempt: next_attempt(attempt) },
            seconds,
            cancelled,
        ),
        None => {
            if segment_vanished(&error) {
                return make_plan_step(filters, p, 0, cancelled);
            }
            match work {
                Work::Block { unit, range, index } => {
                    let segment = page.plan.segments[unit].name.clone();
                    fail(p, ReplayError::Block { segment, index, error })
                },
                Work::Segment { unit } => {
                    let name = page.plan.segments[unit].name.clone();
                    fail(p, ReplayError::Segment { name, error })
                },
                _ => fail(p, ReplayError::OutOfStep),
            }
        },
    }
}

/// A replay of the sealed archive: where it stands and what it waits for.
pub struct Replay {
    filters: ReplayFilters,
    progress: Progress,
    phase: Phase,
}

impl Replay {
    /// What is replayed.
    pub closed spec fn filters(self) -> FiltersView {
        self.filters@
    }

    /// How far the replay came.
    pub closed spec fn progress(self) -> Progress {
        self.progress
    }

    /// What the replay waits for.
    pub closed spec fn phase(self) -> PhaseView {
        self.phase.model()
    }

    /// Whether progress and phase fit together.
    pub open spec fn valid(self) -> bool {
        self.progress().valid() && phase_valid(self.filters(), self.progress(), self.phase())
    }

    /// Begins to sweep the sealed archive from `after_seq` (exclusive), and
    /// says what to do first.
    pub fn start(filters: ReplayFilters, after_seq: u64, cancelled: bool) -> (r: (Replay, Action))
        ensures
            r.0.valid(),
            r.0.filters() == filters@,
            (StepView { progress: r.0.progress(), phase: r.0.phase(), action: r.1@ }) == plan_step(
                filters@,
                started(after_seq),
                0,
                cancelled,
            ),
    {
        let p = Progress {
            after_seq,
            floor: after_seq,
            last_seq: None,
            events_applied: 0,
            pinned_tip: None,
        };
        let step = make_plan_step(&filters, p, 0, cancelled);
        (Replay { filters, progress: step.progress, phase: step.phase }, step.action)
    }

    /// Takes what the last action came back with, and says what to do next.
    /// `cancelled` is whether the run has been asked to stop: it then ends
    /// before the next download or wait, with the progress so far.
    pub fn step(self, reply: Reply, cancelled: bool) -> (r: (Replay, Action))
        requires
            self.valid(),
        ensures
            r.0.valid(),
            r.0.filters() == self.filters(),
            (StepView { progress: r.0.progress(), phase: r.0.phase(), action: r.1@ })
                == replay_step(
                self.filters(),
                self.progress(),
                self.phase(),
                reply@,
                cancelled,
            ),
    {
        let filters = self.filters;
        let p = self.progress;
        let step = match (self.phase, reply) {
            (Phase::Planning { attempt }, Reply::Planned(Ok(plan))) => {
                let pinned_tip = match p.pinned_tip {
                    Some(tip) => Some(tip),
                    None => Some(plan.sealed_tip_seq),
                };
                let work = find_work(&plan.segments, 0, 0, None);
                let page = Page { plan, floor: p.floor };
                make_work_step(&filters, Progress { pinned_tip, ..p }, page, work, 0, cancelled)
            },
            (Phase::Planning { attempt }, Reply::Planned(Err(error))) => match find_retry_delay(
                &error,
                attempt,
            ) {
                Some(seconds) => make_wait_step(
                    p,
                    Phase::Planning { attempt: next_attempt(attempt) },
                    seconds,
                    cancelled,
                ),
                None => fail(p, ReplayError::Plan { error }),
            },
            (Phase::Planning { attempt }, Reply::Waited) => make_plan_step(
                &filters,
                p,
                attempt,
                cancelled,
            ),
            (Phase::Working { page, work, attempt }, Reply::Waited) => make_work_step(
                &filters,
                p,
                page,
                work,
                attempt,
                cancelled,
            ),
            (
                Phase::Working { page, work: Work::Block { unit, range, index }, attempt },
                Reply::Block(Ok(frame)),
            ) => match decode_block_frame(frame.as_slice()) {
                Err(error) => {
                    let segment = page.plan.segments[unit].name.clone();
                    fail(p, ReplayError::DecodeBlock { segment, index, error })
                },
                Ok(rows) => make_rows_step(
                    &filters,
                    p,
                    page,
                    Work::Block { unit, range, index },
                    rows,
                    0,
                    cancelled,
                ),
            },
            (
                Phase::Working { page, work: Work::Block { unit, range, index }, attempt },
                Reply::Block(Err(error)),
            ) => make_fetch_failed(
                &filters,
                p,
                page,
                Work::Block { unit, range, index },
                attempt,
                error,
                cancelled,
            ),
            (
                Phase::Working { page, work: Work::Segment { unit }, attempt },
                Reply::Segment(Ok(bytes)),
            ) => {
                let (blocks, ended) = for_each_block(bytes.as_slice());
                match ended {
                    Some(error) => {
                        let name = page.plan.segments[unit].name.clone();
                        fail(p, ReplayError::DecodeSegment { name, error })
                    },
                    None => make_rows_step(
                        &filters,
                        p,
                        page,
                        Work::Segment { unit },
                        flatten(blocks),
                        0,
                        cancelled,
                    ),
                }
            },
            (
                Phase::Working { page, work: Work::Segment { unit }, attempt },
                Reply::Segment(Err(error)),
            ) => make_fetch_failed(
                &filters,
                p,
                page,
                Work::Segment { unit },
                attempt,
                error,
                cancelled,
            ),
            (Phase::Applying { page, work, rows, next }, Reply::Applied(true)) => {
                assert(row_views(rows@)[next as int] == rows@[next as int]@);
                let seq: u64 = rows[next].seq;
                let applied = Progress {
                    floor: seq,
                    last_seq: Some(seq),
                    events_applied: p.events_applied + 1,
                    ..p
                };
                let count: usize = rows.len();
                assert(next < count);
                make_rows_step(&filters, applied, page, work, rows, next + 1, cancelled)
            },
            (Phase::Applying { .. }, Reply::Applied(false)) => fail(p, ReplayError::Sink),
            (Phase::Removing { page, unit }, Reply::Removed) => {
                let count: usize = page.plan.segments.len();
                assert(unit < count);
                let work = find_work(&page.plan.segments, unit + 1, 0, None);
                make_work_step(&filters, p, page, work, 0, cancelled)
            },
            _ => fail(p, ReplayError::OutOfStep),
        };
        (Replay { filters, progress: step.progress, phase: step.phase }, step.action)
    }
}

/// The progress at the start of a replay.
pub open spec fn started(after_seq: u64) -> Progress {
    Progress {
        after_seq,
        floor: after_seq,
        last_seq: None,
        events_applied: 0,
        pinned_tip: None,
    }
}

// ---- what holds of every replay ----

/// The actions that a sequence of replies draws from the machine.
pub open spec fn actions(
    filters: FiltersView,
    p: Progress,
    phase: PhaseView,
    replies: Seq<(ReplyView, bool)>,
) -> Seq<ActionView>
    decreases replies.len(),
{
    if replies.len() == 0 {
        Seq::empty()
    } else {
        let step = replay_step(filters, p, phase, replies[0].0, replies[0].1);
        seq![step.action] + actions(filters, step.progress, step.phase, replies.skip(1))
    }
}

/// The seq that every event still to be handed to the sink lies above.
pub open spec fn reached(p: Progress, phase: PhaseView) -> u64 {
    match phase {
        PhaseView::Applying { page, work, rows, next } => rows[next].seq,
        _ => p.floor,
    }
}

/// What a row that is found is like.
pub(crate) proof fn lemma_next_row(filters: FiltersView, rows: Seq<RawEventView>, from: int, floor: u64)
    requires
        0 <= from,
    ensures
        match next_row(filters, rows, from, floor) {
            Some(i) => {
                &&& from <= i < rows.len()
                &&& rows[i].seq > floor
                &&& filters.matches(rows[i])
                &&& forall|k: int|
                    from <= k < i ==> !((#[trigger] rows[k]).seq > floor && filters.matches(
                        rows[k],
                    ))
            },
            None => forall|k: int|
                from <= k < rows.len() ==> !((#[trigger] rows[k]).seq > floor && filters.matches(
                    rows[k],
                )),
        },
    decreases rows.len() - from,
{
    if from < rows.len() {
        lemma_next_row(filters, rows, from + 1, floor);
    }
}

/// Whether an event is one that the filters let through.
pub open spec fn selected(filters: FiltersView, event: EventView) -> bool {
    &&& event.did == filters.did
    &&& event.payload matches crate::events::PayloadView::Commit(commit)
        ==> filters.collections.contains(commit.collection)
}

/// What every single step keeps: the start and the pinned tip stay, the floor
/// never falls, an event handed to the sink lies above everything reached
/// before and passes the filters, and progress and phase stay valid.
pub proof fn law_step_keeps(
    filters: FiltersView,
    p: Progress,
    phase: PhaseView,
    reply: ReplyView,
    cancelled: bool,
)
    requires
        p.valid(),
        phase matches PhaseView::Applying { page, work, rows, next } ==> 0 <= next < rows.len()
            && rows[next].seq > p.floor,
    ensures
        ({
            let step = replay_step(filters, p, phase, reply, cancelled);
            &&& step.progress.valid()
            &&& step.progress.after_seq == p.after_seq
            &&& p.pinned_tip is Some ==> step.progress.pinned_tip == p.pinned_tip
            &&& step.progress.floor >= p.floor
            &&& p.events_applied <= step.progress.events_applied <= p.events_applied + 1
            &&& reached(step.progress, step.phase) >= reached(p, phase) || step.phase is Over
            &&& step.action matches ActionView::Apply(event) ==> {
                &&& event.seq > reached(p, phase)
                &&& event.seq == reached(step.progress, step.phase)
                &&& selected(filters, event)
                &&& step.phase is Applying
            }
            &&& step.phase matches PhaseView::Applying { page, work, rows, next } ==> 0 <= next
                < rows.len() && rows[next].seq > step.progress.floor
        }),
{
    match (phase, reply) {
        (
            PhaseView::Working { page, work: Work::Block { unit, range, index }, attempt },
            ReplyView::Block(Ok(frame)),
        ) => {
            if let Ok(rows) = frame_rows(frame) {
                lemma_next_row(filters, rows, 0, p.floor);
            }
        },
        (
            PhaseView::Working { page, work: Work::Segment { unit }, attempt },
            ReplyView::Segment(Ok(bytes)),
        ) => {
            lemma_next_row(filters, flattened(segment_blocks(bytes).0), 0, p.floor);
        },
        (PhaseView::Applying { page, work, rows, next }, ReplyView::Applied(true)) => {
            lemma_next_row(filters, rows, next + 1, rows[next].seq);
        },
        _ => {},
    }
}

/// Events reach the sink in strictly rising seq order, all of them above the
/// floor that the replay stands at, and all of them selected by the filters:
/// none is handed over twice, whatever the archive serves.
pub proof fn law_events_in_order(
    filters: FiltersView,
    p: Progress,
    phase: PhaseView,
    replies: Seq<(ReplyView, bool)>,
)
    requires
        p.valid(),
        phase matches PhaseView::Applying { page, work, rows, next } ==> 0 <= next < rows.len()
            && rows[next].seq > p.floor,
    ensures
        forall|i: int|
            0 <= i < actions(filters, p, phase, replies).len() ==> (#[trigger] actions(
                filters,
                p,
                phase,
                replies,
            )[i] matches ActionView::Apply(event) ==> event.seq > reached(p, phase) && selected(
                filters,
                event,
            )),
        forall|i: int, j: int|
            0 <= i < j < actions(filters, p, phase, replies).len() ==> (#[trigger] actions(
                filters,
                p,
                phase,
                replies,
            )[i] matches ActionView::Apply(earlier) ==> (#[trigger] actions(
                filters,
                p,
                phase,
                replies,
            )[j] matches ActionView::Apply(later) ==> earlier.seq < later.seq)),
    decreases replies.len(),
{
    let all = actions(filters, p, phase, replies);
    if replies.len() > 0 {
        let step = replay_step(filters, p, phase, replies[0].0, replies[0].1);
        let rest = actions(filters, step.progress, step.phase, replies.skip(1));
        law_step_keeps(filters, p, phase, replies[0].0, replies[0].1);
        law_events_in_order(filters, step.progress, step.phase, replies.skip(1));
        assert(all =~= seq![step.action] + rest);
        if step.phase is Over {
            lemma_over_applies_nothing(filters, step.progress, replies.skip(1));
        }
        assert forall|i: int| 0 <= i < all.len() implies (#[trigger] all[i] matches ActionView::Apply(
            event,
        ) ==> event.seq > reached(p, phase) && selected(filters, event)) by {
            if i > 0 {
                assert(all[i] == rest[i - 1]);
            }
        }
        assert forall|i: int, j: int| 0 <= i < j < all.len() implies (#[trigger] all[i]
            matches ActionView::Apply(earlier) ==> (#[trigger] all[j] matches ActionView::Apply(
            later,
        ) ==> earlier.seq < later.seq)) by {
            assert(all[j] == rest[j - 1]);
            if i > 0 {
                assert(all[i] == rest[i - 1]);
            }
        }
    }
}

/// A replay that is over hands nothing to the sink.
proof fn lemma_over_applies_nothing(
    filters: FiltersView,
    p: Progress,
    replies: Seq<(ReplyView, bool)>,
)
    ensures
        forall|i: int|
            0 <= i < actions(filters, p, PhaseView::Over, replies).len() ==> !(#[trigger] actions(
                filters,
                p,
                PhaseView::Over,
                replies,
            )[i] is Apply),
    decreases replies.len(),
{
    if replies.len() > 0 {
        let all = actions(filters, p, PhaseView::Over, replies);
        let step = replay_step(filters, p, PhaseView::Over, replies[0].0, replies[0].1);
        let rest = actions(filters, step.progress, step.phase, replies.skip(1));
        lemma_over_applies_nothing(filters, step.progress, replies.skip(1));
        assert(all =~= seq![step.action] + rest);
        assert forall|i: int| 0 <= i < all.len() implies !(#[trigger] all[i] is Apply) by {
            if i > 0 {
                assert(all[i] == rest[i - 1]);
            }
        }
    }
}

/// A run that is taken up again from the last applied seq repeats nothing:
/// every event it hands over lies above that seq.
pub proof fn law_rerun_repeats_nothing(
    filters: FiltersView,
    last_applied: u64,
    replies: Seq<(ReplyView, bool)>,
    i: int,
)
    requires
        0 <= i < replies.len(),
    ensures
        ({
            let phase = PhaseView::Planning { attempt: 0 };
            let all = actions(filters, started(last_applied), phase, replies);
            all[i] matches ActionView::Apply(event) ==> event.seq > last_applied
        }),
{
    let phase = PhaseView::Planning { attempt: 0 };
    law_events_in_order(filters, started(last_applied), phase, replies);
    lemma_actions_len(filters, started(last_applied), phase, replies);
    let all = actions(filters, started(last_applied), phase, replies);
    assert(all[i] matches ActionView::Apply(event) ==> event.seq > reached(
        started(last_applied),
        phase,
    ));
}

pub(crate) proof fn lemma_actions_len(
    filters: FiltersView,
    p: Progress,
    phase: PhaseView,
    replies: Seq<(ReplyView, bool)>,
)
    ensures
        actions(filters, p, phase, replies).len() == replies.len(),
    decreases replies.len(),
{
    if replies.len() > 0 {
        let step = replay_step(filters, p, phase, replies[0].0, replies[0].1);
        lemma_actions_len(filters, step.progress, step.phase, replies.skip(1));
    }
}

/// A cancelled run starts no download and no wait any more.
pub proof fn law_cancelled_run_asks_for_nothing(
    filters: FiltersView,
    p: Progress,
    phase: PhaseView,
    reply: ReplyView,
)
    ensures
        ({
            let action = replay_step(filters, p, phase, reply, true).action;
            action is Apply || action is RemoveSegment || action is Done || action is Failed
        }),
{
}

/// The page that the machine works on when a reply arrives.
pub open spec fn page_at(p: Progress, phase: PhaseView, reply: ReplyView) -> Option<PageView> {
    match (phase, reply) {
        (PhaseView::Planning { .. }, ReplyView::Planned(Ok(plan))) => Some(
            PageView { plan, floor: p.floor },
        ),
        (PhaseView::Working { page, .. }, _) => Some(page),
        (PhaseView::Applying { page, .. }, _) => Some(page),
        (PhaseView::Removing { page, .. }, _) => Some(page),
        _ => None,
    }
}

/// A run that was not cancelled only ends well once its plan reaches the
/// pinned tip.
pub proof fn law_done_means_swept(
    filters: FiltersView,
    p: Progress,
    phase: PhaseView,
    reply: ReplyView,
)
    requires
        phase_valid(filters, p, phase),
    ensures
        replay_step(filters, p, phase, reply, false).action matches ActionView::Done(outcome) ==> {
            &&& page_at(p, phase, reply) matches Some(page)
            &&& page.plan.planned_through_seq >= outcome.sealed_tip_seq
        },
{
}

/// A call that failed for the time being is made again as it was, after the
/// pause that the server asked for or the growing one.
pub proof fn law_retry_repeats_the_call(
    filters: FiltersView,
    p: Progress,
    page: PageView,
    work: Work,
    attempt: u32,
    error: ArchiveErrorView,
)
    requires
        work is Block || work is Segment,
        retry_delay(error, attempt) is Some,
    ensures
        ({
            let reply = if work is Block {
                ReplyView::Block(Err(error))
            } else {
                ReplyView::Segment(Err(error))
            };
            let phase = PhaseView::Working { page, work, attempt };
            let pause = replay_step(filters, p, phase, reply, false);
            let again = replay_step(filters, pause.progress, pause.phase, ReplyView::Waited, false);
            &&& pause.action == (ActionView::Wait { seconds: retry_delay(error, attempt)->0 })
            &&& again.action == fetch_action(page.plan, work)
            &&& again.progress == p
        }),
{
}

/// A segment that disappeared makes the driver plan anew, from the floor it
/// reached and up to the tip it pinned.
pub proof fn law_vanished_segment_replans(
    filters: FiltersView,
    p: Progress,
    page: PageView,
    work: Work,
    attempt: u32,
    body: Seq<char>,
)
    requires
        work is Block || work is Segment,
    ensures
        ({
            let error = ArchiveErrorView::Http { status: 404, body };
            let reply = if work is Block {
                ReplyView::Block(Err(error))
            } else {
                ReplyView::Segment(Err(error))
            };
            let step = replay_step(
                filters,
                p,
                PhaseView::Working { page, work, attempt },
                reply,
                false,
            );
            &&& step.action == ActionView::Plan(plan_request(filters, p))
            &&& step.progress == p
        }),
{
}

} // verus!
