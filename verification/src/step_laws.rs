//! What each step of a replay asks for, given what came back.
use vstd::prelude::*;

use crate::archive::{next_delay, unit_views, ArchiveError, SnapshotPlan};
use crate::events::Payload;
use crate::jss::{
    block_views, decode_block_frame, for_each_block, row_views, BlockError, RawEvent, RawEventView,
    SegmentError,
};
use crate::replay::{
    flattened, next_row, next_work, Action, PhaseView, Replay, ReplayError, ReplayFilters, Reply, Work,
};
use crate::replay_laws::{law_blocks_follow_one_another, law_next_row_skips_nothing_wanted};

verus! {

/// A replay begins by asking for the plan of the account and the collections,
/// behind the seq it was given and without an upper bound; one that is
/// cancelled is over with nothing applied.
pub proof fn law_replay_begins_with_a_plan(
    filters: ReplayFilters,
    after_seq: u64,
    cancelled: bool,
    r: (Replay, Action),
    i: int,
)
    requires
        call_ensures(Replay::start, (filters, after_seq, cancelled), r),
    ensures
        !cancelled ==> r.0.phase() is Planning && (r.1 matches Action::Plan(request) && {
            &&& request.dids@.len() == 1 && request.dids@[0]@ == filters.did@
            &&& request.collections@.len() == filters.collections@.len()
            &&& 0 <= i < filters.collections@.len() ==> request.collections@[i]@
                == filters.collections@[i]@
            &&& request.after_seq == after_seq
            &&& request.before_seq is None
        }),
        cancelled ==> (r.1 matches Action::Done(outcome) && outcome.events_applied == 0
            && outcome.last_seq is None && outcome.sealed_tip_seq == after_seq),
        r.0.progress().floor == after_seq,
        r.0.progress().events_applied == 0,
        r.0.progress().last_seq is None,
{
    if let Action::Plan(request) = r.1 {
        assert(request@.dids.len() == request.dids@.len());
        assert(request@.dids[0] == request.dids@[0]@);
        assert(request@.collections.len() == request.collections@.len());
        assert(filters@.collections.len() == filters.collections@.len());
        if 0 <= i < filters.collections@.len() {
            assert(request@.collections[i] == request.collections@[i]@);
            assert(filters@.collections[i] == filters.collections@[i]@);
        }
    }
}

/// A page is worked through from its first unit on: a whole segment is
/// downloaded by its name, and of a list of blocks the first; a unit of an
/// unknown mode ends the replay.
pub proof fn law_page_begins_with_its_first_unit(
    replay: Replay,
    plan: SnapshotPlan,
    r: (Replay, Action),
)
    requires
        call_ensures(Replay::step, (replay, Reply::Planned(Ok(plan)), false), r),
        replay.phase() is Planning,
        plan.segments@.len() > 0,
    ensures
        ({
            let unit = plan.segments@[0];
            &&& unit.mode@ == "segment"@ ==> (r.1 matches Action::FetchSegment { name } && name@
                == unit.name@)
            &&& unit.mode@ == "blocks"@ && unit.blocks@.len() > 0 && unit.blocks@[0].first
                <= unit.blocks@[0].last ==> (r.1 matches Action::FetchBlock { segment, index }
                && segment@ == unit.name@ && index == unit.blocks@[0].first)
            &&& unit.mode@ != "segment"@ && unit.mode@ != "blocks"@ ==> (
            r.1 matches Action::Failed(ReplayError::UnknownMode { mode, segment }) && mode@
                == unit.mode@ && segment@ == unit.name@)
            &&& r.0.progress().pinned_tip == match replay.progress().pinned_tip {
                Some(tip) => Some(tip),
                None => Some(plan.sealed_tip_seq),
            }
            &&& r.0.progress().floor >= replay.progress().floor
            &&& r.1 is FetchBlock || r.1 is FetchSegment ==> r.0.progress().floor
                == replay.progress().floor
            &&& r.0.progress().last_seq == replay.progress().last_seq
            &&& r.0.progress().events_applied == replay.progress().events_applied
        }),
{
    reveal_strlit("segment");
    reveal_strlit("blocks");
    assert("segment"@.len() == 7 && "blocks"@.len() == 6);
    let unit = plan.segments@[0];
    let units = plan@.segments;
    assert(units == unit_views(plan.segments@));
    assert(units[0] == unit@);
    reveal_with_fuel(next_work, 2);
}

/// A page without units ends the replay where it reaches the tip; where it
/// does not, the next one is asked for behind what it planned, and one that
/// leads nowhere is an error.
pub proof fn law_empty_pages_lead_on_or_end(
    replay: Replay,
    plan: SnapshotPlan,
    r: (Replay, Action),
)
    requires
        call_ensures(Replay::step, (replay, Reply::Planned(Ok(plan)), false), r),
        replay.phase() is Planning,
        plan.segments@.len() == 0,
    ensures
        ({
            let tip = match replay.progress().pinned_tip {
                Some(tip) => tip,
                None => plan.sealed_tip_seq,
            };
            let floor = replay.progress().floor;
            &&& plan.planned_through_seq >= tip ==> (r.1 matches Action::Done(outcome)
                && outcome.sealed_tip_seq == tip && outcome.events_applied
                == replay.progress().events_applied && outcome.last_seq
                == replay.progress().last_seq)
            &&& floor < plan.planned_through_seq < tip ==> (r.1 matches Action::Plan(request)
                && request.after_seq == plan.planned_through_seq && request.before_seq == Some(tip))
            &&& plan.planned_through_seq < tip && plan.planned_through_seq <= floor ==> (
            r.1 matches Action::Failed(ReplayError::NoProgress { planned_through, floor: at })
                && planned_through == plan.planned_through_seq && at == floor)
        }),
{
    assert(plan@.segments.len() == 0);
    if let Action::Plan(request) = r.1 {
        assert(request@.after_seq == request.after_seq);
    }
}

/// The first row of a block that is above the floor, of the account and in a
/// listed collection, is handed to the sink as it stands.
pub proof fn law_first_wanted_row_is_handed_on(
    replay: Replay,
    frame: Vec<u8>,
    slice: &[u8],
    rows: Vec<RawEvent>,
    cancelled: bool,
    r: (Replay, Action),
    k: int,
    i: int,
)
    requires
        call_ensures(Replay::step, (replay, Reply::Block(Ok(frame)), cancelled), r),
        replay.phase() matches PhaseView::Working { page, work, attempt } && work is Block,
        slice@ == frame@,
        call_ensures(decode_block_frame, (slice,), Ok::<Vec<RawEvent>, BlockError>(rows)),
        0 <= k < rows@.len(),
        rows@[k].seq > replay.progress().floor,
        rows@[k].did@ == replay.filters().did,
        4 <= rows@[k].kind <= 6 || (0 <= i < replay.filters().collections.len()
            && replay.filters().collections[i] == rows@[k].collection@),
        forall|j: int|
            0 <= j < k ==> (#[trigger] rows@[j]).seq <= replay.progress().floor || rows@[j].did@
                != replay.filters().did || ((rows@[j].kind == 1 || rows@[j].kind == 2 || rows@[j].kind
                == 3 || rows@[j].kind == 7) && forall|c: int|
                0 <= c < replay.filters().collections.len()
                    ==> #[trigger] replay.filters().collections[c] != rows@[j].collection@),
    ensures
        r.1 matches Action::Apply(event) ==> {
            &&& event.seq == rows@[k].seq
            &&& event.did@ == rows@[k].did@
            &&& event.payload matches Payload::Commit(commit) ==> commit.rkey@ == rows@[k].rkey@
                && commit.collection@ == rows@[k].collection@ && commit.rev@ == rows@[k].rev@
        },
        r.1 is Apply || (r.1 matches Action::Failed(ReplayError::Row { error })),
        rows@[k].kind == 3 || 4 <= rows@[k].kind <= 6 ==> r.1 is Apply,
        r.0.progress() == replay.progress(),
{
    let views = row_views(rows@);
    let filters = replay.filters();
    let floor = replay.progress().floor;
    assert(views[k] == rows@[k]@);
    law_next_row_skips_nothing_wanted(filters, views, 0, floor, k, i);
    let next = next_row(filters, views, 0, floor)->0;
    lemma_next_row(filters, views, 0, floor);
    assert(views[next] == rows@[next]@);
    if next < k {
        assert(rows@[next].seq > floor);
        assert(rows@[next].did@ == filters.did);
        if filters.collections.contains(views[next].collection) {
            let c = choose|c: int|
                0 <= c < filters.collections.len() && filters.collections[c]
                    == views[next].collection;
            assert(filters.collections[c] == rows@[next].collection@);
        }
    }
    assert(next == k);
    if let Action::Apply(event) = r.1 {
        assert(event@.seq == event.seq);
    }
}

proof fn lemma_next_row(
    filters: crate::replay::FiltersView,
    rows: Seq<RawEventView>,
    from: int,
    floor: u64,
)
    requires
        0 <= from,
    ensures
        next_row(filters, rows, from, floor) matches Some(next) ==> from <= next < rows.len()
            && rows[next].seq > floor && filters.matches(rows[next]),
    decreases rows.len() - from,
{
    if from < rows.len() {
        lemma_next_row(filters, rows, from + 1, floor);
    }
}

/// A block without a wanted row is followed by the next one of its range, and
/// the last one of a segment by the next unit; a block that cannot be decoded
/// ends the replay.
pub proof fn law_blocks_are_fetched_one_by_one(
    replay: Replay,
    frame: Vec<u8>,
    slice: &[u8],
    block: Result<Vec<RawEvent>, BlockError>,
    r: (Replay, Action),
    unit: usize,
    range: usize,
    index: u64,
)
    requires
        call_ensures(Replay::step, (replay, Reply::Block(Ok(frame)), false), r),
        replay.phase() matches PhaseView::Working { page, work, attempt } && work == (Work::Block {
            unit,
            range,
            index,
        }) && unit < page.plan.segments.len() && page.plan.segments[unit as int].mode == "blocks"@
            && range < page.plan.segments[unit as int].blocks.len() <= usize::MAX
            && page.plan.segments.len() <= usize::MAX,
        slice@ == frame@,
        call_ensures(decode_block_frame, (slice,), block),
    ensures
        ({
            let page = replay.phase()->Working_page;
            let segment = page.plan.segments[unit as int];
            &&& block matches Err(error) ==> (r.1 matches Action::Failed(
                ReplayError::DecodeBlock { segment: name, index: at, error: e },
            ) && name@ == segment.name && at == index && e == error)
            &&& (block matches Ok(rows) && forall|j: int|
                0 <= j < rows@.len() ==> (#[trigger] rows@[j]).seq <= replay.progress().floor
                    || rows@[j].did@ != replay.filters().did) && index
                < segment.blocks[range as int].last ==> (
            r.1 matches Action::FetchBlock { segment: name, index: at } && name@ == segment.name
                && at == index + 1)
            &&& (block matches Ok(rows) && forall|j: int|
                0 <= j < rows@.len() ==> (#[trigger] rows@[j]).seq <= replay.progress().floor
                    || rows@[j].did@ != replay.filters().did) && index
                >= segment.blocks[range as int].last && range + 1 < segment.blocks.len()
                && segment.blocks[range + 1].first <= segment.blocks[range + 1].last ==> (
            r.1 matches Action::FetchBlock { segment: name, index: at } && name@ == segment.name
                && at == segment.blocks[range + 1].first)
            &&& (block matches Ok(rows) && forall|j: int|
                0 <= j < rows@.len() ==> (#[trigger] rows@[j]).seq <= replay.progress().floor
                    || rows@[j].did@ != replay.filters().did) && index
                >= segment.blocks[range as int].last && range + 1 == segment.blocks.len() && unit
                + 1 < page.plan.segments.len() && page.plan.segments[unit + 1].mode == "segment"@
                ==> (r.1 matches Action::FetchSegment { name } && name@ == page.plan.segments[unit
                + 1].name)
        }),
{
    reveal_strlit("segment");
    reveal_strlit("blocks");
    assert("segment"@.len() == 7 && "blocks"@.len() == 6);
    let page = replay.phase()->Working_page;
    let units = page.plan.segments;
    let filters = replay.filters();
    let floor = replay.progress().floor;
    if let Ok(rows) = block {
        if forall|j: int|
            0 <= j < rows@.len() ==> (#[trigger] rows@[j]).seq <= floor || rows@[j].did@
                != filters.did {
            let views = row_views(rows@);
            lemma_next_row(filters, views, 0, floor);
            if let Some(next) = next_row(filters, views, 0, floor) {
                assert(views[next] == rows@[next]@);
                assert(false);
            }
            reveal_with_fuel(next_work, 3);
        }
    }
}

/// A segment that cannot be read to its end is not applied; of one that can,
/// rows are handed on as long as one is wanted, and then its file is removed.
pub proof fn law_segments_are_applied_and_removed(
    replay: Replay,
    bytes: Vec<u8>,
    slice: &[u8],
    walk: (Vec<Vec<RawEvent>>, Option<SegmentError>),
    cancelled: bool,
    r: (Replay, Action),
    unit: usize,
    b: int,
    k: int,
    i: int,
)
    requires
        call_ensures(Replay::step, (replay, Reply::Segment(Ok(bytes)), cancelled), r),
        replay.phase() matches PhaseView::Working { page, work, attempt } && work
            == (Work::Segment { unit }),
        slice@ == bytes@,
        call_ensures(for_each_block, (slice,), walk),
    ensures
        ({
            let name = replay.phase()->Working_page.plan.segments[unit as int].name;
            &&& walk.1 matches Some(error) ==> (r.1 matches Action::Failed(
                ReplayError::DecodeSegment { name: of, error: e },
            ) && of@ == name && e == error)
            &&& walk.1 is None && (forall|x: int, y: int|
                0 <= x < walk.0@.len() && 0 <= y < walk.0@[x]@.len() ==> (
                #[trigger] walk.0@[x]@[y]).seq <= replay.progress().floor || walk.0@[x]@[y].did@
                    != replay.filters().did) ==> (r.1 matches Action::RemoveSegment { name: of }
                && of@ == name)
            &&& walk.1 is None && 0 <= b < walk.0@.len() && 0 <= k < walk.0@[b]@.len()
                && walk.0@[b]@[k].seq > replay.progress().floor && walk.0@[b]@[k].did@
                == replay.filters().did && 0 <= i < replay.filters().collections.len()
                && replay.filters().collections[i] == walk.0@[b]@[k].collection@ ==> {
                &&& r.1 is Apply || (r.1 matches Action::Failed(ReplayError::Row { error }))
                &&& r.1 matches Action::Apply(event) ==> event.seq > replay.progress().floor
                    && event.did@ == replay.filters().did
            }
        }),
{
    let filters = replay.filters();
    let floor = replay.progress().floor;
    let blocks = block_views(walk.0@);
    let rows = flattened(blocks);
    lemma_next_row(filters, rows, 0, floor);
    if walk.1 is None && 0 <= b < walk.0@.len() && 0 <= k < walk.0@[b]@.len()
        && walk.0@[b]@[k].seq > floor && walk.0@[b]@[k].did@ == filters.did && 0 <= i
        < filters.collections.len() && filters.collections[i] == walk.0@[b]@[k].collection@ {
        assert(blocks[b] == row_views(walk.0@[b]@));
        assert(blocks[b][k] == walk.0@[b]@[k]@);
        law_blocks_follow_one_another(blocks, b, k);
        let at = flattened(blocks.take(b)).len() + k;
        law_next_row_skips_nothing_wanted(filters, rows, 0, floor, at, i);
        if let Action::Apply(event) = r.1 {
            assert(event@.seq == event.seq);
        }
    }
    if forall|x: int, y: int|
        0 <= x < walk.0@.len() && 0 <= y < walk.0@[x]@.len() ==> (#[trigger] walk.0@[x]@[y]).seq
            <= floor || walk.0@[x]@[y].did@ != filters.did {
        if let Some(next) = next_row(filters, rows, 0, floor) {
            let (x, y) = lemma_place(blocks, next);
            assert(blocks[x] == row_views(walk.0@[x]@));
            assert(blocks[x][y] == walk.0@[x]@[y]@);
            assert(walk.0@[x]@[y].seq > floor);
            assert(false);
        }
    }
}

proof fn lemma_place(blocks: Seq<Seq<RawEventView>>, at: int) -> (r: (int, int))
    requires
        0 <= at < flattened(blocks).len(),
    ensures
        0 <= r.0 < blocks.len(),
        0 <= r.1 < blocks[r.0].len(),
        flattened(blocks)[at] == blocks[r.0][r.1],
    decreases blocks.len(),
{
    let rest = blocks.drop_last();
    let before = flattened(rest);
    if at < before.len() {
        let (x, y) = lemma_place(rest, at);
        assert(rest[x] == blocks[x]);
        (x, y)
    } else {
        (blocks.len() - 1, at - before.len())
    }
}

/// Behind the removal of a spent segment comes the next unit of the page.
pub proof fn law_next_unit_follows_a_segment(replay: Replay, r: (Replay, Action))
    requires
        call_ensures(Replay::step, (replay, Reply::Removed, false), r),
        replay.phase() matches PhaseView::Removing { page, unit } && unit + 1
            < page.plan.segments.len() <= usize::MAX,
    ensures
        ({
            let page = replay.phase()->Removing_page;
            let next = page.plan.segments[replay.phase()->Removing_unit + 1];
            &&& next.mode == "segment"@ ==> (r.1 matches Action::FetchSegment { name } && name@
                == next.name)
            &&& next.mode == "blocks"@ && next.blocks.len() > 0 && next.blocks[0].first
                <= next.blocks[0].last ==> (r.1 matches Action::FetchBlock { segment, index }
                && segment@ == next.name && index == next.blocks[0].first)
        }),
{
    reveal_strlit("segment");
    reveal_strlit("blocks");
    assert("segment"@.len() == 7 && "blocks"@.len() == 6);
    reveal_with_fuel(next_work, 2);
}

/// An event that the sink took raises the floor to it and is counted; one that
/// it refused ends the replay, and is not.
pub proof fn law_taken_events_are_counted(
    replay: Replay,
    cancelled: bool,
    r: (Replay, Action),
    refused: (Replay, Action),
)
    requires
        replay.phase() is Applying,
        replay.valid(),
        call_ensures(Replay::step, (replay, Reply::Applied(true), cancelled), r),
        call_ensures(Replay::step, (replay, Reply::Applied(false), cancelled), refused),
    ensures
        ({
            let rows = replay.phase()->rows;
            let next = replay.phase()->next;
            &&& r.0.progress().last_seq == Some(rows[next].seq)
            &&& r.0.progress().floor >= rows[next].seq
            &&& r.0.progress().events_applied == replay.progress().events_applied + 1
            &&& r.0.progress().pinned_tip == replay.progress().pinned_tip
            &&& refused.1 == Action::Failed(ReplayError::Sink)
            &&& refused.0.progress() == replay.progress()
        }),
{
}

/// A download that is gone has the plan asked for again from where the replay
/// stands; one that was refused, or answered otherwise, ends it.
pub proof fn law_lost_segments_are_planned_again(
    replay: Replay,
    error: ArchiveError,
    whole: bool,
    r: (Replay, Action),
)
    requires
        call_ensures(
            Replay::step,
            (
                replay,
                if whole {
                    Reply::Segment(Err(error))
                } else {
                    Reply::Block(Err(error))
                },
                false,
            ),
            r,
        ),
        replay.phase() matches PhaseView::Working { page, work, attempt } && (if whole {
            work is Segment
        } else {
            work is Block
        }),
    ensures
        error matches ArchiveError::Http { status, body } ==> (status == 404 ==> (
        r.1 matches Action::Plan(request) && request.after_seq == replay.progress().floor
            && request.before_seq == replay.progress().pinned_tip)),
        error matches ArchiveError::Http { status, body } ==> (status != 404 ==> r.1 is Failed),
        error is Unauthorized ==> r.1 is Failed,
        error matches ArchiveError::RateLimited { retry_after: Some(seconds) } ==> r.1 == (
        Action::Wait { seconds }) && r.0.phase() is Working,
        error is Other ==> r.1 is Wait && r.0.phase() is Working,
        r.0.progress() == replay.progress(),
{
    if let Action::Plan(request) = r.1 {
        assert(request@.after_seq == request.after_seq);
    }
}

/// Behind a wait the same is asked for again: the plan, or the download.
pub proof fn law_waits_lead_back(replay: Replay, r: (Replay, Action))
    requires
        call_ensures(Replay::step, (replay, Reply::Waited, false), r),
    ensures
        replay.phase() is Planning ==> (r.1 matches Action::Plan(request) && request.after_seq
            == replay.progress().floor && request.before_seq == replay.progress().pinned_tip),
        replay.phase() matches PhaseView::Working { page, work, attempt } ==> {
            &&& work matches Work::Block { unit, range, index } ==> (
            r.1 matches Action::FetchBlock { segment, index: at } && segment@
                == page.plan.segments[unit as int].name && at == index)
            &&& work matches Work::Segment { unit } ==> (r.1 matches Action::FetchSegment { name }
                && name@ == page.plan.segments[unit as int].name)
        },
        replay.phase() is Planning || (replay.phase() matches PhaseView::Working {
            page,
            work,
            attempt,
        } && (work is Block || work is Segment)) ==> r.0.progress() == replay.progress()
            && r.0.phase() == replay.phase(),
{
    if let Action::Plan(request) = r.1 {
        assert(request@.after_seq == request.after_seq);
    }
}

/// A run that was asked to stop downloads nothing more, asks for nothing more
/// and waits for nothing more.
pub proof fn law_stopped_runs_ask_for_nothing(replay: Replay, reply: Reply, r: (Replay, Action))
    requires
        call_ensures(Replay::step, (replay, reply, true), r),
    ensures
        !(r.1 is Plan) && !(r.1 is FetchBlock) && !(r.1 is FetchSegment) && !(r.1 is Wait),
        r.1 matches Action::Done(outcome) ==> {
            &&& outcome.events_applied == r.0.progress().events_applied
            &&& outcome.last_seq == r.0.progress().last_seq
        },
{
}

/// A call that is turned away is made again after as long as the server asks,
/// or else after as long as the number of the attempt says, and each attempt
/// counts.
pub proof fn law_attempts_are_counted(
    replay: Replay,
    error: ArchiveError,
    r: (Replay, Action),
    attempt: u32,
    delay: u64,
)
    requires
        call_ensures(Replay::step, (replay, Reply::Planned(Err(error)), false), r),
        replay.phase() == (PhaseView::Planning { attempt }),
        attempt < u32::MAX,
        call_ensures(next_delay, (attempt,), delay),
    ensures
        error matches ArchiveError::RateLimited { retry_after: Some(seconds) } ==> r.1 == (
        Action::Wait { seconds }),
        error matches ArchiveError::RateLimited { retry_after: None } ==> r.1 == (Action::Wait {
            seconds: delay,
        }),
        error is Other ==> r.1 == (Action::Wait { seconds: delay }),
        r.1 is Wait ==> r.0.phase() == (PhaseView::Planning { attempt: (attempt + 1) as u32 }),
        error is Unauthorized || error is Http ==> (r.1 matches Action::Failed(
            ReplayError::Plan { error: e },
        ) && e@ == error@),
        r.0.progress() == replay.progress(),
{
}

/// So is a download.
pub proof fn law_download_attempts_are_counted(
    replay: Replay,
    error: ArchiveError,
    r: (Replay, Action),
    attempt: u32,
    delay: u64,
)
    requires
        call_ensures(Replay::step, (replay, Reply::Block(Err(error)), false), r),
        replay.phase() matches PhaseView::Working { page, work, attempt: a } && work is Block && a
            == attempt,
        attempt < u32::MAX,
        call_ensures(next_delay, (attempt,), delay),
        error is Other || (error matches ArchiveError::RateLimited { retry_after: None }),
    ensures
        r.1 == (Action::Wait { seconds: delay }),
        r.0.phase() == (PhaseView::Working {
            page: replay.phase()->Working_page,
            work: replay.phase()->Working_work,
            attempt: (attempt + 1) as u32,
        }),
{
}

/// Behind the last unit of a page the replay is over where the page reaches the
/// tip, and else asks for the next page behind what was planned or applied,
/// whichever is further, up to the same tip.
pub proof fn law_pages_follow_one_another(replay: Replay, r: (Replay, Action), tip: u64)
    requires
        call_ensures(Replay::step, (replay, Reply::Removed, false), r),
        replay.phase() matches PhaseView::Removing { page, unit } && unit + 1
            == page.plan.segments.len(),
        replay.progress().pinned_tip == Some(tip),
    ensures
        ({
            let planned = replay.phase()->Removing_page.plan.planned_through_seq;
            let floor = replay.progress().floor;
            &&& planned >= tip ==> (r.1 matches Action::Done(outcome) && outcome.sealed_tip_seq
                == tip && outcome.events_applied == replay.progress().events_applied
                && outcome.last_seq == replay.progress().last_seq)
            &&& planned < tip ==> (r.1 matches Action::Plan(request) && request.after_seq == if floor
                < planned {
                planned
            } else {
                floor
            } && request.before_seq == Some(tip))
        }),
{
    if let Action::Plan(request) = r.1 {
        assert(request@.after_seq == request.after_seq);
    }
}

} // verus!
