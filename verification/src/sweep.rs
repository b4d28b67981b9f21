//! What a whole sweep of the archive guarantees, from the first plan to the
//! end: every download that a plan names is made, every row that is wanted is
//! taken by the sink, and what was passed over is accounted for.
use vstd::prelude::*;

use crate::archive::{ArchiveErrorView, PlanSegmentView, SnapshotPlanView};
use crate::jss::{frame_rows, segment_blocks, RawEventView};
use crate::replay::{
    actions, flattened, lemma_actions_len, lemma_next_row, next_row, next_work, replay_step,
    started, vanished, work_after_block, work_in, work_step, FiltersView, PageView, PhaseView,
    Progress, ReplyView, Work,
};

verus! {

// ---- a run ----

/// Where the machine stands after a number of replies.
pub open spec fn stands(
    filters: FiltersView,
    p: Progress,
    phase: PhaseView,
    replies: Seq<(ReplyView, bool)>,
    after: int,
) -> (Progress, PhaseView)
    decreases after,
{
    if after <= 0 || replies.len() == 0 {
        (p, phase)
    } else {
        let step = replay_step(filters, p, phase, replies[0].0, replies[0].1);
        stands(filters, step.progress, step.phase, replies.skip(1), after - 1)
    }
}

/// Whether a run comes to its end without a failure.
pub open spec fn ends_well(
    filters: FiltersView,
    p: Progress,
    phase: PhaseView,
    replies: Seq<(ReplyView, bool)>,
) -> bool {
    replies.len() > 0 && actions(filters, p, phase, replies).last() is Done
}

/// The seqs of the events that the sink took during a run.
pub open spec fn taken(
    filters: FiltersView,
    p: Progress,
    phase: PhaseView,
    replies: Seq<(ReplyView, bool)>,
) -> Seq<u64>
    decreases replies.len(),
{
    if replies.len() == 0 {
        Seq::empty()
    } else {
        let step = replay_step(filters, p, phase, replies[0].0, replies[0].1);
        let rest = taken(filters, step.progress, step.phase, replies.skip(1));
        match (phase, replies[0].0) {
            (PhaseView::Applying { page, work, rows, next }, ReplyView::Applied(true)) => seq![
                rows[next].seq,
            ] + rest,
            _ => rest,
        }
    }
}

/// The rows that a reply brings to a machine that waits for a download.
pub open spec fn downloaded(phase: PhaseView, reply: ReplyView) -> Option<Seq<RawEventView>> {
    match (phase, reply) {
        (
            PhaseView::Working { page, work: Work::Block { unit, range, index }, attempt },
            ReplyView::Block(Ok(frame)),
        ) => match frame_rows(frame) {
            Ok(rows) => Some(rows),
            Err(_) => None,
        },
        (
            PhaseView::Working { page, work: Work::Segment { unit }, attempt },
            ReplyView::Segment(Ok(bytes)),
        ) => if segment_blocks(bytes).1 is None {
            Some(flattened(segment_blocks(bytes).0))
        } else {
            None
        },
        _ => None,
    }
}

/// Whether rows rise in seq.
pub open spec fn rows_rise(rows: Seq<RawEventView>) -> bool {
    forall|i: int, j: int|
        0 <= i < j < rows.len() ==> (#[trigger] rows[i]).seq < (#[trigger] rows[j]).seq
}

pub(crate) proof fn lemma_first_step(
    filters: FiltersView,
    p: Progress,
    phase: PhaseView,
    replies: Seq<(ReplyView, bool)>,
)
    requires
        replies.len() > 0,
    ensures
        ({
            let step = replay_step(filters, p, phase, replies[0].0, replies[0].1);
            &&& replies.len() == 1 ==> (ends_well(filters, p, phase, replies)
                <==> step.action is Done)
            &&& replies.len() > 1 ==> (ends_well(filters, p, phase, replies) <==> ends_well(
                filters,
                step.progress,
                step.phase,
                replies.skip(1),
            ))
        }),
{
    let step = replay_step(filters, p, phase, replies[0].0, replies[0].1);
    let rest = actions(filters, step.progress, step.phase, replies.skip(1));
    lemma_actions_len(filters, step.progress, step.phase, replies.skip(1));
    assert(actions(filters, p, phase, replies) =~= seq![step.action] + rest);
    if replies.len() > 1 {
        assert((seq![step.action] + rest).last() == rest.last());
    }
}

/// A machine that is over does not end well any more.
proof fn lemma_over(filters: FiltersView, p: Progress, replies: Seq<(ReplyView, bool)>)
    ensures
        !ends_well(filters, p, PhaseView::Over, replies),
    decreases replies.len(),
{
    if replies.len() > 0 {
        lemma_first_step(filters, p, PhaseView::Over, replies);
        let step = replay_step(filters, p, PhaseView::Over, replies[0].0, replies[0].1);
        lemma_over(filters, step.progress, replies.skip(1));
    }
}

/// A step that neither ends the run nor fails leaves a run that ends well.
proof fn lemma_goes_on(
    filters: FiltersView,
    p: Progress,
    phase: PhaseView,
    replies: Seq<(ReplyView, bool)>,
)
    requires
        ends_well(filters, p, phase, replies),
    ensures
        ({
            let step = replay_step(filters, p, phase, replies[0].0, replies[0].1);
            &&& !(step.action is Failed && step.phase is Over)
            &&& !(step.action is Done) ==> replies.len() > 1 && ends_well(
                filters,
                step.progress,
                step.phase,
                replies.skip(1),
            )
        }),
{
    let step = replay_step(filters, p, phase, replies[0].0, replies[0].1);
    lemma_first_step(filters, p, phase, replies);
    if step.phase is Over {
        lemma_over(filters, step.progress, replies.skip(1));
    }
}

// ---- rows ----

/// While rows that rise are handed to the sink, each that is wanted is taken
/// before the run ends well.
proof fn lemma_rows_taken(
    filters: FiltersView,
    p: Progress,
    phase: PhaseView,
    replies: Seq<(ReplyView, bool)>,
    k: int,
)
    requires
        ends_well(filters, p, phase, replies),
        phase is Applying,
        rows_rise(phase->rows),
        0 <= phase->next <= k < phase->rows.len(),
        filters.matches(phase->rows[k]),
    ensures
        taken(filters, p, phase, replies).contains(phase->rows[k].seq),
    decreases replies.len(),
{
    let rows = phase->rows;
    let next = phase->next;
    let step = replay_step(filters, p, phase, replies[0].0, replies[0].1);
    let rest = taken(filters, step.progress, step.phase, replies.skip(1));
    lemma_goes_on(filters, p, phase, replies);
    assert(replies[0].0 == ReplyView::Applied(true));
    assert(taken(filters, p, phase, replies) == seq![rows[next].seq] + rest);
    if k == next {
        assert((seq![rows[next].seq] + rest)[0] == rows[k].seq);
    } else {
        lemma_next_row(filters, rows, next + 1, rows[next].seq);
        assert(rows[k].seq > rows[next].seq);
        assert(next_row(filters, rows, next + 1, rows[next].seq) is Some);
        lemma_rows_taken(filters, step.progress, step.phase, replies.skip(1), k);
        let at = choose|at: int| 0 <= at < rest.len() && rest[at] == rows[k].seq;
        assert((seq![rows[next].seq] + rest)[at + 1] == rows[k].seq);
    }
}

/// In a run that ends well, every row of every download that lies above the
/// floor and passes the filters is taken by the sink, where the rows of the
/// download rise in seq.
pub proof fn law_every_row_is_taken(
    filters: FiltersView,
    p: Progress,
    phase: PhaseView,
    replies: Seq<(ReplyView, bool)>,
    at: int,
    k: int,
)
    requires
        ends_well(filters, p, phase, replies),
        0 <= at < replies.len(),
        ({
            let (here, waiting) = stands(filters, p, phase, replies, at);
            &&& downloaded(waiting, replies[at].0) matches Some(rows)
            &&& rows_rise(rows)
            &&& 0 <= k < rows.len()
            &&& rows[k].seq > here.floor
            &&& filters.matches(rows[k])
        }),
    ensures
        taken(filters, p, phase, replies).contains(
            downloaded(stands(filters, p, phase, replies, at).1, replies[at].0)->0[k].seq,
        ),
    decreases at,
{
    let step = replay_step(filters, p, phase, replies[0].0, replies[0].1);
    let rest = taken(filters, step.progress, step.phase, replies.skip(1));
    lemma_goes_on(filters, p, phase, replies);
    if at == 0 {
        let rows = downloaded(phase, replies[0].0)->0;
        lemma_next_row(filters, rows, 0, p.floor);
        assert(next_row(filters, rows, 0, p.floor) is Some);
        lemma_rows_taken(filters, step.progress, step.phase, replies.skip(1), k);
    } else {
        lemma_first_step(filters, p, phase, replies);
        assert(replies.skip(1)[at - 1] == replies[at]);
        law_every_row_is_taken(filters, step.progress, step.phase, replies.skip(1), at - 1, k);
        let seq = downloaded(stands(filters, p, phase, replies, at).1, replies[at].0)->0[k].seq;
        let i = choose|i: int| 0 <= i < rest.len() && rest[i] == seq;
        if taken(filters, p, phase, replies) != rest {
            assert(taken(filters, p, phase, replies)[i + 1] == seq);
        }
    }
}

// ---- what lies below the floor ----

/// The page that a phase belongs to.
pub open spec fn page_of(phase: PhaseView) -> Option<PageView> {
    match phase {
        PhaseView::Working { page, work, attempt } => Some(page),
        PhaseView::Applying { page, work, rows, next } => Some(page),
        PhaseView::Removing { page, unit } => Some(page),
        _ => None,
    }
}

/// Whether a plan that came in during a run says that everything up to a seq
/// is accounted for.
pub open spec fn planned_through(replies: Seq<(ReplyView, bool)>, seq: u64) -> bool {
    exists|i: int|
        0 <= i < replies.len() && ((#[trigger] replies[i]).0 matches ReplyView::Planned(Ok(plan))
            && plan.planned_through_seq == seq)
}

/// The floor that a run stands at is where it started, or the seq of an event
/// that the sink took, or one that a plan accounts for: no row is passed over
/// for any other reason.
pub proof fn law_floor_is_accounted_for(
    filters: FiltersView,
    p: Progress,
    phase: PhaseView,
    replies: Seq<(ReplyView, bool)>,
)
    ensures
        ({
            let floor = stands(filters, p, phase, replies, replies.len() as int).0.floor;
            ||| floor == p.floor
            ||| taken(filters, p, phase, replies).contains(floor)
            ||| planned_through(replies, floor)
            ||| (page_of(phase) matches Some(page) && page.plan.planned_through_seq == floor)
        }),
    decreases replies.len(),
{
    if replies.len() > 0 {
        let step = replay_step(filters, p, phase, replies[0].0, replies[0].1);
        let more = replies.skip(1);
        let rest = taken(filters, step.progress, step.phase, more);
        let all = taken(filters, p, phase, replies);
        let floor = stands(filters, p, phase, replies, replies.len() as int).0.floor;
        law_floor_is_accounted_for(filters, step.progress, step.phase, more);
        assert(stands(filters, step.progress, step.phase, more, more.len() as int).0.floor == floor);
        if rest.contains(floor) {
            let i = choose|i: int| 0 <= i < rest.len() && rest[i] == floor;
            if all != rest {
                assert(all[i + 1] == floor);
            }
        }
        if planned_through(more, floor) {
            let i = choose|i: int|
                0 <= i < more.len() && ((#[trigger] more[i]).0 matches ReplyView::Planned(Ok(plan))
                    && plan.planned_through_seq == floor);
            assert(replies[i + 1] == more[i]);
        }
        if step.progress.floor == floor && floor != p.floor {
            if phase is Applying && replies[0].0 == ReplyView::Applied(true) {
                assert(all == seq![phase->rows[phase->next].seq] + rest);
                assert(all[0] == phase->rows[phase->next].seq);
            }
        }
    }
}

// ---- the downloads of a plan ----

/// The download behind a download.
pub open spec fn work_after(units: Seq<PlanSegmentView>, work: Work) -> Work {
    match work {
        Work::Block { unit, range, index } => work_after_block(
            units,
            unit as int,
            range as int,
            index,
        ),
        Work::Segment { unit } => next_work(units, unit + 1, 0, None),
        _ => Work::End,
    }
}

/// The download that lies a number of downloads behind another.
pub open spec fn walk(units: Seq<PlanSegmentView>, work: Work, steps: nat) -> Work
    decreases steps,
{
    if steps == 0 {
        work
    } else {
        walk(units, work_after(units, work), (steps - 1) as nat)
    }
}

/// Whether a plan asks only for what this client knows, and can be counted.
pub open spec fn well_known(units: Seq<PlanSegmentView>) -> bool {
    &&& units.len() <= usize::MAX
    &&& forall|u: int|
        0 <= u < units.len() ==> {
            &&& (#[trigger] units[u]).mode == "blocks"@ || units[u].mode == "segment"@
            &&& units[u].blocks.len() <= usize::MAX
        }
}

/// How many block ranges a unit has.
spec fn ranges_of(units: Seq<PlanSegmentView>, unit: int) -> int {
    if 0 <= unit < units.len() {
        units[unit].blocks.len() as int
    } else {
        0
    }
}

/// How many blocks of a range lie ahead.
spec fn blocks_ahead(
    units: Seq<PlanSegmentView>,
    unit: int,
    range: int,
    index: Option<u64>,
) -> int {
    if 0 <= range < ranges_of(units, unit) {
        let blocks = units[unit].blocks[range];
        match index {
            Some(index) => blocks.last - index,
            None => if blocks.first <= blocks.last {
                blocks.last - blocks.first + 1
            } else {
                0
            },
        }
    } else {
        0
    }
}

/// Whether a place in a plan lies at or before a download.
pub open spec fn at_or_before(unit: int, range: int, index: Option<u64>, work: Work) -> bool {
    match work {
        Work::Block { unit: u, range: g, index: b } => unit < u || (unit == u && (range < g || (
        range == g && (index matches Some(i) ==> i <= b)))),
        Work::Segment { unit: u } => unit <= u,
        _ => false,
    }
}

/// From a place in a plan on, every download behind it is reached.
proof fn lemma_walk_reaches(
    units: Seq<PlanSegmentView>,
    unit: int,
    range: int,
    index: Option<u64>,
    work: Work,
) -> (steps: nat)
    requires
        well_known(units),
        work_in(units, work),
        0 <= unit,
        0 <= range,
        at_or_before(unit, range, index, work),
        index matches Some(i) ==> unit < units.len() && units[unit].mode == "blocks"@ && range
            < units[unit].blocks.len() && units[unit].blocks[range].first <= i
            <= units[unit].blocks[range].last,
    ensures
        walk(units, next_work(units, unit, range, index), steps) == work,
    decreases
            units.len() - unit,
            ranges_of(units, unit) - range,
            blocks_ahead(units, unit, range, index),
{
    reveal_strlit("blocks");
    reveal_strlit("segment");
    assert("blocks"@.len() != "segment"@.len());
    assert(unit < units.len());
    if units[unit].mode == "blocks"@ {
        if range >= units[unit].blocks.len() {
            lemma_walk_reaches(units, unit + 1, 0, None, work)
        } else {
            let blocks = units[unit].blocks[range];
            match index {
                None => if blocks.first <= blocks.last {
                    lemma_walk_reaches(units, unit, range, Some(blocks.first), work)
                } else {
                    lemma_walk_reaches(units, unit, range + 1, None, work)
                },
                Some(i) => {
                    let here = Work::Block { unit: unit as usize, range: range as usize, index: i };
                    if here == work {
                        0
                    } else {
                        let steps = if i < blocks.last {
                            lemma_walk_reaches(units, unit, range, Some((i + 1) as u64), work)
                        } else {
                            lemma_walk_reaches(units, unit, range + 1, None, work)
                        };
                        assert(work_after(units, here) == work_after_block(units, unit, range, i));
                        (steps + 1) as nat
                    }
                },
            }
        }
    } else {
        let here = Work::Segment { unit: unit as usize };
        if here == work {
            0
        } else {
            let steps = lemma_walk_reaches(units, unit + 1, 0, None, work);
            assert(work_after(units, here) == next_work(units, unit + 1, 0, None));
            (steps + 1) as nat
        }
    }
}

/// Nothing comes behind the end of a plan.
proof fn lemma_walk_past(units: Seq<PlanSegmentView>, work: Work, steps: nat)
    requires
        !(work is Block),
        !(work is Segment),
    ensures
        !(walk(units, work, steps) is Block),
        !(walk(units, work, steps) is Segment),
    decreases steps,
{
    if steps > 0 {
        lemma_walk_past(units, work_after(units, work), (steps - 1) as nat);
    }
}

/// The download that is due in a phase: the one that is waited for, or the one
/// behind it.
spec fn due(phase: PhaseView) -> Work {
    match phase {
        PhaseView::Working { page, work, attempt } => work,
        PhaseView::Applying { page, work, rows, next } => work_after(page.plan.segments, work),
        PhaseView::Removing { page, unit } => next_work(page.plan.segments, unit + 1, 0, None),
        _ => Work::End,
    }
}

/// Whether a reply disturbs nothing: the run is not cancelled with it, and it
/// does not say that a segment disappeared.
pub open spec fn calm(reply: (ReplyView, bool)) -> bool {
    &&& !reply.1
    &&& reply.0 matches ReplyView::Block(Err(error)) ==> !vanished(error)
    &&& reply.0 matches ReplyView::Segment(Err(error)) ==> !vanished(error)
}

/// Whether nothing disturbs a run until it leaves the page that it stands in,
/// to ask for the next plan or to end.
pub open spec fn page_undisturbed(
    filters: FiltersView,
    p: Progress,
    phase: PhaseView,
    replies: Seq<(ReplyView, bool)>,
) -> bool
    decreases replies.len(),
{
    replies.len() == 0 || page_of(phase) is None || {
        let step = replay_step(filters, p, phase, replies[0].0, replies[0].1);
        &&& calm(replies[0])
        &&& page_undisturbed(filters, step.progress, step.phase, replies.skip(1))
    }
}

/// Whether nothing disturbs a run from the plan that comes in at one point
/// until the next plan is asked for.
pub open spec fn plan_undisturbed(
    filters: FiltersView,
    p: Progress,
    phase: PhaseView,
    replies: Seq<(ReplyView, bool)>,
    planned: int,
) -> bool {
    let (here, next) = stands(filters, p, phase, replies, planned + 1);
    &&& !replies[planned].1
    &&& page_undisturbed(filters, here, next, replies.skip(planned + 1))
}

/// Whether a download of a plan is made at a point of a run, and comes back
/// with rows.
pub open spec fn is_made(
    filters: FiltersView,
    p: Progress,
    phase: PhaseView,
    replies: Seq<(ReplyView, bool)>,
    at: int,
    plan: SnapshotPlanView,
    work: Work,
) -> bool {
    let waiting = stands(filters, p, phase, replies, at).1;
    &&& waiting matches PhaseView::Working { page, work: asked, .. }
    &&& page.plan == plan
    &&& asked == work
    &&& downloaded(waiting, replies[at].0) is Some
}

/// What follows a turn to the next download, where another one lies ahead.
proof fn lemma_work_step(
    filters: FiltersView,
    p: Progress,
    page: PageView,
    next: Work,
    attempt: u32,
    steps: nat,
    work: Work,
)
    requires
        walk(page.plan.segments, next, steps) == work,
        work is Block || work is Segment,
    ensures
        ({
            let step = work_step(filters, p, page, next, attempt, false);
            ||| step.phase is Over && step.action is Failed
            ||| step.phase == (PhaseView::Working { page, work: next, attempt }) && !(
            step.action is Done)
        }),
{
    if !(next is Block) && !(next is Segment) {
        lemma_walk_past(page.plan.segments, next, steps);
    }
}

/// From a phase of a page on, every download of the page that is due or lies
/// behind it is made before the run ends well.
proof fn lemma_downloads_made(
    filters: FiltersView,
    p: Progress,
    phase: PhaseView,
    replies: Seq<(ReplyView, bool)>,
    page: PageView,
    steps: nat,
    work: Work,
) -> (at: int)
    requires
        ends_well(filters, p, phase, replies),
        page_undisturbed(filters, p, phase, replies),
        page_of(phase) == Some(page),
        walk(page.plan.segments, due(phase), steps) == work,
        work is Block || work is Segment,
    ensures
        0 <= at < replies.len(),
        is_made(filters, p, phase, replies, at, page.plan, work),
    decreases replies.len(),
{
    let units = page.plan.segments;
    let reply = replies[0].0;
    let step = replay_step(filters, p, phase, reply, replies[0].1);
    let more = replies.skip(1);
    lemma_goes_on(filters, p, phase, replies);
    assert(calm(replies[0]));
    if downloaded(phase, reply) is Some && steps == 0 {
        0
    } else {
        let left: nat = if downloaded(phase, reply) is Some {
            (steps - 1) as nat
        } else {
            steps
        };
        lemma_next_due(filters, p, phase, reply, page, steps, work);
        let at = lemma_downloads_made(
            filters,
            step.progress,
            step.phase,
            more,
            page,
            left,
            work,
        );
        assert(more[at] == replies[at + 1]);
        at + 1
    }
}

/// One step of a page keeps every download that lies ahead.
proof fn lemma_next_due(
    filters: FiltersView,
    p: Progress,
    phase: PhaseView,
    reply: ReplyView,
    page: PageView,
    steps: nat,
    work: Work,
)
    requires
        page_of(phase) == Some(page),
        walk(page.plan.segments, due(phase), steps) == work,
        work is Block || work is Segment,
        reply matches ReplyView::Block(Err(error)) ==> !vanished(error),
        reply matches ReplyView::Segment(Err(error)) ==> !vanished(error),
        downloaded(phase, reply) is Some ==> steps > 0,
    ensures
        ({
            let step = replay_step(filters, p, phase, reply, false);
            let left = if downloaded(phase, reply) is Some {
                (steps - 1) as nat
            } else {
                steps
            };
            ||| step.phase is Over && step.action is Failed
            ||| {
                &&& !(step.action is Done)
                &&& page_of(step.phase) == Some(page)
                &&& walk(page.plan.segments, due(step.phase), left) == work
            }
        }),
{
    let units = page.plan.segments;
    match phase {
        PhaseView::Working { page: _, work: asked, attempt } => {
            if reply is Waited {
                lemma_work_step(filters, p, page, asked, attempt, steps, work);
            }
            if downloaded(phase, reply) is Some {
                let left = (steps - 1) as nat;
                assert(walk(units, work_after(units, asked), left) == work);
                if asked is Block {
                    lemma_work_step(filters, p, page, work_after(units, asked), 0, left, work);
                }
            }
        },
        PhaseView::Applying { page: _, work: asked, rows, next } => {
            let q = p.applied(rows[next].seq);
            if asked is Block {
                lemma_work_step(filters, q, page, work_after(units, asked), 0, steps, work);
            }
        },
        PhaseView::Removing { page: _, unit } => {
            lemma_work_step(
                filters,
                p,
                page,
                next_work(units, unit + 1, 0, None),
                0,
                steps,
                work,
            );
        },
        _ => {},
    }
}

/// A plan that comes in turns the machine to its first download.
proof fn lemma_plan_comes_in(
    filters: FiltersView,
    p: Progress,
    phase: PhaseView,
    replies: Seq<(ReplyView, bool)>,
    plan: SnapshotPlanView,
    work: Work,
) -> (at: int)
    requires
        ends_well(filters, p, phase, replies),
        plan_undisturbed(filters, p, phase, replies, 0),
        phase is Planning,
        replies[0].0 == ReplyView::Planned(Ok::<SnapshotPlanView, ArchiveErrorView>(plan)),
        well_known(plan.segments),
        work_in(plan.segments, work),
        work is Block || work is Segment,
    ensures
        0 < at < replies.len(),
        is_made(filters, p, phase, replies, at, plan, work),
{
    let step = replay_step(filters, p, phase, replies[0].0, replies[0].1);
    let more = replies.skip(1);
    lemma_later_stand(filters, p, phase, replies, 0);
    lemma_goes_on(filters, p, phase, replies);
    let first = next_work(plan.segments, 0, 0, None);
    let steps = lemma_walk_reaches(plan.segments, 0, 0, None, work);
    let page = PageView { plan, floor: p.floor };
    lemma_work_step(filters, step.progress, page, first, 0, steps, work);
    let at = lemma_downloads_made(filters, step.progress, step.phase, more, page, steps, work);
    assert(more[at] == replies[at + 1]);
    lemma_later_stand(filters, p, phase, replies, at);
    at + 1
}

/// Where the machine stands later is where it stands behind its next step.
pub(crate) proof fn lemma_later_stand(
    filters: FiltersView,
    p: Progress,
    phase: PhaseView,
    replies: Seq<(ReplyView, bool)>,
    at: int,
)
    requires
        replies.len() > 0,
        0 <= at,
    ensures
        ({
            let step = replay_step(filters, p, phase, replies[0].0, replies[0].1);
            stands(filters, p, phase, replies, at + 1) == stands(
                filters,
                step.progress,
                step.phase,
                replies.skip(1),
                at,
            )
        }),
{
}

/// In a run that ends well, every download that a plan names is made and comes
/// back with rows, in whatever page the plan came, where nothing disturbs the
/// run between that plan and the next request for one.
pub proof fn law_every_download_is_made(
    filters: FiltersView,
    p: Progress,
    phase: PhaseView,
    replies: Seq<(ReplyView, bool)>,
    planned: int,
    plan: SnapshotPlanView,
    work: Work,
) -> (at: int)
    requires
        ends_well(filters, p, phase, replies),
        0 <= planned < replies.len(),
        plan_undisturbed(filters, p, phase, replies, planned),
        stands(filters, p, phase, replies, planned).1 is Planning,
        replies[planned].0 == ReplyView::Planned(Ok::<SnapshotPlanView, ArchiveErrorView>(plan)),
        well_known(plan.segments),
        work_in(plan.segments, work),
        work is Block || work is Segment,
    ensures
        planned < at < replies.len(),
        is_made(filters, p, phase, replies, at, plan, work),
    decreases planned,
{
    if planned == 0 {
        lemma_plan_comes_in(filters, p, phase, replies, plan, work)
    } else {
        let more = replies.skip(1);
        let step = replay_step(filters, p, phase, replies[0].0, replies[0].1);
        lemma_first_step(filters, p, phase, replies);
        lemma_later_stand(filters, p, phase, replies, planned - 1);
        lemma_later_stand(filters, p, phase, replies, planned);
        assert(more.skip(planned) =~= replies.skip(planned + 1));
        assert(more[planned - 1] == replies[planned]);
        let at = law_every_download_is_made(
            filters,
            step.progress,
            step.phase,
            more,
            planned - 1,
            plan,
            work,
        );
        assert(more[at] == replies[at + 1]);
        lemma_later_stand(filters, p, phase, replies, at);
        at + 1
    }
}

/// A sweep is complete: in a run that ends well, every block and every segment
/// that a plan names is downloaded, and each row in it that lies above the
/// floor and passes the filters is taken by the sink, where the rows rise in
/// seq and nothing disturbs the run between that plan and the next request for
/// one.
pub proof fn law_sweep_is_complete(
    filters: FiltersView,
    after_seq: u64,
    replies: Seq<(ReplyView, bool)>,
    planned: int,
    plan: SnapshotPlanView,
    work: Work,
) -> (at: int)
    requires
        ({
            let phase = PhaseView::Planning { attempt: 0 };
            &&& ends_well(filters, started(after_seq), phase, replies)
            &&& stands(filters, started(after_seq), phase, replies, planned).1 is Planning
            &&& plan_undisturbed(filters, started(after_seq), phase, replies, planned)
        }),
        0 <= planned < replies.len(),
        replies[planned].0 == ReplyView::Planned(Ok::<SnapshotPlanView, ArchiveErrorView>(plan)),
        well_known(plan.segments),
        work_in(plan.segments, work),
        work is Block || work is Segment,
    ensures
        planned < at < replies.len(),
        ({
            let phase = PhaseView::Planning { attempt: 0 };
            let (here, waiting) = stands(filters, started(after_seq), phase, replies, at);
            let rows = downloaded(waiting, replies[at].0)->0;
            &&& is_made(filters, started(after_seq), phase, replies, at, plan, work)
            &&& rows_rise(rows) ==> forall|k: int|
                0 <= k < rows.len() && (#[trigger] rows[k]).seq > here.floor && filters.matches(
                    rows[k],
                ) ==> taken(filters, started(after_seq), phase, replies).contains(rows[k].seq)
        }),
{
    let p = started(after_seq);
    let phase = PhaseView::Planning { attempt: 0 };
    let at = law_every_download_is_made(filters, p, phase, replies, planned, plan, work);
    let (here, waiting) = stands(filters, p, phase, replies, at);
    let rows = downloaded(waiting, replies[at].0)->0;
    if rows_rise(rows) {
        assert forall|k: int|
            0 <= k < rows.len() && (#[trigger] rows[k]).seq > here.floor && filters.matches(
                rows[k],
            ) implies taken(filters, p, phase, replies).contains(rows[k].seq) by {
            law_every_row_is_taken(filters, p, phase, replies, at, k);
        }
    }
    at
}

} // verus!
