//! What runs of a replay take of one archive. A run that comes to its end
//! takes every event of the archive that it was asked for, once and in order;
//! one that is interrupted has taken all of them up to where it stood, so a
//! second run from there takes the others and no more.
use vstd::prelude::*;

use crate::archive::{PlanSegmentView, SnapshotPlanView};
use crate::jss::RawEventView;
use crate::replay::{
    lemma_next_row, next_row, next_work, page_end, phase_valid, replay_step, rows_step, started,
    work_in, work_step, ActionView, FiltersView, PageView, PhaseView, Progress, ReplayErrorView,
    ReplyView, Work,
};
use crate::sweep::{
    at_or_before, downloaded, ends_well, lemma_first_step, lemma_later_stand, page_of, rows_rise, stands, taken,
    well_known, work_after,
};

verus! {

// ---- an archive ----

/// An archive that does not change: its rows, and what its blocks and its
/// segments hold of them.
#[verifier::ext_equal]
pub struct ArchiveView {
    pub rows: Seq<RawEventView>,
    pub blocks: Map<(Seq<char>, u64), Seq<RawEventView>>,
    pub segments: Map<Seq<char>, Seq<RawEventView>>,
}

/// Whether rows hold an event with a seq that passes the filters.
pub open spec fn offered(filters: FiltersView, rows: Seq<RawEventView>, seq: u64) -> bool {
    exists|i: int| 0 <= i < rows.len() && (#[trigger] rows[i]).seq == seq && filters.matches(rows[i])
}

/// The rows that a download brings.
pub open spec fn contents(
    archive: ArchiveView,
    units: Seq<PlanSegmentView>,
    work: Work,
) -> Seq<RawEventView> {
    match work {
        Work::Block { unit, range, index } => archive.blocks[(units[unit as int].name, index)],
        Work::Segment { unit } => archive.segments[units[unit as int].name],
        _ => Seq::empty(),
    }
}

/// How many units of a plan lie at and behind a download.
pub open spec fn units_ahead(units: Seq<PlanSegmentView>, work: Work) -> int {
    match work {
        Work::Block { unit, range, index } => units.len() - unit,
        Work::Segment { unit } => units.len() - unit,
        _ => 0,
    }
}

/// How many block ranges of its unit lie at and behind a download.
pub open spec fn ranges_ahead(units: Seq<PlanSegmentView>, work: Work) -> int {
    match work {
        Work::Block { unit, range, index } => units[unit as int].blocks.len() - range,
        _ => 0,
    }
}

/// How many blocks of its range lie behind a download.
pub open spec fn blocks_behind(units: Seq<PlanSegmentView>, work: Work) -> int {
    match work {
        Work::Block { unit, range, index } => units[unit as int].blocks[range as int].last - index,
        _ => 0,
    }
}

/// The rows that a download and those behind it bring.
pub open spec fn rows_ahead(
    archive: ArchiveView,
    units: Seq<PlanSegmentView>,
    work: Work,
) -> Seq<RawEventView>
    decreases units_ahead(units, work), ranges_ahead(units, work), blocks_behind(units, work),
{
    if well_known(units) && work_in(units, work) && (work is Block || work is Segment) {
        proof {
            lemma_work_after(units, work);
        }
        contents(archive, units, work) + rows_ahead(archive, units, work_after(units, work))
    } else {
        Seq::empty()
    }
}

/// The next download from a place in a plan on is one of the plan, and does
/// not lie before that place.
proof fn lemma_next_work(units: Seq<PlanSegmentView>, unit: int, range: int, index: Option<u64>)
    requires
        well_known(units),
        0 <= unit <= units.len(),
        0 <= range,
        index matches Some(i) ==> unit < units.len() && units[unit].mode == "blocks"@ && range
            < units[unit].blocks.len() && units[unit].blocks[range].first <= i
            <= units[unit].blocks[range].last,
    ensures
        work_in(units, next_work(units, unit, range, index)),
        ({
            let work = next_work(units, unit, range, index);
            work is Block || work is Segment ==> at_or_before(unit, range, index, work)
        }),
    decreases
            units.len() - unit,
            (if unit < units.len() {
                units[unit].blocks.len() - range
            } else {
                0
            }),
{
    if unit < units.len() && units[unit].mode == "blocks"@ {
        if range >= units[unit].blocks.len() {
            lemma_next_work(units, unit + 1, 0, None);
        } else if index is None && units[unit].blocks[range].first
            > units[unit].blocks[range].last {
            lemma_next_work(units, unit, range + 1, None);
        }
    }
}

/// The download behind a download is one of the plan, and lies behind it.
pub proof fn lemma_work_after(units: Seq<PlanSegmentView>, work: Work)
    requires
        well_known(units),
        work_in(units, work),
        work is Block || work is Segment,
    ensures
        ({
            let next = work_after(units, work);
            &&& work_in(units, next)
            &&& decreases_to!(
                units_ahead(units, work), ranges_ahead(units, work), blocks_behind(units, work) =>
                units_ahead(units, next), ranges_ahead(units, next), blocks_behind(units, next)
            )
        }),
{
    reveal_strlit("blocks");
    reveal_strlit("segment");
    assert("blocks"@.len() != "segment"@.len());
    match work {
        Work::Block { unit, range, index } => {
            if index < units[unit as int].blocks[range as int].last {
                lemma_next_work(units, unit as int, range as int, Some((index + 1) as u64));
            } else {
                lemma_next_work(units, unit as int, range + 1, None);
            }
        },
        Work::Segment { unit } => {
            lemma_next_work(units, unit + 1, 0, None);
        },
        _ => {},
    }
}

/// Whether rows that are yet to come cover what is left of an archive above a
/// floor: they rise in seq, those that pass the filters are events of the
/// archive, and they leave out none of its events up to the seq that they are
/// meant to reach, nor up to the last of them.
pub open spec fn covers(
    archive: ArchiveView,
    filters: FiltersView,
    floor: u64,
    ahead: Seq<RawEventView>,
    through: u64,
) -> bool {
    &&& rows_rise(ahead)
    &&& forall|i: int|
        0 <= i < ahead.len() && filters.matches(#[trigger] ahead[i]) ==> offered(
            filters,
            archive.rows,
            ahead[i].seq,
        )
    &&& forall|seq: u64| #[trigger]
        offered(filters, archive.rows, seq) && seq > floor && (seq <= through || (ahead.len() > 0
            && seq <= ahead.last().seq)) ==> offered(filters, ahead, seq)
}

/// Whether no row of an archive lies above a seq.
pub open spec fn tops(archive: ArchiveView, tip: u64) -> bool {
    forall|i: int| 0 <= i < archive.rows.len() ==> (#[trigger] archive.rows[i]).seq <= tip
}

/// Whether a plan is one that an archive gives to a run that stands at a
/// floor.
pub open spec fn plan_fits(
    archive: ArchiveView,
    filters: FiltersView,
    floor: u64,
    plan: SnapshotPlanView,
) -> bool {
    &&& well_known(plan.segments)
    &&& tops(archive, plan.sealed_tip_seq)
    &&& covers(
        archive,
        filters,
        floor,
        rows_ahead(archive, plan.segments, next_work(plan.segments, 0, 0, None)),
        plan.planned_through_seq,
    )
}

/// Whether a reply is one that an archive gives: its plans fit, and its
/// downloads bring what it holds. Errors may come at any time.
pub open spec fn reply_fits(
    archive: ArchiveView,
    filters: FiltersView,
    p: Progress,
    phase: PhaseView,
    reply: ReplyView,
) -> bool {
    &&& phase is Planning ==> (reply matches ReplyView::Planned(Ok(plan)) ==> plan_fits(
        archive,
        filters,
        p.floor,
        plan,
    ))
    &&& downloaded(phase, reply) matches Some(rows) ==> rows == contents(
        archive,
        page_of(phase)->0.plan.segments,
        phase->Working_work,
    )
}

/// Whether all replies of a run are ones that an archive gives.
pub open spec fn served(
    archive: ArchiveView,
    filters: FiltersView,
    p: Progress,
    phase: PhaseView,
    replies: Seq<(ReplyView, bool)>,
) -> bool
    decreases replies.len(),
{
    replies.len() == 0 || {
        let step = replay_step(filters, p, phase, replies[0].0, replies[0].1);
        &&& reply_fits(archive, filters, p, phase, replies[0].0)
        &&& served(archive, filters, step.progress, step.phase, replies.skip(1))
    }
}

// ---- what every step keeps ----

/// The rows that are yet to come from a page.
spec fn yet_to_come(archive: ArchiveView, phase: PhaseView) -> Seq<RawEventView> {
    match phase {
        PhaseView::Working { page, work, attempt } => rows_ahead(
            archive,
            page.plan.segments,
            work,
        ),
        PhaseView::Applying { page, work, rows, next } => rows.skip(next) + rows_ahead(
            archive,
            page.plan.segments,
            work_after(page.plan.segments, work),
        ),
        PhaseView::Removing { page, unit } => rows_ahead(
            archive,
            page.plan.segments,
            next_work(page.plan.segments, unit + 1, 0, None),
        ),
        _ => Seq::empty(),
    }
}

/// Whether what is yet to come from a page covers what is left.
spec fn on_course(
    archive: ArchiveView,
    filters: FiltersView,
    p: Progress,
    phase: PhaseView,
) -> bool {
    &&& phase_valid(filters, p, phase)
    &&& p.pinned_tip matches Some(tip) ==> tops(archive, tip)
    &&& page_of(phase) matches Some(page) ==> {
        &&& well_known(page.plan.segments)
        &&& covers(
            archive,
            filters,
            p.floor,
            yet_to_come(archive, phase),
            page.plan.planned_through_seq,
        )
    }
}

/// Whether a step that takes no event passes none over, and comes to the end
/// only where none is left.
spec fn passes_none(
    archive: ArchiveView,
    filters: FiltersView,
    from: u64,
    to: u64,
    ends: bool,
) -> bool {
    &&& from <= to
    &&& forall|seq: u64| #[trigger]
        offered(filters, archive.rows, seq) && seq > from ==> seq > to
    &&& ends ==> forall|seq: u64| #[trigger] offered(filters, archive.rows, seq) ==> seq <= to
}

proof fn lemma_page_end(
    archive: ArchiveView,
    filters: FiltersView,
    p: Progress,
    page: PageView,
    cancelled: bool,
)
    requires
        p.pinned_tip matches Some(tip) && tops(archive, tip),
        covers(archive, filters, p.floor, Seq::empty(), page.plan.planned_through_seq),
    ensures
        ({
            let step = page_end(filters, p, page, cancelled);
            &&& on_course(archive, filters, step.progress, step.phase)
            &&& passes_none(
                archive,
                filters,
                p.floor,
                step.progress.floor,
                step.action is Done && !cancelled,
            )
        }),
{
    let planned = page.plan.planned_through_seq;
    assert forall|seq: u64| #[trigger]
        offered(filters, archive.rows, seq) && seq > p.floor implies seq > planned by {
        assert(!offered(filters, Seq::empty(), seq));
    }
    assert forall|seq: u64| #[trigger] offered(filters, archive.rows, seq) implies seq
        <= p.pinned_tip->0 by {
        let i = choose|i: int|
            0 <= i < archive.rows.len() && (#[trigger] archive.rows[i]).seq == seq
                && filters.matches(archive.rows[i]);
        assert(archive.rows[i].seq <= p.pinned_tip->0);
    }
}

proof fn lemma_turn_to_work(
    archive: ArchiveView,
    filters: FiltersView,
    p: Progress,
    page: PageView,
    work: Work,
    attempt: u32,
    cancelled: bool,
)
    requires
        p.pinned_tip matches Some(tip) && tops(archive, tip),
        well_known(page.plan.segments),
        work_in(page.plan.segments, work),
        covers(
            archive,
            filters,
            p.floor,
            rows_ahead(archive, page.plan.segments, work),
            page.plan.planned_through_seq,
        ),
    ensures
        ({
            let step = work_step(filters, p, page, work, attempt, cancelled);
            &&& on_course(archive, filters, step.progress, step.phase)
            &&& passes_none(
                archive,
                filters,
                p.floor,
                step.progress.floor,
                step.action is Done && !cancelled,
            )
        }),
{
    if work is End {
        assert(rows_ahead(archive, page.plan.segments, work) == Seq::<RawEventView>::empty());
        lemma_page_end(archive, filters, p, page, cancelled);
    }
}

/// Rows that are not wanted can be left out of what is yet to come.
proof fn lemma_covers_without(
    archive: ArchiveView,
    filters: FiltersView,
    floor: u64,
    ahead: Seq<RawEventView>,
    through: u64,
    count: int,
)
    requires
        covers(archive, filters, floor, ahead, through),
        0 <= count <= ahead.len(),
        forall|i: int|
            0 <= i < count ==> !((#[trigger] ahead[i]).seq > floor && filters.matches(ahead[i])),
    ensures
        covers(archive, filters, floor, ahead.skip(count), through),
{
    let rest = ahead.skip(count);
    assert forall|i: int| 0 <= i < rest.len() && filters.matches(#[trigger] rest[i]) implies offered(
        filters,
        archive.rows,
        rest[i].seq,
    ) by {
        assert(rest[i] == ahead[i + count]);
    }
    assert forall|seq: u64| #[trigger]
        offered(filters, archive.rows, seq) && seq > floor && (seq <= through || (rest.len() > 0
            && seq <= rest.last().seq)) implies offered(filters, rest, seq) by {
        if rest.len() > 0 {
            assert(rest.last() == ahead.last());
        }
        assert(offered(filters, ahead, seq));
        let i = choose|i: int|
            0 <= i < ahead.len() && (#[trigger] ahead[i]).seq == seq && filters.matches(ahead[i]);
        assert(rest[i - count] == ahead[i]);
    }
}

/// An event that is taken is the next one that is wanted, and what comes
/// behind it covers what is left above it.
proof fn lemma_covers_behind(
    archive: ArchiveView,
    filters: FiltersView,
    floor: u64,
    ahead: Seq<RawEventView>,
    through: u64,
)
    requires
        covers(archive, filters, floor, ahead, through),
        ahead.len() > 0,
        ahead[0].seq > floor,
        filters.matches(ahead[0]),
    ensures
        covers(archive, filters, ahead[0].seq, ahead.skip(1), through),
        offered(filters, archive.rows, ahead[0].seq),
        forall|seq: u64| #[trigger]
            offered(filters, archive.rows, seq) && seq > floor ==> seq >= ahead[0].seq,
{
    assert forall|seq: u64| #[trigger]
        offered(filters, archive.rows, seq) && seq > floor implies seq >= ahead[0].seq by {
        if seq < ahead[0].seq {
            assert(ahead[0].seq <= ahead.last().seq);
            assert(offered(filters, ahead, seq));
            let i = choose|i: int|
                0 <= i < ahead.len() && (#[trigger] ahead[i]).seq == seq && filters.matches(
                    ahead[i],
                );
            assert(ahead[0].seq <= ahead[i].seq);
        }
    }
    assert forall|seq: u64| #[trigger]
        offered(filters, archive.rows, seq) && seq > ahead[0].seq && (seq <= through || (
        ahead.len() > 0 && seq <= ahead.last().seq)) implies offered(filters, ahead, seq) by {}
    assert(covers(archive, filters, ahead[0].seq, ahead, through));
    lemma_covers_without(archive, filters, ahead[0].seq, ahead, through, 1);
}

proof fn lemma_turn_to_rows(
    archive: ArchiveView,
    filters: FiltersView,
    p: Progress,
    page: PageView,
    work: Work,
    rows: Seq<RawEventView>,
    from: int,
    cancelled: bool,
)
    requires
        p.pinned_tip matches Some(tip) && tops(archive, tip),
        well_known(page.plan.segments),
        work_in(page.plan.segments, work),
        work is Block || work is Segment,
        0 <= from <= rows.len(),
        covers(
            archive,
            filters,
            p.floor,
            rows.skip(from) + rows_ahead(
                archive,
                page.plan.segments,
                work_after(page.plan.segments, work),
            ),
            page.plan.planned_through_seq,
        ),
    ensures
        ({
            let step = rows_step(filters, p, page, work, rows, from, cancelled);
            &&& on_course(archive, filters, step.progress, step.phase)
            &&& passes_none(
                archive,
                filters,
                p.floor,
                step.progress.floor,
                step.action is Done && !cancelled,
            )
        }),
{
    let units = page.plan.segments;
    let behind = rows_ahead(archive, units, work_after(units, work));
    let ahead = rows.skip(from) + behind;
    let through = page.plan.planned_through_seq;
    let next = next_row(filters, rows, from, p.floor);
    let until = match next {
        Some(next) => next,
        None => rows.len() as int,
    };
    lemma_next_row(filters, rows, from, p.floor);
    lemma_work_after(units, work);
    assert forall|i: int| 0 <= i < until - from implies !((#[trigger] ahead[i]).seq > p.floor
        && filters.matches(ahead[i])) by {
        assert(ahead[i] == rows[i + from]);
    }
    lemma_covers_without(archive, filters, p.floor, ahead, through, until - from);
    assert(ahead.skip(until - from) =~= rows.skip(until) + behind);
    if next is None {
        assert(rows.skip(until) + behind =~= behind);
        if work is Block {
            lemma_turn_to_work(archive, filters, p, page, work_after(units, work), 0, cancelled);
        }
    }
}

/// Whether the sink takes an event in a step.
spec fn takes(phase: PhaseView, reply: ReplyView) -> bool {
    phase is Applying && reply == ReplyView::Applied(true)
}

/// One step keeps the course: it takes the next event that is wanted or none,
/// passes none over, and comes to the end only where none is left.
proof fn lemma_on_course(
    archive: ArchiveView,
    filters: FiltersView,
    p: Progress,
    phase: PhaseView,
    reply: ReplyView,
    cancelled: bool,
)
    requires
        on_course(archive, filters, p, phase),
        reply_fits(archive, filters, p, phase, reply),
    ensures
        ({
            let step = replay_step(filters, p, phase, reply, cancelled);
            let from = if takes(phase, reply) {
                phase->rows[phase->next].seq
            } else {
                p.floor
            };
            &&& on_course(archive, filters, step.progress, step.phase)
            &&& passes_none(
                archive,
                filters,
                from,
                step.progress.floor,
                step.action is Done && !cancelled,
            )
            &&& takes(phase, reply) ==> {
                &&& from > p.floor
                &&& offered(filters, archive.rows, from)
                &&& forall|seq: u64| #[trigger]
                    offered(filters, archive.rows, seq) && seq > p.floor ==> seq >= from
            }
        }),
{
    match phase {
        PhaseView::Planning { attempt } => {
            if let ReplyView::Planned(Ok(plan)) = reply {
                let q = Progress {
                    pinned_tip: match p.pinned_tip {
                        Some(tip) => Some(tip),
                        None => Some(plan.sealed_tip_seq),
                    },
                    ..p
                };
                let page = PageView { plan, floor: p.floor };
                lemma_next_work(plan.segments, 0, 0, None);
                lemma_turn_to_work(
                    archive,
                    filters,
                    q,
                    page,
                    next_work(plan.segments, 0, 0, None),
                    0,
                    cancelled,
                );
            }
        },
        PhaseView::Working { page, work, attempt } => {
            if reply is Waited {
                lemma_turn_to_work(archive, filters, p, page, work, attempt, cancelled);
            }
            if let Some(rows) = downloaded(phase, reply) {
                assert(rows.skip(0) =~= rows);
                lemma_turn_to_rows(archive, filters, p, page, work, rows, 0, cancelled);
            }
        },
        PhaseView::Applying { page, work, rows, next } => {
            let units = page.plan.segments;
            let ahead = yet_to_come(archive, phase);
            let q = p.applied(rows[next].seq);
            assert(ahead[0] == rows[next]);
            lemma_covers_behind(archive, filters, p.floor, ahead, page.plan.planned_through_seq);
            assert(ahead.skip(1) =~= rows.skip(next + 1) + rows_ahead(
                archive,
                units,
                work_after(units, work),
            ));
            lemma_turn_to_rows(archive, filters, q, page, work, rows, next + 1, cancelled);
        },
        PhaseView::Removing { page, unit } => {
            let units = page.plan.segments;
            lemma_next_work(units, unit + 1, 0, None);
            lemma_turn_to_work(
                archive,
                filters,
                p,
                page,
                next_work(units, unit + 1, 0, None),
                0,
                cancelled,
            );
        },
        _ => {},
    }
}

// ---- what runs take ----

/// Whether seqs rise.
pub open spec fn seqs_rise(seqs: Seq<u64>) -> bool {
    forall|i: int, j: int| 0 <= i < j < seqs.len() ==> #[trigger] seqs[i] < #[trigger] seqs[j]
}

/// From a point on course on, a run takes in order what the archive offers
/// between where it stands and where it comes to, and a run that ends well
/// comes to where nothing is left.
proof fn lemma_run(
    archive: ArchiveView,
    filters: FiltersView,
    p: Progress,
    phase: PhaseView,
    replies: Seq<(ReplyView, bool)>,
)
    requires
        on_course(archive, filters, p, phase),
        served(archive, filters, p, phase, replies),
    ensures
        ({
            let floor = stands(filters, p, phase, replies, replies.len() as int).0.floor;
            let seqs = taken(filters, p, phase, replies);
            &&& p.floor <= floor
            &&& seqs_rise(seqs)
            &&& forall|seq: u64| #[trigger]
                seqs.contains(seq) <==> offered(filters, archive.rows, seq) && p.floor < seq
                    <= floor
            &&& ends_well(filters, p, phase, replies) && !replies.last().1 ==> forall|seq: u64|
                #[trigger]
                offered(filters, archive.rows, seq) ==> seq <= floor
        }),
    decreases replies.len(),
{
    if replies.len() > 0 {
        let step = replay_step(filters, p, phase, replies[0].0, replies[0].1);
        let more = replies.skip(1);
        let floor = stands(filters, p, phase, replies, replies.len() as int).0.floor;
        let seqs = taken(filters, p, phase, replies);
        let rest = taken(filters, step.progress, step.phase, more);
        lemma_on_course(archive, filters, p, phase, replies[0].0, replies[0].1);
        lemma_run(archive, filters, step.progress, step.phase, more);
        lemma_later_stand(filters, p, phase, replies, more.len() as int);
        lemma_first_step(filters, p, phase, replies);
        if more.len() > 0 {
            assert(more.last() == replies.last());
        }
        if takes(phase, replies[0].0) {
            let seq = phase->rows[phase->next].seq;
            assert(seqs == seq![seq] + rest);
            assert forall|i: int, j: int| 0 <= i < j < seqs.len() implies #[trigger] seqs[i]
                < #[trigger] seqs[j] by {
                assert(seqs[j] == rest[j - 1]);
                assert(rest.contains(rest[j - 1]));
                if i > 0 {
                    assert(seqs[i] == rest[i - 1]);
                }
            }
            assert forall|s: u64| #[trigger]
                seqs.contains(s) <==> offered(filters, archive.rows, s) && p.floor < s <= floor by {
                if seqs.contains(s) {
                    let i = choose|i: int| 0 <= i < seqs.len() && seqs[i] == s;
                    if i > 0 {
                        assert(rest[i - 1] == s);
                        assert(rest.contains(s));
                    }
                }
                if offered(filters, archive.rows, s) && p.floor < s <= floor {
                    if s == seq {
                        assert(seqs[0] == s);
                    } else {
                        assert(rest.contains(s));
                        let i = choose|i: int| 0 <= i < rest.len() && rest[i] == s;
                        assert(seqs[i + 1] == s);
                    }
                }
            }
        } else {
            assert(seqs == rest);
        }
    }
}

/// A run takes, in rising order, exactly the events of the archive that pass
/// the filters and lie between where it started and where it came to, however
/// it was interrupted.
pub proof fn law_run_takes_what_it_passes(
    archive: ArchiveView,
    filters: FiltersView,
    after_seq: u64,
    replies: Seq<(ReplyView, bool)>,
)
    requires
        served(
            archive,
            filters,
            started(after_seq),
            PhaseView::Planning { attempt: 0 },
            replies,
        ),
    ensures
        ({
            let phase = PhaseView::Planning { attempt: 0 };
            let floor = stands(
                filters,
                started(after_seq),
                phase,
                replies,
                replies.len() as int,
            ).0.floor;
            let seqs = taken(filters, started(after_seq), phase, replies);
            &&& seqs_rise(seqs)
            &&& forall|seq: u64| #[trigger]
                seqs.contains(seq) <==> offered(filters, archive.rows, seq) && after_seq < seq
                    <= floor
        }),
{
    lemma_run(archive, filters, started(after_seq), PhaseView::Planning { attempt: 0 }, replies);
}

/// A run that ends well and is not cancelled at its end takes, in rising
/// order, exactly the events of the archive that pass the filters and lie
/// above where it started.
pub proof fn law_whole_run_takes_everything(
    archive: ArchiveView,
    filters: FiltersView,
    after_seq: u64,
    replies: Seq<(ReplyView, bool)>,
)
    requires
        ({
            let phase = PhaseView::Planning { attempt: 0 };
            &&& served(archive, filters, started(after_seq), phase, replies)
            &&& ends_well(filters, started(after_seq), phase, replies)
        }),
        !replies.last().1,
    ensures
        ({
            let seqs = taken(
                filters,
                started(after_seq),
                PhaseView::Planning { attempt: 0 },
                replies,
            );
            &&& seqs_rise(seqs)
            &&& forall|seq: u64| #[trigger]
                seqs.contains(seq) <==> offered(filters, archive.rows, seq) && after_seq < seq
        }),
{
    lemma_run(archive, filters, started(after_seq), PhaseView::Planning { attempt: 0 }, replies);
}

/// Seqs that rise are determined by which they are.
proof fn lemma_rising_seqs_agree(one: Seq<u64>, other: Seq<u64>)
    requires
        seqs_rise(one),
        seqs_rise(other),
        forall|seq: u64| #[trigger] one.contains(seq) <==> other.contains(seq),
    ensures
        one == other,
    decreases one.len(),
{
    if one.len() == 0 {
        if other.len() > 0 {
            assert(other.contains(other[0]));
            assert(one.contains(other[0]));
        }
        assert(one =~= other);
    } else {
        assert(one.contains(one.last()));
        let k = choose|k: int| 0 <= k < other.len() && other[k] == one.last();
        assert(other.contains(other.last()));
        assert(one.contains(other.last()));
        let m = choose|m: int| 0 <= m < one.len() && one[m] == other.last();
        assert(one[m] <= one.last());
        assert(other[k] <= other.last());
        assert(one.last() == other.last());
        let less = one.drop_last();
        let fewer = other.drop_last();
        assert forall|seq: u64| #[trigger] less.contains(seq) <==> fewer.contains(seq) by {
            if less.contains(seq) {
                let i = choose|i: int| 0 <= i < less.len() && less[i] == seq;
                assert(one[i] == seq && seq < one.last());
                assert(one.contains(seq));
                let j = choose|j: int| 0 <= j < other.len() && other[j] == seq;
                assert(fewer[j] == seq);
            }
            if fewer.contains(seq) {
                let i = choose|i: int| 0 <= i < fewer.len() && fewer[i] == seq;
                assert(other[i] == seq && seq < other.last());
                assert(other.contains(seq));
                assert(one.contains(seq));
                let j = choose|j: int| 0 <= j < one.len() && one[j] == seq;
                assert(less[j] == seq);
            }
        }
        lemma_rising_seqs_agree(less, fewer);
        assert(one =~= less.push(one.last()));
        assert(other =~= fewer.push(other.last()));
    }
}

/// An event that the sink refuses ends the run, and the refusal comes out of
/// it; the event counts as not taken.
pub proof fn law_refused_event_ends_the_run(
    filters: FiltersView,
    p: Progress,
    phase: PhaseView,
    cancelled: bool,
)
    requires
        phase is Applying,
    ensures
        ({
            let step = replay_step(filters, p, phase, ReplyView::Applied(false), cancelled);
            &&& step.phase is Over
            &&& step.action == ActionView::Failed(ReplayErrorView::Sink)
            &&& step.progress == p
        }),
{
}

/// Where a run is to be taken up again: behind the last event that was taken,
/// or where it started.
pub open spec fn resume_from(after_seq: u64, seqs: Seq<u64>) -> u64 {
    if seqs.len() == 0 {
        after_seq
    } else {
        seqs.last()
    }
}

/// A run that was interrupted, by a refused event or otherwise, and a second
/// run that takes it up behind the last event that was taken and ends well,
/// take together what one run that is not interrupted takes: the same events,
/// each once, in the same order.
pub proof fn law_rerun_completes_the_run(
    archive: ArchiveView,
    filters: FiltersView,
    after_seq: u64,
    interrupted: Seq<(ReplyView, bool)>,
    rerun: Seq<(ReplyView, bool)>,
    whole: Seq<(ReplyView, bool)>,
)
    requires
        ({
            let phase = PhaseView::Planning { attempt: 0 };
            let had = taken(filters, started(after_seq), phase, interrupted);
            let again = started(resume_from(after_seq, had));
            &&& served(archive, filters, started(after_seq), phase, interrupted)
            &&& served(archive, filters, again, phase, rerun)
            &&& ends_well(filters, again, phase, rerun)
            &&& served(archive, filters, started(after_seq), phase, whole)
            &&& ends_well(filters, started(after_seq), phase, whole)
        }),
        !rerun.last().1,
        !whole.last().1,
    ensures
        ({
            let phase = PhaseView::Planning { attempt: 0 };
            let had = taken(filters, started(after_seq), phase, interrupted);
            let again = started(resume_from(after_seq, had));
            taken(filters, started(after_seq), phase, whole) == had + taken(
                filters,
                again,
                phase,
                rerun,
            )
        }),
{
    let phase = PhaseView::Planning { attempt: 0 };
    let p = started(after_seq);
    let had = taken(filters, p, phase, interrupted);
    let from = resume_from(after_seq, had);
    let rest = taken(filters, started(from), phase, rerun);
    let all = taken(filters, p, phase, whole);
    let floor = stands(filters, p, phase, interrupted, interrupted.len() as int).0.floor;
    let both = had + rest;
    law_run_takes_what_it_passes(archive, filters, after_seq, interrupted);
    law_whole_run_takes_everything(archive, filters, from, rerun);
    law_whole_run_takes_everything(archive, filters, after_seq, whole);
    if had.len() > 0 {
        assert(had.contains(had.last()));
    }
    assert forall|seq: u64| had.contains(seq) implies seq <= from by {
        let i = choose|i: int| 0 <= i < had.len() && had[i] == seq;
        assert(had[i] <= had.last());
    }
    assert forall|i: int, j: int| 0 <= i < j < both.len() implies #[trigger] both[i]
        < #[trigger] both[j] by {
        if i < had.len() {
            assert(had.contains(had[i]));
        }
        if j >= had.len() {
            assert(rest.contains(rest[j - had.len()]));
        }
    }
    assert forall|seq: u64| #[trigger] both.contains(seq) <==> all.contains(seq) by {
        if both.contains(seq) {
            let i = choose|i: int| 0 <= i < both.len() && both[i] == seq;
            if i < had.len() {
                assert(had.contains(seq));
            } else {
                assert(rest[i - had.len()] == seq);
                assert(rest.contains(seq));
            }
        }
        if all.contains(seq) {
            if seq <= from {
                assert(had.contains(seq));
                let i = choose|i: int| 0 <= i < had.len() && had[i] == seq;
                assert(both[i] == seq);
            } else {
                assert(rest.contains(seq));
                let i = choose|i: int| 0 <= i < rest.len() && rest[i] == seq;
                assert(both[had.len() + i] == seq);
            }
        }
    }
    lemma_rising_seqs_agree(all, both);
}

} // verus!
