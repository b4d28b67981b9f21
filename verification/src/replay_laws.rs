//! What the archive replay promises, in terms of rows, plans and events alone.
use vstd::prelude::*;

use crate::archive::{delay_after, ArchiveErrorView, SnapshotPlanView};
use crate::coverage::{
    law_run_takes_what_it_passes, law_whole_run_takes_everything, offered, served, ArchiveView,
};
use crate::events::{Event, EventView, PayloadView};
use crate::ipld::record_form;
use crate::jss::{RawEvent, RawEventView, RowError};
use crate::replay::{
    actions, flattened, law_step_keeps, lemma_actions_len, lemma_next_row, next_row, plan_step,
    replay_step, started, ActionView, FiltersView, PageView, PhaseView, Progress, ReplayFilters,
    ReplayOutcome, ReplyView, Work,
};
use crate::sweep::{
    downloaded, ends_well, law_every_row_is_taken, law_sweep_is_complete, lemma_later_stand,
    plan_undisturbed, rows_rise, stands, taken, well_known,
};

verus! {

// ---- which rows ----

/// A row is admitted exactly where it belongs to the account and, for a
/// record mutation, its collection is one of those listed, whichever.
pub proof fn law_listed_collections_are_admitted(filters: ReplayFilters, row: RawEvent)
    ensures
        filters@.matches(row@) <==> {
            &&& row.did@ == filters.did@
            &&& row.kind == 1 || row.kind == 2 || row.kind == 3 || row.kind == 7 ==> exists|i: int|
                0 <= i < filters.collections@.len() && (#[trigger] filters.collections@[i])@
                    == row.collection@
        },
{
    let listed = filters@.collections;
    if exists|i: int|
        0 <= i < filters.collections@.len() && (#[trigger] filters.collections@[i])@
            == row.collection@ {
        let i = choose|i: int|
            0 <= i < filters.collections@.len() && (#[trigger] filters.collections@[i])@
                == row.collection@;
        assert(listed[i] == row.collection@);
        assert(listed.contains(row.collection@));
    }
    if listed.contains(row@.collection) {
        let i = choose|i: int| 0 <= i < listed.len() && listed[i] == row@.collection;
        assert(filters.collections@[i]@ == row.collection@);
    }
}

/// A row of the account whose collection is the i-th of those listed is
/// admitted, and so is a marker of the account; a row of another account is
/// not, nor is a mutation in a collection that is not listed.
pub proof fn law_rows_of_the_account_are_admitted(
    filters: FiltersView,
    row: RawEventView,
    i: int,
)
    requires
        0 <= i < filters.collections.len(),
    ensures
        row.did == filters.did && row.collection == filters.collections[i] ==> filters.matches(row),
        row.did == filters.did && 4 <= row.kind <= 6 ==> filters.matches(row),
        row.did != filters.did ==> !filters.matches(row),
        (row.kind == 1 || row.kind == 2 || row.kind == 3 || row.kind == 7) && (forall|k: int|
            0 <= k < filters.collections.len() ==> #[trigger] filters.collections[k]
                != row.collection) ==> !filters.matches(row),
{
    if row.collection == filters.collections[i] {
        assert(filters.collections.contains(row.collection));
    }
}

/// Among the rows of a download, the next one to apply is the first above the
/// floor that belongs to the account and lies in a listed collection, or is a
/// marker of the account: none of those in front of it does.
pub proof fn law_next_row_skips_nothing_wanted(
    filters: FiltersView,
    rows: Seq<RawEventView>,
    from: int,
    floor: u64,
    k: int,
    i: int,
)
    requires
        0 <= from <= k < rows.len(),
        rows[k].seq > floor,
        rows[k].did == filters.did,
        4 <= rows[k].kind <= 6 || (0 <= i < filters.collections.len() && filters.collections[i]
            == rows[k].collection),
    ensures
        next_row(filters, rows, from, floor) matches Some(next) && from <= next <= k,
    decreases k - from,
{
    if 0 <= i < filters.collections.len() && filters.collections[i] == rows[k].collection {
        assert(filters.collections.contains(rows[k].collection));
    }
    if from < k && !(rows[from].seq > floor && filters.matches(rows[from])) {
        law_next_row_skips_nothing_wanted(filters, rows, from + 1, floor, k, i);
    }
}

/// In a run that ends well, every row of a download that lies above the floor,
/// belongs to the account and lies in a listed collection is taken by the
/// sink, where the rows of the download rise in seq.
pub proof fn law_listed_rows_are_taken(
    filters: FiltersView,
    p: Progress,
    phase: PhaseView,
    replies: Seq<(ReplyView, bool)>,
    at: int,
    k: int,
    i: int,
)
    requires
        ends_well(filters, p, phase, replies),
        0 <= at < replies.len(),
        0 <= i < filters.collections.len(),
        ({
            let (here, waiting) = stands(filters, p, phase, replies, at);
            &&& downloaded(waiting, replies[at].0) matches Some(rows)
            &&& rows_rise(rows)
            &&& 0 <= k < rows.len()
            &&& rows[k].seq > here.floor
            &&& rows[k].did == filters.did
            &&& rows[k].collection == filters.collections[i]
        }),
    ensures
        taken(filters, p, phase, replies).contains(
            downloaded(stands(filters, p, phase, replies, at).1, replies[at].0)->0[k].seq,
        ),
{
    let row = downloaded(stands(filters, p, phase, replies, at).1, replies[at].0)->0[k];
    law_rows_of_the_account_are_admitted(filters, row, i);
    law_every_row_is_taken(filters, p, phase, replies, at, k);
}

/// A sweep that ends well downloads every block and every segment that a plan
/// names, and the sink takes each row in it that lies above the floor, belongs
/// to the account and lies in a listed collection, where the rows rise in seq
/// and nothing disturbs the run before the next plan is asked for.
pub proof fn law_sweep_takes_every_listed_row(
    filters: FiltersView,
    after_seq: u64,
    replies: Seq<(ReplyView, bool)>,
    planned: int,
    plan: SnapshotPlanView,
    work: Work,
) -> (at: int)
    requires
        ({
            let phase = PhaseView::Planning { attempt: 0 };
            &&& ends_well(filters, started(after_seq), phase, replies)
            &&& stands(filters, started(after_seq), phase, replies, planned).1 is Planning
            &&& plan_undisturbed(filters, started(after_seq), phase, replies, planned)
        }),
        0 <= planned < replies.len(),
        replies[planned].0 == ReplyView::Planned(Ok::<SnapshotPlanView, ArchiveErrorView>(plan)),
        well_known(plan.segments),
        match work {
            Work::Block { unit, range, index } => unit < plan.segments.len()
                && plan.segments[unit as int].mode == "blocks"@ && range
                < plan.segments[unit as int].blocks.len()
                && plan.segments[unit as int].blocks[range as int].first <= index
                <= plan.segments[unit as int].blocks[range as int].last,
            Work::Segment { unit } => unit < plan.segments.len()
                && plan.segments[unit as int].mode == "segment"@,
            _ => false,
        },
    ensures
        planned < at < replies.len(),
        ({
            let phase = PhaseView::Planning { attempt: 0 };
            let (here, waiting) = stands(filters, started(after_seq), phase, replies, at);
            let seqs = taken(filters, started(after_seq), phase, replies);
            &&& downloaded(waiting, replies[at].0) matches Some(rows)
            &&& waiting matches PhaseView::Working { page, work: asked, .. } && page.plan == plan
                && asked == work
            &&& rows_rise(rows) ==> forall|k: int, i: int|
                0 <= k < rows.len() && 0 <= i < filters.collections.len() && (
                #[trigger] rows[k]).seq > here.floor && rows[k].did == filters.did
                    && rows[k].collection == #[trigger] filters.collections[i] ==> seqs.contains(
                    rows[k].seq,
                )
        }),
{
    let phase = PhaseView::Planning { attempt: 0 };
    let at = law_sweep_is_complete(filters, after_seq, replies, planned, plan, work);
    let (here, waiting) = stands(filters, started(after_seq), phase, replies, at);
    let rows = downloaded(waiting, replies[at].0)->0;
    let seqs = taken(filters, started(after_seq), phase, replies);
    if rows_rise(rows) {
        assert forall|k: int, i: int|
            0 <= k < rows.len() && 0 <= i < filters.collections.len() && (#[trigger] rows[k]).seq
                > here.floor && rows[k].did == filters.did && rows[k].collection
                == #[trigger] filters.collections[i] implies seqs.contains(rows[k].seq) by {
            law_rows_of_the_account_are_admitted(filters, rows[k], i);
        }
    }
    at
}

/// A run over one archive that ends well takes every event of it that lies
/// above where the run started, belongs to the account and lies in a listed
/// collection.
pub proof fn law_whole_run_takes_every_listed_row(
    archive: ArchiveView,
    filters: FiltersView,
    after_seq: u64,
    replies: Seq<(ReplyView, bool)>,
    k: int,
    i: int,
)
    requires
        ({
            let phase = PhaseView::Planning { attempt: 0 };
            &&& served(archive, filters, started(after_seq), phase, replies)
            &&& ends_well(filters, started(after_seq), phase, replies)
        }),
        !replies.last().1,
        0 <= k < archive.rows.len(),
        archive.rows[k].seq > after_seq,
        archive.rows[k].did == filters.did,
        0 <= i < filters.collections.len(),
        archive.rows[k].collection == filters.collections[i],
    ensures
        taken(
            filters,
            started(after_seq),
            PhaseView::Planning { attempt: 0 },
            replies,
        ).contains(archive.rows[k].seq),
{
    law_rows_of_the_account_are_admitted(filters, archive.rows[k], i);
    assert(offered(filters, archive.rows, archive.rows[k].seq));
    law_whole_run_takes_everything(archive, filters, after_seq, replies);
}

/// Whatever a run over one archive takes is an event of it that lies above
/// where the run started and belongs to the account; a record mutation among
/// them lies in a listed collection.
pub proof fn law_runs_take_nothing_else(
    archive: ArchiveView,
    filters: FiltersView,
    after_seq: u64,
    replies: Seq<(ReplyView, bool)>,
    seq: u64,
) -> (k: int)
    requires
        served(
            archive,
            filters,
            started(after_seq),
            PhaseView::Planning { attempt: 0 },
            replies,
        ),
        taken(
            filters,
            started(after_seq),
            PhaseView::Planning { attempt: 0 },
            replies,
        ).contains(seq),
    ensures
        0 <= k < archive.rows.len(),
        archive.rows[k].seq == seq,
        seq > after_seq,
        archive.rows[k].did == filters.did,
        ({
            let kind = archive.rows[k].kind;
            kind == 1 || kind == 2 || kind == 3 || kind == 7
        }) ==> exists|i: int|
            0 <= i < filters.collections.len() && #[trigger] filters.collections[i]
                == archive.rows[k].collection,
{
    law_run_takes_what_it_passes(archive, filters, after_seq, replies);
    let k = choose|k: int|
        0 <= k < archive.rows.len() && (#[trigger] archive.rows[k]).seq == seq && filters.matches(
            archive.rows[k],
        );
    assert(offered(filters, archive.rows, seq));
    if filters.collections.contains(archive.rows[k].collection) {
        let i = choose|i: int|
            0 <= i < filters.collections.len() && filters.collections[i]
                == archive.rows[k].collection;
        assert(filters.collections[i] == archive.rows[k].collection);
    }
    k
}

// ---- what becomes of a row ----

/// The event of a row is about the row's own record: seq and account, and for
/// a record mutation collection, key and revision, are those of the row.
pub proof fn law_event_names_its_row(row: RawEvent, decode_record: bool, event: Event)
    requires
        row@.event(decode_record) == Ok::<EventView, RowError>(event@),
    ensures
        event.seq == row.seq,
        event.did@ == row.did@,
        event.time_us == if row.indexed_at != 0 {
            row.indexed_at
        } else {
            row.witnessed_at
        },
        event.payload matches crate::events::Payload::Commit(commit) ==> {
            &&& commit.rkey@ == row.rkey@
            &&& commit.rev@ == row.rev@
            &&& commit.collection@ == row.collection@
        },
        event.payload is Commit <==> row.kind == 1 || row.kind == 2 || row.kind == 3 || row.kind
            == 7,
        event.payload is Identity <==> row.kind == 4,
        event.payload is Account <==> row.kind == 5,
        event.payload is Sync <==> row.kind == 6,
{
}

/// A record mutation is named by its kind, and carries its record and the
/// identifier of its bytes exactly where the record is asked for and there.
pub proof fn law_event_carries_its_record(row: RawEvent, decode_record: bool, event: Event)
    requires
        row@.event(decode_record) == Ok::<EventView, RowError>(event@),
    ensures
        event.payload matches crate::events::Payload::Commit(commit) ==> {
            let wanted = decode_record && row.kind != 3 && row.payload@.len() > 0;
            &&& commit.operation@ == "create"@ <==> row.kind == 1 || row.kind == 7
            &&& commit.operation@ == "update"@ <==> row.kind == 2
            &&& commit.operation@ == "delete"@ <==> row.kind == 3
            &&& commit.record is Some <==> wanted
            &&& commit.cid is Some <==> wanted
            &&& commit.record matches Some(record) ==> record_form(row.payload@) == Some(record@)
            &&& commit.cid matches Some(cid) ==> cid@ == crate::encoding::cid_of_digest(
                crate::encoding::sha256(row.payload@),
            )
        },
{
    reveal_strlit("create");
    reveal_strlit("update");
    reveal_strlit("delete");
    assert("create"@[0] == 'c' && "update"@[0] == 'u' && "delete"@[0] == 'd');
}

/// A row of a known kind becomes an event, unless its record is asked for and
/// cannot be read.
pub proof fn law_rows_become_events(row: RawEventView, decode_record: bool)
    ensures
        row.event(decode_record) is Ok <==> 1 <= row.kind <= 7 && !(decode_record && (row.kind == 1
            || row.kind == 2 || row.kind == 7) && row.payload.len() > 0 && record_form(row.payload)
            is None),
{
}

/// The event that a replay hands to its sink is that of a row it downloaded,
/// with the record that a create or an update carries.
pub proof fn law_sink_gets_whole_events(
    filters: FiltersView,
    p: Progress,
    phase: PhaseView,
    reply: ReplyView,
    cancelled: bool,
)
    ensures
        ({
            let step = replay_step(filters, p, phase, reply, cancelled);
            step.action matches ActionView::Apply(event) ==> {
                &&& step.phase matches PhaseView::Applying { rows, next, .. }
                &&& event.seq == rows[next].seq
                &&& event.did == rows[next].did
                &&& rows[next].kind != 3 ==> rows[next].event(true) == Ok::<EventView, RowError>(
                    event,
                )
                &&& rows[next].kind == 3 ==> (event.payload matches PayloadView::Commit(commit)
                    && commit.operation == "delete"@ && commit.rkey == rows[next].rkey
                    && commit.record is None)
            }
        }),
{
}

/// The rows of consecutive blocks come one block behind the other, none left
/// out and none changed.
pub proof fn law_blocks_follow_one_another(blocks: Seq<Seq<RawEventView>>, b: int, i: int)
    requires
        0 <= b < blocks.len(),
        0 <= i < blocks[b].len(),
    ensures
        flattened(blocks.take(b)).len() + i < flattened(blocks).len(),
        flattened(blocks)[flattened(blocks.take(b)).len() + i] == blocks[b][i],
        b + 1 < blocks.len() ==> flattened(blocks.take(b + 1)).len() == flattened(
            blocks.take(b),
        ).len() + blocks[b].len(),
        b + 1 == blocks.len() ==> flattened(blocks).len() == flattened(blocks.take(b)).len()
            + blocks[b].len(),
    decreases blocks.len(),
{
    let less = blocks.drop_last();
    if b + 1 == blocks.len() {
        assert(blocks.take(b) =~= less);
    } else {
        assert(less.take(b) =~= blocks.take(b));
        law_blocks_follow_one_another(less, b, i);
        assert(blocks.take(b + 1).drop_last() =~= blocks.take(b));
        assert(blocks.take(b + 1).last() == blocks[b]);
    }
}

// ---- what is asked for ----

/// A plan is asked for the account and all the listed collections, behind
/// everything that was dealt with and up to the pinned tip.
pub proof fn law_plans_are_asked_for_the_account(
    filters: FiltersView,
    p: Progress,
    phase: PhaseView,
    reply: ReplyView,
    cancelled: bool,
)
    ensures
        ({
            let step = replay_step(filters, p, phase, reply, cancelled);
            step.action matches ActionView::Plan(request) ==> {
                &&& !cancelled
                &&& request.dids.len() == 1 && request.dids[0] == filters.did
                &&& request.collections == filters.collections
                &&& request.after_seq == step.progress.floor
                &&& request.before_seq == step.progress.pinned_tip
                &&& step.phase is Planning
            }
        }),
{
}

/// A replay starts by asking for the plan behind the seq it was given, for the
/// account and all the listed collections; one that is cancelled before it
/// starts ends with nothing applied.
pub proof fn law_replay_starts_behind_the_cursor(filters: FiltersView, after_seq: u64)
    ensures
        plan_step(filters, started(after_seq), 0, false).action matches ActionView::Plan(request)
            && request.dids == seq![filters.did] && request.collections == filters.collections
            && request.after_seq == after_seq && request.before_seq is None,
        plan_step(filters, started(after_seq), 0, true).action matches ActionView::Done(outcome)
            && outcome.events_applied == 0 && outcome.last_seq is None && outcome.sealed_tip_seq
            == after_seq,
{
}

/// What is downloaded is what the plan names: a block by the name of its
/// segment and its index, a segment by its name.
pub proof fn law_downloads_are_named_by_the_plan(
    filters: FiltersView,
    p: Progress,
    phase: PhaseView,
    reply: ReplyView,
    cancelled: bool,
)
    ensures
        ({
            let step = replay_step(filters, p, phase, reply, cancelled);
            &&& step.action matches ActionView::FetchBlock { segment, index } ==> {
                &&& step.phase matches PhaseView::Working { page, work, .. }
                &&& work matches Work::Block { unit, range, index: asked }
                &&& page.plan.segments[unit as int].name == segment
                &&& asked == index
            }
            &&& step.action matches ActionView::FetchSegment { name } ==> {
                &&& step.phase matches PhaseView::Working { page, work, .. }
                &&& work matches Work::Segment { unit }
                &&& page.plan.segments[unit as int].name == name
            }
            &&& step.action matches ActionView::RemoveSegment { name } ==> {
                &&& step.phase matches PhaseView::Removing { page, unit }
                &&& page.plan.segments[unit as int].name == name
            }
        }),
{
}

/// The first plan pins the tip of the snapshot, and no later one moves it.
pub proof fn law_first_plan_pins_the_tip(
    filters: FiltersView,
    p: Progress,
    attempt: u32,
    plan: SnapshotPlanView,
    cancelled: bool,
)
    ensures
        replay_step(
            filters,
            p,
            PhaseView::Planning { attempt },
            ReplyView::Planned(Ok(plan)),
            cancelled,
        ).progress.pinned_tip == match p.pinned_tip {
            None => Some(plan.sealed_tip_seq),
            Some(tip) => Some(tip),
        },
{
}

/// A spooled segment is removed once its rows are dealt with: behind the last
/// of them that is wanted nothing else comes first.
pub proof fn law_spent_segment_is_removed(
    filters: FiltersView,
    p: Progress,
    page: PageView,
    unit: usize,
    rows: Seq<RawEventView>,
    next: int,
    cancelled: bool,
)
    requires
        0 <= next < rows.len(),
        forall|k: int|
            next < k < rows.len() ==> (#[trigger] rows[k]).seq <= rows[next].seq || rows[k].did
                != filters.did,
    ensures
        replay_step(
            filters,
            p,
            PhaseView::Applying { page, work: Work::Segment { unit }, rows, next },
            ReplyView::Applied(true),
            cancelled,
        ).action == (ActionView::RemoveSegment { name: page.plan.segments[unit as int].name }),
{
    lemma_next_row(filters, rows, next + 1, rows[next].seq);
}

// ---- what the outcome says ----

/// Progress counts what the sink took, and remembers the last of it.
proof fn lemma_progress_counts(
    filters: FiltersView,
    p: Progress,
    phase: PhaseView,
    replies: Seq<(ReplyView, bool)>,
)
    requires
        p.valid(),
        phase matches PhaseView::Applying { page, work, rows, next } ==> 0 <= next < rows.len()
            && rows[next].seq > p.floor,
    ensures
        ({
            let q = stands(filters, p, phase, replies, replies.len() as int).0;
            let seqs = taken(filters, p, phase, replies);
            &&& q.events_applied == p.events_applied + seqs.len()
            &&& q.last_seq == if seqs.len() == 0 {
                p.last_seq
            } else {
                Some(seqs.last())
            }
            &&& q.after_seq == p.after_seq
        }),
    decreases replies.len(),
{
    if replies.len() > 0 {
        let step = replay_step(filters, p, phase, replies[0].0, replies[0].1);
        let more = replies.skip(1);
        law_step_keeps(filters, p, phase, replies[0].0, replies[0].1);
        lemma_progress_counts(filters, step.progress, step.phase, more);
        lemma_later_stand(filters, p, phase, replies, more.len() as int);
        let rest = taken(filters, step.progress, step.phase, more);
        if phase is Applying && replies[0].0 == ReplyView::Applied(true) {
            let seq = phase->rows[phase->next].seq;
            assert(taken(filters, p, phase, replies) == seq![seq] + rest);
            if rest.len() > 0 {
                assert((seq![seq] + rest).last() == rest.last());
            }
        }
    }
}

/// The outcome of a replay says how many events the sink took, and the seq of
/// the last of them.
pub proof fn law_outcome_counts_the_events(
    filters: FiltersView,
    after_seq: u64,
    replies: Seq<(ReplyView, bool)>,
    outcome: ReplayOutcome,
)
    requires
        replies.len() > 0,
        actions(
            filters,
            started(after_seq),
            PhaseView::Planning { attempt: 0 },
            replies,
        ).last() == ActionView::Done(outcome),
    ensures
        ({
            let seqs = taken(
                filters,
                started(after_seq),
                PhaseView::Planning { attempt: 0 },
                replies,
            );
            &&& outcome.events_applied == seqs.len()
            &&& seqs.len() == 0 ==> outcome.last_seq is None
            &&& seqs.len() > 0 ==> outcome.last_seq == Some(seqs.last())
        }),
{
    let phase = PhaseView::Planning { attempt: 0 };
    lemma_progress_counts(filters, started(after_seq), phase, replies);
    lemma_last_outcome(filters, started(after_seq), phase, replies);
}

/// The outcome at the end of a run is that of where the run stands.
proof fn lemma_last_outcome(
    filters: FiltersView,
    p: Progress,
    phase: PhaseView,
    replies: Seq<(ReplyView, bool)>,
)
    requires
        replies.len() > 0,
    ensures
        actions(filters, p, phase, replies).last() matches ActionView::Done(outcome) ==> {
            let q = stands(filters, p, phase, replies, replies.len() as int).0;
            &&& outcome.events_applied == q.events_applied
            &&& outcome.last_seq == q.last_seq
            &&& outcome.sealed_tip_seq == match q.pinned_tip {
                Some(tip) => tip,
                None => q.after_seq,
            }
        },
    decreases replies.len(),
{
    let step = replay_step(filters, p, phase, replies[0].0, replies[0].1);
    let more = replies.skip(1);
    let rest = actions(filters, step.progress, step.phase, more);
    lemma_actions_len(filters, step.progress, step.phase, more);
    lemma_later_stand(filters, p, phase, replies, more.len() as int);
    assert(actions(filters, p, phase, replies) =~= seq![step.action] + rest);
    if more.len() > 0 {
        assert((seq![step.action] + rest).last() == rest.last());
        lemma_last_outcome(filters, step.progress, step.phase, more);
    } else {
        assert((seq![step.action] + rest).last() == step.action);
        assert(stands(filters, step.progress, step.phase, more, 0) == (step.progress, step.phase));
    }
}

// ---- calls that fail ----

/// The error that a call came back with.
pub open spec fn call_error(reply: ReplyView) -> Option<ArchiveErrorView> {
    match reply {
        ReplyView::Planned(Err(error)) => Some(error),
        ReplyView::Block(Err(error)) => Some(error),
        ReplyView::Segment(Err(error)) => Some(error),
        _ => None,
    }
}

/// A refused key ends the replay at once, and so does an answer that no
/// repetition changes; only a file that is gone makes it plan anew.
pub proof fn law_lasting_errors_are_not_repeated(
    filters: FiltersView,
    p: Progress,
    phase: PhaseView,
    reply: ReplyView,
    cancelled: bool,
)
    ensures
        ({
            let step = replay_step(filters, p, phase, reply, cancelled);
            &&& call_error(reply) matches Some(ArchiveErrorView::Unauthorized(body)) ==> step.action
                is Failed
            &&& call_error(reply) matches Some(ArchiveErrorView::Http { status, body }) ==> (status
                != 404 ==> step.action is Failed)
            &&& reply matches ReplyView::Planned(Err(ArchiveErrorView::Http { status, body }))
                ==> step.action is Failed
            &&& step.action is Wait ==> (call_error(reply) matches Some(error) && (error
                is RateLimited || error is Other))
        }),
{
}

/// A call that was turned away for its rate waits for as long as the server
/// asked, and is otherwise tried again after a pause that grows with the
/// attempts; nothing that was reached is given up.
pub proof fn law_passing_errors_wait(
    filters: FiltersView,
    p: Progress,
    phase: PhaseView,
    reply: ReplyView,
)
    requires
        match phase {
            PhaseView::Planning { attempt } => reply is Planned,
            PhaseView::Working { page, work: Work::Block { unit, range, index }, attempt } => reply
                is Block,
            PhaseView::Working { page, work: Work::Segment { unit }, attempt } => reply is Segment,
            _ => false,
        },
    ensures
        ({
            let step = replay_step(filters, p, phase, reply, false);
            let attempt = match phase {
                PhaseView::Planning { attempt } => attempt,
                PhaseView::Working { page, work, attempt } => attempt,
                _ => 0,
            };
            &&& call_error(reply) matches Some(ArchiveErrorView::RateLimited {
                retry_after: Some(seconds),
            }) ==> step.action == (ActionView::Wait { seconds }) && step.progress == p
            &&& call_error(reply) matches Some(ArchiveErrorView::RateLimited { retry_after: None })
                ==> step.action == (ActionView::Wait { seconds: delay_after(attempt) as u64 })
                && step.progress == p
            &&& call_error(reply) matches Some(ArchiveErrorView::Other(text)) ==> step.action == (
            ActionView::Wait { seconds: delay_after(attempt) as u64 }) && step.progress == p
            &&& step.action is Wait && attempt < u32::MAX ==> (match step.phase {
                PhaseView::Planning { attempt: next } => next == attempt + 1,
                PhaseView::Working { page, work, attempt: next } => next == attempt + 1,
                _ => false,
            })
        }),
{
}

} // verus!
