//! What calls return, in terms of their arguments and results alone.
use vstd::prelude::*;

use crate::archive::{
    answer_segment, check, next_delay, request_document, start_segment, ArchiveError, SegmentAnswer,
    SegmentStart, SnapshotRequest,
};
use crate::cli::{at_uri_to_web_url, plan_search, SearchPlan};
use crate::events::{classify_cursor, decode_frame, Event, Frame, FrameError, Payload, StoredCursor};
use crate::hybrid::{merge_hybrid, rank_candidates, rising, Candidate, HybridStep};
use crate::ingest::{build_post_uri, handle_like, IngestHandler, IngestPlan, Write};
use crate::ingest_laws::{
    first_member, is_post_of, law_created_likes_are_queued, law_created_posts_are_written,
    law_creation_time_is_that_of_the_record, law_earlier_stream_is_ingested_alike,
    law_first_member_is_read, law_nothing_else_is_written, law_resolved_posts_are_kept_as_they_are,
    law_resolved_posts_need_a_text, lemma_post_address,
};
use crate::jetstream::{
    after_connection, event_time_us, handle_stream_event, plan_connection, plan_cursor,
    AfterConnection, CursorPlan, JetstreamEvent,
};
use crate::ipld::record_json;
use crate::json::{member, Json, JsonView};
use crate::jss::{RawEvent, RowError};
use crate::likes::{post_view_to_post, ResolvedPost};
use crate::live::{next_frame, Incoming, Message};
use crate::models::{choose_sort_key, created_at_sort_key, Post, Source, StoredTime};
use crate::replay::{segment_vanished, unknown_mode_text, ReplayError, ReplayFilters, ReplayOutcome};
use crate::replay_laws::{
    law_event_carries_its_record, law_event_names_its_row, law_listed_collections_are_admitted,
};
use crate::runner::{
    catchup_after_seq, cutover_cursor, handled_step, is_unauthorized, live_cursor_without_archive,
    read_step, ConnectionEnd, Notice, ReadStep, RunAction, RunPhase, RunReply, Runner,
};
use crate::search::{
    fts_fetch_limit, fts_query_sql, fts_step, hybrid_searches, order_by_keys, order_fts_results,
    phrase_query, query_is_empty, refine_vec_results, vec_fetch_limit, FtsStep, MatchType, Order,
    Real, SearchResult,
};
use crate::search_laws::{
    holds, later, law_best_scores_come_first, law_candidates_are_scored_by_their_ranks,
    law_candidates_match_or_are_near, law_candidates_were_found, law_each_quote_is_taken_out,
    law_keyword_statement_filters, law_limit_cuts_off_the_lowest_scores, law_lone_results_are_near,
    law_newest_results_come_first, law_numbers_are_compared_by_value,
    law_refined_rows_are_of_the_handle_and_source, law_refined_search_drops_nothing_wanted,
    law_relevance_keeps_the_order, law_relevance_takes_the_first,
    law_relevance_takes_the_first_that_match, law_room_keeps_every_candidate,
    law_room_keeps_every_row, law_rows_follow_their_keys, law_what_is_cut_off_is_not_newer, no_row,
    only_row,
};
use crate::service_laws::{lacks, law_members_are_read};
use crate::settings_laws::{lemma_trimmed, tight};
use crate::store::{ensure_fts_populated, get_cursor, insert_post, newest_posts, set_cursor};
use crate::time::{created_text, indexed_text, rfc3339, CivilDateTime, Instant, OffsetDateTime};

verus! {

// ---- the replay ----

/// The filter admits a row exactly where it is of the account and, for a
/// record mutation, in one of the listed collections, whichever.
pub proof fn law_filter_answers(filters: ReplayFilters, row: RawEvent, r: bool)
    requires
        call_ensures(ReplayFilters::matches, (&filters, &row), r),
    ensures
        r <==> {
            &&& row.did@ == filters.did@
            &&& row.kind == 1 || row.kind == 2 || row.kind == 3 || row.kind == 7 ==> exists|i: int|
                0 <= i < filters.collections@.len() && (#[trigger] filters.collections@[i])@
                    == row.collection@
        },
{
    law_listed_collections_are_admitted(filters, row);
}

/// A row converts to an event about its own record.
pub proof fn law_conversion_names_the_row(
    row: RawEvent,
    decode_record: bool,
    r: Result<Event, RowError>,
)
    requires
        call_ensures(RawEvent::to_event, (&row, decode_record), r),
    ensures
        r matches Ok(event) ==> {
            &&& event.seq == row.seq
            &&& event.did@ == row.did@
            &&& event.time_us == if row.indexed_at != 0 {
                row.indexed_at
            } else {
                row.witnessed_at
            }
            &&& event.payload is Commit <==> row.kind == 1 || row.kind == 2 || row.kind == 3
                || row.kind == 7
            &&& event.payload matches Payload::Commit(commit) ==> {
                &&& commit.rkey@ == row.rkey@
                &&& commit.rev@ == row.rev@
                &&& commit.collection@ == row.collection@
                &&& commit.operation@ == "create"@ <==> row.kind == 1 || row.kind == 7
                &&& commit.operation@ == "delete"@ <==> row.kind == 3
                &&& commit.record is Some <==> decode_record && row.kind != 3 && row.payload@.len()
                    > 0
                &&& commit.cid is Some <==> commit.record is Some
            }
        },
        r is Err ==> row.kind == 0 || row.kind > 7 || (decode_record && row.payload@.len() > 0),
{
    if let Ok(event) = r {
        law_event_names_its_row(row, decode_record, event);
        law_event_carries_its_record(row, decode_record, event);
    }
}

/// A file is gone exactly where the answer is that it was not found.
pub proof fn law_only_not_found_means_gone(error: ArchiveError, r: bool)
    requires
        call_ensures(segment_vanished, (&error,), r),
    ensures
        r <==> (error matches ArchiveError::Http { status, body } && status == 404),
{
}

// ---- ingest ----

/// An event that creates a post with a text has it written, whatever else the
/// record holds; one that creates a like has its subject queued; nothing but a
/// created record is written, and the cursor moves to the event.
pub proof fn law_events_are_ingested(
    handler: IngestHandler,
    event: Event,
    plan: IngestPlan,
    at: int,
    within: int,
    value: JsonView,
    words: Seq<char>,
)
    requires
        call_ensures(IngestHandler::handle_event, (&handler, &event), plan),
    ensures
        event.payload matches Payload::Commit(commit) ==> (commit.record matches Some(record) ==> {
            &&& commit.operation@ == "create"@ && commit.collection@ == "app.bsky.feed.post"@
                && first_member(record@, "text"@, at, JsonView::String(words)) && words.len() > 0
                ==> is_post_of(
                plan.write,
                handler.handle@,
                event.did@,
                commit.rkey@,
                match commit.cid {
                    Some(cid) => cid@,
                    None => Seq::empty(),
                },
                words,
            )
            &&& commit.operation@ == "create"@ && commit.collection@ == "app.bsky.feed.like"@
                && first_member(record@, "subject"@, at, value) && first_member(
                value,
                "uri"@,
                within,
                JsonView::String(words),
            ) ==> (plan.write matches Some(Write::Like(queued)) && queued@ == words)
            &&& commit.operation@ != "create"@ ==> plan.write is None
            &&& commit.collection@ != "app.bsky.feed.post"@ && commit.collection@
                != "app.bsky.feed.like"@ ==> plan.write is None
        }),
        plan.write is Some ==> (event.payload matches Payload::Commit(commit) && commit.record
            is Some),
        event.seq <= i64::MAX ==> plan.cursor == event.seq,
{
    law_nothing_else_is_written(handler.handle@, event, plan);
    if let Payload::Commit(commit) = event.payload {
        if let Some(record) = commit.record {
            if commit.operation@ == "create"@ && commit.collection@ == "app.bsky.feed.post"@
                && first_member(record@, "text"@, at, JsonView::String(words)) && words.len() > 0 {
                law_created_posts_are_written(handler.handle@, event, plan, at, words);
            }
            if commit.operation@ == "create"@ && commit.collection@ == "app.bsky.feed.like"@
                && first_member(record@, "subject"@, at, value) && first_member(
                value,
                "uri"@,
                within,
                JsonView::String(words),
            ) {
                law_created_likes_are_queued(
                    handler.handle@,
                    event,
                    plan,
                    at,
                    value,
                    within,
                    words,
                );
            }
        }
    }
}

/// A post that an event has written was created when its record says.
pub proof fn law_ingested_posts_keep_their_time(
    handler: IngestHandler,
    event: Event,
    plan: IngestPlan,
    at: int,
    created: Seq<char>,
    time: OffsetDateTime,
)
    requires
        call_ensures(IngestHandler::handle_event, (&handler, &event), plan),
        event.payload matches Payload::Commit(commit) && (commit.record matches Some(record)
            && first_member(record@, "createdAt"@, at, JsonView::String(created))),
        rfc3339(created) == Some(time),
    ensures
        plan.write matches Some(Write::Post(post)) ==> post.created_at@ == created_text(time),
{
    law_creation_time_is_that_of_the_record(handler.handle@, event, plan, at, created, time);
}

/// The cursor is stored once the event is written, and only then.
pub proof fn law_cursor_waits_for_the_write(plan: IngestPlan, written: bool, r: Option<i64>)
    requires
        call_ensures(IngestPlan::cursor_after, (&plan, written), r),
    ensures
        written ==> r == Some(plan.cursor),
        !written ==> r is None,
{
}

/// The address of a post is made of its account and its key.
pub proof fn law_addresses_are_built(did: &str, rkey: &str, r: String)
    requires
        call_ensures(build_post_uri, (did, rkey), r),
    ensures
        r@ == "at://"@ + did@ + "/"@ + "app.bsky.feed.post"@ + "/"@ + rkey@,
{
}

/// A like is for the address in its subject.
pub proof fn law_likes_are_for_their_subject(
    record: Json,
    r: Option<String>,
    at: int,
    subject: JsonView,
    within: int,
    uri: Seq<char>,
)
    requires
        call_ensures(handle_like, (&record,), r),
        first_member(record@, "subject"@, at, subject),
        first_member(subject, "uri"@, within, JsonView::String(uri)),
    ensures
        r matches Some(queued) && queued@ == uri,
{
    law_first_member_is_read(record@, "subject"@, at, subject);
    law_first_member_is_read(subject, "uri"@, within, JsonView::String(uri));
}

/// Events of the earlier stream are ingested alike.
pub proof fn law_stream_events_are_ingested(
    handler: IngestHandler,
    event: JetstreamEvent,
    plan: IngestPlan,
    at: int,
    within: int,
    value: JsonView,
    words: Seq<char>,
)
    requires
        call_ensures(handle_stream_event, (&handler, &event), plan),
    ensures
        event matches JetstreamEvent::Commit {
            did,
            time_us,
            operation,
            collection,
            rkey,
            cid,
            record,
        } ==> {
            &&& operation@ == "create"@ && collection@ == "app.bsky.feed.post"@ && first_member(
                record@,
                "text"@,
                at,
                JsonView::String(words),
            ) && words.len() > 0 ==> is_post_of(
                plan.write,
                handler.handle@,
                did@,
                rkey@,
                cid@,
                words,
            )
            &&& operation@ == "create"@ && collection@ == "app.bsky.feed.like"@ && first_member(
                record@,
                "subject"@,
                at,
                value,
            ) && first_member(value, "uri"@, within, JsonView::String(words)) ==> (
            plan.write matches Some(Write::Like(queued)) && queued@ == words)
            &&& operation@ != "create"@ ==> plan.write is None
            &&& time_us <= i64::MAX ==> plan.cursor == time_us
        },
        !(event is Commit) ==> plan.write is None,
{
    law_earlier_stream_is_ingested_alike(
        handler.handle@,
        event,
        plan.write,
        at,
        within,
        value,
        words,
    );
}

/// The position of an event of the earlier stream is its own time.
pub proof fn law_stream_position_is_the_time(event: JetstreamEvent, r: u64)
    requires
        call_ensures(event_time_us, (&event,), r),
    ensures
        r == match event {
            JetstreamEvent::Commit { time_us, .. } => time_us,
            JetstreamEvent::Delete { time_us } => time_us,
            JetstreamEvent::Identity { time_us } => time_us,
            JetstreamEvent::Account { time_us } => time_us,
        },
{
}

/// A stored position inside the replay window is resumed, an older one is
/// reported with the start of the window, and without one the stream is taken
/// as it is.
pub proof fn law_stored_position_is_resumed(
    stored: Option<i64>,
    now_us: i64,
    max_age_us: i64,
    r: CursorPlan,
)
    requires
        call_ensures(plan_cursor, (stored, now_us, max_age_us), r),
        i64::MIN <= now_us - max_age_us <= i64::MAX,
    ensures
        stored is None ==> r == CursorPlan::LiveTail,
        stored matches Some(at) ==> (at >= now_us - max_age_us ==> r == CursorPlan::Resume(at)),
        stored matches Some(at) ==> (at < now_us - max_age_us ==> (
        r matches CursorPlan::Truncated { requested, oldest } && requested == at && oldest == now_us
            - max_age_us)),
{
}

/// A connection is made the safety margin before the stored position, or at
/// the start of the window where that is gone, and then the gap is reported.
pub proof fn law_connection_is_planned(
    stored: Option<i64>,
    safety_seconds: i64,
    now_us: i64,
    max_age_seconds: i64,
    r: (Option<i64>, bool),
)
    requires
        call_ensures(plan_connection, (stored, safety_seconds, now_us, max_age_seconds), r),
        i64::MIN <= now_us - max_age_seconds * 1_000_000 <= i64::MAX,
        stored matches Some(at) ==> i64::MIN <= at - safety_seconds * 1_000_000 <= i64::MAX,
    ensures
        stored is None ==> r.0 is None && !r.1,
        stored matches Some(at) ==> {
            &&& r.1 <==> at - safety_seconds * 1_000_000 < now_us - max_age_seconds * 1_000_000
            &&& r.0 matches Some(from) && from == if r.1 {
                now_us - max_age_seconds * 1_000_000
            } else {
                at - safety_seconds * 1_000_000
            }
        },
{
    crate::ingest_laws::law_connection_resumes_with_a_margin(
        stored,
        safety_seconds as int,
        now_us as int,
        max_age_seconds as int,
    );
}

/// A connection that ended is made again after five seconds unless the service
/// stops; the user is told of an error, and of a connection that ended
/// unasked.
pub proof fn law_ended_connection_is_made_again(
    ok: bool,
    stopping: bool,
    recycled: bool,
    r: AfterConnection,
)
    requires
        call_ensures(after_connection, (ok, stopping, recycled), r),
    ensures
        stopping <==> r.pause is None,
        r.pause matches Some(seconds) ==> seconds == 5,
        !ok <==> r.notice == Some(Notice::ConnectionError),
        ok && !stopping && !recycled <==> r.notice == Some(Notice::Disconnected),
        ok && (stopping || recycled) <==> r.notice is None,
{
}

/// A resolved post with a text is kept as it was resolved, one without is not
/// kept.
pub proof fn law_resolved_posts_are_kept(
    view: ResolvedPost,
    source: Source,
    r: Option<Post>,
    at: int,
    text: Seq<char>,
)
    requires
        call_ensures(post_view_to_post, (&view, source), r),
        first_member(view.record@, "text"@, at, JsonView::String(text)),
    ensures
        r is Some <==> text.len() > 0,
        r matches Some(post) ==> {
            &&& post.uri@ == view.uri@
            &&& post.cid@ == view.cid@
            &&& post.author_did@ == view.author_did@
            &&& post.author_handle@ == view.author_handle@
            &&& post.text@ == text
            &&& source == Source::Like ==> post.source@ == "like"@
            &&& source == Source::BackfillLike ==> post.source@ == "backfill_like"@
        },
{
    law_resolved_posts_need_a_text(view.record@, at, text);
    if let Some(post) = r {
        law_resolved_posts_are_kept_as_they_are(post, view, source, at, text);
    }
}

/// A stored cursor is read back.
pub proof fn law_cursor_survives_storing(cursor: i64, text: String, stored: &str, r: Option<i64>)
    requires
        call_ensures(set_cursor, (cursor,), text),
        stored@ == text@,
        call_ensures(get_cursor, (Some(stored),), r),
    ensures
        r == Some(cursor),
{
    crate::store::law_stored_cursor_is_read_back(cursor);
}

/// An insert that changed nothing made no row, any other the last one.
pub proof fn law_inserted_row_is_the_last(changed: usize, last: i64, r: Option<i64>)
    requires
        call_ensures(insert_post, (changed, last), r),
    ensures
        r is None <==> changed == 0,
        r matches Some(id) ==> id == last,
{
}

// ---- search ----

/// By relevance the scores of the results of a hybrid search never rise, equal
/// scores stand in rising order of ids, and the limit cuts off none with a
/// higher score than one that is handed out.
pub proof fn law_hybrid_results_are_ranked(
    candidates: Vec<Candidate>,
    scores: Vec<Real>,
    limit: usize,
    out: Vec<SearchResult>,
    i: int,
    j: int,
    k: int,
)
    requires
        call_ensures(rank_candidates, (candidates, &scores, limit, Order::Relevance), out),
        scores@.len() == candidates@.len(),
        forall|a: int, b: int|
            0 <= a < b < candidates@.len() ==> (#[trigger] candidates@[a]).row.id < (
            #[trigger] candidates@[b]).row.id,
        forall|m: int| 0 <= m < scores@.len() ==> (#[trigger] scores@[m]).at_most(scores@[m]),
    ensures
        0 <= i < j < out@.len() ==> (out@[i].rrf_score matches Some(first) && (
        out@[j].rrf_score matches Some(second) && second.at_most(first) && (first.at_most(second)
            ==> out@[i].id < out@[j].id))),
        0 <= k < candidates@.len() && (forall|m: int|
            0 <= m < out@.len() ==> (#[trigger] out@[m]).id != candidates@[k].row.id) ==> {
            &&& out@.len() == limit
            &&& 0 <= i < out@.len() ==> (out@[i].rrf_score matches Some(score)
                && scores@[k].at_most(score))
        },
{
    assert(rising(candidates@));
    if 0 <= i < j < out@.len() {
        law_best_scores_come_first(candidates@, scores@, limit as int, out@, i, j);
    }
    if 0 <= k < candidates@.len() && (forall|m: int|
        0 <= m < out@.len() ==> (#[trigger] out@[m]).id != candidates@[k].row.id) {
        law_limit_cuts_off_the_lowest_scores(candidates@, scores@, limit as int, out@, k, i);
    }
}

/// In whatever order, every candidate is handed out with its own score where
/// the limit leaves room; newest first, none is created later than one before
/// it.
pub proof fn law_hybrid_results_are_complete(
    candidates: Vec<Candidate>,
    scores: Vec<Real>,
    limit: usize,
    order: Order,
    out: Vec<SearchResult>,
    k: int,
    i: int,
    j: int,
    a: OffsetDateTime,
    b: OffsetDateTime,
)
    requires
        call_ensures(rank_candidates, (candidates, &scores, limit, order), out),
        scores@.len() == candidates@.len(),
    ensures
        0 <= k < candidates@.len() && out@.len() < limit ==> exists|m: int|
            0 <= m < out@.len() && (#[trigger] out@[m]).id == candidates@[k].row.id
                && out@[m].rrf_score == Some(scores@[k]),
        order == Order::DateDesc && 0 <= i < j < out@.len() && rfc3339(out@[i].created_at@) == Some(
            a,
        ) && rfc3339(out@[j].created_at@) == Some(b) && a.valid() && a.internet() && b.valid()
            && b.internet() ==> !later(b, a),
{
    let ranked = crate::rank::values(
        crate::rank::ranking(crate::hybrid::scored(candidates@, scores@)),
    );
    if 0 <= k < candidates@.len() && out@.len() < limit {
        law_room_keeps_every_candidate(candidates@, scores@, limit as int, order, out@, k);
    }
    if order == Order::DateDesc && 0 <= i < j < out@.len() && rfc3339(out@[i].created_at@) == Some(
        a,
    ) && rfc3339(out@[j].created_at@) == Some(b) && a.valid() && a.internet() && b.valid()
        && b.internet() {
        law_newest_results_come_first(ranked, limit as int, out@, i, j, a, b);
    }
}

/// A hybrid search scores the posts of the keyword search, and those that only
/// the semantic search found within the threshold; without a keyword match the
/// results are the semantic rows within the threshold, and without a semantic
/// one the keyword rows.
pub proof fn law_hybrid_search_merges(
    keyword: Vec<SearchResult>,
    semantic: Vec<SearchResult>,
    limit: usize,
    max_distance: Real,
    order: Order,
    r: HybridStep,
    a: int,
    b: int,
    i: int,
)
    requires
        call_ensures(merge_hybrid, (keyword, semantic, limit, max_distance, order), r),
        keyword@.len() <= usize::MAX,
        semantic@.len() <= usize::MAX,
    ensures
        r is Score <==> keyword@.len() > 0 && semantic@.len() > 0,
        r matches HybridStep::Score(candidates) ==> {
            &&& 0 <= a < keyword@.len() ==> exists|k: int|
                0 <= k < candidates@.len() && (#[trigger] candidates@[k]).row.id == keyword@[a].id
            &&& 0 <= b < semantic@.len() && only_row(semantic@, semantic@[b].id, b) && no_row(
                keyword@,
                semantic@[b].id,
            ) ==> ((exists|k: int|
                0 <= k < candidates@.len() && (#[trigger] candidates@[k]).row.id
                    == semantic@[b].id) <==> (semantic@[b].distance matches Some(distance)
                && distance.at_most(max_distance)))
        },
        r matches HybridStep::Done(out) ==> {
            &&& out@.len() <= limit
            &&& keyword@.len() == 0 && 0 <= i < out@.len() ==> (
            out@[i].distance matches Some(distance) && distance.at_most(max_distance))
                && out@[i].match_type == Some(MatchType::Semantic)
            &&& keyword@.len() > 0 && order == Order::Relevance && 0 <= i < out@.len() ==> out@[i]
                == (SearchResult { match_type: Some(MatchType::Keyword), ..keyword@[i] })
            &&& keyword@.len() > 0 && order == Order::Relevance ==> out@.len() == limit
                || out@.len() == keyword@.len()
        },
{
    match r {
        HybridStep::Score(candidates) => {
            law_candidates_match_or_are_near(
                keyword@,
                semantic@,
                max_distance,
                candidates@,
                a,
                b,
            );
        },
        HybridStep::Done(out) => {
            if keyword@.len() == 0 && semantic@.len() > 0 {
                let rows = crate::hybrid::labelled(
                    crate::hybrid::near(semantic@, max_distance),
                    MatchType::Semantic,
                );
                law_lone_results_are_near(
                    semantic@,
                    max_distance,
                    limit as int,
                    order,
                    out@,
                    i,
                    -1,
                );
                if out@.len() > 0 {
                    crate::search::law_ordered_rows_were_there(rows, limit as int, order, out@, 0);
                }
            }
            if keyword@.len() > 0 {
                let rows = crate::hybrid::labelled(keyword@, MatchType::Keyword);
                if order == Order::Relevance {
                    law_relevance_takes_the_first(rows, limit as int, out@, i);
                }
                if out@.len() > 0 {
                    crate::search::law_ordered_rows_were_there(rows, limit as int, order, out@, 0);
                }
            }
        },
    }
}

/// A semantic search returns rows of the handle and of the source that were
/// asked for, and where the limit leaves room all of them.
pub proof fn law_refined_search_filters(
    rows: Vec<SearchResult>,
    limit: usize,
    source: Option<&str>,
    handle: Option<&str>,
    order: Order,
    out: Vec<SearchResult>,
    i: int,
    k: int,
)
    requires
        call_ensures(refine_vec_results, (rows, limit, source, handle, order), out),
    ensures
        0 <= i < out@.len() ==> {
            &&& handle matches Some(wanted) ==> out@[i].author_handle@ == wanted@
            &&& source matches Some(wanted) ==> out@[i].source@ == wanted@
            &&& exists|m: int| 0 <= m < rows@.len() && #[trigger] rows@[m] == out@[i]
            &&& out@.len() <= limit
        },
        0 <= k < rows@.len() && out@.len() < limit && (handle matches Some(wanted)
            ==> rows@[k].author_handle@ == wanted@) && (source matches Some(wanted)
            ==> rows@[k].source@ == wanted@) ==> out@.contains(rows@[k]),
{
    let by_source = crate::json::str_view(source);
    let by_handle = crate::json::str_view(handle);
    if 0 <= i < out@.len() {
        law_refined_rows_are_of_the_handle_and_source(
            rows@,
            limit as int,
            by_source,
            by_handle,
            order,
            out@,
            i,
        );
    }
    if 0 <= k < rows@.len() && out@.len() < limit && (handle matches Some(wanted)
        ==> rows@[k].author_handle@ == wanted@) && (source matches Some(wanted)
        ==> rows@[k].source@ == wanted@) {
        law_refined_search_drops_nothing_wanted(
            rows@,
            limit as int,
            by_source,
            by_handle,
            order,
            out@,
            k,
        );
    }
}

/// A keyword search hands out what the database ranked, or the newest of all
/// that matched: none of those left out is created later than one handed out.
pub proof fn law_keyword_results_are_ordered(
    rows: Vec<SearchResult>,
    limit: usize,
    order: Order,
    out: Vec<SearchResult>,
    i: int,
    j: int,
    row: SearchResult,
    a: OffsetDateTime,
    b: OffsetDateTime,
)
    requires
        call_ensures(order_fts_results, (rows, limit, order), out),
        a.valid() && a.internet() && b.valid() && b.internet(),
    ensures
        order == Order::Relevance ==> (out@.len() == limit || out@.len() == rows@.len()) && (0 <= i
            < out@.len() ==> out@[i] == rows@[i]),
        out@.len() < limit && rows@.contains(row) ==> out@.contains(row),
        order == Order::DateDesc && 0 <= i < j < out@.len() && rfc3339(out@[i].created_at@) == Some(
            a,
        ) && rfc3339(out@[j].created_at@) == Some(b) ==> !later(b, a),
        order == Order::DateDesc && 0 <= i < out@.len() && rows@.contains(row) && !out@.contains(row)
            && rfc3339(out@[i].created_at@) == Some(a) && rfc3339(row.created_at@) == Some(b)
            ==> !later(b, a) && out@.len() == limit,
{
    if order == Order::Relevance {
        law_relevance_takes_the_first(rows@, limit as int, out@, i);
    }
    if out@.len() < limit && rows@.contains(row) {
        law_room_keeps_every_row(rows@, limit as int, order, out@, row);
    }
    if order == Order::DateDesc && 0 <= i < j < out@.len() && rfc3339(out@[i].created_at@) == Some(
        a,
    ) && rfc3339(out@[j].created_at@) == Some(b) {
        law_newest_results_come_first(rows@, limit as int, out@, i, j, a, b);
    }
    if order == Order::DateDesc && 0 <= i < out@.len() && rows@.contains(row) && !out@.contains(row)
        && rfc3339(out@[i].created_at@) == Some(a) && rfc3339(row.created_at@) == Some(b) {
        law_what_is_cut_off_is_not_newer(rows@, limit as int, out@, i, row, a, b);
    }
}

/// The posts of a handle are listed newest first, and none that was left out
/// is created later than one that is listed.
pub proof fn law_listed_posts_are_the_newest(
    rows: Vec<SearchResult>,
    limit: usize,
    out: Vec<SearchResult>,
    i: int,
    j: int,
    row: SearchResult,
    a: OffsetDateTime,
    b: OffsetDateTime,
)
    requires
        call_ensures(newest_posts, (rows, limit), out),
        a.valid() && a.internet() && b.valid() && b.internet(),
    ensures
        out@.len() < limit && rows@.contains(row) ==> out@.contains(row),
        0 <= i < j < out@.len() && rfc3339(out@[i].created_at@) == Some(a) && rfc3339(
            out@[j].created_at@,
        ) == Some(b) ==> !later(b, a),
        0 <= i < out@.len() && rows@.contains(row) && !out@.contains(row) && rfc3339(
            out@[i].created_at@,
        ) == Some(a) && rfc3339(row.created_at@) == Some(b) ==> !later(b, a) && out@.len() == limit,
{
    if out@.len() < limit && rows@.contains(row) {
        law_room_keeps_every_row(rows@, limit as int, Order::DateDesc, out@, row);
    }
    if 0 <= i < j < out@.len() && rfc3339(out@[i].created_at@) == Some(a) && rfc3339(
        out@[j].created_at@,
    ) == Some(b) {
        law_newest_results_come_first(rows@, limit as int, out@, i, j, a, b);
    }
    if 0 <= i < out@.len() && rows@.contains(row) && !out@.contains(row) && rfc3339(
        out@[i].created_at@,
    ) == Some(a) && rfc3339(row.created_at@) == Some(b) {
        law_what_is_cut_off_is_not_newer(rows@, limit as int, out@, i, row, a, b);
    }
}

/// A query that asks for something is run as it is, then once more as a
/// phrase; one of white space alone asks for nothing.
pub proof fn law_queries_are_tried_twice(query: &str, failed: u32, r: FtsStep)
    requires
        call_ensures(fts_step, (query, failed), r),
        exists|i: int| 0 <= i < query@.len() && 'a' <= #[trigger] query@[i] <= 'z',
    ensures
        failed == 0 ==> (r matches FtsStep::Run(text) && text@ == query@),
        failed == 1 ==> (r matches FtsStep::Run(text) && text@.len() >= 2 && text@[0] == '"'
            && text@.last() == '"'),
        failed == 1 && (forall|i: int| 0 <= i < query@.len() ==> #[trigger] query@[i] != '"') ==> (
        r matches FtsStep::Run(text) && text@ == seq!['"'] + query@ + seq!['"']),
        failed > 1 ==> r is Fail,
{
    let i = choose|i: int| 0 <= i < query@.len() && 'a' <= #[trigger] query@[i] <= 'z';
    assert(!crate::text::white_space(query@[i]));
    if forall|i: int| 0 <= i < query@.len() ==> #[trigger] query@[i] != '"' {
        crate::search_laws::law_unquoted_text_stays(query@);
    }
}

/// A query is empty exactly where it holds nothing but spaces and the like; one
/// with a visible ASCII character is not.
pub proof fn law_blank_queries_are_empty(query: &str, r: bool)
    requires
        call_ensures(query_is_empty, (query,), r),
    ensures
        (forall|i: int| 0 <= i < query@.len() ==> #[trigger] query@[i] == ' ' || query@[i] == '\t'
            || query@[i] == '\n') ==> r,
        (exists|i: int| 0 <= i < query@.len() && '!' <= #[trigger] query@[i] <= '~') ==> !r,
{
    if forall|i: int| 0 <= i < query@.len() ==> #[trigger] query@[i] == ' ' || query@[i] == '\t'
        || query@[i] == '\n' {
        assert forall|i: int| 0 <= i < query@.len() implies crate::text::white_space(
            #[trigger] query@[i],
        ) by {
            assert(query@[i] == ' ' || query@[i] == '\t' || query@[i] == '\n');
        }
    }
    if exists|i: int| 0 <= i < query@.len() && '!' <= #[trigger] query@[i] <= '~' {
        let i = choose|i: int| 0 <= i < query@.len() && '!' <= #[trigger] query@[i] <= '~';
        assert(!crate::text::white_space(query@[i]));
    }
}

/// The database is asked for what its ranking can pick, and for everything
/// where the newest are wanted.
pub proof fn law_keyword_pool(limit: usize, order: Order, r: i64)
    requires
        call_ensures(fts_fetch_limit, (limit, order), r),
    ensures
        order == Order::DateDesc ==> r == -1,
        order == Order::Relevance && limit <= i64::MAX ==> r == limit,
{
}

/// A semantic search asks for twenty neighbours for each result by date, for
/// five where a filter drops some, and else for as many as were asked for.
pub proof fn law_semantic_pool(limit: usize, filtered: bool, order: Order, r: usize)
    requires
        call_ensures(vec_fetch_limit, (limit, filtered, order), r),
    ensures
        order == Order::DateDesc ==> r == 20 * limit,
        order == Order::Relevance && filtered ==> r == 5 * limit,
        order == Order::Relevance && !filtered ==> r == limit,
{
}

/// A hybrid search has both its searches rank by relevance, three rows for
/// each result, or twenty where the newest are wanted.
pub proof fn law_hybrid_pool(limit: usize, order: Order, r: (usize, Order))
    requires
        call_ensures(hybrid_searches, (limit, order), r),
    ensures
        r.1 == Order::Relevance,
        order == Order::DateDesc ==> r.0 == 20 * limit,
        order == Order::Relevance ==> r.0 == 3 * limit,
{
}

// ---- the command line ----

/// Without a query the posts of the handle are listed, and without either
/// there is nothing to do; a query is searched for in the mode asked for.
pub proof fn law_search_is_planned(has_query: bool, has_handle: bool, mode: &str, r: SearchPlan)
    requires
        call_ensures(plan_search, (has_query, has_handle, mode), r),
    ensures
        r == SearchPlan::Refuse <==> !has_query && !has_handle,
        r == SearchPlan::ListByHandle <==> !has_query && has_handle,
        r == SearchPlan::Keyword <==> has_query && mode@ == "keyword"@,
        r == SearchPlan::Semantic <==> has_query && mode@ == "semantic"@,
        r == SearchPlan::Hybrid <==> has_query && mode@ != "keyword"@ && mode@ != "semantic"@,
{
    reveal_strlit("keyword");
    reveal_strlit("semantic");
    assert("keyword"@.len() != "semantic"@.len());
}

/// The embedding is needed for semantic and hybrid searches, and for nothing
/// else.
pub proof fn law_embedding_is_needed(plan: SearchPlan, r: bool)
    requires
        call_ensures(SearchPlan::needs_embedding, (&plan,), r),
    ensures
        r <==> plan is Semantic || plan is Hybrid,
{
}

/// The link of a post leads to its page: for an address made of a repository,
/// the post collection and a key, neither with a slash.
pub proof fn law_links_lead_to_posts(uri: &str, did: Seq<char>, rkey: Seq<char>, r: String)
    requires
        call_ensures(at_uri_to_web_url, (uri,), r),
        uri@ == "at://"@ + did + "/"@ + "app.bsky.feed.post"@ + "/"@ + rkey,
        forall|i: int| 0 <= i < did.len() ==> #[trigger] did[i] != '/',
        forall|i: int| 0 <= i < rkey.len() ==> #[trigger] rkey[i] != '/',
    ensures
        r@ == "https://bsky.app/profile/"@ + did + "/post/"@ + rkey,
{
    crate::cli::law_indexed_posts_have_links(did, rkey);
}

// ---- the archive ----

/// An answer of the two hundreds is a success; a refused key, a turned away
/// call and any other answer are told apart, with the body and the seconds
/// that the server gave.
pub proof fn law_answers_are_told_apart(
    status: u16,
    retry_after: Option<&str>,
    body: String,
    r: Result<(), ArchiveError>,
)
    requires
        call_ensures(check, (status, retry_after, body), r),
    ensures
        r is Ok <==> 200 <= status <= 299,
        status == 401 ==> (r matches Err(ArchiveError::Unauthorized(said)) && said@ == body@),
        status == 429 ==> (r matches Err(ArchiveError::RateLimited { retry_after: wait }) && (
        retry_after is None ==> wait is None)),
        (status < 200 || status > 299) && status != 401 && status != 429 ==> (
        r matches Err(ArchiveError::Http { status: said, body: text }) && said == status && text@
            == body@),
{
}

/// The seconds that a server asks to wait are those it wrote.
pub proof fn law_server_says_how_long_to_wait(
    seconds: u64,
    header: &str,
    body: String,
    r: Result<(), ArchiveError>,
)
    requires
        call_ensures(check, (429, Some(header), body), r),
        header@ == crate::text::decimal(seconds as nat),
    ensures
        r matches Err(ArchiveError::RateLimited { retry_after }) && retry_after == Some(seconds),
{
    crate::text::law_decimal_round_trip(seconds);
}

/// A call is tried again after a second, and then after twice as long each
/// time, up to a minute.
pub proof fn law_pauses_double(attempt: u32, r: u64, next: u64)
    requires
        call_ensures(next_delay, (attempt,), r),
        attempt < u32::MAX,
        call_ensures(next_delay, ((attempt + 1) as u32,), next),
    ensures
        attempt == 0 ==> r == 1,
        attempt < 5 ==> next == 2 * r,
        attempt >= 6 ==> r == 60,
        attempt == 5 ==> next == 60,
{
    reveal_with_fuel(crate::encoding::power_of_two, 7);
}

/// A download is resumed behind what the spool holds, guarded by the tag that
/// was kept; a finished file is not asked for again, and an empty spool asks
/// for the whole file.
pub proof fn law_downloads_are_resumed(
    done: bool,
    existing: u64,
    etag: Option<&str>,
    r: SegmentStart,
)
    requires
        call_ensures(start_segment, (done, existing, etag), r),
    ensures
        done <==> r is Spooled,
        r matches SegmentStart::Request { range, if_range } ==> {
            &&& existing == 0 ==> range is None && if_range is None
            &&& existing > 0 ==> (range matches Some(text) && text@ == "bytes="@
                + crate::text::decimal(existing as nat) + "-"@)
            &&& existing > 0 ==> (if_range is Some <==> etag is Some)
        },
{
}

/// A partial answer is written behind what is there, a whole one in its place;
/// a range that cannot be satisfied means that nothing was missing.
pub proof fn law_segment_answers_are_judged(
    existing: u64,
    status: u16,
    retry_after: Option<&str>,
    body: String,
    r: Result<SegmentAnswer, ArchiveError>,
)
    requires
        call_ensures(answer_segment, (existing, status, retry_after, body), r),
    ensures
        r == Ok::<SegmentAnswer, ArchiveError>(SegmentAnswer::Complete) <==> existing > 0 && status
            == 416,
        r == Ok::<SegmentAnswer, ArchiveError>(SegmentAnswer::Download { resumed: true })
            <==> status == 206,
        r == Ok::<SegmentAnswer, ArchiveError>(SegmentAnswer::Download { resumed: false })
            <==> 200 <= status <= 299 && status != 206,
        r is Err <==> (status < 200 || status > 299) && !(existing > 0 && status == 416),
{
}

/// A plan request names its bounds, and all accounts and collections it is
/// limited to, each in its place; a limit that is empty is left out.
pub proof fn law_requests_name_their_limits(request: SnapshotRequest, r: Json, i: int)
    requires
        call_ensures(request_document, (&request,), r),
    ensures
        member(r@, "afterSeq"@) == Some(JsonView::Unsigned(request.after_seq)),
        request.before_seq matches Some(seq) ==> member(r@, "beforeSeq"@) == Some(
            JsonView::Unsigned(seq),
        ),
        request.before_seq is None ==> member(r@, "beforeSeq"@) is None,
        request.dids@.len() == 0 ==> member(r@, "dids"@) is None,
        request.dids@.len() > 0 ==> (member(r@, "dids"@) matches Some(JsonView::Array(items))
            && items.len() == request.dids@.len() && (0 <= i < items.len() ==> items[i]
            == JsonView::String(request.dids@[i]@))),
        request.collections@.len() == 0 ==> member(r@, "collections"@) is None,
        request.collections@.len() > 0 ==> (member(
            r@,
            "collections"@,
        ) matches Some(JsonView::Array(items)) && items.len() == request.collections@.len() && (0
            <= i < items.len() ==> items[i] == JsonView::String(request.collections@[i]@))),
{
    reveal_strlit("afterSeq");
    reveal_strlit("beforeSeq");
    reveal_strlit("dids");
    reveal_strlit("collections");
    assert("afterSeq"@.len() == 8 && "beforeSeq"@.len() == 9);
    assert("dids"@.len() == 4 && "collections"@.len() == 11);
    let fields = r@->Object_0;
    let d: int = if request.dids@.len() > 0 {
        1
    } else {
        0
    };
    let c: int = if request.collections@.len() > 0 {
        1
    } else {
        0
    };
    assert(fields.len() == d + c + 1 + if request.before_seq is Some {
        1int
    } else {
        0int
    });
    assert(d == 1 ==> fields[0].0 == "dids"@);
    assert(c == 1 ==> fields[d].0 == "collections"@);
    assert(fields[d + c].0 == "afterSeq"@);
    assert(request.before_seq is Some ==> fields[d + c + 1].0 == "beforeSeq"@);
    law_first_member_is_read(r@, "dids"@, 0, fields[0].1);
    law_first_member_is_read(r@, "collections"@, d, fields[d].1);
    law_first_member_is_read(r@, "afterSeq"@, d + c, fields[d + c].1);
    law_first_member_is_read(r@, "beforeSeq"@, d + c + 1, fields[d + c + 1].1);
}

// ---- the service ----

/// A stored cursor below the threshold is a seq, one at or above it a
/// timestamp of the earlier stream.
pub proof fn law_cursors_are_told_apart(value: i64, r: StoredCursor)
    requires
        call_ensures(classify_cursor, (value,), r),
    ensures
        value >= 1_000_000_000_000_000 ==> r == StoredCursor::LegacyTimeUs(value),
        0 <= value < 1_000_000_000_000_000 ==> (r matches StoredCursor::Sequence(seq) && seq
            == value),
        value < 0 ==> (r matches StoredCursor::Sequence(seq) && seq == 0),
{
}

/// The archive is swept behind a stored seq, and from the beginning where
/// there is none or only a timestamp of the earlier stream.
pub proof fn law_sweep_takes_up_the_cursor(stored: Option<i64>, r: u64)
    requires
        call_ensures(catchup_after_seq, (stored,), r),
    ensures
        stored is None ==> r == 0,
        stored matches Some(value) ==> r == if 0 <= value < 1_000_000_000_000_000 {
            value as int
        } else {
            0
        },
{
}

/// Without a sweep the tail is taken up at the stored cursor, whatever it
/// counts.
pub proof fn law_tail_takes_up_the_cursor(stored: Option<i64>, r: Option<u64>)
    requires
        call_ensures(live_cursor_without_archive, (stored,), r),
    ensures
        stored is None <==> r is None,
        stored matches Some(value) ==> (r matches Some(cursor) && cursor == if value < 0 {
            0
        } else {
            value as int
        }),
{
}

/// After a sweep the tail is taken up at the later of the sealed tip and the
/// last event.
pub proof fn law_tail_follows_the_sweep(outcome: ReplayOutcome, r: Option<u64>)
    requires
        call_ensures(cutover_cursor, (&outcome,), r),
    ensures
        r matches Some(cursor) ==> {
            &&& cursor >= outcome.sealed_tip_seq
            &&& outcome.last_seq matches Some(seq) ==> cursor >= seq
            &&& cursor == outcome.sealed_tip_seq || outcome.last_seq == Some(cursor)
        },
        r is None <==> outcome.sealed_tip_seq == 0 && (outcome.last_seq matches Some(seq) ==> seq
            == 0),
{
}

/// A key was refused exactly where a call to the archive was answered so.
pub proof fn law_refused_keys_are_noticed(error: ReplayError, r: bool)
    requires
        call_ensures(is_unauthorized, (&error,), r),
    ensures
        r <==> match error {
            ReplayError::Plan { error } => error is Unauthorized,
            ReplayError::Block { segment, index, error } => error is Unauthorized,
            ReplayError::Segment { name, error } => error is Unauthorized,
            _ => false,
        },
{
}

/// Events of the tail are handled, advisories and unknown frames are passed
/// over, and everything else ends the connection.
pub proof fn law_tail_is_read(incoming: Incoming, r: ReadStep)
    requires
        call_ensures(read_step, (incoming,), r),
    ensures
        incoming matches Incoming::Frame(Frame::Event(event)) ==> (r matches ReadStep::Handle(got)
            && got.seq == event.seq && got.did@ == event.did@ && got@.payload == event@.payload),
        incoming matches Incoming::Frame(frame) ==> (frame is Info || frame is Unknown ==> r
            is Continue),
        incoming matches Incoming::Frame(frame) ==> (frame is Error ==> r == ReadStep::End(
            ConnectionEnd::Errored,
        )),
        incoming is Closed ==> r == ReadStep::End(ConnectionEnd::Closed),
        incoming is Failed ==> r == ReadStep::End(ConnectionEnd::Errored),
        incoming is Cancelled ==> r == ReadStep::End(ConnectionEnd::Recycled),
{
}

/// Reading goes on behind an event that was taken; one that was not ends the
/// connection, so that it comes again.
pub proof fn law_untaken_events_end_the_connection(taken: bool, r: ReadStep)
    requires
        call_ensures(handled_step, (taken,), r),
    ensures
        taken ==> r is Continue,
        !taken ==> r == ReadStep::End(ConnectionEnd::Errored),
{
}

/// The service starts by reading the cursor, with a sweep due.
pub proof fn law_service_starts_with_the_cursor(
    has_archive: bool,
    cancelled: bool,
    r: (Runner, RunAction),
)
    requires
        call_ensures(Runner::start, (has_archive, cancelled), r),
    ensures
        !cancelled ==> r.1 == RunAction::ReadCursor && r.0.phase == RunPhase::ReadingCursor,
        cancelled ==> r.1 == RunAction::Stop,
        r.0.state.has_archive == has_archive,
        r.0.state.needs_catchup,
        r.0.state.stalled_catchups == 0,
{
}

/// Once the cursor is read, the archive is swept where that is due and
/// possible, behind the stored seq; else the tail is taken up at the stored
/// cursor.
pub proof fn law_sweep_comes_before_the_tail(
    runner: Runner,
    stored: Option<i64>,
    cancelled: bool,
    r: (Runner, RunAction, Option<Notice>),
)
    requires
        call_ensures(Runner::step, (runner, RunReply::Cursor(stored), cancelled), r),
        runner.phase == RunPhase::ReadingCursor,
    ensures
        r.0.state == runner.state,
        r.2 is None,
        runner.state.has_archive && runner.state.needs_catchup ==> (
        r.1 matches RunAction::Sweep { after_seq } && after_seq == match stored {
            Some(value) => if 0 <= value < 1_000_000_000_000_000 {
                value as int
            } else {
                0
            },
            None => 0,
        }),
        r.1 is Sweep ==> r.0.phase == (RunPhase::Sweeping { stored }),
        !(runner.state.has_archive && runner.state.needs_catchup) && !cancelled ==> (
        r.1 matches RunAction::Connect { cursor } && r.0.phase == (RunPhase::Connecting { cursor })
            && (cursor is Some <==> stored is Some) && (stored matches Some(value) ==> value >= 0
            ==> cursor->0 == value)),
{
}

/// A sweep that ended well is followed by the tail, at the later of the sealed
/// tip and the last event, and none is due any more; the user is told where
/// much was recovered.
pub proof fn law_tail_comes_behind_the_sweep(
    runner: Runner,
    outcome: ReplayOutcome,
    r: (Runner, RunAction, Option<Notice>),
)
    requires
        call_ensures(Runner::step, (runner, RunReply::Swept(outcome), false), r),
        runner.phase is Sweeping,
    ensures
        !r.0.state.needs_catchup,
        r.0.state.has_archive == runner.state.has_archive,
        r.1 matches RunAction::Connect { cursor } && {
            &&& r.0.phase == (RunPhase::Connecting { cursor })
            &&& cursor matches Some(at) ==> at >= outcome.sealed_tip_seq && (
            outcome.last_seq matches Some(seq) ==> at >= seq) && (at == outcome.sealed_tip_seq
                || outcome.last_seq == Some(at))
            &&& outcome.sealed_tip_seq > 0 ==> cursor is Some
        },
        r.2 == if outcome.events_applied >= 100 {
            Some(Notice::HistoryRecovered { events: outcome.events_applied })
        } else {
            None
        },
{
}

/// A sweep that failed keeps the service going at the stored cursor, with the
/// sweep still due; a refused key gives the archive up and tells the user.
pub proof fn law_failed_sweep_does_not_stop_the_tail(
    runner: Runner,
    stored: Option<i64>,
    refused: bool,
    r: (Runner, RunAction, Option<Notice>),
)
    requires
        call_ensures(
            Runner::step,
            (
                runner,
                if refused {
                    RunReply::KeyRefused
                } else {
                    RunReply::SweepFailed
                },
                false,
            ),
            r,
        ),
        runner.phase == (RunPhase::Sweeping { stored }),
    ensures
        r.1 matches RunAction::Connect { cursor } && (cursor is Some <==> stored is Some) && (
        stored matches Some(value) ==> value >= 0 ==> cursor->0 == value),
        r.0.state.needs_catchup == runner.state.needs_catchup,
        refused ==> !r.0.state.has_archive && r.2 == Some(Notice::InvalidKey),
        !refused ==> r.0.state.has_archive == runner.state.has_archive && r.2 is None,
{
}

/// A connection that is made is listened to, and forgets what was rejected
/// before.
pub proof fn law_connection_is_listened_to(
    runner: Runner,
    cancelled: bool,
    r: (Runner, RunAction, Option<Notice>),
)
    requires
        call_ensures(Runner::step, (runner, RunReply::Connected, cancelled), r),
        runner.phase is Connecting,
    ensures
        r.1 == RunAction::Listen,
        r.0.phase == RunPhase::Listening,
        r.0.state.stalled_catchups == 0,
        r.0.state.last_rejected_cursor is None,
        r.0.state.needs_catchup == runner.state.needs_catchup,
        r.0.state.has_archive == runner.state.has_archive,
{
}

/// A rejected cursor makes a sweep due where there is an archive, and counts;
/// the service gives up at the sixth rejection of one cursor in a row. Without
/// an archive the cursor is cleared and the user told. Any other refusal is
/// tried again after a pause.
pub proof fn law_rejections_are_answered(
    runner: Runner,
    cursor: Option<u64>,
    status: u16,
    r: (Runner, RunAction, Option<Notice>),
)
    requires
        call_ensures(Runner::step, (runner, RunReply::Rejected { status }, false), r),
        runner.phase == (RunPhase::Connecting { cursor }),
        runner.state.stalled_catchups <= 5,
    ensures
        status != 400 ==> r.1 == (RunAction::Pause { seconds: 5 }) && r.0.state == runner.state
            && r.2 is None,
        status == 400 && !runner.state.has_archive ==> r.1 == RunAction::ClearCursor && r.2 == Some(
            Notice::GapInHistory,
        ),
        status == 400 && runner.state.has_archive ==> {
            let again = runner.state.last_rejected_cursor == Some(cursor);
            &&& again && runner.state.stalled_catchups == 5 ==> (
            r.1 matches RunAction::GiveUp { cursor: at, rejected } && at == cursor && rejected == 6)
                && r.2 == Some(Notice::Stalled)
            &&& !(again && runner.state.stalled_catchups == 5) ==> r.1 == (RunAction::Pause {
                seconds: 5,
            }) && r.0.state.needs_catchup && r.0.state.last_rejected_cursor == Some(cursor)
                && r.0.state.stalled_catchups == if again {
                runner.state.stalled_catchups + 1
            } else {
                1
            }
        },
{
}

/// After a connection ended the service pauses for five seconds and reads the
/// cursor again; a sweep is due unless the connection was given up by the
/// service itself, and the user is told then.
pub proof fn law_ended_tail_is_taken_up_again(
    runner: Runner,
    end: ConnectionEnd,
    r: (Runner, RunAction, Option<Notice>),
)
    requires
        call_ensures(Runner::step, (runner, RunReply::Ended(end), false), r),
        runner.phase == RunPhase::Listening,
    ensures
        r.1 == (RunAction::Pause { seconds: 5 }),
        r.0.phase == RunPhase::Pausing,
        end == ConnectionEnd::Recycled ==> r.2 is None && r.0.state == runner.state,
        end == ConnectionEnd::Closed ==> r.2 == Some(Notice::Disconnected),
        end == ConnectionEnd::Errored ==> r.2 == Some(Notice::ConnectionError),
        end != ConnectionEnd::Recycled ==> r.0.state.needs_catchup == runner.state.has_archive,
{
}

/// Behind a pause the cursor is read again, and behind a connection that could
/// not be made, or a cleared cursor, comes a pause.
pub proof fn law_pauses_lead_back_to_the_cursor(
    runner: Runner,
    reply: RunReply,
    r: (Runner, RunAction, Option<Notice>),
)
    requires
        call_ensures(Runner::step, (runner, reply, false), r),
    ensures
        runner.phase == RunPhase::Pausing && reply == RunReply::Paused ==> r.1
            == RunAction::ReadCursor && r.0.state == runner.state,
        runner.phase is Connecting && reply == RunReply::ConnectFailed ==> r.1 == (
        RunAction::Pause { seconds: 5 }) && r.0.state == runner.state,
        runner.phase == RunPhase::ClearingCursor && reply == RunReply::Cleared ==> r.1 == (
        RunAction::Pause { seconds: 5 }) && r.0.state == runner.state,
{
}

/// A full-text index of unknown state is rebuilt where there is anything to
/// index, and recorded as good; one that is recorded as good is left alone.
pub proof fn law_index_is_repaired_once(
    initialised: bool,
    posts: i64,
    r: crate::store::IndexRepair,
)
    requires
        call_ensures(ensure_fts_populated, (initialised, posts), r),
    ensures
        r.mark <==> !initialised,
        r.rebuild <==> !initialised && posts > 0,
{
}

// ---- records ----

/// A created record of the post collection with a text is always written,
/// whatever other members it has, a reply like any other post; one without a
/// text never. A created like is queued by the address of its subject, and a
/// record of any other collection is passed over.
pub proof fn law_records_are_written(
    handler: IngestHandler,
    did: &str,
    collection: &str,
    rkey: &str,
    cid: &str,
    record: Json,
    r: Option<Write>,
    at: int,
    within: int,
    value: JsonView,
    words: Seq<char>,
)
    requires
        call_ensures(
            IngestHandler::handle_record,
            (&handler, did, collection, rkey, cid, &record),
            r,
        ),
    ensures
        collection@ == "app.bsky.feed.post"@ && first_member(
            record@,
            "text"@,
            at,
            JsonView::String(words),
        ) ==> {
            &&& words.len() > 0 ==> is_post_of(r, handler.handle@, did@, rkey@, cid@, words)
            &&& words.len() == 0 ==> r is None
        },
        collection@ == "app.bsky.feed.post"@ && lacks(record@, "text"@) ==> r is None,
        collection@ == "app.bsky.feed.like"@ && first_member(record@, "subject"@, at, value)
            && first_member(value, "uri"@, within, JsonView::String(words)) ==> (
        r matches Some(Write::Like(queued)) && queued@ == words),
        collection@ == "app.bsky.feed.like"@ && lacks(record@, "subject"@) ==> r is None,
        collection@ != "app.bsky.feed.post"@ && collection@ != "app.bsky.feed.like"@ ==> r is None,
{
    reveal_strlit("app.bsky.feed.post");
    reveal_strlit("app.bsky.feed.like");
    assert("app.bsky.feed.post"@[14] == 'p' && "app.bsky.feed.like"@[14] == 'l');
    law_first_member_is_read(record@, "text"@, at, JsonView::String(words));
    law_first_member_is_read(record@, "subject"@, at, value);
    law_first_member_is_read(value, "uri"@, within, JsonView::String(words));
    law_members_are_read(record@, "text"@, JsonView::Null);
    law_members_are_read(record@, "subject"@, JsonView::Null);
    lemma_post_address(did@, rkey@);
}

/// A post of the account is what its record says, under its own address.
pub proof fn law_own_posts_are_what_they_say(
    handler: IngestHandler,
    did: &str,
    rkey: &str,
    cid: &str,
    record: Json,
    r: Option<Post>,
    at: int,
    words: Seq<char>,
)
    requires
        call_ensures(IngestHandler::handle_own_post, (&handler, did, rkey, cid, &record), r),
        first_member(record@, "text"@, at, JsonView::String(words)),
    ensures
        r is Some <==> words.len() > 0,
        r matches Some(post) ==> {
            &&& post.uri@ == "at://"@ + did@ + "/app.bsky.feed.post/"@ + rkey@
            &&& post.cid@ == cid@
            &&& post.author_did@ == did@
            &&& post.author_handle@ == handler.handle@
            &&& post.text@ == words
            &&& post.source@ == "own_post"@
        },
{
    law_first_member_is_read(record@, "text"@, at, JsonView::String(words));
    lemma_post_address(did@, rkey@);
}

/// So is one with given readings of the clocks, and it was created at the time
/// that its record names.
pub proof fn law_own_posts_are_dated(
    handler: IngestHandler,
    did: &str,
    rkey: &str,
    cid: &str,
    record: Json,
    parsed: Option<OffsetDateTime>,
    now: CivilDateTime,
    r: Option<Post>,
    at: int,
    words: Seq<char>,
)
    requires
        call_ensures(
            IngestHandler::own_post_at,
            (&handler, did, rkey, cid, &record, parsed, now),
            r,
        ),
        first_member(record@, "text"@, at, JsonView::String(words)),
    ensures
        r is Some <==> words.len() > 0,
        r matches Some(post) ==> {
            &&& post.uri@ == "at://"@ + did@ + "/app.bsky.feed.post/"@ + rkey@
            &&& post.cid@ == cid@
            &&& post.author_did@ == did@
            &&& post.author_handle@ == handler.handle@
            &&& post.text@ == words
            &&& post.source@ == "own_post"@
            &&& post.indexed_at@ == indexed_text(now)
            &&& parsed matches Some(time) ==> post.created_at@ == created_text(time)
            &&& parsed is None ==> post.created_at@ == indexed_text(now)
        },
{
    law_first_member_is_read(record@, "text"@, at, JsonView::String(words));
    lemma_post_address(did@, rkey@);
}

/// A stored time with an offset is sorted by the instant it names, one without
/// by what the local clock makes of it, and one that cannot be read by none.
pub proof fn law_sort_keys_are_instants(
    stored: StoredTime,
    local: Option<Instant>,
    r: Option<Instant>,
)
    requires
        call_ensures(choose_sort_key, (stored, local), r),
    ensures
        stored matches StoredTime::At(at) ==> r == Some(at),
        stored is Local ==> r == local,
        stored is Unreadable ==> r is None,
{
}

/// A text that names an instant is sorted by it.
pub proof fn law_dated_texts_have_keys(raw: &str, t: OffsetDateTime, r: Option<Instant>)
    requires
        call_ensures(created_at_sort_key, (raw,), r),
        rfc3339(raw@) == Some(t),
    ensures
        r == Some(t.instant()),
{
}

// ---- candidates and results ----

/// Every result of a hybrid search is a candidate with its own score, labelled
/// by the searches that found it, and otherwise as it was found; there are as
/// many as the limit admits.
pub proof fn law_results_are_scored_candidates(
    candidates: Vec<Candidate>,
    scores: Vec<Real>,
    limit: usize,
    order: Order,
    out: Vec<SearchResult>,
    i: int,
) -> (k: int)
    requires
        call_ensures(rank_candidates, (candidates, &scores, limit, order), out),
        scores@.len() == candidates@.len(),
        0 <= i < out@.len(),
    ensures
        0 <= k < candidates@.len(),
        out@[i] == (SearchResult {
            rrf_score: Some(scores@[k]),
            match_type: if candidates@[k].keyword && candidates@[k].semantic {
                Some(MatchType::KeywordAndSemantic)
            } else if candidates@[k].keyword {
                Some(MatchType::Keyword)
            } else {
                Some(MatchType::Semantic)
            },
            ..candidates@[k].row
        }),
        out@.len() == limit || out@.len() == candidates@.len(),
        out@.len() <= limit,
{
    broadcast use vstd::seq_lib::group_to_multiset_ensures;

    let pairs = crate::hybrid::scored(candidates@, scores@);
    let ranked = crate::rank::ranking(pairs);
    let rows = crate::rank::values(ranked);
    crate::rank::law_ranking_exists(pairs);
    crate::rank::law_ranking_rearranges(pairs, ranked);
    crate::search::law_ordered_rows_were_there(rows, limit as int, order, out@, i);
    let m = choose|m: int| 0 <= m < rows.len() && rows[m] == out@[i];
    assert(ranked.contains(ranked[m]));
    assert(pairs.to_multiset().contains(ranked[m]));
    let k = choose|k: int| 0 <= k < pairs.len() && pairs[k] == ranked[m];
    assert(pairs[k].1 == out@[i]);
    k
}

/// A candidate of a hybrid search says where its post stands in the two
/// searches, and how far it is; the candidates stand in rising order of ids.
pub proof fn law_candidates_say_where_they_stand(
    keyword: Vec<SearchResult>,
    semantic: Vec<SearchResult>,
    limit: usize,
    max_distance: Real,
    order: Order,
    candidates: Vec<Candidate>,
    k: int,
    m: int,
    a: int,
    b: int,
)
    requires
        call_ensures(
            merge_hybrid,
            (keyword, semantic, limit, max_distance, order),
            HybridStep::Score(candidates),
        ),
        keyword@.len() <= usize::MAX,
        semantic@.len() <= usize::MAX,
        0 <= k < candidates@.len(),
    ensures
        ({
            let c = candidates@[k];
            &&& only_row(keyword@, c.row.id, a) && only_row(semantic@, c.row.id, b) ==> c.ranks@
                == seq![a as usize, b as usize] && c.row == keyword@[a] && c.keyword && c.semantic
            &&& only_row(keyword@, c.row.id, a) && no_row(semantic@, c.row.id) ==> c.ranks@ == seq![
                a as usize,
            ] && c.row == keyword@[a] && c.keyword && !c.semantic
            &&& no_row(keyword@, c.row.id) && only_row(semantic@, c.row.id, b) ==> c.ranks@ == seq![
                b as usize,
            ] && c.row == semantic@[b] && !c.keyword && c.semantic
            &&& k < m < candidates@.len() ==> c.row.id < candidates@[m].row.id
        }),
{
    let c = candidates@[k];
    law_candidates_are_scored_by_their_ranks(keyword@, semantic@, c, a, b);
    if k < m < candidates@.len() {
        law_candidates_were_found(keyword@, semantic@, max_distance, candidates@, k, m);
    }
    assert(only_row(keyword@, c.row.id, a) && only_row(semantic@, c.row.id, b) ==> c.ranks@ =~= seq![
        a as usize,
        b as usize,
    ]);
    assert(only_row(keyword@, c.row.id, a) && no_row(semantic@, c.row.id) ==> c.ranks@ =~= seq![
        a as usize,
    ]);
    assert(no_row(keyword@, c.row.id) && only_row(semantic@, c.row.id, b) ==> c.ranks@ =~= seq![
        b as usize,
    ]);
}

/// A number is at most another by value: among numbers of one sign by their
/// bits, and a negative one is at most a positive one.
pub proof fn law_reals_are_compared(a: Real, b: Real, r: bool)
    requires
        call_ensures(Real::le, (&a, &b), r),
    ensures
        a.bits <= 0x7ff0_0000_0000_0000 && b.bits <= 0x7ff0_0000_0000_0000 ==> (r <==> a.bits
            <= b.bits),
        0x8000_0000_0000_0000 <= a.bits <= 0xfff0_0000_0000_0000 && 0x8000_0000_0000_0000 <= b.bits
            <= 0xfff0_0000_0000_0000 ==> (r <==> a.bits >= b.bits),
        0x8000_0000_0000_0000 <= a.bits <= 0xfff0_0000_0000_0000 && b.bits <= 0x7ff0_0000_0000_0000
            ==> r,
        0x7ff0_0000_0000_0000 < a.bits < 0x8000_0000_0000_0000 || a.bits > 0xfff0_0000_0000_0000
            ==> !r,
{
    law_numbers_are_compared_by_value(a, b);
}

/// A phrase is the query between quotation marks, without those in it: one
/// more in the query changes nothing, and a query without them stays.
pub proof fn law_phrases_are_quoted(
    query: &str,
    quoted: &str,
    front: Seq<char>,
    back: Seq<char>,
    r: String,
    same: String,
)
    requires
        call_ensures(phrase_query, (query,), r),
        call_ensures(phrase_query, (quoted,), same),
        query@ == front + back,
        quoted@ == front + seq!['"'] + back,
    ensures
        r@ == same@,
        (forall|i: int| 0 <= i < query@.len() ==> #[trigger] query@[i] != '"') ==> r@ == seq!['"']
            + query@ + seq!['"'],
{
    law_each_quote_is_taken_out(front, back);
    if forall|i: int| 0 <= i < query@.len() ==> #[trigger] query@[i] != '"' {
        crate::search_laws::law_unquoted_text_stays(query@);
    }
}

/// The statement of a keyword search holds the filters that are set, and the
/// order that was asked for.
pub proof fn law_statements_filter(
    has_source: bool,
    has_handle: bool,
    order: Order,
    r: String,
)
    requires
        call_ensures(fts_query_sql, (has_source, has_handle, order), r),
    ensures
        has_source ==> holds(r@, " AND p.source = ?2"@),
        has_source && has_handle ==> holds(r@, " AND p.author_handle = ?3"@),
        !has_source && has_handle ==> holds(r@, " AND p.author_handle = ?2"@),
        order == Order::Relevance ==> holds(r@, " ORDER BY fts_posts.rank"@),
        order == Order::DateDesc ==> holds(r@, " ORDER BY p.created_at DESC"@),
{
    law_keyword_statement_filters(has_source, has_handle, order);
}

// ---- ties and cut-offs ----

/// Rows are ordered by the keys that are given, newest first, those without a
/// key last, and those of one key as they stood.
pub proof fn law_keys_order_rows(
    rows: Vec<SearchResult>,
    keys: Vec<Option<Instant>>,
    r: Vec<SearchResult>,
    i: int,
    j: int,
) -> (places: (int, int))
    requires
        call_ensures(order_by_keys, (rows, &keys), r),
        keys@.len() == rows@.len(),
        0 <= i < j < r@.len(),
    ensures
        r@.len() == rows@.len(),
        0 <= places.0 < rows@.len(),
        0 <= places.1 < rows@.len(),
        rows@[places.0] == r@[i],
        rows@[places.1] == r@[j],
        keys@[places.0] is None ==> keys@[places.1] is None,
        keys@[places.0] matches Some(a) ==> (keys@[places.1] matches Some(b) ==> a.seconds
            > b.seconds || (a.seconds == b.seconds && a.nanos >= b.nanos)),
        keys@[places.0] == keys@[places.1] ==> places.0 < places.1,
{
    law_rows_follow_their_keys(rows@, keys@, r@, i, j)
}

/// By relevance a semantic search keeps the order of its rows, and the limit
/// takes the first that match.
pub proof fn law_refined_search_keeps_the_order(
    rows: Vec<SearchResult>,
    limit: usize,
    source: Option<&str>,
    handle: Option<&str>,
    out: Vec<SearchResult>,
    i: int,
    j: int,
    k: int,
)
    requires
        call_ensures(refine_vec_results, (rows, limit, source, handle, Order::Relevance), out),
        0 <= i < out@.len(),
    ensures
        i < j < out@.len() ==> exists|p: int, q: int|
            0 <= p < q < rows@.len() && #[trigger] rows@[p] == out@[i] && #[trigger] rows@[q]
                == out@[j],
        0 <= k < rows@.len() && (handle matches Some(wanted) ==> rows@[k].author_handle@ == wanted@)
            && (source matches Some(wanted) ==> rows@[k].source@ == wanted@) && !out@.contains(
            rows@[k],
        ) ==> exists|p: int, q: int|
            0 <= p < q < rows@.len() && #[trigger] rows@[p] == out@[i] && #[trigger] rows@[q]
                == rows@[k],
{
    let by_source = crate::json::str_view(source);
    let by_handle = crate::json::str_view(handle);
    if i < j < out@.len() {
        law_relevance_keeps_the_order(rows@, limit as int, by_source, by_handle, out@, i, j);
    }
    if 0 <= k < rows@.len() && (handle matches Some(wanted) ==> rows@[k].author_handle@ == wanted@)
        && (source matches Some(wanted) ==> rows@[k].source@ == wanted@) && !out@.contains(
        rows@[k],
    ) {
        law_relevance_takes_the_first_that_match(
            rows@,
            limit as int,
            by_source,
            by_handle,
            out@,
            i,
            k,
        );
    }
}

/// Without a keyword match every semantic row within the threshold is handed
/// out where the limit leaves room; and whichever search is alone, newest
/// first no result is created later than one before it.
pub proof fn law_lone_searches_are_complete(
    keyword: Vec<SearchResult>,
    semantic: Vec<SearchResult>,
    limit: usize,
    max_distance: Real,
    order: Order,
    out: Vec<SearchResult>,
    i: int,
    j: int,
    k: int,
    a: OffsetDateTime,
    b: OffsetDateTime,
)
    requires
        call_ensures(
            merge_hybrid,
            (keyword, semantic, limit, max_distance, order),
            HybridStep::Done(out),
        ),
        a.valid() && a.internet() && b.valid() && b.internet(),
    ensures
        keyword@.len() == 0 && 0 <= k < semantic@.len() && out@.len() < limit && (
        semantic@[k].distance matches Some(distance) && distance.at_most(max_distance))
            ==> exists|m: int| 0 <= m < out@.len() && (#[trigger] out@[m]).id == semantic@[k].id,
        order == Order::DateDesc && 0 <= i < j < out@.len() && rfc3339(out@[i].created_at@) == Some(
            a,
        ) && rfc3339(out@[j].created_at@) == Some(b) ==> !later(b, a),
{
    let near = crate::hybrid::labelled(
        crate::hybrid::near(semantic@, max_distance),
        MatchType::Semantic,
    );
    let matched = crate::hybrid::labelled(keyword@, MatchType::Keyword);
    if keyword@.len() == 0 && semantic@.len() > 0 {
        law_lone_results_are_near(semantic@, max_distance, limit as int, order, out@, -1, k);
    }
    if order == Order::DateDesc && 0 <= i < j < out@.len() && rfc3339(out@[i].created_at@) == Some(
        a,
    ) && rfc3339(out@[j].created_at@) == Some(b) {
        if keyword@.len() == 0 {
            law_newest_results_come_first(near, limit as int, out@, i, j, a, b);
        } else {
            law_newest_results_come_first(matched, limit as int, out@, i, j, a, b);
        }
    }
}

// ---- texts ----

/// A resolved post was created when its record says.
pub proof fn law_resolved_posts_keep_their_time(
    view: ResolvedPost,
    source: Source,
    r: Option<Post>,
    at: int,
    created: Seq<char>,
    time: OffsetDateTime,
)
    requires
        call_ensures(post_view_to_post, (&view, source), r),
        first_member(view.record@, "createdAt"@, at, JsonView::String(created)),
        rfc3339(created) == Some(time),
    ensures
        r matches Some(post) ==> post.created_at@ == created_text(time),
{
    law_first_member_is_read(view.record@, "createdAt"@, at, JsonView::String(created));
}

/// A new post holds what it is made of.
pub proof fn law_new_posts_hold_what_they_are_made_of(
    uri: String,
    cid: String,
    author_did: String,
    author_handle: String,
    text: String,
    created_at: String,
    source: Source,
    r: Post,
)
    requires
        call_ensures(
            Post::new,
            (uri, cid, author_did, author_handle, text, created_at, source),
            r,
        ),
    ensures
        r.uri@ == uri@,
        r.cid@ == cid@,
        r.author_did@ == author_did@,
        r.author_handle@ == author_handle@,
        r.text@ == text@,
        r.created_at@ == created_at@,
{
}

/// A query of spaces alone is not run.
pub proof fn law_blank_queries_are_not_run(query: &str, failed: u32, r: FtsStep)
    requires
        call_ensures(fts_step, (query, failed), r),
        forall|i: int| 0 <= i < query@.len() ==> #[trigger] query@[i] == ' ',
    ensures
        r is Nothing,
{
    assert forall|i: int| 0 <= i < query@.len() implies crate::text::white_space(
        #[trigger] query@[i],
    ) by {
        assert(query@[i] == ' ');
    }
}

/// What a replay was about when it failed is said by name.
pub proof fn law_failures_say_what_failed(error: ReplayError, r: String)
    requires
        call_ensures(ReplayError::context, (&error,), r),
    ensures
        error is Plan ==> r@ == "planSnapshot"@,
        error matches ReplayError::Block { segment, index, error } ==> r@ == "getBlock "@ + segment@
            + " "@ + crate::text::decimal(index as nat),
        error matches ReplayError::Segment { name, error } ==> r@ == "getSegment "@ + name@,
        error matches ReplayError::DecodeBlock { segment, index, error } ==> r@ == "decode block "@
            + crate::text::decimal(index as nat) + " of "@ + segment@,
        error matches ReplayError::DecodeSegment { name, error } ==> r@ == "decode segment "@ + name@,
        error is Row ==> r@ == "convert archived event"@,
        error is Sink ==> r@ == "apply archived event"@,
        error matches ReplayError::NoProgress { planned_through, floor } ==> r@
            == "snapshot plan does not advance: plannedThroughSeq "@ + crate::text::decimal(
            planned_through as nat,
        ) + " at floor "@ + crate::text::decimal(floor as nat),
{
}

/// A unit of an unknown mode is named with its mode as it is quoted.
pub proof fn law_unknown_modes_are_named(quoted: &str, segment: &str, r: String)
    requires
        call_ensures(unknown_mode_text, (quoted, segment), r),
    ensures
        r@ == "unknown plan unit mode "@ + quoted@ + " for segment "@ + segment@,
{
}

/// The user is told what happened.
pub proof fn law_notices_say_what_happened(notice: Notice, title: String, body: String)
    requires
        call_ensures(Notice::title, (&notice,), title),
        call_ensures(Notice::body, (&notice,), body),
    ensures
        notice matches Notice::HistoryRecovered { events } ==> title@
            == "bsearch: history recovered"@ && body@ == "Replayed "@ + crate::text::decimal(
            events as nat,
        ) + " events from the Jetstream archive."@,
        notice is InvalidKey ==> title@ == "bsearch: invalid Jetstream API key"@ && body@
            == "Archive replay is disabled until the key is fixed."@,
        notice is Disconnected ==> title@ == "bsearch: disconnected"@ && body@
            == "Jetstream connection closed."@,
        notice is ConnectionError ==> title@ == "bsearch: error"@ && body@
            == "Jetstream connection error."@,
        notice is Stalled ==> title@ == "bsearch: stalled"@ && body@
            == "Jetstream keeps rejecting the cursor; the daemon gave up."@,
        notice is GapInHistory ==> title@ == "bsearch: gap in history"@ && body@
            == "The cursor is too old for the live buffer and no API key is configured to recover the gap."@,
{
}

/// A service that was asked to stop connects to nothing, pauses for nothing
/// and reads nothing more; a reply that was not asked for ends it.
pub proof fn law_stopped_service_ends(
    runner: Runner,
    reply: RunReply,
    cancelled: bool,
    r: (Runner, RunAction, Option<Notice>),
)
    requires
        call_ensures(Runner::step, (runner, reply, cancelled), r),
    ensures
        cancelled ==> !(r.1 is Connect) && !(r.1 is Pause) && !(r.1 is ReadCursor),
        runner.phase == RunPhase::Over ==> r.1 == RunAction::Stop,
        runner.phase == RunPhase::Listening && !(reply is Ended) ==> r.1 == RunAction::Stop,
        runner.phase is Sweeping && (reply is Cursor || reply is Connected || reply is Paused)
            ==> r.1 == RunAction::Stop,
        !runner.state.has_archive ==> !(r.1 is Sweep) && !r.0.state.has_archive,
{
}

/// A download guarded by a tag hands back the tag that was kept.
pub proof fn law_tags_are_handed_back(existing: u64, etag: &str, r: SegmentStart)
    requires
        call_ensures(start_segment, (false, existing, Some(etag)), r),
        existing > 0,
        tight(etag@),
    ensures
        r matches SegmentStart::Request { range, if_range: Some(tag) } && tag@ == etag@,
{
    let empty = Seq::<char>::empty();
    assert(etag@ =~= empty + etag@ + empty);
    lemma_trimmed(empty, etag@, empty);
}

/// An answer to a segment request that is no success stands for the error that
/// it stands for anywhere.
pub proof fn law_segment_errors_are_those_of_any_answer(
    existing: u64,
    status: u16,
    retry_after: Option<&str>,
    body: String,
    r: Result<SegmentAnswer, ArchiveError>,
    checked: Result<(), ArchiveError>,
)
    requires
        call_ensures(answer_segment, (existing, status, retry_after, body), r),
        call_ensures(check, (status, retry_after, body), checked),
    ensures
        r is Err ==> checked is Err && r->Err_0@ == checked->Err_0@,
        checked is Err && !(existing > 0 && status == 416) ==> r is Err,
{
}

/// A text message is the frame that its text decodes to.
pub proof fn law_text_messages_are_frames(
    text: String,
    inner: &str,
    r: Option<Incoming>,
    frame: Result<Frame, FrameError>,
)
    requires
        call_ensures(next_frame, (&Message::Text(text),), r),
        inner@ == text@,
        call_ensures(decode_frame, (inner,), frame),
    ensures
        frame matches Ok(got) ==> (r matches Some(Incoming::Frame(read)) && read@ == got@),
        frame is Err ==> (r matches Some(incoming) && incoming is Failed),
{
}

// ---- from the archive to the index ----

/// A post in the archive is written as the live stream has it written: under
/// the address of its row's account and key, with the text of its record; and
/// a like is queued by the address of its subject.
pub proof fn law_archived_records_are_written(
    row: RawEvent,
    event: Event,
    payload: &[u8],
    record: Json,
    handler: IngestHandler,
    plan: IngestPlan,
    at: int,
    within: int,
    value: JsonView,
    words: Seq<char>,
)
    requires
        call_ensures(RawEvent::to_event, (&row, true), Ok::<Event, RowError>(event)),
        call_ensures(IngestHandler::handle_event, (&handler, &event), plan),
        payload@ == row.payload@,
        row.payload@.len() > 0,
        call_ensures(record_json, (payload,), Some(record)),
        row.kind == 1 || row.kind == 7,
    ensures
        row.collection@ == "app.bsky.feed.post"@ && first_member(
            record@,
            "text"@,
            at,
            JsonView::String(words),
        ) && words.len() > 0 ==> (plan.write matches Some(Write::Post(post)) && {
            &&& post.uri@ == "at://"@ + row.did@ + "/app.bsky.feed.post/"@ + row.rkey@
            &&& post.text@ == words
            &&& post.author_did@ == row.did@
            &&& post.author_handle@ == handler.handle@
        }),
        row.collection@ == "app.bsky.feed.like"@ && first_member(record@, "subject"@, at, value)
            && first_member(value, "uri"@, within, JsonView::String(words)) ==> (
        plan.write matches Some(Write::Like(queued)) && queued@ == words),
        row.seq <= i64::MAX ==> plan.cursor == row.seq,
{
    law_event_names_its_row(row, true, event);
    law_event_carries_its_record(row, true, event);
    law_events_are_ingested(handler, event, plan, at, within, value, words);
    let commit = event.payload->Commit_0;
    assert(commit.record is Some);
    assert(commit.record->0@ == record@);
}

/// A record that is updated or deleted in the archive writes nothing.
pub proof fn law_archived_changes_write_nothing(
    row: RawEvent,
    event: Event,
    handler: IngestHandler,
    plan: IngestPlan,
    decode_record: bool,
)
    requires
        call_ensures(RawEvent::to_event, (&row, decode_record), Ok::<Event, RowError>(event)),
        call_ensures(IngestHandler::handle_event, (&handler, &event), plan),
        row.kind != 1 && row.kind != 7,
    ensures
        plan.write is None,
{
    law_event_names_its_row(row, decode_record, event);
    law_event_carries_its_record(row, decode_record, event);
    law_nothing_else_is_written(handler.handle@, event, plan);
}

} // verus!
