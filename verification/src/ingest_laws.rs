//! What becomes of events and likes, in terms of their own fields alone.
use vstd::prelude::*;

use crate::events::{Event, EventView, Payload};
use crate::ingest::{plan_for, write_fits, IngestPlan, Write};
use crate::ipld::record_form;
use crate::jetstream::{
    connect_cursor, event_did, position, stream_intent, JetstreamEvent,
};
use crate::json::{member, member_of, JsonView};
use crate::jss::{RawEvent, RowError};
use crate::likes::{batch_of, chunked, is_resolved, resolved_text, ResolvedPost};
use crate::models::{fits_sort_key, Post, Source};
use crate::time::{created_text, naive, rfc3339, Instant, OffsetDateTime};

verus! {

// ---- members ----

/// Whether a member of an object is the first with its name.
pub open spec fn first_member(json: JsonView, name: Seq<char>, at: int, value: JsonView) -> bool {
    &&& json matches JsonView::Object(fields)
    &&& 0 <= at < fields.len()
    &&& fields[at] == (name, value)
    &&& forall|j: int| 0 <= j < at ==> (#[trigger] fields[j]).0 != name
}

proof fn lemma_member_of(fields: Seq<(Seq<char>, JsonView)>, name: Seq<char>, at: int)
    requires
        0 <= at < fields.len(),
        fields[at].0 == name,
        forall|j: int| 0 <= j < at ==> (#[trigger] fields[j]).0 != name,
    ensures
        member_of(fields, name) == Some(fields[at].1),
    decreases at,
{
    if at > 0 {
        let rest = fields.skip(1);
        assert(fields[0].0 != name);
        assert forall|j: int| 0 <= j < at - 1 implies (#[trigger] rest[j]).0 != name by {
            assert(rest[j] == fields[j + 1]);
        }
        lemma_member_of(rest, name, at - 1);
    }
}

proof fn lemma_no_member_of(fields: Seq<(Seq<char>, JsonView)>, name: Seq<char>)
    requires
        forall|j: int| 0 <= j < fields.len() ==> (#[trigger] fields[j]).0 != name,
    ensures
        member_of(fields, name) is None,
    decreases fields.len(),
{
    if fields.len() > 0 {
        let rest = fields.skip(1);
        assert(fields[0].0 != name);
        assert forall|j: int| 0 <= j < rest.len() implies (#[trigger] rest[j]).0 != name by {
            assert(rest[j] == fields[j + 1]);
        }
        lemma_no_member_of(rest, name);
    }
}

/// The member that is read under a name is the first with it, whatever stands
/// around it; where none has the name, and in what is no object, none is read.
pub proof fn law_first_member_is_read(
    json: JsonView,
    name: Seq<char>,
    at: int,
    value: JsonView,
)
    ensures
        first_member(json, name, at, value) ==> member(json, name) == Some(value),
        json matches JsonView::Object(fields) ==> ((forall|j: int|
            0 <= j < fields.len() ==> (#[trigger] fields[j]).0 != name) ==> member(json, name)
            is None),
        !(json is Object) ==> member(json, name) is None,
{
    if let JsonView::Object(fields) = json {
        if first_member(json, name, at, value) {
            lemma_member_of(fields, name, at);
        }
        if forall|j: int| 0 <= j < fields.len() ==> (#[trigger] fields[j]).0 != name {
            lemma_no_member_of(fields, name);
        }
    }
}

// ---- own posts ----

/// Whether a row to write is the post with the given parts, of the account.
pub open spec fn is_post_of(
    write: Option<Write>,
    handle: Seq<char>,
    did: Seq<char>,
    rkey: Seq<char>,
    cid: Seq<char>,
    text: Seq<char>,
) -> bool {
    &&& write matches Some(Write::Post(post))
    &&& post.uri@ == "at://"@ + did + "/app.bsky.feed.post/"@ + rkey
    &&& post.cid@ == cid
    &&& post.author_did@ == did
    &&& post.author_handle@ == handle
    &&& post.text@ == text
    &&& post.source@ == "own_post"@
}

pub proof fn lemma_post_address(did: Seq<char>, rkey: Seq<char>)
    ensures
        crate::ingest::post_uri(did, rkey) == "at://"@ + did + "/app.bsky.feed.post/"@ + rkey,
{
    reveal_strlit("/");
    reveal_strlit("app.bsky.feed.post");
    reveal_strlit("/app.bsky.feed.post/");
    assert("/"@ + "app.bsky.feed.post"@ + "/"@ =~= "/app.bsky.feed.post/"@);
    assert(crate::ingest::post_uri(did, rkey) =~= "at://"@ + did + ("/"@ + "app.bsky.feed.post"@
        + "/"@) + rkey);
}

/// A created post with a text is always written, whatever else its record
/// holds: under the address of its own account and key, with its text, for the
/// handle of the account.
pub proof fn law_created_posts_are_written(
    handle: Seq<char>,
    event: Event,
    plan: IngestPlan,
    at: int,
    text: Seq<char>,
)
    requires
        plan_for(handle, event@, plan),
        event.payload matches Payload::Commit(commit) && commit.operation@ == "create"@
            && commit.collection@ == "app.bsky.feed.post"@ && (commit.record matches Some(record)
            && first_member(record@, "text"@, at, JsonView::String(text))),
        text.len() > 0,
    ensures
        is_post_of(
            plan.write,
            handle,
            event.did@,
            event.payload->Commit_0.rkey@,
            match event.payload->Commit_0.cid {
                Some(cid) => cid@,
                None => Seq::empty(),
            },
            text,
        ),
{
    let commit = event.payload->Commit_0;
    let record = commit.record->0@;
    law_first_member_is_read(record, "text"@, at, JsonView::String(text));
    lemma_post_address(event.did@, commit.rkey@);
}

/// A post that is written was created when its record says, where that can be
/// read.
pub proof fn law_creation_time_is_that_of_the_record(
    handle: Seq<char>,
    event: Event,
    plan: IngestPlan,
    at: int,
    created: Seq<char>,
    time: OffsetDateTime,
)
    requires
        plan_for(handle, event@, plan),
        event.payload matches Payload::Commit(commit) && (commit.record matches Some(record)
            && first_member(record@, "createdAt"@, at, JsonView::String(created))),
        rfc3339(created) == Some(time),
    ensures
        plan.write matches Some(Write::Post(post)) ==> post.created_at@ == created_text(time),
{
    let record = event.payload->Commit_0.record->0@;
    law_first_member_is_read(record, "createdAt"@, at, JsonView::String(created));
}

/// A created like whose subject has an address is always queued, under that
/// address, whatever else its record holds.
pub proof fn law_created_likes_are_queued(
    handle: Seq<char>,
    event: Event,
    plan: IngestPlan,
    at: int,
    subject: JsonView,
    within: int,
    uri: Seq<char>,
)
    requires
        plan_for(handle, event@, plan),
        event.payload matches Payload::Commit(commit) && commit.operation@ == "create"@
            && commit.collection@ == "app.bsky.feed.like"@ && (commit.record matches Some(record)
            && first_member(record@, "subject"@, at, subject)),
        first_member(subject, "uri"@, within, JsonView::String(uri)),
    ensures
        plan.write matches Some(Write::Like(queued)) && queued@ == uri,
{
    reveal_strlit("app.bsky.feed.post");
    reveal_strlit("app.bsky.feed.like");
    assert("app.bsky.feed.post"@[14] == 'p' && "app.bsky.feed.like"@[14] == 'l');
    let record = event.payload->Commit_0.record->0@;
    law_first_member_is_read(record, "subject"@, at, subject);
    law_first_member_is_read(subject, "uri"@, within, JsonView::String(uri));
}

/// Nothing is written but for a created record: a post for a post, a like for
/// a like. A post record without a text, or with an empty one, is passed over.
pub proof fn law_nothing_else_is_written(handle: Seq<char>, event: Event, plan: IngestPlan)
    requires
        plan_for(handle, event@, plan),
    ensures
        plan.write is Some ==> (event.payload matches Payload::Commit(commit) && commit.operation@
            == "create"@ && commit.record is Some),
        plan.write matches Some(Write::Post(post)) ==> event.payload->Commit_0.collection@
            == "app.bsky.feed.post"@ && post.text@.len() > 0,
        plan.write matches Some(Write::Like(uri)) ==> event.payload->Commit_0.collection@
            == "app.bsky.feed.like"@,
{
}

/// Every event, written or not, moves the cursor to its own seq.
pub proof fn law_cursor_moves_to_the_event(handle: Seq<char>, event: Event, plan: IngestPlan)
    requires
        plan_for(handle, event@, plan),
        event.seq <= i64::MAX,
    ensures
        plan.cursor == event.seq,
{
}

/// A post that is replayed from the archive is written as the live stream has
/// it written: under the address of the row's account and key, with the text
/// of the row's record.
pub proof fn law_replayed_posts_are_written(
    row: RawEvent,
    handle: Seq<char>,
    event: Event,
    plan: IngestPlan,
    record: JsonView,
    at: int,
    text: Seq<char>,
)
    requires
        row@.event(true) == Ok::<EventView, RowError>(event@),
        plan_for(handle, event@, plan),
        row.kind == 1 || row.kind == 7,
        row.collection@ == "app.bsky.feed.post"@,
        row.payload@.len() > 0,
        record_form(row.payload@) == Some(record),
        first_member(record, "text"@, at, JsonView::String(text)),
        text.len() > 0,
    ensures
        plan.write matches Some(Write::Post(post)) && post.uri@ == "at://"@ + row.did@
            + "/app.bsky.feed.post/"@ + row.rkey@ && post.text@ == text && post.author_did@
            == row.did@,
        row.seq <= i64::MAX ==> plan.cursor == row.seq,
{
    law_created_posts_are_written(handle, event, plan, at, text);
}

/// A like that is replayed from the archive is queued under the address of its
/// subject.
pub proof fn law_replayed_likes_are_queued(
    row: RawEvent,
    handle: Seq<char>,
    event: Event,
    plan: IngestPlan,
    record: JsonView,
    at: int,
    subject: JsonView,
    within: int,
    uri: Seq<char>,
)
    requires
        row@.event(true) == Ok::<EventView, RowError>(event@),
        plan_for(handle, event@, plan),
        row.kind == 1 || row.kind == 7,
        row.collection@ == "app.bsky.feed.like"@,
        row.payload@.len() > 0,
        record_form(row.payload@) == Some(record),
        first_member(record, "subject"@, at, subject),
        first_member(subject, "uri"@, within, JsonView::String(uri)),
    ensures
        plan.write matches Some(Write::Like(queued)) && queued@ == uri,
{
    law_created_likes_are_queued(handle, event, plan, at, subject, within, uri);
}

// ---- the earlier stream ----

/// The earlier stream has posts written and likes queued alike: a created post
/// with a text under the address of its account and key, a created like under
/// the address of its subject, and nothing but created records.
pub proof fn law_earlier_stream_is_ingested_alike(
    handle: Seq<char>,
    event: JetstreamEvent,
    write: Option<Write>,
    at: int,
    within: int,
    value: JsonView,
    words: Seq<char>,
)
    requires
        write_fits(handle, event_did(event), stream_intent(event), write),
    ensures
        event matches JetstreamEvent::Commit { did, operation, collection, rkey, cid, record, .. }
            ==> {
            &&& operation@ == "create"@ && collection@ == "app.bsky.feed.post"@ && first_member(
                record@,
                "text"@,
                at,
                JsonView::String(words),
            ) && words.len() > 0 ==> is_post_of(write, handle, did@, rkey@, cid@, words)
            &&& operation@ == "create"@ && collection@ == "app.bsky.feed.like"@ && first_member(
                record@,
                "subject"@,
                at,
                value,
            ) && first_member(value, "uri"@, within, JsonView::String(words)) ==> (
            write matches Some(Write::Like(queued)) && queued@ == words)
            &&& operation@ != "create"@ ==> write is None
            &&& collection@ != "app.bsky.feed.post"@ && collection@ != "app.bsky.feed.like"@
                ==> write is None
        },
        !(event is Commit) ==> write is None,
{
    reveal_strlit("app.bsky.feed.post");
    reveal_strlit("app.bsky.feed.like");
    assert("app.bsky.feed.post"@[14] == 'p' && "app.bsky.feed.like"@[14] == 'l');
    if let JetstreamEvent::Commit { did, time_us, operation, collection, rkey, cid, record } = event {
        law_first_member_is_read(record@, "text"@, at, JsonView::String(words));
        law_first_member_is_read(record@, "subject"@, at, value);
        law_first_member_is_read(value, "uri"@, within, JsonView::String(words));
        lemma_post_address(did@, rkey@);
    }
}

/// Events of the earlier stream move the cursor to their own time, whatever
/// they are.
pub proof fn law_earlier_cursor_is_the_time(event: JetstreamEvent)
    ensures
        position(event) == match event {
            JetstreamEvent::Commit { time_us, .. } => time_us,
            JetstreamEvent::Delete { time_us } => time_us,
            JetstreamEvent::Identity { time_us } => time_us,
            JetstreamEvent::Account { time_us } => time_us,
        },
        position(event) <= i64::MAX ==> crate::bytes::signed_value(position(event) as nat)
            == position(event),
{
}

/// A stored position is asked for again, the safety margin earlier, as long as
/// that lies within the replay window; else the window is asked for from its
/// start, and the gap is reported. Without a stored position the stream is
/// taken as it is.
pub proof fn law_connection_resumes_with_a_margin(
    stored: Option<i64>,
    safety_seconds: int,
    now_us: int,
    max_age_seconds: int,
)
    requires
        i64::MIN <= now_us - max_age_seconds * 1_000_000 <= i64::MAX,
        stored matches Some(at) ==> i64::MIN <= at - safety_seconds * 1_000_000 <= i64::MAX,
    ensures
        ({
            let (from, gap) = connect_cursor(stored, safety_seconds, now_us, max_age_seconds);
            &&& stored is None ==> from is None && !gap
            &&& stored matches Some(at) ==> {
                &&& gap <==> at - safety_seconds * 1_000_000 < now_us - max_age_seconds * 1_000_000
                &&& !gap ==> (from matches Some(f) && f == at - safety_seconds * 1_000_000)
                &&& gap ==> (from matches Some(f) && f == now_us - max_age_seconds * 1_000_000)
            }
        }),
{
}

// ---- likes ----

/// A batch is the oldest twenty-five of the queue, in their order, or all of
/// it where it is shorter, and what is left follows behind.
pub proof fn law_batch_is_the_front_of_the_queue(queue: Seq<Seq<char>>)
    ensures
        ({
            let (batch, rest) = batch_of(queue);
            &&& queue.len() >= 25 ==> batch.len() == 25
            &&& queue.len() < 25 ==> batch.len() == queue.len()
            &&& forall|i: int| 0 <= i < batch.len() ==> #[trigger] batch[i] == queue[i]
            &&& rest.len() == queue.len() - batch.len()
            &&& forall|i: int|
                0 <= i < rest.len() ==> #[trigger] rest[i] == queue[batch.len() + i]
        }),
{
}

/// A list is cut into requests of twenty-five, but for the last; the k-th
/// address stands in the request and at the place that counting gives.
pub proof fn law_requests_are_full(uris: Seq<Seq<char>>, k: int)
    requires
        0 <= k < uris.len(),
    ensures
        k / 25 < chunked(uris).len(),
        k % 25 < chunked(uris)[k / 25].len(),
        chunked(uris)[k / 25][k % 25] == uris[k],
        chunked(uris).len() == (uris.len() + 24) / 25,
    decreases uris.len(),
{
    let (batch, rest) = batch_of(uris);
    let all = chunked(uris);
    assert(all =~= seq![batch] + chunked(rest));
    if uris.len() > 25 {
        assert(rest.len() == uris.len() - 25);
        if k >= 25 {
            law_requests_are_full(rest, k - 25);
            assert(all[k / 25] == chunked(rest)[(k - 25) / 25]);
            assert(rest[k - 25] == uris[k]);
        } else {
            law_requests_are_full(rest, 0);
            assert(all[0] == batch);
        }
    } else {
        assert(rest =~= Seq::<Seq<char>>::empty());
        assert(all[0] == batch);
    }
}

/// A resolved post is kept as it was resolved: its address, identifier, author
/// and text are those of the answer, under the source it was asked for.
pub proof fn law_resolved_posts_are_kept_as_they_are(
    post: Post,
    view: ResolvedPost,
    source: Source,
    at: int,
    text: Seq<char>,
)
    requires
        is_resolved(post@, view, source),
        first_member(view.record@, "text"@, at, JsonView::String(text)),
        text.len() > 0,
    ensures
        post.uri@ == view.uri@,
        post.cid@ == view.cid@,
        post.author_did@ == view.author_did@,
        post.author_handle@ == view.author_handle@,
        post.text@ == text,
        source == Source::Like ==> post.source@ == "like"@,
        source == Source::OwnPost ==> post.source@ == "own_post"@,
        source == Source::BackfillPost ==> post.source@ == "backfill_post"@,
        source == Source::BackfillLike ==> post.source@ == "backfill_like"@,
{
    law_first_member_is_read(view.record@, "text"@, at, JsonView::String(text));
}

/// A resolved post is kept exactly where its record has a text that is not
/// empty.
pub proof fn law_resolved_posts_need_a_text(
    record: JsonView,
    at: int,
    text: Seq<char>,
)
    ensures
        first_member(record, "text"@, at, JsonView::String(text)) ==> (resolved_text(record)
            is Some <==> text.len() > 0),
        resolved_text(record) is Some ==> (record matches JsonView::Object(fields) && exists|j: int|
            0 <= j < fields.len() && (#[trigger] fields[j]).0 == "text"@),
{
    law_first_member_is_read(record, "text"@, at, JsonView::String(text));
}

// ---- dates ----

/// A creation time with an offset is sorted by the point in time it means: two
/// such times are sorted alike exactly where they mean the same point, in
/// whatever offsets they are written.
pub proof fn law_offsets_do_not_matter(
    one: Seq<char>,
    other: Seq<char>,
    a: OffsetDateTime,
    b: OffsetDateTime,
    k: Option<Instant>,
    l: Option<Instant>,
)
    requires
        rfc3339(one) == Some(a),
        rfc3339(other) == Some(b),
        a.valid() && a.internet(),
        b.valid() && b.internet(),
        fits_sort_key(one, k),
        fits_sort_key(other, l),
    ensures
        k matches Some(at) && at.seconds == a.local.clock_seconds() - a.offset && at.nanos
            == a.local.nanos,
        k == l <==> a.local.clock_seconds() - a.offset == b.local.clock_seconds() - b.offset
            && a.local.nanos == b.local.nanos,
{
    crate::time::lemma_internet_seconds(a);
    crate::time::lemma_internet_seconds(b);
}

/// A creation time that cannot be read has no key to sort by.
pub proof fn law_unreadable_dates_have_no_key(text: Seq<char>, key: Option<Instant>)
    requires
        rfc3339(text) is None,
        naive(text) is None,
        fits_sort_key(text, key),
    ensures
        key is None,
{
}

} // verus!
