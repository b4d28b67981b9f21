//! The ingest rules: own posts are indexed at once, likes are queued to be
//! resolved later, because a like only refers to the post it is for.
use vstd::prelude::*;
use vstd::string::StringExecFns;

use crate::bytes::{signed_value, to_signed};
use crate::events::{Event, EventView, Payload, PayloadView};
use crate::json::{member, str_view, text_of, Json, JsonView};
use crate::models::{created_at_or, created_at_or_now, parse_created_at, Post, PostView, Source};
use crate::text::str_eq;
use crate::time::{indexed_text, rfc3339, CivilDateTime, OffsetDateTime};

verus! {

/// The collection of posts.
pub const COLLECTION_POST: &'static str = "app.bsky.feed.post";

/// The collection of likes.
pub const COLLECTION_LIKE: &'static str = "app.bsky.feed.like";

/// The text of a post record; empty where there is none.
pub open spec fn post_text(record: JsonView) -> Seq<char> {
    match text_of(member(record, "text"@)) {
        Some(text) => text,
        None => Seq::empty(),
    }
}

/// What the creation time of a record is read as.
pub open spec fn record_time(record: JsonView) -> Option<OffsetDateTime> {
    match text_of(member(record, "createdAt"@)) {
        Some(text) => rfc3339(text),
        None => None,
    }
}

/// The address of a post.
pub open spec fn post_uri(did: Seq<char>, rkey: Seq<char>) -> Seq<char> {
    "at://"@ + did + "/"@ + COLLECTION_POST@ + "/"@ + rkey
}

/// The post that a record of the account becomes, with the given readings of
/// the local clock.
pub open spec fn own_post(
    handle: Seq<char>,
    did: Seq<char>,
    rkey: Seq<char>,
    cid: Seq<char>,
    record: JsonView,
    created: CivilDateTime,
    indexed: CivilDateTime,
) -> PostView {
    PostView {
        uri: post_uri(did, rkey),
        cid,
        author_did: did,
        author_handle: handle,
        text: post_text(record),
        created_at: created_at_or_now(record_time(record), created),
        source: Source::OwnPost.name(),
        indexed_at: indexed_text(indexed),
    }
}

/// Whether a post is what a record of the account becomes, with some readings
/// of the local clock.
pub open spec fn is_own_post(
    post: PostView,
    handle: Seq<char>,
    did: Seq<char>,
    rkey: Seq<char>,
    cid: Seq<char>,
    record: JsonView,
) -> bool {
    exists|created: CivilDateTime, indexed: CivilDateTime|
        created.valid() && indexed.valid() && post == #[trigger] own_post(
            handle,
            did,
            rkey,
            cid,
            record,
            created,
            indexed,
        )
}

/// The address of the post that a like is for.
pub open spec fn liked_uri(record: JsonView) -> Option<Seq<char>> {
    match member(record, "subject"@) {
        Some(subject) => text_of(member(subject, "uri"@)),
        None => None,
    }
}

/// Builds the address of a post.
pub fn build_post_uri(did: &str, rkey: &str) -> (r: String)
    ensures
        r@ == post_uri(did@, rkey@),
{
    let mut uri = "at://".to_owned();
    uri.append(did);
    uri.append("/");
    uri.append(COLLECTION_POST);
    uri.append("/");
    uri.append(rkey);
    uri
}

fn text_member<'a>(record: &'a Json, name: &str) -> (r: Option<&'a str>)
    ensures
        str_view(r) == text_of(member(record@, name@)),
{
    match record.get(name) {
        Some(value) => value.as_str(),
        None => None,
    }
}

/// The address of the post that a like is for.
pub fn handle_like(record: &Json) -> (r: Option<String>)
    ensures
        crate::json::string_view(r) == liked_uri(record@),
{
    match record.get("subject") {
        Some(subject) => match text_member(subject, "uri") {
            Some(uri) => Some(uri.to_owned()),
            None => None,
        },
        None => None,
    }
}

/// What the commit of a record asks for.
#[verifier::ext_equal]
pub enum IntentView {
    Nothing,
    /// Index the record as a post of the account.
    Post { rkey: Seq<char>, cid: Seq<char>, record: JsonView },
    /// Queue the liked post.
    Like { uri: Seq<char> },
}

/// What a created record asks for: a post with text is indexed, a like with a
/// subject is queued, everything else is ignored.
pub open spec fn record_intent(
    collection: Seq<char>,
    rkey: Seq<char>,
    cid: Seq<char>,
    record: JsonView,
) -> IntentView {
    if collection == COLLECTION_POST@ {
        if post_text(record).len() == 0 {
            IntentView::Nothing
        } else {
            IntentView::Post { rkey, cid, record }
        }
    } else if collection == COLLECTION_LIKE@ {
        match liked_uri(record) {
            Some(uri) => IntentView::Like { uri },
            None => IntentView::Nothing,
        }
    } else {
        IntentView::Nothing
    }
}

/// What an event asks for. Only created records are indexed; deletes, updates
/// and markers are not.
pub open spec fn event_intent(event: EventView) -> IntentView {
    match event.payload {
        PayloadView::Commit(commit) => match commit.record {
            Some(record) => if commit.operation == "create"@ {
                record_intent(
                    commit.collection,
                    commit.rkey,
                    match commit.cid {
                        Some(cid) => cid,
                        None => Seq::empty(),
                    },
                    record,
                )
            } else {
                IntentView::Nothing
            },
            None => IntentView::Nothing,
        },
        _ => IntentView::Nothing,
    }
}

/// A row to write before the cursor is stored.
#[derive(Debug)]
pub enum Write {
    Post(Post),
    /// The address of a liked post, for the queue.
    Like(String),
}

/// Whether a write is what was asked for, with some readings of the clock.
pub open spec fn write_fits(
    handle: Seq<char>,
    did: Seq<char>,
    intent: IntentView,
    write: Option<Write>,
) -> bool {
    match intent {
        IntentView::Nothing => write is None,
        IntentView::Like { uri } => write matches Some(Write::Like(got)) && got@ == uri,
        IntentView::Post { rkey, cid, record } => {
            &&& write matches Some(Write::Post(post))
            &&& is_own_post(post@, handle, did, rkey, cid, record)
        },
    }
}

/// What to do with an event: the row to write, and the cursor to store once
/// it is written.
#[derive(Debug)]
pub struct IngestPlan {
    pub write: Option<Write>,
    pub cursor: i64,
}

impl IngestPlan {
    /// The cursor to store, given whether the write succeeded. An event that
    /// could not be written keeps the cursor where it is, and is delivered
    /// again.
    pub fn cursor_after(&self, written: bool) -> (r: Option<i64>)
        ensures
            r == if written {
                Some(self.cursor)
            } else {
                None
            },
    {
        if written {
            Some(self.cursor)
        } else {
            None
        }
    }
}

/// Turns events of either transport into rows, for the account with a given
/// handle.
#[derive(Debug, Clone)]
pub struct IngestHandler {
    pub handle: String,
}

impl IngestHandler {
    pub fn new(handle: String) -> (r: IngestHandler)
        ensures
            r.handle == handle,
    {
        IngestHandler { handle }
    }

    /// The post that a record of the account becomes at a given local time;
    /// nothing where it has no text.
    pub fn own_post_at(
        &self,
        did: &str,
        rkey: &str,
        cid: &str,
        record: &Json,
        parsed: Option<OffsetDateTime>,
        now: CivilDateTime,
    ) -> (r: Option<Post>)
        requires
            now.valid(),
            parsed matches Some(t) ==> t.valid(),
        ensures
            match r {
                Some(post) => {
                    &&& post_text(record@).len() > 0
                    &&& post@ == PostView {
                        created_at: created_at_or_now(parsed, now),
                        ..own_post(self.handle@, did@, rkey@, cid@, record@, now, now)
                    }
                },
                None => post_text(record@).len() == 0,
            },
    {
        let text = match text_member(record, "text") {
            Some(text) => text,
            None => {
                return None;
            },
        };
        if text.unicode_len() == 0 {
            return None;
        }
        let created_at = created_at_or(parsed, now);
        let uri = build_post_uri(did, rkey);
        let post = Post::indexed_at(
            uri,
            cid.to_owned(),
            did.to_owned(),
            self.handle.clone(),
            text.to_owned(),
            created_at,
            Source::OwnPost,
            now,
        );
        Some(post)
    }

    /// The post that a record of the account becomes now; nothing where it has
    /// no text.
    pub fn handle_own_post(&self, did: &str, rkey: &str, cid: &str, record: &Json) -> (r: Option<
        Post,
    >)
        ensures
            match r {
                Some(post) => {
                    &&& post_text(record@).len() > 0
                    &&& is_own_post(post@, self.handle@, did@, rkey@, cid@, record@)
                },
                None => post_text(record@).len() == 0,
            },
    {
        let text = match text_member(record, "text") {
            Some(text) => text,
            None => {
                return None;
            },
        };
        if text.unicode_len() == 0 {
            return None;
        }
        let raw = text_member(record, "createdAt");
        let created_at = parse_created_at(raw);
        let uri = build_post_uri(did, rkey);
        let post = Post::new(
            uri,
            cid.to_owned(),
            did.to_owned(),
            self.handle.clone(),
            text.to_owned(),
            created_at,
            Source::OwnPost,
        );
        proof {
            let created = choose|created: CivilDateTime| #[trigger]
                created.valid() && created_at@ == created_at_or_now(
                    crate::models::read_created_at(raw),
                    created,
                );
            let indexed = choose|indexed: CivilDateTime| #[trigger]
                indexed.valid() && post@ == (PostView {
                    uri: uri@,
                    cid: cid@,
                    author_did: did@,
                    author_handle: self.handle@,
                    text: text@,
                    created_at: created_at@,
                    source: Source::OwnPost.name(),
                    indexed_at: indexed_text(indexed),
                });
            assert(post@ =~= own_post(
                self.handle@,
                did@,
                rkey@,
                cid@,
                record@,
                created,
                indexed,
            ));
        }
        Some(post)
    }

    /// What a created record asks to be written.
    pub fn handle_record(
        &self,
        did: &str,
        collection: &str,
        rkey: &str,
        cid: &str,
        record: &Json,
    ) -> (r: Option<Write>)
        ensures
            write_fits(
                self.handle@,
                did@,
                record_intent(collection@, rkey@, cid@, record@),
                r,
            ),
    {
        if str_eq(collection, COLLECTION_POST) {
            match self.handle_own_post(did, rkey, cid, record) {
                Some(post) => Some(Write::Post(post)),
                None => None,
            }
        } else if str_eq(collection, COLLECTION_LIKE) {
            match handle_like(record) {
                Some(uri) => Some(Write::Like(uri)),
                None => None,
            }
        } else {
            None
        }
    }

    /// Decides what to do with an event. Whatever it is, the cursor moves past
    /// it once it is dealt with: an event that is ignored has still been read.
    pub fn handle_event(&self, event: &Event) -> (r: IngestPlan)
        ensures
            r.cursor == signed_value(event.seq as nat),
            write_fits(self.handle@, event.did@, event_intent(event@), r.write),
            plan_for(self.handle@, event@, r),
    {
        let cursor: i64 = to_signed(event.seq);
        let write = match &event.payload {
            Payload::Commit(commit) => match &commit.record {
                Some(record) => if str_eq(commit.operation.as_str(), "create") {
                    let empty = String::new();
                    assert(empty@ =~= Seq::<char>::empty());
                    let cid = match &commit.cid {
                        Some(cid) => cid.as_str(),
                        None => empty.as_str(),
                    };
                    self.handle_record(
                        event.did.as_str(),
                        commit.collection.as_str(),
                        commit.rkey.as_str(),
                        cid,
                        record,
                    )
                } else {
                    None
                },
                None => None,
            },
            _ => None,
        };
        IngestPlan { write, cursor }
    }
}

// ---- what is kept ----

/// What the database keeps of events: posts and queued likes, one for each
/// address, and the cursor.
#[verifier::ext_equal]
pub struct KeptView {
    pub posts: Map<Seq<char>, PostView>,
    pub likes: Set<Seq<char>>,
    pub cursor: Option<i64>,
}

/// What is kept once a plan is carried out. Rows are inserted unless one with
/// the same address is there already, which stays as it is.
pub open spec fn carried_out(kept: KeptView, plan: IngestPlan) -> KeptView {
    KeptView {
        posts: match plan.write {
            Some(Write::Post(post)) => if kept.posts.contains_key(post@.uri) {
                kept.posts
            } else {
                kept.posts.insert(post@.uri, post@)
            },
            _ => kept.posts,
        },
        likes: match plan.write {
            Some(Write::Like(uri)) => kept.likes.insert(uri@),
            _ => kept.likes,
        },
        cursor: Some(plan.cursor),
    }
}

/// Whether a plan is one for an event, for the account with a handle.
pub open spec fn plan_for(handle: Seq<char>, event: EventView, plan: IngestPlan) -> bool {
    &&& plan.cursor == signed_value(event.seq as nat)
    &&& write_fits(handle, event.did, event_intent(event), plan.write)
}

/// An event that is delivered twice leaves what it left the first time, though
/// the clock has moved on.
pub proof fn law_redelivered_event_changes_nothing(
    handle: Seq<char>,
    event: EventView,
    kept: KeptView,
    first: IngestPlan,
    second: IngestPlan,
)
    requires
        plan_for(handle, event, first),
        plan_for(handle, event, second),
    ensures
        carried_out(carried_out(kept, first), second) == carried_out(kept, first),
{
    let once = carried_out(kept, first);
    let twice = carried_out(once, second);
    assert(twice.posts =~= once.posts);
    assert(twice.likes =~= once.likes);
}

/// An event never changes a post or a queued like that was kept before.
pub proof fn law_event_keeps_what_was_there(kept: KeptView, plan: IngestPlan, uri: Seq<char>)
    ensures
        kept.posts.contains_key(uri) ==> carried_out(kept, plan).posts.contains_key(uri)
            && carried_out(kept, plan).posts[uri] == kept.posts[uri],
        kept.likes.contains(uri) ==> carried_out(kept, plan).likes.contains(uri),
{
}

/// Only created records of the two collections are ever written.
pub proof fn law_only_creates_are_indexed(event: EventView)
    ensures
        event_intent(event) != IntentView::Nothing ==> {
            &&& event.payload matches PayloadView::Commit(commit)
            &&& commit.operation == "create"@
            &&& commit.collection == COLLECTION_POST@ || commit.collection == COLLECTION_LIKE@
        },
{
}

/// A cursor that an event stored is taken up as that event's seq, as long as
/// the seq lies below the timestamp threshold.
pub proof fn law_stored_cursor_is_the_seq(seq: u64)
    requires
        seq < crate::events::CURSOR_SEQ_MAX_THRESHOLD,
    ensures
        crate::events::cursor_meaning(signed_value(seq as nat) as i64)
            == crate::events::StoredCursor::Sequence(seq),
        crate::runner::sweep_start(Some(signed_value(seq as nat) as i64)) == seq,
{
}

} // verus!
