//! Likes: the queue of liked posts, their resolution in batches, and the
//! posts they resolve to.
use vstd::prelude::*;
use vstd::string::StringExecFns;

use crate::json::{member, text_of, Json, JsonView};
use crate::models::{created_at_or_now, parse_created_at, Post, PostView, Source};
use crate::text::text_views;
use crate::time::{indexed_text, CivilDateTime};

verus! {

/// The most addresses that one request resolves.
pub const MAX_URIS_PER_CALL: usize = 25;

// ---- the queue ----

/// The addresses of liked posts that wait to be resolved, oldest first.
#[derive(Debug)]
pub struct LikeQueue {
    pub uris: Vec<String>,
}

impl View for LikeQueue {
    type V = Seq<Seq<char>>;

    open spec fn view(&self) -> Seq<Seq<char>> {
        text_views(self.uris@)
    }
}

/// How many addresses the next batch takes.
pub open spec fn batch_size(waiting: nat) -> int {
    if waiting < MAX_URIS_PER_CALL {
        waiting as int
    } else {
        MAX_URIS_PER_CALL as int
    }
}

/// The batch that a queue hands out, and what is left of the queue.
pub open spec fn batch_of(queue: Seq<Seq<char>>) -> (Seq<Seq<char>>, Seq<Seq<char>>) {
    (queue.take(batch_size(queue.len())), queue.skip(batch_size(queue.len())))
}

/// Moves the texts from `from` on into a list of their own.
fn split_texts(texts: &mut Vec<String>, from: usize) -> (r: Vec<String>)
    requires
        from <= old(texts)@.len(),
    ensures
        text_views(final(texts)@) == text_views(old(texts)@).take(from as int),
        text_views(r@) == text_views(old(texts)@).skip(from as int),
{
    let ghost all = texts@;
    let tail = texts.split_off(from);
    assert(text_views(texts@) =~= text_views(all).take(from as int));
    assert(text_views(tail@) =~= text_views(all).skip(from as int));
    tail
}

impl LikeQueue {
    pub fn new() -> (r: LikeQueue)
        ensures
            r@ == Seq::<Seq<char>>::empty(),
    {
        let r = LikeQueue { uris: Vec::new() };
        assert(r@ =~= Seq::<Seq<char>>::empty());
        r
    }

    /// Adds an address behind those that wait.
    pub fn push(&mut self, uri: String)
        ensures
            final(self)@ == old(self)@.push(uri@),
    {
        self.uris.push(uri);
        assert(self@ =~= old(self)@.push(uri@));
    }

    /// Takes the next batch off the front.
    pub fn take_batch(&mut self) -> (r: Vec<String>)
        ensures
            text_views(r@) == batch_of(old(self)@).0,
            final(self)@ == batch_of(old(self)@).1,
    {
        let waiting: usize = self.uris.len();
        let take: usize = if waiting < MAX_URIS_PER_CALL {
            waiting
        } else {
            MAX_URIS_PER_CALL
        };
        let rest = split_texts(&mut self.uris, take);
        let mut batch = rest;
        std::mem::swap(&mut batch, &mut self.uris);
        batch
    }

    /// Puts a batch that could not be resolved back to the front.
    pub fn requeue(&mut self, batch: Vec<String>)
        ensures
            final(self)@ == text_views(batch@) + old(self)@,
    {
        let mut uris = batch;
        let ghost front = uris@;
        let ghost back = self.uris@;
        uris.append(&mut self.uris);
        assert(text_views(uris@) =~= text_views(front) + text_views(back));
        self.uris = uris;
    }

    /// Ends a round: a batch that was resolved is done with, one that was not
    /// goes back to the front.
    pub fn end_round(&mut self, batch: Vec<String>, resolved: bool)
        ensures
            resolved ==> final(self)@ == old(self)@,
            !resolved ==> final(self)@ == text_views(batch@) + old(self)@,
    {
        if !resolved {
            self.requeue(batch);
        }
    }
}

/// A batch that could not be resolved leaves the queue as it was, and no batch
/// is larger than a request allows; a queue with something in it never hands
/// out an empty batch.
pub proof fn law_failed_batch_is_kept(queue: Seq<Seq<char>>)
    ensures
        ({
            let (batch, rest) = batch_of(queue);
            &&& batch + rest == queue
            &&& batch.len() <= MAX_URIS_PER_CALL
            &&& queue.len() > 0 ==> batch.len() > 0
        }),
{
    let (batch, rest) = batch_of(queue);
    assert(batch + rest =~= queue);
}

// ---- requests ----

/// A list cut into requests of at most the allowed size.
pub open spec fn chunked(uris: Seq<Seq<char>>) -> Seq<Seq<Seq<char>>>
    decreases uris.len(),
{
    if uris.len() == 0 {
        Seq::empty()
    } else {
        seq![batch_of(uris).0] + chunked(batch_of(uris).1)
    }
}

/// What the requests of a list hold.
pub open spec fn chunk_views(chunks: Seq<Vec<String>>) -> Seq<Seq<Seq<char>>> {
    Seq::new(chunks.len(), |i: int| text_views(chunks[i]@))
}

/// Cuts a list of addresses into requests.
pub fn uri_chunks(uris: Vec<String>) -> (r: Vec<Vec<String>>)
    ensures
        chunk_views(r@) == chunked(text_views(uris@)),
{
    let ghost all = text_views(uris@);
    let mut chunks: Vec<Vec<String>> = Vec::new();
    let mut queue = LikeQueue { uris };
    assert(chunk_views(chunks@) + chunked(queue@) =~= chunked(all));
    while queue.uris.len() > 0
        invariant
            chunk_views(chunks@) + chunked(queue@) == chunked(all),
        decreases queue.uris@.len(),
    {
        let ghost had = chunks@;
        let ghost before = queue@;
        let batch = queue.take_batch();
        chunks.push(batch);
        proof {
            assert(chunk_views(chunks@) =~= chunk_views(had).push(batch_of(before).0));
            assert(chunk_views(chunks@) + chunked(queue@) =~= chunk_views(had) + (seq![
                batch_of(before).0,
            ] + chunked(batch_of(before).1)));
            assert(queue@.len() == queue.uris@.len());
            assert(before.len() > 0);
        }
    }
    assert(queue@ =~= Seq::<Seq<char>>::empty());
    assert(chunk_views(chunks@) + Seq::<Seq<Seq<char>>>::empty() =~= chunk_views(chunks@));
    chunks
}

/// Lists put together.
pub open spec fn joined(chunks: Seq<Seq<Seq<char>>>) -> Seq<Seq<char>>
    decreases chunks.len(),
{
    if chunks.len() == 0 {
        Seq::empty()
    } else {
        chunks[0] + joined(chunks.skip(1))
    }
}

/// The requests of a list hold all of it, in its order, and none of them is
/// empty or larger than allowed.
pub proof fn law_requests_cover_the_list(uris: Seq<Seq<char>>)
    ensures
        joined(chunked(uris)) == uris,
        forall|i: int|
            0 <= i < chunked(uris).len() ==> 0 < (#[trigger] chunked(uris)[i]).len()
                <= MAX_URIS_PER_CALL,
    decreases uris.len(),
{
    if uris.len() > 0 {
        let (batch, rest) = batch_of(uris);
        law_requests_cover_the_list(rest);
        law_failed_batch_is_kept(uris);
        let all = chunked(uris);
        assert(all.skip(1) =~= chunked(rest));
        assert forall|i: int| 0 <= i < all.len() implies 0 < (#[trigger] all[i]).len()
            <= MAX_URIS_PER_CALL by {
            if i > 0 {
                assert(all[i] == chunked(rest)[i - 1]);
            }
        }
    }
}

// ---- resolved posts ----

/// A post as the service resolves it, with what is kept of it.
#[derive(Debug)]
pub struct ResolvedPost {
    pub uri: String,
    pub cid: String,
    pub author_did: String,
    pub author_handle: String,
    pub record: Json,
}

/// The text of a resolved post; nothing where it has none or an empty one.
pub open spec fn resolved_text(record: JsonView) -> Option<Seq<char>> {
    match text_of(member(record, "text"@)) {
        Some(text) => if text.len() > 0 {
            Some(text)
        } else {
            None
        },
        None => None,
    }
}

/// Whether a post is what a resolved post becomes, with some readings of the
/// local clock.
pub open spec fn is_resolved(post: PostView, view: ResolvedPost, source: Source) -> bool {
    exists|created: CivilDateTime, indexed: CivilDateTime|
        created.valid() && indexed.valid() && post == #[trigger] resolved_post(
            view,
            source,
            created,
            indexed,
        )
}

/// The post that a resolved post becomes, with the given readings of the
/// local clock.
pub open spec fn resolved_post(
    view: ResolvedPost,
    source: Source,
    created: CivilDateTime,
    indexed: CivilDateTime,
) -> PostView {
    PostView {
        uri: view.uri@,
        cid: view.cid@,
        author_did: view.author_did@,
        author_handle: view.author_handle@,
        text: resolved_text(view.record@)->0,
        created_at: created_at_or_now(crate::ingest::record_time(view.record@), created),
        source: source.name(),
        indexed_at: indexed_text(indexed),
    }
}

/// Turns a resolved post into a row; nothing where it carries no text.
pub fn post_view_to_post(view: &ResolvedPost, source: Source) -> (r: Option<Post>)
    ensures
        match r {
            Some(post) => resolved_text(view.record@) is Some && is_resolved(post@, *view, source),
            None => resolved_text(view.record@) is None,
        },
{
    let text = match view.record.get("text") {
        Some(value) => match value.as_str() {
            Some(text) => text,
            None => {
                return None;
            },
        },
        None => {
            return None;
        },
    };
    if text.unicode_len() == 0 {
        return None;
    }
    let raw = match view.record.get("createdAt") {
        Some(value) => value.as_str(),
        None => None,
    };
    let created_at = parse_created_at(raw);
    let post = Post::new(
        view.uri.clone(),
        view.cid.clone(),
        view.author_did.clone(),
        view.author_handle.clone(),
        text.to_owned(),
        created_at,
        source,
    );
    proof {
        let created = choose|created: CivilDateTime| #[trigger]
            created.valid() && created_at@ == created_at_or_now(
                crate::models::read_created_at(raw),
                created,
            );
        let indexed = choose|indexed: CivilDateTime| #[trigger]
            indexed.valid() && post@ == (PostView {
                uri: view.uri@,
                cid: view.cid@,
                author_did: view.author_did@,
                author_handle: view.author_handle@,
                text: text@,
                created_at: created_at@,
                source: source.name(),
                indexed_at: indexed_text(indexed),
            });
        assert(post@ =~= resolved_post(*view, source, created, indexed));
    }
    Some(post)
}

// ---- notifications ----

/// The script that shows a notification.
pub fn notification_script(title: &str, message: &str) -> (r: String)
    ensures
        r@ == "display notification \""@ + message@ + "\" with title \""@ + title@ + "\""@,
{
    let mut script = "display notification \"".to_owned();
    script.append(message);
    script.append("\" with title \"");
    script.append(title);
    script.append("\"");
    script
}

} // verus!
