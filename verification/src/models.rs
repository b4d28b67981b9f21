//! Posts, where they come from, and the times they are stored with.
use vstd::prelude::*;

use crate::time::{
    created_text, format_created_at, format_indexed_at, indexed_text, local_instant, local_now,
    naive, near_clock, parse_naive, parse_rfc3339, rfc3339, to_utc, CivilDateTime, Instant,
    OffsetDateTime,
};

verus! {

/// Where a post came from, as stored beside it.
#[derive(Debug, Clone, Copy, PartialEq, Eq, Structural)]
pub enum Source {
    OwnPost,
    Like,
    BackfillPost,
    BackfillLike,
}

impl Source {
    /// The stored name of a source.
    pub open spec fn name(self) -> Seq<char> {
        match self {
            Source::OwnPost => "own_post"@,
            Source::Like => "like"@,
            Source::BackfillPost => "backfill_post"@,
            Source::BackfillLike => "backfill_like"@,
        }
    }

    /// The stored name of a source.
    pub fn as_str(&self) -> (r: &'static str)
        ensures
            r@ == self.name(),
    {
        match self {
            Source::OwnPost => "own_post",
            Source::Like => "like",
            Source::BackfillPost => "backfill_post",
            Source::BackfillLike => "backfill_like",
        }
    }
}

/// No two sources are stored under one name.
pub proof fn law_source_names_differ(a: Source, b: Source)
    requires
        a.name() == b.name(),
    ensures
        a == b,
{
    reveal_strlit("own_post");
    reveal_strlit("like");
    reveal_strlit("backfill_post");
    reveal_strlit("backfill_like");
    assert("own_post"@.len() == 8);
    assert("like"@.len() == 4);
    assert("backfill_post"@.len() == 13 && "backfill_post"@[9] == 'p');
    assert("backfill_like"@.len() == 13 && "backfill_like"@[9] == 'l');
}

/// A post, written by the account or liked by it. The times are stored as
/// texts, because their exact form matters to every reader of the rows.
#[derive(Debug, Clone)]
pub struct Post {
    pub uri: String,
    pub cid: String,
    pub author_did: String,
    pub author_handle: String,
    pub text: String,
    pub created_at: String,
    pub source: &'static str,
    pub indexed_at: String,
}

/// What a post holds, as mathematical values.
#[verifier::ext_equal]
pub struct PostView {
    pub uri: Seq<char>,
    pub cid: Seq<char>,
    pub author_did: Seq<char>,
    pub author_handle: Seq<char>,
    pub text: Seq<char>,
    pub created_at: Seq<char>,
    pub source: Seq<char>,
    pub indexed_at: Seq<char>,
}

impl View for Post {
    type V = PostView;

    open spec fn view(&self) -> PostView {
        PostView {
            uri: self.uri@,
            cid: self.cid@,
            author_did: self.author_did@,
            author_handle: self.author_handle@,
            text: self.text@,
            created_at: self.created_at@,
            source: self.source@,
            indexed_at: self.indexed_at@,
        }
    }
}

impl Post {
    /// Builds a post that was indexed at the given local time.
    pub fn indexed_at(
        uri: String,
        cid: String,
        author_did: String,
        author_handle: String,
        text: String,
        created_at: String,
        source: Source,
        now: CivilDateTime,
    ) -> (r: Post)
        requires
            now.valid(),
        ensures
            r@ == (PostView {
                uri: uri@,
                cid: cid@,
                author_did: author_did@,
                author_handle: author_handle@,
                text: text@,
                created_at: created_at@,
                source: source.name(),
                indexed_at: indexed_text(now),
            }),
    {
        Post {
            uri,
            cid,
            author_did,
            author_handle,
            text,
            created_at,
            source: source.as_str(),
            indexed_at: format_indexed_at(now),
        }
    }

    /// Builds a post and stamps it with the current local time.
    pub fn new(
        uri: String,
        cid: String,
        author_did: String,
        author_handle: String,
        text: String,
        created_at: String,
        source: Source,
    ) -> (r: Post)
        ensures
            exists|now: CivilDateTime| #[trigger]
                now.valid() && r@ == (PostView {
                    uri: uri@,
                    cid: cid@,
                    author_did: author_did@,
                    author_handle: author_handle@,
                    text: text@,
                    created_at: created_at@,
                    source: source.name(),
                    indexed_at: indexed_text(now),
                }),
    {
        let now = local_now();
        Post::indexed_at(uri, cid, author_did, author_handle, text, created_at, source, now)
    }
}

/// The stored form of a creation time that was parsed, or of the current
/// local time where it was not.
pub open spec fn created_at_or_now(parsed: Option<OffsetDateTime>, now: CivilDateTime) -> Seq<
    char,
> {
    match parsed {
        Some(t) => created_text(t),
        None => indexed_text(now),
    }
}

/// What a record's creation time is read as.
pub open spec fn read_created_at(raw: Option<&str>) -> Option<OffsetDateTime> {
    match raw {
        Some(text) => rfc3339(text@),
        None => None,
    }
}

/// Formats a parsed creation time, falling back to the given local time.
pub fn created_at_or(parsed: Option<OffsetDateTime>, now: CivilDateTime) -> (r: String)
    requires
        parsed matches Some(t) ==> t.valid(),
        now.valid(),
    ensures
        r@ == created_at_or_now(parsed, now),
{
    match parsed {
        Some(t) => format_created_at(t),
        None => format_indexed_at(now),
    }
}

/// Parses the creation time of a record, falling back to the current local
/// time where it is missing or malformed.
pub fn parse_created_at(raw: Option<&str>) -> (r: String)
    ensures
        exists|now: CivilDateTime| #[trigger]
            now.valid() && r@ == created_at_or_now(read_created_at(raw), now),
{
    let now = local_now();
    let parsed = match raw {
        Some(text) => parse_rfc3339(text),
        None => None,
    };
    created_at_or(parsed, now)
}

/// What a stored creation time stands for.
#[derive(Debug, Clone, Copy, PartialEq, Eq, Structural)]
pub enum StoredTime {
    /// A time with an offset: a point in time.
    At(Instant),
    /// A time without an offset: a reading of the local clock.
    Local(CivilDateTime),
    /// Neither form.
    Unreadable,
}

/// What a stored creation time stands for.
pub open spec fn stored_time(text: Seq<char>) -> StoredTime {
    match rfc3339(text) {
        Some(t) => StoredTime::At(t.instant()),
        None => match naive(text) {
            Some(t) => StoredTime::Local(t),
            None => StoredTime::Unreadable,
        },
    }
}

/// Reads a stored creation time. What was stored with an offset is the point
/// in time it was written from, and what was stored without one is the clock
/// reading it was written from, to the microsecond.
pub fn read_stored_time(raw: &str) -> (r: StoredTime)
    ensures
        r == stored_time(raw@),
        r matches StoredTime::Local(t) ==> t.valid(),
        forall|t: OffsetDateTime| #[trigger]
            created_text(t) == raw@ && t.valid() && t.internet() ==> r == StoredTime::At(
                t.to_micros().instant(),
            ),
        forall|t: CivilDateTime| #[trigger]
            indexed_text(t) == raw@ && t.valid() && 0 <= t.year <= 9999 ==> r == StoredTime::Local(
                t.to_micros(),
            ),
{
    match parse_rfc3339(raw) {
        Some(t) => StoredTime::At(to_utc(t)),
        None => match parse_naive(raw) {
            Some(t) => StoredTime::Local(t),
            None => StoredTime::Unreadable,
        },
    }
}

/// The instant to sort a stored creation time by, given what the local clock
/// reading in it stands for.
pub open spec fn sort_key(stored: StoredTime, local: Option<Instant>) -> Option<Instant> {
    match stored {
        StoredTime::At(at) => Some(at),
        StoredTime::Local(_) => local,
        StoredTime::Unreadable => None,
    }
}

/// The instant to sort a stored creation time by, given what the local clock
/// reading in it stands for.
pub fn choose_sort_key(stored: StoredTime, local: Option<Instant>) -> (r: Option<Instant>)
    ensures
        r == sort_key(stored, local),
{
    match stored {
        StoredTime::At(at) => Some(at),
        StoredTime::Local(_) => local,
        StoredTime::Unreadable => None,
    }
}

/// Whether a key is one that a stored creation time can be sorted by: the
/// point in time it stands for; where it is a reading of the local clock, an
/// instant that some time zone gives it, or none where the clock never shows
/// it; and none where it cannot be read.
pub open spec fn fits_sort_key(text: Seq<char>, key: Option<Instant>) -> bool {
    match stored_time(text) {
        StoredTime::At(at) => key == Some(at),
        StoredTime::Local(t) => key matches Some(at) ==> near_clock(t, at),
        StoredTime::Unreadable => key is None,
    }
}

/// Reads a stored creation time as an instant, for ordering. A time without
/// an offset is read on the local clock; one that the clock shows twice means
/// the earlier instant. The key of a stored time with an offset is the point
/// in time it was written from, to the microsecond, whatever the offset.
pub fn created_at_sort_key(raw: &str) -> (r: Option<Instant>)
    ensures
        fits_sort_key(raw@, r),
        forall|t: OffsetDateTime| #[trigger]
            created_text(t) == raw@ && t.valid() && t.internet() ==> r == Some(
                t.to_micros().instant(),
            ),
        forall|t: CivilDateTime| #[trigger]
            indexed_text(t) == raw@ && t.valid() && 0 <= t.year <= 9999 ==> (r matches Some(at)
                ==> near_clock(t.to_micros(), at)),
{
    let stored = read_stored_time(raw);
    let local = match stored {
        StoredTime::Local(t) => local_instant(t),
        _ => None,
    };
    choose_sort_key(stored, local)
}

} // verus!
