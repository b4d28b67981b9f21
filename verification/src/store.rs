//! What the service keeps in its database beside the posts: the stream cursor
//! as text, and the statements whose form depends on the request.
use vstd::prelude::*;

use crate::json::str_view;
use crate::search::{is_ordered, order_rows, Order, SearchResult};
use crate::text::{i64_to_string, parse_i64, signed_decimal, signed_number};

verus! {

/// The cursor that a stored text stands for; a malformed one counts as none.
pub open spec fn cursor_in(stored: Option<Seq<char>>) -> Option<i64> {
    match stored {
        Some(text) => signed_number(text),
        None => None,
    }
}

/// Reads the stored cursor.
pub fn get_cursor(stored: Option<&str>) -> (r: Option<i64>)
    ensures
        r == cursor_in(str_view(stored)),
{
    match stored {
        Some(text) => parse_i64(text),
        None => None,
    }
}

/// The text that a cursor is stored as.
pub fn set_cursor(cursor: i64) -> (r: String)
    ensures
        r@ == signed_decimal(cursor as int),
{
    i64_to_string(cursor)
}

/// A cursor that was stored is read back as it was.
pub proof fn law_stored_cursor_is_read_back(cursor: i64)
    ensures
        cursor_in(Some(signed_decimal(cursor as int))) == Some(cursor),
{
    crate::text::law_signed_decimal_round_trip(cursor);
}

/// The row that an insert made, from the number of rows it changed and the
/// last row id of the connection: a post that was there already makes none.
pub fn insert_post(changed: usize, last_row_id: i64) -> (r: Option<i64>)
    ensures
        r == if changed == 0 {
            None
        } else {
            Some(last_row_id)
        },
{
    if changed == 0 {
        None
    } else {
        Some(last_row_id)
    }
}

/// The statement that fetches the posts of a handle.
pub open spec fn list_statement(has_source: bool) -> Seq<char> {
    if has_source {
        "SELECT p.id, p.uri, p.cid, p.author_did, p.author_handle, p.text, p.created_at, p.source, p.indexed_at FROM posts p WHERE p.author_handle = ?1 AND p.source = ?2"@
    } else {
        "SELECT p.id, p.uri, p.cid, p.author_did, p.author_handle, p.text, p.created_at, p.source, p.indexed_at FROM posts p WHERE p.author_handle = ?1"@
    }
}

/// The statement that fetches the posts of a handle.
pub fn list_by_handle(has_source: bool) -> (r: &'static str)
    ensures
        r@ == list_statement(has_source),
{
    if has_source {
        "SELECT p.id, p.uri, p.cid, p.author_did, p.author_handle, p.text, p.created_at, p.source, p.indexed_at FROM posts p WHERE p.author_handle = ?1 AND p.source = ?2"
    } else {
        "SELECT p.id, p.uri, p.cid, p.author_did, p.author_handle, p.text, p.created_at, p.source, p.indexed_at FROM posts p WHERE p.author_handle = ?1"
    }
}

/// The posts of a handle that are listed, of those that were fetched: the
/// newest of them, most recent first.
pub fn newest_posts(rows: Vec<SearchResult>, limit: usize) -> (r: Vec<SearchResult>)
    ensures
        is_ordered(rows@, limit as int, Order::DateDesc, r@),
{
    order_rows(rows, limit, Order::DateDesc)
}

/// What to do with the full-text index of a database that is opened.
#[derive(Debug, Clone, Copy, PartialEq, Eq, Structural)]
pub struct IndexRepair {
    /// Build the index anew from the posts.
    pub rebuild: bool,
    /// Record that the index is good.
    pub mark: bool,
}

/// Decides what to do with the full-text index, from whether it was recorded
/// as good before and from the number of posts: an index of unknown state is
/// rebuilt where there is anything to index, and then recorded as good.
pub fn ensure_fts_populated(initialised: bool, posts: i64) -> (r: IndexRepair)
    ensures
        r.rebuild == (!initialised && posts > 0),
        r.mark == !initialised,
{
    IndexRepair { rebuild: !initialised && posts > 0, mark: !initialised }
}

} // verus!
