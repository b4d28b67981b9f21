use bsearch::events::{Commit, Event, Payload};
use bsearch::ingest::{
    build_post_uri, handle_like, IngestHandler, IngestPlan, Write, COLLECTION_LIKE, COLLECTION_POST,
};
use bsearch::jetstream::{
    after_connection, event_time_us, handle_stream_event, plan_connection, plan_cursor, CursorPlan, JetstreamEvent,
};
use bsearch::json::Json;
use bsearch::likes::{notification_script, post_view_to_post, uri_chunks, LikeQueue, ResolvedPost, MAX_URIS_PER_CALL};
use bsearch::models::{Post, Source};
use bsearch::runner::Notice;
use bsearch::search::{
    fts_fetch_limit, fts_query_sql, order_fts_results, phrase_query, query_is_empty, MatchType, Order, Real,
    SearchResult,
};
use bsearch::store::{get_cursor, insert_post, set_cursor};
use bsearch::time::CivilDateTime;
use rusqlite::{Connection, OptionalExtension};

fn bits_of(value: f64) -> Real {
    Real { bits: value.to_bits() }
}


/// A database with the tables that the statements of the library speak of.
struct TestDb {
    conn: Connection,

}

const SCHEMA: &str = "
CREATE TABLE meta (key TEXT PRIMARY KEY, value TEXT);
CREATE TABLE posts (
    id INTEGER PRIMARY KEY AUTOINCREMENT,
    uri TEXT UNIQUE NOT NULL,
    cid TEXT NOT NULL,
    author_did TEXT NOT NULL,
    author_handle TEXT NOT NULL,
    text TEXT NOT NULL,
    created_at TEXT NOT NULL,
    source TEXT NOT NULL,
    indexed_at TEXT NOT NULL,
    has_embedding INTEGER NOT NULL DEFAULT 0
);
CREATE TABLE pending_likes (uri TEXT PRIMARY KEY, queued_at TEXT NOT NULL);
CREATE VIRTUAL TABLE fts_posts USING fts5(
    text, content=posts, content_rowid=id, tokenize='porter unicode61'
);
CREATE TRIGGER posts_ai AFTER INSERT ON posts BEGIN
    INSERT INTO fts_posts(rowid, text) VALUES (new.id, new.text);
END;
";

impl TestDb {
    fn new() -> TestDb {
        let conn = Connection::open_in_memory().expect("open");
        conn.execute_batch(SCHEMA).expect("schema");
        TestDb { conn }
    }

    fn insert(&self, post: &Post) -> Option<i64> {
        let changed = self
            .conn
            .execute(
                "INSERT OR IGNORE INTO posts
                     (uri, cid, author_did, author_handle, text, created_at, source, indexed_at)
                 VALUES (?1, ?2, ?3, ?4, ?5, ?6, ?7, ?8)",
                (
                    &post.uri,
                    &post.cid,
                    &post.author_did,
                    &post.author_handle,
                    &post.text,
                    &post.created_at,
                    post.source,
                    &post.indexed_at,
                ),
            )
            .expect("insert");
        insert_post(changed, self.conn.last_insert_rowid())
    }

    fn count(&self, table: &str) -> i64 {
        self.conn
            .query_row(&format!("SELECT count(*) FROM {table}"), [], |row| row.get(0))
            .expect("count")
    }

    fn cursor(&self) -> Option<i64> {
        let stored: Option<String> = self
            .conn
            .query_row("SELECT value FROM meta WHERE key = 'cursor'", [], |row| row.get(0))
            .optional()
            .expect("read");
        get_cursor(stored.as_deref())
    }

    fn store_cursor(&self, cursor: i64) {
        self.conn
            .execute("INSERT OR REPLACE INTO meta (key, value) VALUES ('cursor', ?1)", [set_cursor(cursor)])
            .expect("write");
    }

    fn run_fts_query(
        &self,
        query: &str,
        limit: usize,
        source: Option<&str>,
        handle: Option<&str>,
        order: Order,
    ) -> rusqlite::Result<Vec<SearchResult>> {
        let mut stmt = self.conn.prepare(&fts_query_sql(source.is_some(), handle.is_some(), order))?;
        let mut params: Vec<Box<dyn rusqlite::ToSql>> = vec![Box::new(query.to_string())];
        if let Some(s) = source {
            params.push(Box::new(s.to_string()));
        }
        if let Some(h) = handle {
            params.push(Box::new(h.to_string()));
        }
        params.push(Box::new(fts_fetch_limit(limit, order)));
        let refs: Vec<&dyn rusqlite::ToSql> = params.iter().map(|p| p.as_ref()).collect();
        let rows = stmt.query_map(refs.as_slice(), |row| {
            Ok(SearchResult {
                id: row.get(0)?,
                bm25_rank: row.get::<_, Option<f64>>(1)?.map(bits_of),
                uri: row.get(2)?,
                cid: row.get(3)?,
                author_did: row.get(4)?,
                author_handle: row.get(5)?,
                text: row.get(6)?,
                created_at: row.get(7)?,
                source: row.get(8)?,
                indexed_at: row.get(9)?,
                distance: None,
                rrf_score: None,
                match_type: Some(MatchType::Keyword),
            })
        })?;
        Ok(order_fts_results(rows.collect::<rusqlite::Result<Vec<_>>>()?, limit, order))
    }

    fn search_fts(
        &self,
        query: &str,
        limit: usize,
        source: Option<&str>,
        handle: Option<&str>,
        order: Order,
    ) -> rusqlite::Result<Vec<SearchResult>> {
        if query_is_empty(query) {
            return Ok(vec![]);
        }
        match self.run_fts_query(query, limit, source, handle, order) {
            Ok(rows) => Ok(rows),
            Err(_) => self.run_fts_query(&phrase_query(query), limit, source, handle, order),
        }
    }
}

impl TestDb {
    /// Writes what a plan asks for, and stores the cursor behind it.
    fn carry_out(&self, plan: IngestPlan) {
        match &plan.write {
            Some(Write::Post(post)) => {
                self.insert(post);
            }
            Some(Write::Like(uri)) => {
                self.conn
                    .execute("INSERT OR IGNORE INTO pending_likes (uri, queued_at) VALUES (?1, '')", [uri])
                    .expect("queue");
            }
            None => {}
        }
        if let Some(cursor) = plan.cursor_after(true) {
            self.store_cursor(cursor);
        }
    }

    fn pending_likes(&self) -> Vec<String> {
        let mut stmt = self.conn.prepare("SELECT uri FROM pending_likes ORDER BY rowid").expect("prepare");
        let rows = stmt.query_map([], |row| row.get(0)).expect("query");
        rows.collect::<rusqlite::Result<Vec<_>>>().expect("rows")
    }
}

const DID: &str = "did:plc:aefyqfi5jdig6vjfa73debzc";
const HOUR_US: i64 = 3_600_000_000;
const WINDOW_US: i64 = 72 * HOUR_US;

fn text(s: &str) -> Json {
    Json::String(s.to_string())
}

fn object(members: Vec<(&str, Json)>) -> Json {
    Json::Object(members.into_iter().map(|(k, v)| (k.to_string(), v)).collect())
}

fn post_record(body: &str) -> Json {
    object(vec![("text", text(body)), ("createdAt", text("2026-07-25T21:01:36.005Z"))])
}

fn like_record(uri: &str) -> Json {
    object(vec![("subject", object(vec![("uri", text(uri)), ("cid", text("bafy"))]))])
}

fn commit_event(collection: &str, operation: &str, record: Json) -> Event {
    let is_create = operation == "create";
    Event {
        seq: 4_242,
        did: DID.to_string(),
        time_us: 1_785_009_595_019_071,
        payload: Payload::Commit(Commit {
            operation: operation.to_string(),
            collection: collection.to_string(),
            rkey: "3lxyz123".to_string(),
            rev: "3mrir7qvgmk2o".to_string(),
            record: is_create.then_some(record),
            cid: is_create.then(|| "bafyreiabc123".to_string()),
        }),
    }
}

/// The same commit as the earlier stream version carries it.
fn stream_commit(collection: &str, operation: &str, record: Json) -> JetstreamEvent {
    JetstreamEvent::Commit {
        did: DID.to_string(),
        time_us: 1_785_009_595_019_071,
        operation: operation.to_string(),
        collection: collection.to_string(),
        rkey: "3lxyz123".to_string(),
        cid: "bafyreiabc123".to_string(),
        record,
    }
}

fn handler() -> IngestHandler {
    IngestHandler::new("alice.bsky.social".to_string())
}

fn handle(db: &TestDb, event: &Event) {
    db.carry_out(handler().handle_event(event));
}

fn handle_stream(db: &TestDb, event: &JetstreamEvent) {
    db.carry_out(handle_stream_event(&handler(), event));
}

fn assert_own_post(db: &TestDb) {
    let results = db.search_fts("ferrets", 10, None, None, Order::Relevance).expect("search failed");
    assert_eq!(results.len(), 1, "post should be indexed and FTS-searchable");
    let row = &results[0];
    assert_eq!(row.uri, format!("at://{DID}/{COLLECTION_POST}/3lxyz123"));
    assert_eq!(row.source, "own_post");
    assert_eq!(row.author_handle, "alice.bsky.social");
    assert_eq!(row.author_did, DID);
    assert_eq!(row.cid, "bafyreiabc123");
    assert_eq!(row.created_at, "2026-07-25T21:01:36.005000+00:00");
    // Naive local time, so no offset.
    assert!(!row.indexed_at.contains('+'), "indexed_at should be naive: {}", row.indexed_at);
}

#[test]
fn ingest_test_own_post_is_indexed_with_python_compatible_fields() {
    let db = TestDb::new();
    handle(&db, &commit_event(COLLECTION_POST, "create", post_record("a post about ferrets")));
    assert_own_post(&db);
    // The cursor is the event's seq, not its timestamp.
    assert_eq!(db.cursor(), Some(4_242));
}

#[test]
fn ingest_test_ignored_event_still_advances_cursor() {
    let db = TestDb::new();
    let record = object(vec![("subject", text("did:plc:someone"))]);
    handle(&db, &commit_event("app.bsky.graph.follow", "create", record));
    assert_eq!(db.cursor(), Some(4_242));
    assert_eq!(db.count("posts"), 0, "the event should move the cursor without being indexed");
}

#[test]
fn ingest_test_delete_event_advances_cursor() {
    let db = TestDb::new();
    handle(&db, &commit_event(COLLECTION_POST, "delete", Json::Null));
    assert_eq!(db.cursor(), Some(4_242));
}

#[test]
fn test_marker_event_advances_cursor() {
    let db = TestDb::new();
    let event = Event {
        seq: 777,
        did: DID.to_string(),
        time_us: 1_785_009_595_019_071,
        payload: Payload::Identity,
    };
    handle(&db, &event);
    assert_eq!(db.cursor(), Some(777));
}

#[test]
fn test_seq_cursor_replaces_legacy_timestamp() {
    let db = TestDb::new();
    db.store_cursor(1_785_009_595_019_071);
    handle(&db, &commit_event(COLLECTION_POST, "create", post_record("migrated")));
    assert_eq!(db.cursor(), Some(4_242));
}

#[test]
fn ingest_test_like_is_queued_not_indexed() {
    let db = TestDb::new();
    let liked = "at://did:plc:other/app.bsky.feed.post/abc";
    handle(&db, &commit_event(COLLECTION_LIKE, "create", like_record(liked)));
    assert_eq!(db.pending_likes(), vec![liked.to_string()]);
    assert_eq!(db.count("posts"), 0, "the like itself must not be indexed; only the post it points at");
}

#[test]
fn test_replayed_like_is_queued_once() {
    let db = TestDb::new();
    let liked = "at://did:plc:other/app.bsky.feed.post/abc";
    let event = || commit_event(COLLECTION_LIKE, "create", like_record(liked));
    handle(&db, &event());
    handle(&db, &event());
    assert_eq!(db.count("pending_likes"), 1, "a replayed event must not queue the same like twice");
}

#[test]
fn ingest_test_non_create_operations_are_ignored() {
    let db = TestDb::new();
    let record = object(vec![("text", text("should not be indexed"))]);
    handle(&db, &commit_event(COLLECTION_POST, "update", record));
    assert_eq!(db.count("posts"), 0);
    assert_eq!(
        db.cursor(),
        Some(4_242),
        "an ignored event has still been read, so the cursor must advance"
    );
}

#[test]
fn ingest_test_post_without_text_is_skipped() {
    let db = TestDb::new();
    let record = object(vec![("createdAt", text("2026-07-25T21:01:36.005Z"))]);
    handle(&db, &commit_event(COLLECTION_POST, "create", record));
    assert_eq!(db.count("posts"), 0);
}

#[test]
fn ingest_test_replayed_event_does_not_duplicate() {
    let db = TestDb::new();
    let event = commit_event(COLLECTION_POST, "create", post_record("replayed post"));
    // Both transports redeliver the boundary event on resume.
    handle(&db, &event);
    handle(&db, &event);
    assert_eq!(db.count("posts"), 1, "the UNIQUE uri constraint should absorb the replay");
}

#[test]
fn jetstream_test_own_post_is_indexed_with_python_compatible_fields() {
    let db = TestDb::new();
    handle_stream(&db, &stream_commit(COLLECTION_POST, "create", post_record("a post about ferrets")));
    assert_own_post(&db);
    assert_eq!(db.cursor(), Some(1_785_009_595_019_071));
}

#[test]
fn jetstream_test_ignored_event_still_advances_cursor() {
    let db = TestDb::new();
    let record = object(vec![("subject", text("did:plc:someone"))]);
    let event = stream_commit("app.bsky.graph.follow", "create", record);
    let expected = event_time_us(&event) as i64;
    handle_stream(&db, &event);
    assert_eq!(db.cursor(), Some(expected));
    assert_eq!(db.count("posts"), 0, "the event should move the cursor without being indexed");
}

#[test]
fn jetstream_test_delete_event_advances_cursor() {
    let db = TestDb::new();
    handle_stream(&db, &JetstreamEvent::Delete { time_us: 1_785_000_000_000_000 });
    assert_eq!(db.cursor(), Some(1_785_000_000_000_000));
}

#[test]
fn jetstream_test_like_is_queued_not_indexed() {
    let db = TestDb::new();
    let liked = "at://did:plc:other/app.bsky.feed.post/abc";
    handle_stream(&db, &stream_commit(COLLECTION_LIKE, "create", like_record(liked)));
    assert_eq!(db.pending_likes(), vec![liked]);
    assert_eq!(db.count("posts"), 0, "the like itself must not be indexed; only the post it points at");
}

#[test]
fn jetstream_test_non_create_operations_are_ignored() {
    let db = TestDb::new();
    let record = object(vec![("text", text("should not be indexed"))]);
    handle_stream(&db, &stream_commit(COLLECTION_POST, "delete", record));
    assert_eq!(db.count("posts"), 0);
    assert_eq!(
        db.cursor(),
        Some(1_785_009_595_019_071),
        "an ignored event has still been read, so the cursor must advance"
    );
}

#[test]
fn jetstream_test_post_without_text_is_skipped() {
    let db = TestDb::new();
    let record = object(vec![("createdAt", text("2026-07-25T21:01:36.005Z"))]);
    handle_stream(&db, &stream_commit(COLLECTION_POST, "create", record));
    assert_eq!(db.count("posts"), 0);
}

#[test]
fn jetstream_test_replayed_event_does_not_duplicate() {
    let db = TestDb::new();
    let event = stream_commit(COLLECTION_POST, "create", post_record("replayed post"));
    // Reconnecting rewinds the cursor, so the same event arrives twice.
    handle_stream(&db, &event);
    handle_stream(&db, &event);
    assert_eq!(db.count("posts"), 1, "the UNIQUE uri constraint should absorb the replay");
}

#[test]
fn test_plan_cursor_without_stored_position_live_tails() {
    assert_eq!(plan_cursor(None, 1_000 * HOUR_US, WINDOW_US), CursorPlan::LiveTail);
}

#[test]
fn test_plan_cursor_resumes_inside_the_window() {
    let now = 1_000 * HOUR_US;
    let stored = now - HOUR_US;
    assert_eq!(plan_cursor(Some(stored), now, WINDOW_US), CursorPlan::Resume(stored));
}

#[test]
fn test_plan_cursor_reports_truncation_beyond_the_window() {
    let now = 1_000 * HOUR_US;
    let stored = now - 100 * HOUR_US;
    assert_eq!(
        plan_cursor(Some(stored), now, WINDOW_US),
        CursorPlan::Truncated { requested: stored, oldest: now - WINDOW_US }
    );
}

#[test]
fn test_plan_cursor_window_edge_still_resumes() {
    let now = 1_000 * HOUR_US;
    let stored = now - WINDOW_US;
    assert_eq!(
        plan_cursor(Some(stored), now, WINDOW_US),
        CursorPlan::Resume(stored),
        "a cursor exactly at the edge is still replayable"
    );
}

#[test]
fn a_failed_write_keeps_the_cursor() {
    let plan = handler().handle_event(&commit_event(COLLECTION_POST, "create", post_record("x")));
    assert_eq!(plan.cursor_after(false), None);
    assert_eq!(plan.cursor_after(true), Some(4_242));
}

#[test]
fn post_addresses_are_built_from_their_parts() {
    assert_eq!(build_post_uri("did:plc:a", "r1"), "at://did:plc:a/app.bsky.feed.post/r1");
}

#[test]
fn likes_without_a_subject_are_nothing() {
    assert_eq!(handle_like(&Json::Null), None);
    assert_eq!(handle_like(&object(vec![("subject", text("x"))])), None);
    assert_eq!(handle_like(&like_record("at://x")), Some("at://x".to_string()));
}

#[test]
fn posts_with_unreadable_times_take_the_clock() {
    let now = CivilDateTime { year: 2026, month: 2, day: 3, hour: 4, minute: 5, second: 6, nanos: 7_000 };
    let record = object(vec![("text", text("hi")), ("createdAt", text("never"))]);
    let post = handler().own_post_at("did:plc:a", "r", "c", &record, None, now).expect("post");
    assert_eq!(post.created_at, "2026-02-03T04:05:06.000007");
    assert_eq!(post.indexed_at, "2026-02-03T04:05:06.000007");
}

#[test]
fn connections_resume_a_little_earlier() {
    let now = 1_000 * HOUR_US;
    let age = 72 * 3_600;
    assert_eq!(plan_connection(None, 5, now, age), (None, false));
    assert_eq!(plan_connection(Some(now - HOUR_US), 5, now, age), (Some(now - HOUR_US - 5_000_000), false));
    let (start, gap) = plan_connection(Some(now - 100 * HOUR_US), 5, now, age);
    assert!(gap);
    assert_eq!(start, Some(now - WINDOW_US));
}

#[test]
fn a_connection_that_ended_is_made_again() {
    assert_eq!(after_connection(true, true, false).pause, None);
    assert_eq!(after_connection(false, false, false).pause, Some(5));
    assert_eq!(after_connection(false, false, false).notice, Some(Notice::ConnectionError));
    assert_eq!(after_connection(true, false, false).notice, Some(Notice::Disconnected));
    assert_eq!(after_connection(true, false, true).notice, None);
}

#[test]
fn a_failed_batch_goes_back_to_the_front() {
    let mut queue = LikeQueue::new();
    for i in 0..30 {
        queue.push(format!("at://{i}"));
    }
    let batch = queue.take_batch();
    assert_eq!(batch.len(), MAX_URIS_PER_CALL);
    assert_eq!(batch[0], "at://0");
    assert_eq!(queue.uris.len(), 5);
    queue.push("at://new".to_string());
    queue.end_round(batch, false);
    assert_eq!(queue.uris.len(), 31);
    assert_eq!(queue.uris[0], "at://0");
    assert_eq!(queue.uris[30], "at://new");
    let batch = queue.take_batch();
    queue.end_round(batch, true);
    assert_eq!(queue.uris[0], "at://25");
}

#[test]
fn addresses_are_asked_for_in_chunks() {
    let uris: Vec<String> = (0..60).map(|i| i.to_string()).collect();
    let chunks = uri_chunks(uris.clone());
    assert_eq!(chunks.iter().map(|c| c.len()).collect::<Vec<_>>(), vec![25, 25, 10]);
    assert_eq!(chunks.concat(), uris);
    assert!(uri_chunks(vec![]).is_empty());
}

#[test]
fn resolved_posts_need_text() {
    let view = |record: Json| ResolvedPost {
        uri: "at://u".to_string(),
        cid: "c".to_string(),
        author_did: "did:plc:o".to_string(),
        author_handle: "other.example".to_string(),
        record,
    };
    let post = post_view_to_post(&view(post_record("liked")), Source::Like).expect("post");
    assert_eq!(post.text, "liked");
    assert_eq!(post.source, "like");
    assert_eq!(post.author_handle, "other.example");
    assert_eq!(post.created_at, "2026-07-25T21:01:36.005000+00:00");
    assert!(post_view_to_post(&view(Json::Null), Source::Like).is_none());
    assert!(post_view_to_post(&view(object(vec![("text", text(""))])), Source::Like).is_none());
}

#[test]
fn notifications_hold_their_texts() {
    assert_eq!(
        notification_script("Title", "the message"),
        "display notification \"the message\" with title \"Title\""
    );
}
