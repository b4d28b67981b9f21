use bsearch::hybrid::{merge_hybrid, rank_candidates, Candidate, HybridStep};
use bsearch::models::{Post, Source};
use bsearch::rank::rank;
use bsearch::search::{
    fts_fetch_limit, fts_query_sql, fts_step, hybrid_fetch_limit, hybrid_searches, order_fts_results, phrase_query,
    query_is_empty, refine_vec_results, sort_by_created_at_desc, vec_fetch_limit, FtsStep, MatchType, Order, Real,
    SearchResult, NO_LIMIT,
};
use bsearch::store::{ensure_fts_populated, get_cursor, insert_post, list_by_handle, newest_posts, set_cursor};
use rusqlite::{Connection, OptionalExtension};

fn bits_of(value: f64) -> Real {
    Real { bits: value.to_bits() }
}

fn number(value: Real) -> f64 {
    f64::from_bits(value.bits)
}

/// A database with the tables that the statements of the library speak of.
struct TestDb {
    conn: Connection,
    embeddings: Vec<(i64, Vec<f32>)>,
}

const SCHEMA: &str = "
CREATE TABLE meta (key TEXT PRIMARY KEY, value TEXT);
CREATE TABLE posts (
    id INTEGER PRIMARY KEY AUTOINCREMENT,
    uri TEXT UNIQUE NOT NULL,
    cid TEXT NOT NULL,
    author_did TEXT NOT NULL,
    author_handle TEXT NOT NULL,
    text TEXT NOT NULL,
    created_at TEXT NOT NULL,
    source TEXT NOT NULL,
    indexed_at TEXT NOT NULL,
    has_embedding INTEGER NOT NULL DEFAULT 0
);
CREATE TABLE pending_likes (uri TEXT PRIMARY KEY, queued_at TEXT NOT NULL);
CREATE VIRTUAL TABLE fts_posts USING fts5(
    text, content=posts, content_rowid=id, tokenize='porter unicode61'
);
CREATE TRIGGER posts_ai AFTER INSERT ON posts BEGIN
    INSERT INTO fts_posts(rowid, text) VALUES (new.id, new.text);
END;
";

impl TestDb {
    fn new() -> TestDb {
        let conn = Connection::open_in_memory().expect("open");
        conn.execute_batch(SCHEMA).expect("schema");
        TestDb { conn, embeddings: Vec::new() }
    }

    fn insert(&self, post: &Post) -> Option<i64> {
        let changed = self
            .conn
            .execute(
                "INSERT OR IGNORE INTO posts
                     (uri, cid, author_did, author_handle, text, created_at, source, indexed_at)
                 VALUES (?1, ?2, ?3, ?4, ?5, ?6, ?7, ?8)",
                (
                    &post.uri,
                    &post.cid,
                    &post.author_did,
                    &post.author_handle,
                    &post.text,
                    &post.created_at,
                    post.source,
                    &post.indexed_at,
                ),
            )
            .expect("insert");
        insert_post(changed, self.conn.last_insert_rowid())
    }

    fn count(&self, table: &str) -> i64 {
        self.conn
            .query_row(&format!("SELECT count(*) FROM {table}"), [], |row| row.get(0))
            .expect("count")
    }

    fn cursor(&self) -> Option<i64> {
        let stored: Option<String> = self
            .conn
            .query_row("SELECT value FROM meta WHERE key = 'cursor'", [], |row| row.get(0))
            .optional()
            .expect("read");
        get_cursor(stored.as_deref())
    }

    fn store_cursor(&self, cursor: i64) {
        self.conn
            .execute("INSERT OR REPLACE INTO meta (key, value) VALUES ('cursor', ?1)", [set_cursor(cursor)])
            .expect("write");
    }

    fn run_fts_query(
        &self,
        query: &str,
        limit: usize,
        source: Option<&str>,
        handle: Option<&str>,
        order: Order,
    ) -> rusqlite::Result<Vec<SearchResult>> {
        let mut stmt = self.conn.prepare(&fts_query_sql(source.is_some(), handle.is_some(), order))?;
        let mut params: Vec<Box<dyn rusqlite::ToSql>> = vec![Box::new(query.to_string())];
        if let Some(s) = source {
            params.push(Box::new(s.to_string()));
        }
        if let Some(h) = handle {
            params.push(Box::new(h.to_string()));
        }
        params.push(Box::new(fts_fetch_limit(limit, order)));
        let refs: Vec<&dyn rusqlite::ToSql> = params.iter().map(|p| p.as_ref()).collect();
        let rows = stmt.query_map(refs.as_slice(), |row| {
            Ok(SearchResult {
                id: row.get(0)?,
                bm25_rank: row.get::<_, Option<f64>>(1)?.map(bits_of),
                uri: row.get(2)?,
                cid: row.get(3)?,
                author_did: row.get(4)?,
                author_handle: row.get(5)?,
                text: row.get(6)?,
                created_at: row.get(7)?,
                source: row.get(8)?,
                indexed_at: row.get(9)?,
                distance: None,
                rrf_score: None,
                match_type: Some(MatchType::Keyword),
            })
        })?;
        Ok(order_fts_results(rows.collect::<rusqlite::Result<Vec<_>>>()?, limit, order))
    }

    fn search_fts(
        &self,
        query: &str,
        limit: usize,
        source: Option<&str>,
        handle: Option<&str>,
        order: Order,
    ) -> rusqlite::Result<Vec<SearchResult>> {
        if query_is_empty(query) {
            return Ok(vec![]);
        }
        match self.run_fts_query(query, limit, source, handle, order) {
            Ok(rows) => Ok(rows),
            Err(_) => self.run_fts_query(&phrase_query(query), limit, source, handle, order),
        }
    }
}

impl TestDb {
    fn post(&self, uri: &str, text: &str, source: &str, handle: &str) {
        self.post_at(uri, text, source, handle, "2024-01-01T00:00:00Z");
    }

    fn post_at(&self, uri: &str, text: &str, source: &str, handle: &str, created_at: &str) {
        self.conn
            .execute(
                "INSERT INTO posts (uri, cid, author_did, author_handle, text, created_at, source, indexed_at)
                 VALUES (?1, '', '', ?2, ?3, ?5, ?4, '2024-01-01T00:00:00Z')",
                (uri, handle, text, source, created_at),
            )
            .expect("insert");
    }

    fn embed(&mut self, rowid: i64, embedding: &[f32; 384]) {
        self.embeddings.push((rowid, embedding.to_vec()));
    }

    fn list(&self, handle: &str, limit: usize, source: Option<&str>) -> Vec<SearchResult> {
        let mut stmt = self.conn.prepare(list_by_handle(source.is_some())).expect("prepare");
        let read = |row: &rusqlite::Row<'_>| {
            Ok(SearchResult {
                id: row.get(0)?,
                uri: row.get(1)?,
                cid: row.get(2)?,
                author_did: row.get(3)?,
                author_handle: row.get(4)?,
                text: row.get(5)?,
                created_at: row.get(6)?,
                source: row.get(7)?,
                indexed_at: row.get(8)?,
                distance: None,
                bm25_rank: None,
                rrf_score: None,
                match_type: None,
            })
        };
        let rows = match source {
            Some(s) => stmt.query_map((handle, s), read).expect("list"),
            None => stmt.query_map([handle], read).expect("list"),
        };
        newest_posts(rows.collect::<rusqlite::Result<Vec<_>>>().expect("rows"), limit)
    }

    /// The nearest posts, by the distance of their embeddings.
    fn search_vec(
        &self,
        query: &[f32; 384],
        limit: usize,
        source: Option<&str>,
        handle: Option<&str>,
        order: Order,
    ) -> Vec<SearchResult> {
        let fetch = vec_fetch_limit(limit, source.is_some() || handle.is_some(), order);
        let mut near: Vec<(i64, f64)> = self
            .embeddings
            .iter()
            .map(|(id, e)| {
                let sum: f32 = e.iter().zip(query.iter()).map(|(a, b)| (a - b) * (a - b)).sum();
                (*id, sum.sqrt() as f64)
            })
            .collect();
        near.sort_by(|a, b| a.1.partial_cmp(&b.1).unwrap());
        near.truncate(fetch);
        let rows = near
            .into_iter()
            .map(|(id, distance)| {
                self.conn
                    .query_row(
                        "SELECT uri, cid, author_did, author_handle, text, created_at, source, indexed_at
                         FROM posts WHERE id = ?1",
                        [id],
                        |row| {
                            Ok(SearchResult {
                                id,
                                uri: row.get(0)?,
                                cid: row.get(1)?,
                                author_did: row.get(2)?,
                                author_handle: row.get(3)?,
                                text: row.get(4)?,
                                created_at: row.get(5)?,
                                source: row.get(6)?,
                                indexed_at: row.get(7)?,
                                distance: Some(bits_of(distance)),
                                bm25_rank: None,
                                rrf_score: None,
                                match_type: Some(MatchType::Semantic),
                            })
                        },
                    )
                    .expect("row")
            })
            .collect();
        refine_vec_results(rows, limit, source, handle, order)
    }

    fn search_hybrid(
        &self,
        query: &str,
        embedding: Option<&[f32; 384]>,
        limit: usize,
        max_distance: f64,
        order: Order,
    ) -> Vec<SearchResult> {
        let (fetch, by) = hybrid_searches(limit, order);
        let keyword = self.search_fts(query, fetch, None, None, by).expect("keyword");
        let semantic = match embedding {
            Some(e) => self.search_vec(e, fetch, None, None, by),
            None => vec![],
        };
        match merge_hybrid(keyword, semantic, limit, bits_of(max_distance), order) {
            HybridStep::Done(rows) => rows,
            HybridStep::Score(candidates) => {
                let scores = candidates.iter().map(|c| bits_of(fused_score(c))).collect();
                rank_candidates(candidates, &scores, limit, order)
            }
        }
    }
}

/// Reciprocal rank fusion.
fn fused_score(candidate: &Candidate) -> f64 {
    candidate.ranks.iter().map(|rank| 1.0 / (60.0 + (rank + 1) as f64)).sum()
}

/// The addresses of results, in order.
fn uris(results: &[SearchResult]) -> Vec<&str> {
    results.iter().map(|r| r.uri.as_str()).collect()
}

fn row(id: i64, uri: &str, created_at: &str) -> SearchResult {
    SearchResult {
        id,
        uri: uri.to_string(),
        cid: String::new(),
        author_did: String::new(),
        author_handle: "alice".to_string(),
        text: String::new(),
        created_at: created_at.to_string(),
        source: "own_post".to_string(),
        indexed_at: String::new(),
        distance: None,
        bm25_rank: None,
        rrf_score: None,
        match_type: None,
    }
}

fn sample_post(uri: &str, text: &str) -> Post {
    Post::new(
        uri.to_string(),
        "cid1".to_string(),
        "did:plc:abc".to_string(),
        "alice.bsky.social".to_string(),
        text.to_string(),
        "2026-03-29T03:11:21.467000+00:00".to_string(),
        Source::OwnPost,
    )
}

fn unit(first: f32) -> [f32; 384] {
    let mut e = [0.0f32; 384];
    e[0] = first;
    e
}

#[test]
fn db_test_fts_finds_match() {
    let db = TestDb::new();
    db.post("uri:1", "hello world", "bluesky", "alice.bsky.social");
    db.post("uri:2", "goodbye moon", "bluesky", "bob.bsky.social");
    let results = db.search_fts("hello", 10, None, None, Order::Relevance).expect("search failed");
    assert_eq!(results.len(), 1);
    assert_eq!(results[0].uri, "uri:1");
}

#[test]
fn db_test_fts_empty_query() {
    let db = TestDb::new();
    db.post("uri:1", "some text", "bluesky", "alice.bsky.social");
    let results = db.search_fts("", 10, None, None, Order::Relevance).expect("search failed");
    assert!(results.is_empty());
    let results = db.search_fts("   ", 10, None, None, Order::Relevance).expect("search failed");
    assert!(results.is_empty());
}

#[test]
fn db_test_fts_source_filter() {
    let db = TestDb::new();
    db.post("uri:1", "hello world", "bluesky", "alice.bsky.social");
    db.post("uri:2", "hello world", "mastodon", "bob.social");
    let results = db.search_fts("hello", 10, Some("bluesky"), None, Order::Relevance).expect("search failed");
    assert_eq!(results.len(), 1);
    assert_eq!(results[0].source, "bluesky");
}

#[test]
fn db_test_fts_handle_filter() {
    let db = TestDb::new();
    db.post("uri:1", "hello world", "bluesky", "alice.bsky.social");
    db.post("uri:2", "hello world", "bluesky", "bob.bsky.social");
    let results =
        db.search_fts("hello", 10, None, Some("alice.bsky.social"), Order::Relevance).expect("search failed");
    assert_eq!(results.len(), 1);
    assert_eq!(results[0].author_handle, "alice.bsky.social");
}

#[test]
fn db_test_fts_special_chars_do_not_crash() {
    let db = TestDb::new();
    db.post("uri:1", "hello world", "bluesky", "alice.bsky.social");
    // Broken query syntax: an unmatched quote and stray operators.
    db.search_fts("AND OR ( \" broken***", 10, None, None, Order::Relevance).expect("should not crash");
}

#[test]
fn db_test_list_by_handle() {
    let db = TestDb::new();
    db.post("uri:1", "post one", "bluesky", "alice.bsky.social");
    db.post("uri:2", "post two", "mastodon", "alice.bsky.social");
    db.post("uri:3", "post three", "bluesky", "bob.bsky.social");
    assert_eq!(db.list("alice.bsky.social", 10, None).len(), 2);
    let results = db.list("alice.bsky.social", 10, Some("bluesky"));
    assert_eq!(results.len(), 1);
    assert_eq!(results[0].source, "bluesky");
    assert_eq!(db.list("bob.bsky.social", 10, None).len(), 1);
}

#[test]
fn test_hybrid_both_sources() {
    let mut db = TestDb::new();
    db.post("uri:1", "rustacean programming language", "bluesky", "alice.bsky.social");
    db.post("uri:2", "cooking recipes and food", "bluesky", "bob.bsky.social");
    db.embed(1, &unit(1.0));
    db.embed(2, &unit(-1.0));
    let results = db.search_hybrid("rustacean", Some(&unit(0.9)), 10, 1.05, Order::Relevance);
    assert!(!results.is_empty(), "should have results");
    assert_eq!(results[0].uri, "uri:1");
    assert_eq!(
        results[0].match_type,
        Some(MatchType::KeywordAndSemantic),
        "post 1 should match both sources"
    );
}

#[test]
fn test_hybrid_fts_only_fallback() {
    let db = TestDb::new();
    db.post("uri:1", "hello world unique text", "bluesky", "alice.bsky.social");
    let results = db.search_hybrid("hello", None, 10, 1.05, Order::Relevance);
    assert_eq!(results.len(), 1);
    assert_eq!(results[0].uri, "uri:1");
    assert_eq!(results[0].match_type, Some(MatchType::Keyword));
}

#[test]
fn test_insert_post_returns_rowid_then_none_on_duplicate() {
    let db = TestDb::new();
    let post = sample_post("at://uri/1", "hello world");
    assert_eq!(db.insert(&post), Some(1));
    assert_eq!(db.insert(&post), None, "duplicate URI should be ignored");
}

#[test]
fn test_insert_post_populates_fts() {
    let db = TestDb::new();
    db.insert(&sample_post("at://uri/1", "unmistakable phrase"));
    let results = db.search_fts("unmistakable", 10, None, None, Order::Relevance).expect("search failed");
    assert_eq!(results.len(), 1, "trigger should have indexed the post");
    assert_eq!(results[0].uri, "at://uri/1");
}

#[test]
fn test_cursor_round_trip() {
    let db = TestDb::new();
    assert_eq!(db.cursor(), None);
    db.store_cursor(1_722_000_000_000_000);
    assert_eq!(db.cursor(), Some(1_722_000_000_000_000));
    // Overwrite rather than accumulate rows.
    db.store_cursor(1_722_000_000_000_001);
    assert_eq!(db.cursor(), Some(1_722_000_000_000_001));
    assert_eq!(db.count("meta"), 1);
}

#[test]
fn test_sort_by_created_at_desc_puts_newest_first() {
    let mut results = vec![
        row(1, "uri:old", "2024-01-01T00:00:00+00:00"),
        row(2, "uri:new", "2026-01-01T00:00:00+00:00"),
        row(3, "uri:mid", "2025-01-01T00:00:00+00:00"),
    ];
    sort_by_created_at_desc(&mut results);
    assert_eq!(uris(&results), vec!["uri:new", "uri:mid", "uri:old"]);
}

#[test]
fn test_sort_by_created_at_desc_puts_undatable_rows_last() {
    let mut results = vec![row(1, "uri:junk", "not a date"), row(2, "uri:dated", "2024-01-01T00:00:00+00:00")];
    sort_by_created_at_desc(&mut results);
    assert_eq!(uris(&results), vec!["uri:dated", "uri:junk"]);
}

#[test]
fn test_sort_by_created_at_desc_corrects_for_offsets() {
    let mut results = vec![
        row(1, "uri:earlier", "2026-03-29T10:00:00+05:00"),
        row(2, "uri:later", "2026-03-29T09:00:00+00:00"),
    ];
    sort_by_created_at_desc(&mut results);
    assert_eq!(uris(&results), vec!["uri:later", "uri:earlier"]);
}

fn ferrets() -> TestDb {
    let db = TestDb::new();
    // The old post repeats the term, so it is the better match.
    db.post_at("uri:old", "ferrets ferrets ferrets", "bluesky", "alice", "2024-01-01T00:00:00+00:00");
    db.post_at("uri:new", "ferrets, briefly", "bluesky", "alice", "2026-01-01T00:00:00+00:00");
    db
}

#[test]
fn test_keyword_date_order_overrides_relevance() {
    let db = ferrets();
    let by_relevance = db.search_fts("ferrets", 10, None, None, Order::Relevance).expect("search failed");
    assert_eq!(uris(&by_relevance), vec!["uri:old", "uri:new"]);
    let by_date = db.search_fts("ferrets", 10, None, None, Order::DateDesc).expect("search failed");
    assert_eq!(uris(&by_date), vec!["uri:new", "uri:old"]);
}

#[test]
fn test_keyword_date_order_displaces_stronger_older_match() {
    let db = ferrets();
    let results = db.search_fts("ferrets", 1, None, None, Order::DateDesc).expect("search failed");
    assert_eq!(uris(&results), vec!["uri:new"]);
}

#[test]
fn test_keyword_date_order_respects_filters() {
    let db = TestDb::new();
    db.post_at("uri:1", "ferrets", "bluesky", "alice", "2026-01-01T00:00:00+00:00");
    db.post_at("uri:2", "ferrets", "mastodon", "alice", "2026-06-01T00:00:00+00:00");
    let results = db.search_fts("ferrets", 10, Some("bluesky"), None, Order::DateDesc).expect("search failed");
    assert_eq!(uris(&results), vec!["uri:1"], "newer post is filtered out");
}

#[test]
fn test_semantic_date_order_overrides_distance() {
    let mut db = TestDb::new();
    db.post_at("uri:close-old", "rustacean", "bluesky", "alice", "2024-01-01T00:00:00+00:00");
    db.post_at("uri:far-new", "rustacean", "bluesky", "alice", "2026-01-01T00:00:00+00:00");
    db.embed(1, &unit(1.0));
    db.embed(2, &unit(0.2));
    let by_distance = db.search_vec(&unit(1.0), 10, None, None, Order::Relevance);
    assert_eq!(uris(&by_distance), vec!["uri:close-old", "uri:far-new"]);
    let by_date = db.search_vec(&unit(1.0), 10, None, None, Order::DateDesc);
    assert_eq!(uris(&by_date), vec!["uri:far-new", "uri:close-old"]);
}

#[test]
fn test_hybrid_date_order_overrides_rrf() {
    let mut db = TestDb::new();
    db.post_at("uri:old", "rustacean programming language", "bluesky", "alice", "2024-01-01T00:00:00+00:00");
    db.post_at("uri:new", "rustacean notes", "bluesky", "bob", "2026-01-01T00:00:00+00:00");
    db.embed(1, &unit(1.0));
    db.embed(2, &unit(0.95));
    let results = db.search_hybrid("rustacean", Some(&unit(1.0)), 10, 1.05, Order::DateDesc);
    assert_eq!(uris(&results), vec!["uri:new", "uri:old"]);
    // The merge still records how each post was found; only the order changed.
    assert!(results.iter().all(|r| r.rrf_score.is_some()));
}

#[test]
fn test_hybrid_date_order_applies_to_single_source_fallback() {
    let db = ferrets();
    let results = db.search_hybrid("ferrets", None, 10, 1.05, Order::DateDesc);
    assert_eq!(uris(&results), vec!["uri:new", "uri:old"]);
}

#[test]
fn test_date_order_still_honours_limit() {
    let db = TestDb::new();
    for year in [2022, 2023, 2024, 2025, 2026] {
        db.post_at(
            &format!("uri:{year}"),
            "ferrets",
            "bluesky",
            "alice",
            &format!("{year}-01-01T00:00:00+00:00"),
        );
    }
    let results = db.search_fts("ferrets", 2, None, None, Order::DateDesc).expect("search failed");
    assert_eq!(uris(&results), vec!["uri:2026", "uri:2025"]);
}

#[test]
fn test_hybrid_empty_db() {
    let db = TestDb::new();
    let results = db.search_hybrid("anything", Some(&unit(0.0)), 10, 1.05, Order::Relevance);
    assert!(results.is_empty());
}

#[test]
fn rows_of_one_instant_keep_their_order() {
    let mut results = vec![
        row(1, "a", "junk"),
        row(2, "b", "2026-01-01T01:00:00+01:00"),
        row(3, "c", "2026-01-01T00:00:00Z"),
        row(4, "d", "more junk"),
        row(5, "e", "2026-01-01T00:00:00.000001Z"),
    ];
    sort_by_created_at_desc(&mut results);
    assert_eq!(uris(&results), vec!["e", "b", "c", "a", "d"]);
}

#[test]
fn pools_widen_for_filters_and_dates() {
    assert_eq!(vec_fetch_limit(10, false, Order::Relevance), 10);
    assert_eq!(vec_fetch_limit(10, true, Order::Relevance), 50);
    assert_eq!(vec_fetch_limit(10, true, Order::DateDesc), 200);
    assert_eq!(hybrid_fetch_limit(10, Order::Relevance), 30);
    assert_eq!(hybrid_fetch_limit(10, Order::DateDesc), 200);
    assert_eq!(Order::default(), Order::Relevance);
}

#[test]
fn phrases_lose_their_quotes() {
    assert_eq!(phrase_query("a \"b\" c"), "\"a b c\"");
    assert_eq!(phrase_query("\""), "\"\"");
    assert!(query_is_empty(" \t\u{3000}\n"));
    assert!(!query_is_empty(" x "));
}

#[test]
fn neighbours_are_filtered_before_they_are_cut() {
    let mut other = row(1, "x", "2026-01-01T00:00:00Z");
    other.source = "like".to_string();
    let rows = vec![other, row(2, "y", "2026-01-01T00:00:00Z"), row(3, "z", "2026-01-02T00:00:00Z")];
    let kept = refine_vec_results(rows, 1, Some("own_post"), Some("alice"), Order::Relevance);
    assert_eq!(uris(&kept), vec!["y"]);
}

#[test]
fn semantic_matches_need_to_be_close() {
    let keyword = vec![row(5, "kw", "2026-01-01T00:00:00Z")];
    let mut near = row(7, "near", "2026-01-01T00:00:00Z");
    near.distance = Some(bits_of(1.05));
    let mut far = row(6, "far", "2026-01-01T00:00:00Z");
    far.distance = Some(bits_of(1.06));
    let both = row(5, "kw", "2026-01-01T00:00:00Z");
    let HybridStep::Score(candidates) =
        merge_hybrid(keyword, vec![near, far, both], 10, bits_of(1.05), Order::Relevance)
    else {
        panic!("both searches found something");
    };
    let ids: Vec<i64> = candidates.iter().map(|c| c.row.id).collect();
    assert_eq!(ids, vec![5, 7]);
    assert_eq!(candidates[0].ranks, vec![0, 2]);
    assert_eq!(candidates[1].ranks, vec![0]);
    let scores: Vec<Real> = candidates.iter().map(|c| bits_of(fused_score(c))).collect();
    let ranked = rank_candidates(candidates, &scores, 10, Order::Relevance);
    assert_eq!(uris(&ranked), vec!["kw", "near"]);
    assert_eq!(ranked[0].match_type, Some(MatchType::KeywordAndSemantic));
    assert_eq!(ranked[1].match_type, Some(MatchType::Semantic));
    let top = number(ranked[0].rrf_score.expect("score"));
    assert!((top - (1.0 / 61.0 + 1.0 / 63.0)).abs() < 1e-12);
}

#[test]
fn equal_scores_come_in_the_order_of_ids() {
    let keyword = vec![row(9, "a", "2026-01-01T00:00:00Z")];
    let mut semantic = row(3, "b", "2026-01-01T00:00:00Z");
    semantic.distance = Some(bits_of(0.5));
    let HybridStep::Score(candidates) = merge_hybrid(keyword, vec![semantic], 10, bits_of(1.0), Order::Relevance) else {
        panic!("both searches found something");
    };
    let scores: Vec<Real> = candidates.iter().map(|c| bits_of(fused_score(c))).collect();
    assert_eq!(uris(&rank_candidates(candidates, &scores, 1, Order::Relevance)), vec!["b"]);
}

#[test]
fn reals_are_ordered_as_numbers() {
    let values = [f64::NEG_INFINITY, -2.5, -1.0, -0.0, 0.0, 1e-300, 0.5, 1.0, f64::INFINITY];
    for a in values {
        for b in values {
            assert_eq!(bits_of(a).le(&bits_of(b)), a <= b, "{a} {b}");
            assert_eq!(bits_of(a).order_key() <= bits_of(b).order_key(), a <= b, "{a} {b}");
        }
        assert!(!bits_of(f64::NAN).le(&bits_of(a)));
        assert!(!bits_of(a).le(&bits_of(f64::NAN)));
    }
}

#[test]
fn ranking_is_stable() {
    let ranked = rank(vec![(1i128, "a"), (3, "b"), (1, "c"), (2, "d"), (3, "e")]);
    assert_eq!(ranked, vec![(3, "b"), (3, "e"), (2, "d"), (1, "a"), (1, "c")]);
}

#[test]
fn match_types_have_labels() {
    assert_eq!(MatchType::Keyword.label(), "keyword");
    assert_eq!(MatchType::Semantic.label(), "semantic");
    assert_eq!(MatchType::KeywordAndSemantic.label(), "keyword+semantic");
}

#[test]
fn an_index_of_unknown_state_is_repaired_once() {
    let fresh = ensure_fts_populated(false, 0);
    assert!(!fresh.rebuild && fresh.mark);
    let old = ensure_fts_populated(false, 7);
    assert!(old.rebuild && old.mark);
    let good = ensure_fts_populated(true, 7);
    assert!(!good.rebuild && !good.mark);
}

#[test]
fn malformed_cursors_count_as_none() {
    assert_eq!(get_cursor(Some("twelve")), None);
    assert_eq!(get_cursor(Some("")), None);
    assert_eq!(get_cursor(Some("-12")), Some(-12));
    assert_eq!(get_cursor(Some("+12")), Some(12));
    assert_eq!(get_cursor(Some("9223372036854775808")), None);
    for cursor in [i64::MIN, -1, 0, 42, i64::MAX] {
        assert_eq!(get_cursor(Some(&set_cursor(cursor))), Some(cursor));
    }
}

#[test]
fn a_refused_query_is_tried_once_more_as_a_phrase() {
    assert!(matches!(fts_step("  ", 0), FtsStep::Nothing));
    assert!(matches!(fts_step("a \"b", 0), FtsStep::Run(q) if q == "a \"b"));
    assert!(matches!(fts_step("a \"b", 1), FtsStep::Run(q) if q == "\"a b\""));
    assert!(matches!(fts_step("a \"b", 2), FtsStep::Fail));
}

#[test]
fn the_limit_cuts_off_the_oldest() {
    let rows = || {
        vec![
            row(1, "junk", "never"),
            row(2, "old", "2024-01-01T00:00:00Z"),
            row(3, "new", "2026-01-01T00:00:00Z"),
            row(4, "mid", "2025-01-01T00:00:00Z"),
        ]
    };
    assert_eq!(uris(&refine_vec_results(rows(), 2, None, None, Order::DateDesc)), vec!["new", "mid"]);
    assert_eq!(uris(&refine_vec_results(rows(), 9, None, None, Order::DateDesc)), vec!["new", "mid", "old", "junk"]);
    assert!(refine_vec_results(rows(), 0, None, None, Order::DateDesc).is_empty());
}

#[test]
fn a_post_is_handed_out_once() {
    let date = "2026-01-01T00:00:00Z";
    let mut close = row(1, "a", date);
    close.distance = Some(bits_of(0.1));
    let keyword = vec![row(1, "a", date), row(2, "b", date), row(1, "a", date)];
    let HybridStep::Score(candidates) = merge_hybrid(keyword, vec![close], 10, bits_of(1.0), Order::DateDesc) else {
        panic!("both searches found something");
    };
    assert_eq!(candidates[0].ranks, vec![0, 2, 0]);
    let scores: Vec<Real> = candidates.iter().map(|c| bits_of(fused_score(c))).collect();
    assert_eq!(uris(&rank_candidates(candidates, &scores, 10, Order::DateDesc)), vec!["a", "b"]);
}

#[test]
fn far_posts_are_no_results_without_a_keyword_match() {
    let mut db = TestDb::new();
    db.post("uri:far", "something else", "bluesky", "alice");
    db.embed(1, &unit(1.9));
    assert!(db.search_hybrid("absent", Some(&unit(0.0)), 10, 1.05, Order::Relevance).is_empty());
    assert!(db.search_hybrid("absent", Some(&unit(0.0)), 10, 1.05, Order::DateDesc).is_empty());
    db.post("uri:near", "something near", "bluesky", "alice");
    db.embed(2, &unit(0.5));
    let results = db.search_hybrid("absent", Some(&unit(0.0)), 10, 1.05, Order::Relevance);
    assert_eq!(uris(&results), vec!["uri:near"]);
    assert_eq!(results[0].match_type, Some(MatchType::Semantic));
    assert!(results[0].rrf_score.is_none());
}

#[test]
fn lone_semantic_matches_at_the_threshold_count() {
    let mut at = row(1, "at", "2026-01-01T00:00:00Z");
    at.distance = Some(bits_of(1.05));
    let mut over = row(2, "over", "2026-01-01T00:00:00Z");
    over.distance = Some(bits_of(1.0500001));
    let unknown = row(3, "unknown", "2026-01-01T00:00:00Z");
    let mut close = row(4, "close", "2026-01-02T00:00:00Z");
    close.distance = Some(bits_of(1.0));
    let HybridStep::Done(rows) =
        merge_hybrid(vec![], vec![at, over, unknown, close], 10, bits_of(1.05), Order::DateDesc)
    else {
        panic!("only one search found something");
    };
    assert_eq!(uris(&rows), vec!["close", "at"]);
}

#[test]
fn the_newest_keyword_matches_are_picked_by_their_instants() {
    let db = TestDb::new();
    db.post_at("uri:earlier", "rust", "bluesky", "alice", "2026-01-01T10:00:00+05:00");
    db.post_at("uri:later", "rust", "bluesky", "alice", "2026-01-01T09:00:00+00:00");
    let newest = |limit: usize| db.search_fts("rust", limit, None, None, Order::DateDesc).expect("search");
    assert_eq!(uris(&newest(10)), vec!["uri:later", "uri:earlier"]);
    assert_eq!(uris(&newest(1)), vec!["uri:later"]);
}

#[test]
fn the_newest_posts_of_a_handle_are_picked_by_their_instants() {
    let db = TestDb::new();
    db.post_at("uri:earlier", "one", "bluesky", "alice", "2026-01-01T10:00:00+05:00");
    db.post_at("uri:later", "two", "bluesky", "alice", "2026-01-01T09:00:00+00:00");
    db.post_at("uri:other", "three", "bluesky", "bob", "2026-01-02T09:00:00+00:00");
    let results = db.list("alice", 10, None);
    assert_eq!(uris(&results), vec!["uri:later", "uri:earlier"]);
    for r in &results {
        assert_eq!(r.author_handle, "alice");
        assert!(r.match_type.is_none() && r.distance.is_none() && r.bm25_rank.is_none() && r.rrf_score.is_none());
    }
    assert_eq!(uris(&db.list("alice", 1, Some("bluesky"))), vec!["uri:later"]);
}

#[test]
fn the_database_ranks_but_does_not_date() {
    assert_eq!(fts_fetch_limit(10, Order::Relevance), 10);
    assert_eq!(fts_fetch_limit(10, Order::DateDesc), NO_LIMIT);
    assert_eq!(fts_fetch_limit(usize::MAX, Order::Relevance), NO_LIMIT);
    assert_eq!(NO_LIMIT, -1);
}

#[test]
fn hybrid_searches_go_by_relevance() {
    assert_eq!(hybrid_searches(10, Order::Relevance), (30, Order::Relevance));
    assert_eq!(hybrid_searches(10, Order::DateDesc), (200, Order::Relevance));
    assert_eq!(vec_fetch_limit(usize::MAX, false, Order::Relevance), usize::MAX);
}

#[test]
fn results_are_rows_of_the_keyword_search_where_it_found_them() {
    let mut by_word = row(5, "uri", "2026-01-01T00:00:00Z");
    by_word.text = "from the keyword search".to_string();
    by_word.bm25_rank = Some(bits_of(-2.0));
    let mut by_sense = row(5, "uri", "2026-01-01T00:00:00Z");
    by_sense.text = "from the semantic search".to_string();
    by_sense.distance = Some(bits_of(0.5));
    let HybridStep::Score(candidates) =
        merge_hybrid(vec![by_word], vec![by_sense], 10, bits_of(1.05), Order::Relevance)
    else {
        panic!("both searches found something");
    };
    let scores: Vec<Real> = candidates.iter().map(|c| bits_of(fused_score(c))).collect();
    let results = rank_candidates(candidates, &scores, 10, Order::Relevance);
    assert_eq!(results.len(), 1);
    assert_eq!(results[0].text, "from the keyword search");
    assert_eq!(results[0].bm25_rank, Some(bits_of(-2.0)));
    assert_eq!(results[0].match_type, Some(MatchType::KeywordAndSemantic));
}

#[test]
fn cursors_are_stored_in_decimal() {
    assert_eq!(set_cursor(0), "0");
    assert_eq!(set_cursor(-10), "-10");
    assert_eq!(set_cursor(i64::MIN), "-9223372036854775808");
    assert_eq!(set_cursor(i64::MAX), "9223372036854775807");
}
