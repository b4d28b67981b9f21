//! What a search hands out, in terms of the fields of rows alone.
use vstd::prelude::*;

use crate::hybrid::{
    candidate_fits, distance_of, first_of, found, is_selected, labelled, law_keyword_matches_qualify,
    law_lone_semantic_matches_need_to_be_close, listed, near, qualifies, ranks_of, rising, scored,
    scored_row, Candidate,
};
use crate::rank::{
    falling, law_ranking_exists, law_ranking_rearranges, ranking, values, with_key,
};
use crate::search::{
    dated, falling_dates, fts_statement, hybrid_pool, is_newest_first, is_ordered, is_refined, kept,
    key_fits, keys_fit, law_date_order_rearranges, law_newest_rows_come_first,
    law_ordered_rows_were_there, limited, newest_first, vec_pool, without_quotes, MatchType, Order,
    Real, SearchResult,
};
use crate::time::{naive, rfc3339, Instant, OffsetDateTime};

verus! {

// ---- numbers ----

/// Numbers are compared by their values: among those without a sign by their
/// bits, among those with one the other way round, and one with a sign is at
/// most every one without. What is no number is never compared, and both zeros
/// are equal.
pub proof fn law_numbers_are_compared_by_value(a: Real, b: Real)
    ensures
        a.bits <= 0x7ff0_0000_0000_0000 && b.bits <= 0x7ff0_0000_0000_0000 ==> (a.at_most(b)
            <==> a.bits <= b.bits),
        0x8000_0000_0000_0000 <= a.bits <= 0xfff0_0000_0000_0000 && 0x8000_0000_0000_0000 <= b.bits
            <= 0xfff0_0000_0000_0000 ==> (a.at_most(b) <==> a.bits >= b.bits),
        0x8000_0000_0000_0000 <= a.bits <= 0xfff0_0000_0000_0000 && b.bits <= 0x7ff0_0000_0000_0000
            ==> a.at_most(b) && (b.at_most(a) <==> a.bits == 0x8000_0000_0000_0000 && b.bits == 0),
        (0x7ff0_0000_0000_0000 < a.bits < 0x8000_0000_0000_0000 || a.bits > 0xfff0_0000_0000_0000)
            ==> !a.at_most(b) && !b.at_most(a),
{
}

// ---- filters ----

proof fn lemma_kept_holds(
    rows: Seq<SearchResult>,
    source: Option<Seq<char>>,
    handle: Option<Seq<char>>,
    k: int,
)
    requires
        0 <= k < rows.len(),
        source matches Some(wanted) ==> rows[k].source@ == wanted,
        handle matches Some(wanted) ==> rows[k].author_handle@ == wanted,
    ensures
        kept(rows, source, handle).contains(rows[k]),
    decreases rows.len(),
{
    let less = rows.drop_last();
    let some = kept(rows, source, handle);
    if k < rows.len() - 1 {
        lemma_kept_holds(less, source, handle, k);
        let had = kept(less, source, handle);
        let i = choose|i: int| 0 <= i < had.len() && had[i] == rows[k];
        assert(some[i] == rows[k]);
    } else {
        assert(some.last() == rows[k]);
    }
}

proof fn lemma_kept_fields(
    rows: Seq<SearchResult>,
    source: Option<Seq<char>>,
    handle: Option<Seq<char>>,
    i: int,
) -> (k: int)
    requires
        0 <= i < kept(rows, source, handle).len(),
    ensures
        0 <= k < rows.len(),
        kept(rows, source, handle)[i] == rows[k],
        source matches Some(wanted) ==> rows[k].source@ == wanted,
        handle matches Some(wanted) ==> rows[k].author_handle@ == wanted,
    decreases rows.len(),
{
    let had = kept(rows.drop_last(), source, handle);
    if i < had.len() {
        lemma_kept_fields(rows.drop_last(), source, handle, i)
    } else {
        rows.len() - 1
    }
}

/// Where a handle is asked for, every row that a refined search returns has
/// that author handle, and where a source is asked for, that source; each was
/// among the rows it was given.
pub proof fn law_refined_rows_are_of_the_handle_and_source(
    rows: Seq<SearchResult>,
    limit: int,
    source: Option<Seq<char>>,
    handle: Option<Seq<char>>,
    order: Order,
    out: Seq<SearchResult>,
    i: int,
)
    requires
        0 <= limit,
        is_refined(rows, limit, source, handle, order, out),
        0 <= i < out.len(),
    ensures
        handle matches Some(wanted) ==> out[i].author_handle@ == wanted,
        source matches Some(wanted) ==> out[i].source@ == wanted,
        exists|k: int| 0 <= k < rows.len() && #[trigger] rows[k] == out[i],
        out.len() <= limit,
{
    let some = kept(rows, source, handle);
    law_ordered_rows_were_there(some, limit, order, out, i);
    let m = choose|m: int| 0 <= m < some.len() && some[m] == out[i];
    let k = lemma_kept_fields(rows, source, handle, m);
    assert(rows[k] == out[i]);
}

/// Where the limit leaves room, a refined search returns every row it was
/// given that has the handle and the source that were asked for.
pub proof fn law_refined_search_drops_nothing_wanted(
    rows: Seq<SearchResult>,
    limit: int,
    source: Option<Seq<char>>,
    handle: Option<Seq<char>>,
    order: Order,
    out: Seq<SearchResult>,
    k: int,
)
    requires
        0 <= limit,
        is_refined(rows, limit, source, handle, order, out),
        out.len() < limit,
        0 <= k < rows.len(),
        handle matches Some(wanted) ==> rows[k].author_handle@ == wanted,
        source matches Some(wanted) ==> rows[k].source@ == wanted,
    ensures
        out.contains(rows[k]),
{
    lemma_kept_holds(rows, source, handle, k);
    law_room_keeps_every_row(kept(rows, source, handle), limit, order, out, rows[k]);
}

/// Where the limit leaves room, no row is lost, in whatever order.
pub proof fn law_room_keeps_every_row(
    rows: Seq<SearchResult>,
    limit: int,
    order: Order,
    out: Seq<SearchResult>,
    row: SearchResult,
)
    requires
        0 <= limit,
        is_ordered(rows, limit, order, out),
        out.len() < limit,
        rows.contains(row),
    ensures
        out.contains(row),
        out.len() == rows.len(),
{
    broadcast use vstd::seq_lib::group_to_multiset_ensures;

    if order == Order::DateDesc {
        let sorted = choose|sorted: Seq<SearchResult>| #[trigger]
            is_newest_first(rows, sorted) && out == limited(sorted, limit);
        law_date_order_rearranges(rows, sorted);
        assert(rows.to_multiset().contains(row));
        assert(out == sorted);
    }
}

proof fn lemma_kept_order(
    rows: Seq<SearchResult>,
    source: Option<Seq<char>>,
    handle: Option<Seq<char>>,
    i: int,
    j: int,
) -> (places: (int, int))
    requires
        0 <= i < j < kept(rows, source, handle).len(),
    ensures
        0 <= places.0 < places.1 < rows.len(),
        rows[places.0] == kept(rows, source, handle)[i],
        rows[places.1] == kept(rows, source, handle)[j],
    decreases rows.len(),
{
    let less = rows.drop_last();
    let had = kept(less, source, handle);
    if j < had.len() {
        lemma_kept_order(less, source, handle, i, j)
    } else {
        let k = lemma_kept_fields(less, source, handle, i);
        (k, rows.len() - 1)
    }
}

/// By relevance a refined search keeps the order that the neighbours came in:
/// of two results the first stood before the second.
pub proof fn law_relevance_keeps_the_order(
    rows: Seq<SearchResult>,
    limit: int,
    source: Option<Seq<char>>,
    handle: Option<Seq<char>>,
    out: Seq<SearchResult>,
    i: int,
    j: int,
)
    requires
        0 <= limit,
        is_refined(rows, limit, source, handle, Order::Relevance, out),
        0 <= i < j < out.len(),
    ensures
        exists|p: int, q: int|
            0 <= p < q < rows.len() && #[trigger] rows[p] == out[i] && #[trigger] rows[q] == out[j],
{
    let (p, q) = lemma_kept_order(rows, source, handle, i, j);
    assert(rows[p] == out[i] && rows[q] == out[j]);
}

/// By relevance the first rows are handed out, as many as were asked for.
pub proof fn law_relevance_takes_the_first(
    rows: Seq<SearchResult>,
    limit: int,
    out: Seq<SearchResult>,
    i: int,
)
    requires
        0 <= limit,
        is_ordered(rows, limit, Order::Relevance, out),
    ensures
        out.len() == limit || out.len() == rows.len() < limit,
        0 <= i < out.len() ==> out[i] == rows[i],
{
}

// ---- dates ----

/// Whether one time means a later point than another.
pub open spec fn later(a: OffsetDateTime, b: OffsetDateTime) -> bool {
    let s = a.local.clock_seconds() - a.offset;
    let t = b.local.clock_seconds() - b.offset;
    s > t || (s == t && a.local.nanos > b.local.nanos)
}

/// Rows that were put newest first stand so by the creation times in them: no
/// row is created later than one that stands before it.
pub proof fn law_no_later_row_stands_behind(
    rows: Seq<SearchResult>,
    sorted: Seq<SearchResult>,
    i: int,
    j: int,
    a: OffsetDateTime,
    b: OffsetDateTime,
)
    requires
        is_newest_first(rows, sorted),
        0 <= i < j < sorted.len(),
        rfc3339(sorted[i].created_at@) == Some(a),
        rfc3339(sorted[j].created_at@) == Some(b),
        a.valid() && a.internet() && b.valid() && b.internet(),
    ensures
        !later(b, a),
{
    law_newest_rows_come_first(rows, sorted);
    let keys = choose|keys: Seq<Option<Instant>>| #[trigger]
        keys_fit(sorted, keys) && falling_dates(keys);
    assert(key_fits(sorted[i], keys[i]) && key_fits(sorted[j], keys[j]));
    assert(keys[i] == Some(a.instant()) && keys[j] == Some(b.instant()));
    crate::time::lemma_internet_seconds(a);
    crate::time::lemma_internet_seconds(b);
}

/// A row whose creation time cannot be read stands behind every row whose
/// creation time can be.
pub proof fn law_undated_rows_come_last(
    rows: Seq<SearchResult>,
    sorted: Seq<SearchResult>,
    i: int,
    j: int,
)
    requires
        is_newest_first(rows, sorted),
        0 <= i < j < sorted.len(),
        rfc3339(sorted[i].created_at@) is None,
        naive(sorted[i].created_at@) is None,
    ensures
        rfc3339(sorted[j].created_at@) is None,
{
    law_newest_rows_come_first(rows, sorted);
    let keys = choose|keys: Seq<Option<Instant>>| #[trigger]
        keys_fit(sorted, keys) && falling_dates(keys);
    assert(key_fits(sorted[i], keys[i]) && key_fits(sorted[j], keys[j]));
    assert(keys[i] is None);
    assert(keys[j] is None);
}

/// Where the newest were asked for, none of the rows that were left out is
/// created later than one that is handed out, and rows are left out only to
/// keep the limit.
pub proof fn law_what_is_cut_off_is_not_newer(
    rows: Seq<SearchResult>,
    limit: int,
    out: Seq<SearchResult>,
    i: int,
    row: SearchResult,
    a: OffsetDateTime,
    b: OffsetDateTime,
)
    requires
        0 <= limit,
        is_ordered(rows, limit, Order::DateDesc, out),
        0 <= i < out.len(),
        rows.contains(row),
        !out.contains(row),
        rfc3339(out[i].created_at@) == Some(a),
        rfc3339(row.created_at@) == Some(b),
        a.valid() && a.internet() && b.valid() && b.internet(),
    ensures
        !later(b, a),
        out.len() == limit,
{
    broadcast use vstd::seq_lib::group_to_multiset_ensures;

    let sorted = choose|sorted: Seq<SearchResult>| #[trigger]
        is_newest_first(rows, sorted) && out == limited(sorted, limit);
    law_date_order_rearranges(rows, sorted);
    assert(rows.to_multiset().contains(row));
    assert(sorted.contains(row));
    let j = choose|j: int| 0 <= j < sorted.len() && sorted[j] == row;
    if j < out.len() {
        assert(out[j] == row);
    }
    assert(sorted[i] == out[i]);
    law_no_later_row_stands_behind(rows, sorted, i, j, a, b);
}

/// Of two results that were asked for newest first, the second is not created
/// later than the first.
pub proof fn law_newest_results_come_first(
    rows: Seq<SearchResult>,
    limit: int,
    out: Seq<SearchResult>,
    i: int,
    j: int,
    a: OffsetDateTime,
    b: OffsetDateTime,
)
    requires
        0 <= limit,
        is_ordered(rows, limit, Order::DateDesc, out),
        0 <= i < j < out.len(),
        rfc3339(out[i].created_at@) == Some(a),
        rfc3339(out[j].created_at@) == Some(b),
        a.valid() && a.internet() && b.valid() && b.internet(),
    ensures
        !later(b, a),
{
    let sorted = choose|sorted: Seq<SearchResult>| #[trigger]
        is_newest_first(rows, sorted) && out == limited(sorted, limit);
    assert(sorted[i] == out[i] && sorted[j] == out[j]);
    law_no_later_row_stands_behind(rows, sorted, i, j, a, b);
}

// ---- scores ----

proof fn lemma_with_key_places<T>(
    items: Seq<(i128, T)>,
    key: i128,
    i: int,
    j: int,
) -> (places: (int, int))
    requires
        0 <= i < j < items.len(),
        items[i].0 == key,
        items[j].0 == key,
    ensures
        0 <= places.0 < places.1 < with_key(items, key).len(),
        with_key(items, key)[places.0] == items[i],
        with_key(items, key)[places.1] == items[j],
    decreases items.len(),
{
    let less = items.drop_last();
    if j < items.len() - 1 {
        lemma_with_key_places(less, key, i, j)
    } else {
        let p = lemma_with_key_place(less, key, i);
        (p, with_key(less, key).len() as int)
    }
}

proof fn lemma_with_key_place<T>(items: Seq<(i128, T)>, key: i128, i: int) -> (p: int)
    requires
        0 <= i < items.len(),
        items[i].0 == key,
    ensures
        0 <= p < with_key(items, key).len(),
        with_key(items, key)[p] == items[i],
    decreases items.len(),
{
    let less = items.drop_last();
    if i < items.len() - 1 {
        lemma_with_key_place(less, key, i)
    } else {
        with_key(less, key).len() as int
    }
}

proof fn lemma_with_key_origins<T>(
    items: Seq<(i128, T)>,
    key: i128,
    p: int,
    q: int,
) -> (places: (int, int))
    requires
        0 <= p < q < with_key(items, key).len(),
    ensures
        0 <= places.0 < places.1 < items.len(),
        items[places.0] == with_key(items, key)[p],
        items[places.1] == with_key(items, key)[q],
    decreases items.len(),
{
    let less = items.drop_last();
    if q < with_key(less, key).len() {
        lemma_with_key_origins(less, key, p, q)
    } else {
        let a = lemma_with_key_origin(less, key, p);
        (a, items.len() - 1)
    }
}

proof fn lemma_with_key_origin<T>(items: Seq<(i128, T)>, key: i128, p: int) -> (a: int)
    requires
        0 <= p < with_key(items, key).len(),
    ensures
        0 <= a < items.len(),
        items[a] == with_key(items, key)[p],
    decreases items.len(),
{
    let less = items.drop_last();
    if p < with_key(less, key).len() {
        lemma_with_key_origin(less, key, p)
    } else {
        items.len() - 1
    }
}

/// A ranked candidate is one that was there.
proof fn lemma_ranked_candidate(
    candidates: Seq<Candidate>,
    scores: Seq<Real>,
    i: int,
) -> (a: int)
    requires
        scores.len() == candidates.len(),
        0 <= i < ranking(scored(candidates, scores)).len(),
    ensures
        0 <= a < candidates.len(),
        ranking(scored(candidates, scores))[i] == scored(candidates, scores)[a],
        ranking(scored(candidates, scores)).len() == candidates.len(),
{
    broadcast use vstd::seq_lib::group_to_multiset_ensures;

    let pairs = scored(candidates, scores);
    let ranked = ranking(pairs);
    law_ranking_exists(pairs);
    law_ranking_rearranges(pairs, ranked);
    assert(ranked.contains(ranked[i]));
    assert(pairs.to_multiset().contains(ranked[i]));
    choose|a: int| 0 <= a < pairs.len() && pairs[a] == ranked[i]
}

/// By relevance the scores of the results never rise, and results of one score
/// stand in rising order of their ids.
pub proof fn law_best_scores_come_first(
    candidates: Seq<Candidate>,
    scores: Seq<Real>,
    limit: int,
    out: Seq<SearchResult>,
    i: int,
    j: int,
)
    requires
        scores.len() == candidates.len(),
        rising(candidates),
        forall|k: int| 0 <= k < scores.len() ==> (#[trigger] scores[k]).at_most(scores[k]),
        is_ordered(values(ranking(scored(candidates, scores))), limit, Order::Relevance, out),
        0 <= limit,
        0 <= i < j < out.len(),
    ensures
        ({
            &&& out[i].rrf_score matches Some(first)
            &&& out[j].rrf_score matches Some(second)
            &&& second.at_most(first)
            &&& first.at_most(second) ==> out[i].id < out[j].id
        }),
{
    let pairs = scored(candidates, scores);
    let ranked = ranking(pairs);
    law_ranking_exists(pairs);
    let a = lemma_ranked_candidate(candidates, scores, i);
    let b = lemma_ranked_candidate(candidates, scores, j);
    assert(falling(ranked));
    assert(ranked[i].0 >= ranked[j].0);
    assert(out[i] == ranked[i].1 && out[j] == ranked[j].1);
    assert(out[i] == scored_row(candidates[a], scores[a]));
    assert(out[j] == scored_row(candidates[b], scores[b]));
    assert(scores[a].at_most(scores[a]) && scores[b].at_most(scores[b]));
    if scores[a].at_most(scores[b]) {
        let key = ranked[i].0;
        let (p, q) = lemma_with_key_places(ranked, key, i, j);
        assert(with_key(ranked, key) == with_key(pairs, key));
        let (c, d) = lemma_with_key_origins(pairs, key, p, q);
        assert(candidates[c].row.id < candidates[d].row.id);
    }
}

/// By relevance every candidate is handed out, unless the limit cuts it off,
/// and then no result has a lower score than it.
pub proof fn law_limit_cuts_off_the_lowest_scores(
    candidates: Seq<Candidate>,
    scores: Seq<Real>,
    limit: int,
    out: Seq<SearchResult>,
    k: int,
    i: int,
)
    requires
        scores.len() == candidates.len(),
        forall|k: int| 0 <= k < scores.len() ==> (#[trigger] scores[k]).at_most(scores[k]),
        is_ordered(values(ranking(scored(candidates, scores))), limit, Order::Relevance, out),
        0 <= limit,
        0 <= k < candidates.len(),
        forall|m: int| 0 <= m < out.len() ==> (#[trigger] out[m]).id != candidates[k].row.id,
    ensures
        out.len() == limit,
        0 <= i < out.len() ==> (out[i].rrf_score matches Some(score) && scores[k].at_most(score)),
{
    broadcast use vstd::seq_lib::group_to_multiset_ensures;

    let pairs = scored(candidates, scores);
    let ranked = ranking(pairs);
    law_ranking_exists(pairs);
    law_ranking_rearranges(pairs, ranked);
    assert(pairs.contains(pairs[k]));
    assert(ranked.to_multiset().contains(pairs[k]));
    let m = choose|m: int| 0 <= m < ranked.len() && ranked[m] == pairs[k];
    assert(values(ranked)[m].id == candidates[k].row.id);
    if m < out.len() {
        assert(out[m] == values(ranked)[m]);
    }
    if 0 <= i < out.len() {
        let a = lemma_ranked_candidate(candidates, scores, i);
        assert(falling(ranked));
        assert(ranked[i].0 >= ranked[m].0);
        assert(out[i] == ranked[i].1);
        assert(scores[a].at_most(scores[a]) && scores[k].at_most(scores[k]));
    }
}

/// In whatever order, every candidate is handed out where the limit leaves
/// room, with its own score.
pub proof fn law_room_keeps_every_candidate(
    candidates: Seq<Candidate>,
    scores: Seq<Real>,
    limit: int,
    order: Order,
    out: Seq<SearchResult>,
    k: int,
)
    requires
        scores.len() == candidates.len(),
        is_ordered(values(ranking(scored(candidates, scores))), limit, order, out),
        0 <= limit,
        out.len() < limit,
        0 <= k < candidates.len(),
    ensures
        out.len() == candidates.len(),
        exists|m: int|
            0 <= m < out.len() && (#[trigger] out[m]).id == candidates[k].row.id && out[m].rrf_score
                == Some(scores[k]),
{
    broadcast use vstd::seq_lib::group_to_multiset_ensures;

    let pairs = scored(candidates, scores);
    let ranked = ranking(pairs);
    law_ranking_exists(pairs);
    law_ranking_rearranges(pairs, ranked);
    assert(pairs.contains(pairs[k]));
    assert(ranked.to_multiset().contains(pairs[k]));
    let m = choose|m: int| 0 <= m < ranked.len() && ranked[m] == pairs[k];
    let row = values(ranked)[m];
    assert(values(ranked).contains(row));
    law_room_keeps_every_row(values(ranked), limit, order, out, row);
    let n = choose|n: int| 0 <= n < out.len() && out[n] == row;
    assert(out[n].id == candidates[k].row.id);
}

// ---- what belongs to one post ----

/// A search found a post exactly where one of its rows has the post's id; the
/// row that stands for the post is the first of them.
pub proof fn law_found_posts_have_rows(rows: Seq<SearchResult>, id: i64)
    ensures
        found(rows, id) <==> exists|i: int| 0 <= i < rows.len() && (#[trigger] rows[i]).id == id,
        first_of(rows, id) matches Some(row) ==> exists|i: int|
            0 <= i < rows.len() && #[trigger] rows[i] == row && row.id == id && forall|j: int|
                0 <= j < i ==> (#[trigger] rows[j]).id != id,
    decreases rows.len(),
{
    if rows.len() > 0 {
        let less = rows.drop_last();
        law_found_posts_have_rows(less, id);
        if found(less, id) {
            let row = first_of(less, id)->0;
            let i = choose|i: int|
                0 <= i < less.len() && #[trigger] less[i] == row && row.id == id && forall|j: int|
                    0 <= j < i ==> (#[trigger] less[j]).id != id;
            assert(rows[i] == row);
            assert forall|j: int| 0 <= j < i implies (#[trigger] rows[j]).id != id by {
                assert(rows[j] == less[j]);
            }
        } else {
            assert forall|j: int| 0 <= j < rows.len() - 1 implies (#[trigger] rows[j]).id
                != id by {
                assert(less[j] == rows[j]);
            }
            if rows.last().id == id {
                assert(rows[rows.len() - 1] == rows.last());
            }
        }
    }
}

/// The ranks of a post are the places of its rows, counted from zero, all of
/// them and in rising order.
pub proof fn law_ranks_are_places(rows: Seq<SearchResult>, id: i64)
    requires
        rows.len() <= usize::MAX,
    ensures
        forall|r: usize| #[trigger]
            ranks_of(rows, id).contains(r) <==> r < rows.len() && rows[r as int].id == id,
        forall|i: int, j: int|
            0 <= i < j < ranks_of(rows, id).len() ==> #[trigger] ranks_of(rows, id)[i]
                < #[trigger] ranks_of(rows, id)[j],
    decreases rows.len(),
{
    let ranks = ranks_of(rows, id);
    if rows.len() > 0 {
        let less = rows.drop_last();
        let had = ranks_of(less, id);
        let last = (rows.len() - 1) as usize;
        law_ranks_are_places(less, id);
        assert forall|r: usize| #[trigger]
            ranks.contains(r) <==> r < rows.len() && rows[r as int].id == id by {
            if had.contains(r) {
                let i = choose|i: int| 0 <= i < had.len() && had[i] == r;
                assert(ranks[i] == r);
                assert(less[r as int] == rows[r as int]);
            }
            if ranks.contains(r) && !had.contains(r) {
                let i = choose|i: int| 0 <= i < ranks.len() && ranks[i] == r;
                if i < had.len() {
                    assert(had[i] == r);
                }
            }
            if r < rows.len() && rows[r as int].id == id {
                if r == last {
                    assert(ranks.last() == r);
                } else {
                    assert(less[r as int] == rows[r as int]);
                    assert(had.contains(r));
                }
            }
        }
        assert forall|i: int, j: int| 0 <= i < j < ranks.len() implies #[trigger] ranks[i]
            < #[trigger] ranks[j] by {
            assert(had.contains(had[i]));
            if j < had.len() {
                assert(ranks[j] == had[j]);
            }
        }
    }
}

/// Whether a post has one row in a search, at a place.
pub open spec fn only_row(rows: Seq<SearchResult>, id: i64, at: int) -> bool {
    &&& 0 <= at < rows.len()
    &&& rows[at].id == id
    &&& forall|j: int| 0 <= j < rows.len() && (#[trigger] rows[j]).id == id ==> j == at
}

/// Whether a post has no row in a search.
pub open spec fn no_row(rows: Seq<SearchResult>, id: i64) -> bool {
    forall|j: int| 0 <= j < rows.len() ==> (#[trigger] rows[j]).id != id
}

proof fn lemma_only_row(rows: Seq<SearchResult>, id: i64, at: int)
    requires
        rows.len() <= usize::MAX,
    ensures
        only_row(rows, id, at) ==> first_of(rows, id) == Some(rows[at]) && ranks_of(rows, id)
            == seq![at as usize] && distance_of(rows, id) == rows[at].distance,
        no_row(rows, id) ==> first_of(rows, id) is None && ranks_of(rows, id) == Seq::<
            usize,
        >::empty() && distance_of(rows, id) is None,
    decreases rows.len(),
{
    if rows.len() > 0 {
        let less = rows.drop_last();
        lemma_only_row(less, id, at);
        if no_row(rows, id) {
            assert forall|j: int| 0 <= j < less.len() implies (#[trigger] less[j]).id != id by {
                assert(less[j] == rows[j]);
            }
        }
        if only_row(rows, id, at) {
            if at < less.len() {
                assert(less[at] == rows[at]);
                assert forall|j: int| 0 <= j < less.len() && (#[trigger] less[j]).id
                    == id implies j == at by {
                    assert(less[j] == rows[j]);
                }
                assert(rows[rows.len() - 1].id != id);
            } else {
                assert forall|j: int| 0 <= j < less.len() implies (#[trigger] less[j]).id
                    != id by {
                    assert(less[j] == rows[j]);
                }
                assert(ranks_of(rows, id) =~= seq![at as usize]);
            }
        }
    }
}

/// A candidate that each search found once is scored by its two ranks, one
/// that a single search found by the one; its row is that of the keyword
/// search, or of the semantic one where the keyword search has none.
pub proof fn law_candidates_are_scored_by_their_ranks(
    keyword: Seq<SearchResult>,
    semantic: Seq<SearchResult>,
    c: Candidate,
    a: int,
    b: int,
)
    requires
        candidate_fits(keyword, semantic, c),
        keyword.len() <= usize::MAX,
        semantic.len() <= usize::MAX,
    ensures
        only_row(keyword, c.row.id, a) && only_row(semantic, c.row.id, b) ==> c.ranks@.len() == 2
            && c.ranks@[0] == a && c.ranks@[1] == b && c.row == keyword[a] && c.keyword
            && c.semantic,
        only_row(keyword, c.row.id, a) && no_row(semantic, c.row.id) ==> c.ranks@.len() == 1
            && c.ranks@[0] == a && c.row == keyword[a] && c.keyword && !c.semantic,
        no_row(keyword, c.row.id) && only_row(semantic, c.row.id, b) ==> c.ranks@.len() == 1
            && c.ranks@[0] == b && c.row == semantic[b] && !c.keyword && c.semantic,
{
    lemma_only_row(keyword, c.row.id, a);
    lemma_only_row(semantic, c.row.id, b);
}

/// Every post of the keyword search is a candidate; one that only the semantic
/// search found, in one row, is so exactly where the distance in that row is
/// known and at most the threshold.
pub proof fn law_candidates_match_or_are_near(
    keyword: Seq<SearchResult>,
    semantic: Seq<SearchResult>,
    max_distance: Real,
    candidates: Seq<Candidate>,
    a: int,
    b: int,
)
    requires
        is_selected(keyword, semantic, max_distance, candidates),
        semantic.len() <= usize::MAX,
        keyword.len() <= usize::MAX,
    ensures
        0 <= a < keyword.len() ==> exists|k: int|
            0 <= k < candidates.len() && (#[trigger] candidates[k]).row.id == keyword[a].id,
        0 <= b < semantic.len() && only_row(semantic, semantic[b].id, b) && no_row(
            keyword,
            semantic[b].id,
        ) ==> ((exists|k: int|
            0 <= k < candidates.len() && (#[trigger] candidates[k]).row.id == semantic[b].id) <==> (
        semantic[b].distance matches Some(distance) && distance.at_most(max_distance))),
{
    if 0 <= a < keyword.len() {
        law_keyword_matches_qualify(keyword, semantic, max_distance, candidates, a);
    }
    if 0 <= b < semantic.len() {
        let id = semantic[b].id;
        if only_row(semantic, id, b) && no_row(keyword, id) {
            lemma_only_row(semantic, id, b);
            lemma_only_row(keyword, id, 0);
            if exists|k: int|
                0 <= k < candidates.len() && (#[trigger] candidates[k]).row.id == id {
                let k = choose|k: int|
                    0 <= k < candidates.len() && (#[trigger] candidates[k]).row.id == id;
                assert(candidate_fits(keyword, semantic, candidates[k]));
            }
            if semantic[b].distance matches Some(distance) && distance.at_most(max_distance) {
                assert(qualifies(keyword, semantic, max_distance, id));
                assert(listed(candidates, id));
            }
        }
    }
}

/// Candidates are posts that one of the searches found, each of them once.
pub proof fn law_candidates_were_found(
    keyword: Seq<SearchResult>,
    semantic: Seq<SearchResult>,
    max_distance: Real,
    candidates: Seq<Candidate>,
    k: int,
    m: int,
)
    requires
        is_selected(keyword, semantic, max_distance, candidates),
        0 <= k < m < candidates.len(),
    ensures
        candidates[k].row.id < candidates[m].row.id,
        !(no_row(keyword, candidates[k].row.id) && no_row(semantic, candidates[k].row.id)),
{
    let id = candidates[k].row.id;
    assert(candidate_fits(keyword, semantic, candidates[k]));
    law_found_posts_have_rows(keyword, id);
    law_found_posts_have_rows(semantic, id);
}

/// Without a keyword match, a result is a row of the semantic search whose
/// distance is known and at most the threshold.
pub proof fn law_lone_results_are_near(
    semantic: Seq<SearchResult>,
    max_distance: Real,
    limit: int,
    order: Order,
    out: Seq<SearchResult>,
    i: int,
    k: int,
)
    requires
        0 <= limit,
        is_ordered(
            labelled(near(semantic, max_distance), MatchType::Semantic),
            limit,
            order,
            out,
        ),
    ensures
        0 <= i < out.len() ==> (out[i].distance matches Some(distance) && distance.at_most(
            max_distance,
        )) && out[i].match_type == Some(MatchType::Semantic),
        0 <= k < semantic.len() && out.len() < limit && (semantic[k].distance matches Some(distance)
            && distance.at_most(max_distance)) ==> exists|m: int|
            0 <= m < out.len() && (#[trigger] out[m]).id == semantic[k].id,
{
    if 0 <= i < out.len() {
        assert(out.contains(out[i]));
        law_lone_semantic_matches_need_to_be_close(
            semantic,
            max_distance,
            limit,
            order,
            out,
            out[i],
        );
    }
    if 0 <= k < semantic.len() && out.len() < limit && (semantic[k].distance matches Some(distance)
        && distance.at_most(max_distance)) {
        assert(semantic.contains(semantic[k]));
        law_lone_semantic_matches_need_to_be_close(
            semantic,
            max_distance,
            limit,
            order,
            out,
            semantic[k],
        );
        let label = SearchResult { match_type: Some(MatchType::Semantic), ..semantic[k] };
        let m = choose|m: int| 0 <= m < out.len() && out[m] == label;
        assert(out[m].id == semantic[k].id);
    }
}

/// Rows that are labelled keep everything else, and their order.
pub proof fn law_labels_change_nothing_else(
    rows: Seq<SearchResult>,
    label: MatchType,
    i: int,
)
    requires
        0 <= i < rows.len(),
    ensures
        labelled(rows, label).len() == rows.len(),
        labelled(rows, label)[i] == (SearchResult { match_type: Some(label), ..rows[i] }),
{
}

// ---- pools and statements ----

/// By date twenty rows are drawn for each result; by relevance a filtered
/// semantic search draws five, an unfiltered one just what was asked for, and
/// a hybrid search three from each of its searches.
pub proof fn law_pools_are_multiples(limit: int)
    ensures
        vec_pool(limit, true, Order::DateDesc) == 20 * limit,
        vec_pool(limit, false, Order::DateDesc) == 20 * limit,
        vec_pool(limit, true, Order::Relevance) == 5 * limit,
        vec_pool(limit, false, Order::Relevance) == limit,
        hybrid_pool(limit, Order::DateDesc) == 20 * limit,
        hybrid_pool(limit, Order::Relevance) == 3 * limit,
{
}

/// Taking quotation marks out leaves a text without any as it is.
pub proof fn law_unquoted_text_stays(text: Seq<char>)
    requires
        forall|i: int| 0 <= i < text.len() ==> #[trigger] text[i] != '"',
    ensures
        without_quotes(text) == text,
    decreases text.len(),
{
    if text.len() > 0 {
        let less = text.drop_last();
        assert forall|i: int| 0 <= i < less.len() implies #[trigger] less[i] != '"' by {
            assert(less[i] == text[i]);
        }
        law_unquoted_text_stays(less);
        assert(text[text.len() - 1] != '"');
        assert(less.push(text.last()) =~= text);
    } else {
        assert(text =~= Seq::<char>::empty());
    }
}

/// Taking quotation marks out takes out each of them, wherever it stands, and
/// nothing else.
pub proof fn law_each_quote_is_taken_out(front: Seq<char>, back: Seq<char>)
    ensures
        without_quotes(front + seq!['"'] + back) == without_quotes(front + back),
    decreases back.len(),
{
    let whole = front + seq!['"'] + back;
    if back.len() == 0 {
        assert(whole.drop_last() =~= front);
        assert(front + back =~= front);
    } else {
        law_each_quote_is_taken_out(front, back.drop_last());
        assert(whole.drop_last() =~= front + seq!['"'] + back.drop_last());
        assert((front + back).drop_last() =~= front + back.drop_last());
        assert(whole.last() == back.last() && (front + back).last() == back.last());
    }
}

/// Whether a text holds another.
pub open spec fn holds(text: Seq<char>, part: Seq<char>) -> bool {
    exists|front: Seq<char>, back: Seq<char>| text == #[trigger] (front + part + back)
}

/// The statement of a keyword search matches the query, filters by the source
/// and by the handle where they are asked for, orders by rank or by date, and
/// takes a limit; its parameters are numbered in that order.
pub proof fn law_keyword_statement_filters(has_source: bool, has_handle: bool, order: Order)
    ensures
        ({
            let sql = fts_statement(has_source, has_handle, order);
            &&& has_source ==> holds(sql, " AND p.source = ?2"@)
            &&& has_source && has_handle ==> holds(sql, " AND p.author_handle = ?3"@)
            &&& !has_source && has_handle ==> holds(sql, " AND p.author_handle = ?2"@)
            &&& order == Order::Relevance ==> holds(sql, " ORDER BY fts_posts.rank"@)
            &&& order == Order::DateDesc ==> holds(sql, " ORDER BY p.created_at DESC"@)
            &&& holds(
                sql,
                if has_source && has_handle {
                    " LIMIT ?4"@
                } else if has_source || has_handle {
                    " LIMIT ?3"@
                } else {
                    " LIMIT ?2"@
                },
            )
        }),
{
    let sql = fts_statement(has_source, has_handle, order);
    let none = Seq::<char>::empty();
    let head =
        "SELECT p.id, fts_posts.rank AS bm25_rank, p.uri, p.cid, p.author_did, p.author_handle, p.text, p.created_at, p.source, p.indexed_at FROM fts_posts INNER JOIN posts p ON p.id = fts_posts.rowid WHERE fts_posts MATCH ?1"@;
    let source = if has_source {
        " AND p.source = ?2"@
    } else {
        none
    };
    let handle = if has_handle {
        if has_source {
            " AND p.author_handle = ?3"@
        } else {
            " AND p.author_handle = ?2"@
        }
    } else {
        none
    };
    let by = match order {
        Order::Relevance => " ORDER BY fts_posts.rank"@,
        Order::DateDesc => " ORDER BY p.created_at DESC"@,
    };
    let limit = if has_source && has_handle {
        " LIMIT ?4"@
    } else if has_source || has_handle {
        " LIMIT ?3"@
    } else {
        " LIMIT ?2"@
    };
    assert(sql == head + source + handle + by + limit);
    assert(sql =~= head + source + (handle + by + limit));
    assert(sql =~= (head + source) + handle + (by + limit));
    assert(sql =~= (head + source + handle) + by + limit);
    assert(sql =~= (head + source + handle + by) + limit + none);
}

// ---- ties and cut-offs ----

/// Rows that are put newest first by keys stand so: what has no key comes
/// last, no row is behind one with an earlier key, and rows of one key keep
/// their order.
pub proof fn law_rows_follow_their_keys(
    rows: Seq<SearchResult>,
    keys: Seq<Option<Instant>>,
    sorted: Seq<SearchResult>,
    i: int,
    j: int,
) -> (places: (int, int))
    requires
        keys.len() == rows.len(),
        sorted == newest_first(rows, keys),
        0 <= i < j < sorted.len(),
    ensures
        sorted.len() == rows.len(),
        0 <= places.0 < rows.len(),
        0 <= places.1 < rows.len(),
        rows[places.0] == sorted[i],
        rows[places.1] == sorted[j],
        keys[places.0] is None ==> keys[places.1] is None,
        keys[places.0] matches Some(a) ==> (keys[places.1] matches Some(b) ==> a.seconds > b.seconds
            || (a.seconds == b.seconds && a.nanos >= b.nanos)),
        keys[places.0] == keys[places.1] ==> places.0 < places.1,
{
    broadcast use vstd::seq_lib::group_to_multiset_ensures;

    let pairs = dated(rows, keys);
    let ranked = ranking(pairs);
    law_ranking_exists(pairs);
    law_ranking_rearranges(pairs, ranked);
    assert(falling(ranked));
    assert(ranked[i].0 >= ranked[j].0);
    assert(ranked.contains(ranked[i]) && ranked.contains(ranked[j]));
    assert(pairs.to_multiset().contains(ranked[i]) && pairs.to_multiset().contains(ranked[j]));
    if ranked[i].0 == ranked[j].0 {
        let key = ranked[i].0;
        let (p, q) = lemma_with_key_places(ranked, key, i, j);
        assert(with_key(ranked, key) == with_key(pairs, key));
        lemma_with_key_origins(pairs, key, p, q)
    } else {
        let a = choose|a: int| 0 <= a < pairs.len() && pairs[a] == ranked[i];
        let b = choose|b: int| 0 <= b < pairs.len() && pairs[b] == ranked[j];
        (a, b)
    }
}

/// Rows that were created at one instant keep their order when they are put
/// newest first.
pub proof fn law_one_instant_keeps_the_order(
    rows: Seq<SearchResult>,
    sorted: Seq<SearchResult>,
    i: int,
    j: int,
    a: OffsetDateTime,
    b: OffsetDateTime,
)
    requires
        is_newest_first(rows, sorted),
        0 <= i < j < sorted.len(),
        rfc3339(sorted[i].created_at@) == Some(a),
        rfc3339(sorted[j].created_at@) == Some(b),
        a.valid() && a.internet() && b.valid() && b.internet(),
        !later(a, b) && !later(b, a),
    ensures
        exists|p: int, q: int|
            0 <= p < q < rows.len() && #[trigger] rows[p] == sorted[i] && #[trigger] rows[q]
                == sorted[j],
{
    let keys = choose|keys: Seq<Option<Instant>>|
        keys_fit(rows, keys) && sorted == #[trigger] newest_first(rows, keys);
    let (p, q) = law_rows_follow_their_keys(rows, keys, sorted, i, j);
    assert(key_fits(rows[p], keys[p]) && key_fits(rows[q], keys[q]));
    assert(keys[p] == Some(a.instant()) && keys[q] == Some(b.instant()));
    crate::time::lemma_internet_seconds(a);
    crate::time::lemma_internet_seconds(b);
    assert(a.instant() == b.instant());
}

/// By relevance the limit takes the first of the rows that match: one that is
/// left out stands behind every one that is handed out.
pub proof fn law_relevance_takes_the_first_that_match(
    rows: Seq<SearchResult>,
    limit: int,
    source: Option<Seq<char>>,
    handle: Option<Seq<char>>,
    out: Seq<SearchResult>,
    i: int,
    k: int,
)
    requires
        0 <= limit,
        is_refined(rows, limit, source, handle, Order::Relevance, out),
        0 <= i < out.len(),
        0 <= k < rows.len(),
        handle matches Some(wanted) ==> rows[k].author_handle@ == wanted,
        source matches Some(wanted) ==> rows[k].source@ == wanted,
        !out.contains(rows[k]),
    ensures
        exists|p: int, q: int|
            0 <= p < q < rows.len() && #[trigger] rows[p] == out[i] && #[trigger] rows[q] == rows[k],
        out.len() == limit,
{
    let some = kept(rows, source, handle);
    lemma_kept_holds(rows, source, handle, k);
    let m = choose|m: int| 0 <= m < some.len() && some[m] == rows[k];
    if m < out.len() {
        assert(out[m] == some[m]);
    }
    let (p, q) = lemma_kept_order(rows, source, handle, i, m);
    assert(rows[p] == out[i] && rows[q] == rows[k]);
}

} // verus!
