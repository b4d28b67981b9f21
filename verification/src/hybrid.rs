//! The hybrid search: keyword and semantic results merged by reciprocal rank
//! fusion.
//!
//! Each row of either search contributes a share that depends on its rank.
//! The shares are real numbers and are added up by the caller; everything
//! else is decided here: which rows belong together, which of them qualify,
//! and the order in which they are handed out.
use vstd::prelude::*;

use crate::rank::{law_ranking_exists, law_ranking_rearranges, rank, ranking, values};
use crate::search::{
    is_newest_first, is_ordered, law_date_order_rearranges, law_ordered_rows_were_there,
    lemma_values_rearrange, limited, order_rows, reversed, unpair, MatchType, Order, Real, SearchResult,
};

verus! {

// ---- what belongs to one post ----

/// The first row of a post.
pub open spec fn first_of(rows: Seq<SearchResult>, id: i64) -> Option<SearchResult>
    decreases rows.len(),
{
    if rows.len() == 0 {
        None
    } else {
        match first_of(rows.drop_last(), id) {
            Some(row) => Some(row),
            None => if rows.last().id == id {
                Some(rows.last())
            } else {
                None
            },
        }
    }
}

/// The ranks at which a post stands, counted from zero.
pub open spec fn ranks_of(rows: Seq<SearchResult>, id: i64) -> Seq<usize>
    decreases rows.len(),
{
    if rows.len() == 0 {
        Seq::empty()
    } else if rows.last().id == id {
        ranks_of(rows.drop_last(), id).push((rows.len() - 1) as usize)
    } else {
        ranks_of(rows.drop_last(), id)
    }
}

/// The distance of a post: the last one that is given for it.
pub open spec fn distance_of(rows: Seq<SearchResult>, id: i64) -> Option<Real>
    decreases rows.len(),
{
    if rows.len() == 0 {
        None
    } else if rows.last().id == id && rows.last().distance is Some {
        rows.last().distance
    } else {
        distance_of(rows.drop_last(), id)
    }
}

/// Whether a search found a post.
pub open spec fn found(rows: Seq<SearchResult>, id: i64) -> bool {
    first_of(rows, id) is Some
}

/// The row that stands for a post: the keyword search has precedence.
pub open spec fn representative(
    keyword: Seq<SearchResult>,
    semantic: Seq<SearchResult>,
    id: i64,
) -> Option<SearchResult> {
    match first_of(keyword, id) {
        Some(row) => Some(row),
        None => first_of(semantic, id),
    }
}

/// Whether a post qualifies: it matched a keyword, or it is close enough.
pub open spec fn qualifies(
    keyword: Seq<SearchResult>,
    semantic: Seq<SearchResult>,
    max_distance: Real,
    id: i64,
) -> bool {
    ||| found(keyword, id)
    ||| (found(semantic, id) && (distance_of(semantic, id) matches Some(distance)
        && distance.at_most(max_distance)))
}

/// A post that one of the searches found.
#[derive(Debug)]
pub struct Candidate {
    pub row: SearchResult,
    pub keyword: bool,
    pub semantic: bool,
    /// The ranks that contribute to its score, in the order in which their
    /// shares are added: those of the keyword search, then those of the
    /// semantic one.
    pub ranks: Vec<usize>,
    pub distance: Option<Real>,
}

/// Whether a candidate is what two searches say of its post.
pub open spec fn candidate_fits(
    keyword: Seq<SearchResult>,
    semantic: Seq<SearchResult>,
    c: Candidate,
) -> bool {
    let id = c.row.id;
    &&& representative(keyword, semantic, id) == Some(c.row)
    &&& c.keyword == found(keyword, id)
    &&& c.semantic == found(semantic, id)
    &&& c.ranks@ == ranks_of(keyword, id) + ranks_of(semantic, id)
    &&& c.distance == distance_of(semantic, id)
}

/// Whether candidates stand in rising order of their ids.
pub open spec fn rising(candidates: Seq<Candidate>) -> bool {
    forall|i: int, j: int|
        0 <= i < j < candidates.len() ==> (#[trigger] candidates[i]).row.id < (
        #[trigger] candidates[j]).row.id
}

/// Whether a post is among the candidates.
pub open spec fn listed(candidates: Seq<Candidate>, id: i64) -> bool {
    exists|i: int| 0 <= i < candidates.len() && (#[trigger] candidates[i]).row.id == id
}

/// Whether the candidates are exactly the posts that two searches found, one
/// for each, in rising order of their ids.
pub open spec fn is_fused(
    keyword: Seq<SearchResult>,
    semantic: Seq<SearchResult>,
    candidates: Seq<Candidate>,
) -> bool {
    &&& rising(candidates)
    &&& forall|i: int|
        0 <= i < candidates.len() ==> #[trigger] candidate_fits(keyword, semantic, candidates[i])
    &&& forall|id: i64|
        #![trigger listed(candidates, id)]
        found(keyword, id) || found(semantic, id) ==> listed(candidates, id)
}

/// Whether the candidates are exactly the posts that qualify, one for each, in
/// rising order of their ids.
pub open spec fn is_selected(
    keyword: Seq<SearchResult>,
    semantic: Seq<SearchResult>,
    max_distance: Real,
    candidates: Seq<Candidate>,
) -> bool {
    &&& rising(candidates)
    &&& forall|i: int|
        0 <= i < candidates.len() ==> #[trigger] candidate_fits(keyword, semantic, candidates[i])
            && qualifies(keyword, semantic, max_distance, candidates[i].row.id)
    &&& forall|id: i64|
        #![trigger listed(candidates, id)]
        qualifies(keyword, semantic, max_distance, id) ==> listed(candidates, id)
}

// ---- facts about one more row ----

/// What one more row changes: only the facts about its own post.
proof fn lemma_one_more(rows: Seq<SearchResult>, row: SearchResult, id: i64)
    ensures
        first_of(rows.push(row), id) == (match first_of(rows, id) {
            Some(first) => Some(first),
            None => if row.id == id {
                Some(row)
            } else {
                None
            },
        }),
        ranks_of(rows.push(row), id) == if row.id == id {
            ranks_of(rows, id).push(rows.len() as usize)
        } else {
            ranks_of(rows, id)
        },
        distance_of(rows.push(row), id) == if row.id == id && row.distance is Some {
            row.distance
        } else {
            distance_of(rows, id)
        },
{
    assert(rows.push(row).drop_last() =~= rows);
    assert(rows.push(row).last() == row);
}

/// The row of a post has its id.
proof fn lemma_first_has_id(rows: Seq<SearchResult>, id: i64)
    ensures
        first_of(rows, id) matches Some(row) ==> row.id == id,
    decreases rows.len(),
{
    if rows.len() > 0 {
        lemma_first_has_id(rows.drop_last(), id);
    }
}

/// A post that was not found has neither ranks nor a distance.
proof fn lemma_not_found(rows: Seq<SearchResult>, id: i64)
    ensures
        !found(rows, id) ==> ranks_of(rows, id) == Seq::<usize>::empty() && distance_of(rows, id)
            is None,
    decreases rows.len(),
{
    if rows.len() > 0 {
        lemma_not_found(rows.drop_last(), id);
    }
}

/// The first candidate whose id is at least the given one.
fn find_place(candidates: &Vec<Candidate>, id: i64) -> (r: usize)
    requires
        rising(candidates@),
    ensures
        r <= candidates@.len(),
        forall|i: int| 0 <= i < r ==> (#[trigger] candidates@[i]).row.id < id,
        forall|i: int| r <= i < candidates@.len() ==> (#[trigger] candidates@[i]).row.id >= id,
{
    let mut p: usize = 0;
    while p < candidates.len() && candidates[p].row.id < id
        invariant
            p <= candidates@.len(),
            forall|i: int| 0 <= i < p ==> (#[trigger] candidates@[i]).row.id < id,
        decreases candidates@.len() - p,
    {
        p = p + 1;
    }
    proof {
        assert forall|i: int| p <= i < candidates@.len() implies (#[trigger] candidates@[i]).row.id
            >= id by {
            if i > p {
                assert(candidates@[p as int].row.id < candidates@[i].row.id);
            }
        }
    }
    p
}

/// The rows of a search, with one more where it is the search that ranked it.
spec fn with_row(
    rows: Seq<SearchResult>,
    row: SearchResult,
    ranked: bool,
) -> Seq<SearchResult> {
    if ranked {
        rows.push(row)
    } else {
        rows
    }
}

/// A candidate that a row is added to is what the searches then say.
proof fn lemma_fits_with_row(
    keyword: Seq<SearchResult>,
    semantic: Seq<SearchResult>,
    row: SearchResult,
    by_words: bool,
    had: Candidate,
    now: Candidate,
)
    requires
        candidate_fits(keyword, semantic, had),
        had.row.id == row.id,
        by_words ==> semantic.len() == 0,
        now.row == had.row,
        now.keyword == (had.keyword || by_words),
        now.semantic == (had.semantic || !by_words),
        now.ranks@ == had.ranks@.push(
            (if by_words {
                keyword.len()
            } else {
                semantic.len()
            }) as usize,
        ),
        now.distance == if !by_words && row.distance is Some {
            row.distance
        } else {
            had.distance
        },
    ensures
        candidate_fits(
            with_row(keyword, row, by_words),
            with_row(semantic, row, !by_words),
            now,
        ),
{
    let id = row.id;
    lemma_one_more(keyword, row, id);
    lemma_one_more(semantic, row, id);
    assert(now.ranks@ =~= ranks_of(with_row(keyword, row, by_words), id) + ranks_of(
        with_row(semantic, row, !by_words),
        id,
    ));
}

/// A candidate that a row is the first of is what the searches then say.
proof fn lemma_fits_first_row(
    keyword: Seq<SearchResult>,
    semantic: Seq<SearchResult>,
    row: SearchResult,
    by_words: bool,
    now: Candidate,
)
    requires
        !found(keyword, row.id),
        !found(semantic, row.id),
        now.row == row,
        now.keyword == by_words,
        now.semantic == !by_words,
        now.ranks@ == seq![
            (if by_words {
                keyword.len()
            } else {
                semantic.len()
            }) as usize,
        ],
        now.distance == if by_words {
            None
        } else {
            row.distance
        },
    ensures
        candidate_fits(
            with_row(keyword, row, by_words),
            with_row(semantic, row, !by_words),
            now,
        ),
{
    let id = row.id;
    lemma_one_more(keyword, row, id);
    lemma_one_more(semantic, row, id);
    lemma_not_found(keyword, id);
    lemma_not_found(semantic, id);
    assert(now.ranks@ =~= ranks_of(with_row(keyword, row, by_words), id) + ranks_of(
        with_row(semantic, row, !by_words),
        id,
    ));
}

/// Candidates of which one was put right for one more row are the posts that
/// the searches then found.
proof fn lemma_fused_with_row(
    keyword: Seq<SearchResult>,
    semantic: Seq<SearchResult>,
    row: SearchResult,
    by_words: bool,
    had: Seq<Candidate>,
    now: Seq<Candidate>,
    p: int,
)
    requires
        is_fused(keyword, semantic, had),
        rising(now),
        0 <= p < now.len(),
        now[p].row.id == row.id,
        candidate_fits(
            with_row(keyword, row, by_words),
            with_row(semantic, row, !by_words),
            now[p],
        ),
        p < had.len() && now == had.update(p, now[p]) || p <= had.len() && now == had.insert(
            p,
            now[p],
        ),
        p < had.len() && now == had.update(p, now[p]) ==> had[p].row.id == row.id,
    ensures
        is_fused(with_row(keyword, row, by_words), with_row(semantic, row, !by_words), now),
{
    let words = with_row(keyword, row, by_words);
    let senses = with_row(semantic, row, !by_words);
    assert forall|i: int| 0 <= i < now.len() implies #[trigger] candidate_fits(
        words,
        senses,
        now[i],
    ) by {
        if now[i].row.id != row.id {
            let j = if now.len() == had.len() || i < p {
                i
            } else {
                i - 1
            };
            assert(now[i] == had[j]);
            assert(candidate_fits(keyword, semantic, had[j]));
            lemma_one_more(keyword, row, had[j].row.id);
            lemma_one_more(semantic, row, had[j].row.id);
        } else {
            lemma_same_place(now, p, i, row.id);
        }
    }
    assert forall|other: i64|
        #![trigger listed(now, other)]
        found(words, other) || found(senses, other) implies listed(now, other) by {
        lemma_one_more(keyword, row, other);
        lemma_one_more(semantic, row, other);
        if other == row.id {
            assert(now[p].row.id == other);
        } else {
            assert(listed(had, other));
            let i = choose|i: int| 0 <= i < had.len() && (#[trigger] had[i]).row.id == other;
            let j = if now.len() == had.len() || i < p {
                i
            } else {
                i + 1
            };
            assert(now[j].row.id == other);
        }
    }
}

/// Adds the row that a search ranked next: the keyword search, whose rows come
/// first, or the semantic one.
fn add_row(
    candidates: &mut Vec<Candidate>,
    row: SearchResult,
    rank: usize,
    by_words: bool,
    Ghost(keyword): Ghost<Seq<SearchResult>>,
    Ghost(semantic): Ghost<Seq<SearchResult>>,
)
    requires
        is_fused(keyword, semantic, old(candidates)@),
        by_words ==> semantic.len() == 0,
        rank == if by_words {
            keyword.len()
        } else {
            semantic.len()
        },
    ensures
        is_fused(
            with_row(keyword, row, by_words),
            with_row(semantic, row, !by_words),
            final(candidates)@,
        ),
{
    let ghost had = candidates@;
    let p = find_place(candidates, row.id);
    if p < candidates.len() && candidates[p].row.id == row.id {
        candidates[p].ranks.push(rank);
        if by_words {
            candidates[p].keyword = true;
        } else {
            candidates[p].semantic = true;
            if row.distance.is_some() {
                candidates[p].distance = row.distance;
            }
        }
        proof {
            let now = candidates@[p as int];
            assert(candidate_fits(keyword, semantic, had[p as int]));
            lemma_fits_with_row(keyword, semantic, row, by_words, had[p as int], now);
            assert(candidates@ =~= had.update(p as int, now));
        }
    } else {
        let mut ranks: Vec<usize> = Vec::new();
        ranks.push(rank);
        let distance = if by_words {
            None
        } else {
            row.distance
        };
        let c = Candidate { row, keyword: by_words, semantic: !by_words, ranks, distance };
        proof {
            assert forall|i: int| 0 <= i < had.len() implies (#[trigger] had[i]).row.id
                != row.id by {
                if i > p {
                    assert(had[p as int].row.id < had[i].row.id);
                }
            }
            assert(!listed(had, row.id));
            assert(c.ranks@ =~= seq![rank]);
            lemma_fits_first_row(keyword, semantic, row, by_words, c);
        }
        candidates.insert(p, c);
        assert(candidates@ == had.insert(p as int, c));
    }
    proof {
        assert(rising(candidates@));
        lemma_fused_with_row(keyword, semantic, row, by_words, had, candidates@, p as int);
    }
}

/// Ids that rise occur once.
proof fn lemma_same_place(candidates: Seq<Candidate>, p: int, i: int, id: i64)
    requires
        rising(candidates),
        0 <= p < candidates.len(),
        0 <= i < candidates.len(),
        candidates[p].row.id == id,
        candidates[i].row.id == id,
    ensures
        p == i,
{
}

/// Puts the rows of both searches together, by post.
fn fuse(keyword: Vec<SearchResult>, semantic: Vec<SearchResult>) -> (r: Vec<Candidate>)
    ensures
        is_fused(keyword@, semantic@, r@),
{
    let ghost by_words = keyword@;
    let ghost by_sense = semantic@;
    let ghost none = Seq::<SearchResult>::empty();
    let words: usize = keyword.len();
    let senses: usize = semantic.len();
    let mut candidates: Vec<Candidate> = Vec::new();
    let mut rest = reversed(keyword);
    let mut i: usize = 0;
    assert(by_words.take(0) =~= none);
    assert(is_fused(by_words.take(0), none, candidates@));
    while rest.len() > 0
        invariant
            none == Seq::<SearchResult>::empty(),
            i <= by_words.len(),
            rest@.len() + i == by_words.len(),
            by_words.len() == words,
            rest@ == by_words.skip(i as int).reverse(),
            is_fused(by_words.take(i as int), none, candidates@),
        decreases rest@.len(),
    {
        assert(rest@.last() == by_words[i as int]);
        let row = rest.pop().unwrap();
        assert(rest@ =~= by_words.skip(i + 1).reverse());
        add_row(&mut candidates, row, i, true, Ghost(by_words.take(i as int)), Ghost(none));
        assert(by_words.take(i as int).push(row) =~= by_words.take(i + 1));
        i = i + 1;
    }
    assert(by_words.take(i as int) =~= by_words);
    let mut rest = reversed(semantic);
    let mut j: usize = 0;
    assert(by_sense.take(0) =~= none);
    while rest.len() > 0
        invariant
            j <= by_sense.len(),
            rest@.len() + j == by_sense.len(),
            by_sense.len() == senses,
            rest@ == by_sense.skip(j as int).reverse(),
            is_fused(by_words, by_sense.take(j as int), candidates@),
        decreases rest@.len(),
    {
        assert(rest@.last() == by_sense[j as int]);
        let row = rest.pop().unwrap();
        assert(rest@ =~= by_sense.skip(j + 1).reverse());
        add_row(
            &mut candidates,
            row,
            j,
            false,
            Ghost(by_words),
            Ghost(by_sense.take(j as int)),
        );
        assert(by_sense.take(j as int).push(row) =~= by_sense.take(j + 1));
        j = j + 1;
    }
    assert(by_sense.take(j as int) =~= by_sense);
    candidates
}

/// Keeps the candidates that matched a keyword or are close enough.
fn select(candidates: Vec<Candidate>, max_distance: Real, Ghost(keyword): Ghost<
    Seq<SearchResult>,
>, Ghost(semantic): Ghost<Seq<SearchResult>>) -> (r: Vec<Candidate>)
    requires
        is_fused(keyword, semantic, candidates@),
    ensures
        is_selected(keyword, semantic, max_distance, r@),
{
    let ghost all = candidates@;
    let mut rest = reversed(candidates);
    let mut out: Vec<Candidate> = Vec::new();
    let ghost mut done: int = 0;
    while rest.len() > 0
        invariant
            is_fused(keyword, semantic, all),
            0 <= done <= all.len(),
            rest@.len() + done == all.len(),
            rest@ == all.skip(done).reverse(),
            rising(out@),
            forall|i: int|
                0 <= i < out@.len() ==> #[trigger] candidate_fits(keyword, semantic, out@[i])
                    && qualifies(keyword, semantic, max_distance, out@[i].row.id),
            forall|i: int| 0 <= i < out@.len() && done < all.len() ==> (#[trigger] out@[i]).row.id
                < all[done].row.id,
            forall|k: int|
                0 <= k < done && qualifies(
                    keyword,
                    semantic,
                    max_distance,
                    (#[trigger] all[k]).row.id,
                ) ==> listed(out@, all[k].row.id),
        decreases rest@.len(),
    {
        assert(rest@.last() == all[done]);
        let c = rest.pop().unwrap();
        assert(rest@ =~= all.skip(done + 1).reverse());
        assert(candidate_fits(keyword, semantic, all[done]));
        let near = match c.distance {
            Some(distance) => distance.le(&max_distance),
            None => false,
        };
        let ghost had = out@;
        if c.keyword || (c.semantic && near) {
            assert(qualifies(keyword, semantic, max_distance, c.row.id));
            out.push(c);
            assert(out@.last().row.id == all[done].row.id);
            assert(listed(out@, all[done].row.id)) by {
                assert(out@[out@.len() - 1].row.id == all[done].row.id);
            }
        }
        proof {
            assert forall|i: int| 0 <= i < out@.len() implies #[trigger] candidate_fits(
                keyword,
                semantic,
                out@[i],
            ) && qualifies(keyword, semantic, max_distance, out@[i].row.id) by {
                if i < had.len() {
                    assert(candidate_fits(keyword, semantic, had[i]));
                }
            }
            assert forall|k: int|
                0 <= k < done + 1 && qualifies(
                    keyword,
                    semantic,
                    max_distance,
                    (#[trigger] all[k]).row.id,
                ) implies listed(out@, all[k].row.id) by {
                if k < done {
                    assert(listed(had, all[k].row.id));
                    let i = choose|i: int|
                        0 <= i < had.len() && (#[trigger] had[i]).row.id == all[k].row.id;
                    assert(out@[i].row.id == all[k].row.id);
                }
            }
            assert forall|i: int| 0 <= i < out@.len() && done + 1 < all.len() implies (
            #[trigger] out@[i]).row.id < all[done + 1].row.id by {
                assert(all[done].row.id < all[done + 1].row.id);
                if i < had.len() {
                    assert(out@[i] == had[i]);
                }
            }
            done = done + 1;
        }
    }
    proof {
        assert forall|id: i64|
            #![trigger listed(out@, id)]
            qualifies(keyword, semantic, max_distance, id) implies listed(out@, id) by {
            assert(found(keyword, id) || found(semantic, id));
            assert(listed(all, id));
            let k = choose|k: int| 0 <= k < all.len() && (#[trigger] all[k]).row.id == id;
            assert(qualifies(keyword, semantic, max_distance, all[k].row.id));
        }
    }
    out
}

// ---- the search ----

/// Whether a row lies within a distance; one whose distance is unknown does
/// not.
pub open spec fn is_near(row: SearchResult, max_distance: Real) -> bool {
    row.distance matches Some(distance) && distance.at_most(max_distance)
}

/// The rows that lie within a distance, in their order.
pub open spec fn near(rows: Seq<SearchResult>, max_distance: Real) -> Seq<SearchResult>
    decreases rows.len(),
{
    if rows.len() == 0 {
        Seq::empty()
    } else if is_near(rows.last(), max_distance) {
        near(rows.drop_last(), max_distance).push(rows.last())
    } else {
        near(rows.drop_last(), max_distance)
    }
}

fn keep_near(rows: Vec<SearchResult>, max_distance: Real) -> (r: Vec<SearchResult>)
    ensures
        r@ == near(rows@, max_distance),
{
    let ghost all = rows@;
    let mut rest = reversed(rows);
    let mut out: Vec<SearchResult> = Vec::new();
    let ghost mut done: int = 0;
    assert(all.take(0) =~= Seq::<SearchResult>::empty());
    assert(out@ =~= near(all.take(0), max_distance));
    while rest.len() > 0
        invariant
            0 <= done <= all.len(),
            rest@.len() + done == all.len(),
            rest@ == all.skip(done).reverse(),
            out@ == near(all.take(done), max_distance),
        decreases rest@.len(),
    {
        assert(rest@.last() == all[done]);
        let row = rest.pop().unwrap();
        proof {
            assert(rest@ =~= all.skip(done + 1).reverse());
            assert(all.take(done + 1).drop_last() =~= all.take(done));
            assert(all.take(done + 1).last() == all[done]);
            done = done + 1;
        }
        let close = match &row.distance {
            Some(distance) => distance.le(&max_distance),
            None => false,
        };
        if close {
            out.push(row);
        }
    }
    assert(all.take(done) =~= all);
    out
}

/// Rows with one label.
pub open spec fn labelled(rows: Seq<SearchResult>, label: MatchType) -> Seq<SearchResult> {
    Seq::new(rows.len(), |i: int| SearchResult { match_type: Some(label), ..rows[i] })
}

fn label_rows(rows: Vec<SearchResult>, label: MatchType) -> (r: Vec<SearchResult>)
    ensures
        r@ == labelled(rows@, label),
{
    let mut out = rows;
    let mut i: usize = 0;
    while i < out.len()
        invariant
            i <= out@.len() == rows@.len(),
            forall|j: int|
                0 <= j < i ==> #[trigger] out@[j] == (SearchResult {
                    match_type: Some(label),
                    ..rows@[j]
                }),
            forall|j: int| i <= j < out@.len() ==> #[trigger] out@[j] == rows@[j],
        decreases out@.len() - i,
    {
        out[i].match_type = Some(label);
        i = i + 1;
    }
    assert(out@ =~= labelled(rows@, label));
    out
}

/// What becomes of the results of the two searches.
#[derive(Debug)]
pub enum HybridStep {
    /// At most one of the searches found anything: these are the results.
    Done(Vec<SearchResult>),
    /// These posts are to be scored.
    Score(Vec<Candidate>),
}

/// Merges the results of a keyword and a semantic search. Where only the
/// keyword search found anything, its rows are handed out in the order asked
/// for; where only the semantic search did, those of its rows are that lie
/// within the threshold; where both did, the posts that qualify are to be
/// scored.
pub fn merge_hybrid(
    keyword: Vec<SearchResult>,
    semantic: Vec<SearchResult>,
    limit: usize,
    max_distance: Real,
    order: Order,
) -> (r: HybridStep)
    ensures
        keyword@.len() == 0 && semantic@.len() == 0 ==> (r matches HybridStep::Done(out)
            && out@.len() == 0),
        keyword@.len() == 0 && semantic@.len() > 0 ==> (r matches HybridStep::Done(out)
            && is_ordered(
            labelled(near(semantic@, max_distance), MatchType::Semantic),
            limit as int,
            order,
            out@,
        )),
        keyword@.len() > 0 && semantic@.len() == 0 ==> (r matches HybridStep::Done(out)
            && is_ordered(labelled(keyword@, MatchType::Keyword), limit as int, order, out@)),
        keyword@.len() > 0 && semantic@.len() > 0 ==> (r matches HybridStep::Score(candidates)
            && is_selected(keyword@, semantic@, max_distance, candidates@)),
{
    if keyword.len() == 0 {
        if semantic.len() == 0 {
            return HybridStep::Done(Vec::new());
        }
        let rows = label_rows(keep_near(semantic, max_distance), MatchType::Semantic);
        return HybridStep::Done(order_rows(rows, limit, order));
    }
    if semantic.len() == 0 {
        let rows = label_rows(keyword, MatchType::Keyword);
        return HybridStep::Done(order_rows(rows, limit, order));
    }
    let ghost by_words = keyword@;
    let ghost by_sense = semantic@;
    let candidates = fuse(keyword, semantic);
    HybridStep::Score(select(candidates, max_distance, Ghost(by_words), Ghost(by_sense)))
}

/// The label of a candidate.
pub open spec fn candidate_label(c: Candidate) -> MatchType {
    if c.keyword && c.semantic {
        MatchType::KeywordAndSemantic
    } else if c.keyword {
        MatchType::Keyword
    } else {
        MatchType::Semantic
    }
}

/// The row of a candidate with its score and its label.
pub open spec fn scored_row(c: Candidate, score: Real) -> SearchResult {
    SearchResult { rrf_score: Some(score), match_type: Some(candidate_label(c)), ..c.row }
}

/// The rows of candidates, with the keys they are ranked by.
pub open spec fn scored(candidates: Seq<Candidate>, scores: Seq<Real>) -> Seq<
    (i128, SearchResult),
> {
    Seq::new(
        candidates.len(),
        |i: int| (scores[i].key() as i128, scored_row(candidates[i], scores[i])),
    )
}

/// Hands out scored candidates, best score first and equal scores in rising
/// order of their ids; or the newest of them first, where that was asked for.
pub fn rank_candidates(
    candidates: Vec<Candidate>,
    scores: &Vec<Real>,
    limit: usize,
    order: Order,
) -> (r: Vec<SearchResult>)
    requires
        scores@.len() == candidates@.len(),
        forall|i: int| 0 <= i < scores@.len() ==> !(#[trigger] scores@[i]).not_a_number(),
        forall|i: int|
            0 <= i < candidates@.len() ==> (#[trigger] candidates@[i]).keyword
                || candidates@[i].semantic,
    ensures
        is_ordered(values(ranking(scored(candidates@, scores@))), limit as int, order, r@),
{
    let ghost all = candidates@;
    let mut rest = reversed(candidates);
    let mut pairs: Vec<(i128, SearchResult)> = Vec::new();
    let mut i: usize = 0;
    while i < scores.len()
        invariant
            i <= scores@.len() == all.len(),
            rest@ == all.skip(i as int).reverse(),
            pairs@.len() == i,
            forall|j: int| 0 <= j < i ==> #[trigger] pairs@[j] == scored(all, scores@)[j],
        decreases scores@.len() - i,
    {
        assert(rest@.last() == all[i as int]);
        let c = rest.pop().unwrap();
        assert(rest@ =~= all.skip(i + 1).reverse());
        let score = scores[i];
        let label = if c.keyword && c.semantic {
            MatchType::KeywordAndSemantic
        } else if c.keyword {
            MatchType::Keyword
        } else {
            MatchType::Semantic
        };
        let mut row = c.row;
        row.rrf_score = Some(score);
        row.match_type = Some(label);
        pairs.push((score.order_key(), row));
        i = i + 1;
    }
    assert(pairs@ =~= scored(all, scores@));
    order_rows(unpair(rank(pairs)), limit, order)
}

/// However many rows the two searches found of it, a post is handed out at
/// most once.
pub proof fn law_each_post_is_handed_out_once(
    candidates: Seq<Candidate>,
    scores: Seq<Real>,
    limit: int,
    order: Order,
    out: Seq<SearchResult>,
    i: int,
    j: int,
)
    requires
        rising(candidates),
        is_ordered(values(ranking(scored(candidates, scores))), limit, order, out),
        0 <= limit,
        0 <= i < j < out.len(),
    ensures
        out[i].id != out[j].id,
{
    broadcast use vstd::seq_lib::group_to_multiset_ensures;

    let pairs = scored(candidates, scores);
    let rows = values(pairs);
    let ranked = values(ranking(pairs));
    law_ranking_exists(pairs);
    law_ranking_rearranges(pairs, ranking(pairs));
    lemma_values_rearrange(ranking(pairs), pairs);
    let sorted = if order == Order::DateDesc {
        choose|sorted: Seq<SearchResult>| #[trigger]
            is_newest_first(ranked, sorted) && out == limited(sorted, limit)
    } else {
        ranked
    };
    if order == Order::DateDesc {
        law_date_order_rearranges(ranked, sorted);
    }
    assert(sorted.to_multiset() == rows.to_multiset());
    assert forall|a: int, b: int| 0 <= a < rows.len() && 0 <= b < rows.len() && a != b implies rows[a]
        != rows[b] by {
        assert(rows[a].id == candidates[a].row.id && rows[b].id == candidates[b].row.id);
    }
    rows.lemma_multiset_has_no_duplicates();
    sorted.lemma_multiset_has_no_duplicates_conv();
    assert(sorted[i] == out[i] && sorted[j] == out[j]);
    assert(sorted.contains(sorted[i]) && sorted.contains(sorted[j]));
    assert(rows.to_multiset().contains(sorted[i]) && rows.to_multiset().contains(sorted[j]));
    let a = choose|a: int| 0 <= a < rows.len() && rows[a] == sorted[i];
    let b = choose|b: int| 0 <= b < rows.len() && rows[b] == sorted[j];
    assert(rows[a].id == candidates[a].row.id && rows[b].id == candidates[b].row.id);
}

/// A keyword match always qualifies, however far away it is.
pub proof fn law_keyword_matches_qualify(
    keyword: Seq<SearchResult>,
    semantic: Seq<SearchResult>,
    max_distance: Real,
    candidates: Seq<Candidate>,
    i: int,
)
    requires
        is_selected(keyword, semantic, max_distance, candidates),
        0 <= i < keyword.len(),
    ensures
        listed(candidates, keyword[i].id),
{
    lemma_row_is_found(keyword, i);
    assert(qualifies(keyword, semantic, max_distance, keyword[i].id));
}

/// A row is found under its id.
proof fn lemma_row_is_found(rows: Seq<SearchResult>, i: int)
    requires
        0 <= i < rows.len(),
    ensures
        found(rows, rows[i].id),
    decreases rows.len(),
{
    if i < rows.len() - 1 {
        lemma_row_is_found(rows.drop_last(), i);
    }
}

/// The rows within a distance are those of all rows whose distance is known
/// and at most that, and no others.
proof fn lemma_near(rows: Seq<SearchResult>, max_distance: Real, row: SearchResult)
    ensures
        near(rows, max_distance).contains(row) <==> rows.contains(row) && is_near(
            row,
            max_distance,
        ),
    decreases rows.len(),
{
    let some = near(rows, max_distance);
    if rows.len() > 0 {
        let less = rows.drop_last();
        let had = near(less, max_distance);
        lemma_near(less, max_distance, row);
        if had.contains(row) {
            let i = choose|i: int| 0 <= i < had.len() && had[i] == row;
            assert(some[i] == row);
        }
        if less.contains(row) {
            let i = choose|i: int| 0 <= i < less.len() && less[i] == row;
            assert(rows[i] == row);
        }
        if rows.contains(row) && !less.contains(row) {
            let i = choose|i: int| 0 <= i < rows.len() && rows[i] == row;
            if i < rows.len() - 1 {
                assert(less[i] == row);
            }
            if is_near(row, max_distance) {
                assert(some.last() == row);
            }
        }
        if some.contains(row) && !had.contains(row) {
            let i = choose|i: int| 0 <= i < some.len() && some[i] == row;
            if i < had.len() {
                assert(had[i] == row);
            }
            assert(rows[rows.len() - 1] == row);
        }
    }
}

/// Where the keyword search found nothing, every result is a row of the
/// semantic search, labelled so, whose distance is known and at most the
/// threshold; and where the limit leaves room, every such row is a result.
pub proof fn law_lone_semantic_matches_need_to_be_close(
    semantic: Seq<SearchResult>,
    max_distance: Real,
    limit: int,
    order: Order,
    out: Seq<SearchResult>,
    row: SearchResult,
)
    requires
        0 <= limit,
        is_ordered(
            labelled(near(semantic, max_distance), MatchType::Semantic),
            limit,
            order,
            out,
        ),
    ensures
        out.contains(row) ==> is_near(row, max_distance) && row.match_type == Some(
            MatchType::Semantic,
        ) && exists|k: int|
            0 <= k < semantic.len() && row == (SearchResult {
                match_type: Some(MatchType::Semantic),
                ..#[trigger] semantic[k]
            }),
        out.len() < limit && semantic.contains(row) && is_near(row, max_distance) ==> out.contains(
            SearchResult { match_type: Some(MatchType::Semantic), ..row },
        ),
{
    broadcast use vstd::seq_lib::group_to_multiset_ensures;

    let some = near(semantic, max_distance);
    let rows = labelled(some, MatchType::Semantic);
    if out.contains(row) {
        let i = choose|i: int| 0 <= i < out.len() && out[i] == row;
        law_ordered_rows_were_there(rows, limit, order, out, i);
        let k = choose|k: int| 0 <= k < rows.len() && rows[k] == row;
        lemma_near(semantic, max_distance, some[k]);
        assert(some.contains(some[k]));
        let m = choose|m: int| 0 <= m < semantic.len() && semantic[m] == some[k];
        assert(row == (SearchResult { match_type: Some(MatchType::Semantic), ..semantic[m] }));
    }
    if out.len() < limit && semantic.contains(row) && is_near(row, max_distance) {
        lemma_near(semantic, max_distance, row);
        let k = choose|k: int| 0 <= k < some.len() && some[k] == row;
        let label = SearchResult { match_type: Some(MatchType::Semantic), ..row };
        assert(rows[k] == label);
        assert(rows.contains(label));
        if order == Order::DateDesc {
            let sorted = choose|sorted: Seq<SearchResult>| #[trigger]
                is_newest_first(rows, sorted) && out == limited(sorted, limit);
            law_date_order_rearranges(rows, sorted);
            assert(out == sorted);
            assert(rows.to_multiset().contains(label));
        } else {
            assert(out == rows);
        }
    }
}

/// A post that only the semantic search found is handed out exactly where its
/// distance is known and at most the threshold, where the keyword search found
/// other posts.
pub proof fn law_semantic_matches_need_to_be_close(
    keyword: Seq<SearchResult>,
    semantic: Seq<SearchResult>,
    max_distance: Real,
    candidates: Seq<Candidate>,
    id: i64,
)
    requires
        is_selected(keyword, semantic, max_distance, candidates),
        found(semantic, id),
        !found(keyword, id),
    ensures
        listed(candidates, id) <==> (distance_of(semantic, id) matches Some(distance)
            && distance.at_most(max_distance)),
{
    if listed(candidates, id) {
        let i = choose|i: int| 0 <= i < candidates.len() && (#[trigger] candidates[i]).row.id == id;
        assert(candidate_fits(keyword, semantic, candidates[i]));
    }
    if qualifies(keyword, semantic, max_distance, id) {
        assert(listed(candidates, id));
    }
}

/// Every candidate has a rank to be scored by, and its label says which of
/// the searches found it.
pub proof fn law_candidates_can_be_scored(
    keyword: Seq<SearchResult>,
    semantic: Seq<SearchResult>,
    max_distance: Real,
    candidates: Seq<Candidate>,
    i: int,
)
    requires
        is_selected(keyword, semantic, max_distance, candidates),
        0 <= i < candidates.len(),
    ensures
        candidates[i].ranks@.len() > 0,
        candidates[i].keyword || candidates[i].semantic,
        candidate_label(candidates[i]) == MatchType::KeywordAndSemantic <==> found(
            keyword,
            candidates[i].row.id,
        ) && found(semantic, candidates[i].row.id),
{
    assert(candidate_fits(keyword, semantic, candidates[i]));
    lemma_found_has_rank(keyword, candidates[i].row.id);
    lemma_found_has_rank(semantic, candidates[i].row.id);
}

/// A result is the row of its post in the keyword search, or the one in the
/// semantic search where the keyword search did not find the post, with a
/// score, and with a label that says which of the searches found the post.
pub proof fn law_results_say_where_they_were_found(
    keyword: Seq<SearchResult>,
    semantic: Seq<SearchResult>,
    max_distance: Real,
    candidates: Seq<Candidate>,
    scores: Seq<Real>,
    limit: int,
    order: Order,
    out: Seq<SearchResult>,
    i: int,
)
    requires
        is_selected(keyword, semantic, max_distance, candidates),
        scores.len() == candidates.len(),
        is_ordered(values(ranking(scored(candidates, scores))), limit, order, out),
        0 <= limit,
        0 <= i < out.len(),
    ensures
        out[i].match_type == Some(MatchType::KeywordAndSemantic) <==> found(keyword, out[i].id)
            && found(semantic, out[i].id),
        out[i].match_type == Some(MatchType::Keyword) <==> found(keyword, out[i].id) && !found(
            semantic,
            out[i].id,
        ),
        out[i].match_type == Some(MatchType::Semantic) <==> !found(keyword, out[i].id) && found(
            semantic,
            out[i].id,
        ),
        representative(keyword, semantic, out[i].id) matches Some(row) && out[i] == (SearchResult {
            rrf_score: out[i].rrf_score,
            match_type: out[i].match_type,
            ..row
        }),
        exists|k: int|
            0 <= k < candidates.len() && (#[trigger] candidates[k]).row.id == out[i].id
                && out[i].rrf_score == Some(scores[k]),
{
    broadcast use vstd::seq_lib::group_to_multiset_ensures;

    let pairs = scored(candidates, scores);
    let ranked = values(ranking(pairs));
    law_ranking_exists(pairs);
    law_ranking_rearranges(pairs, ranking(pairs));
    lemma_values_rearrange(ranking(pairs), pairs);
    law_ordered_rows_were_there(ranked, limit, order, out, i);
    assert(values(pairs).to_multiset().contains(out[i]));
    let k = choose|k: int| 0 <= k < values(pairs).len() && values(pairs)[k] == out[i];
    assert(out[i] == scored_row(candidates[k], scores[k]));
    assert(candidate_fits(keyword, semantic, candidates[k]));
    law_candidates_can_be_scored(keyword, semantic, max_distance, candidates, k);
}

proof fn lemma_found_has_rank(rows: Seq<SearchResult>, id: i64)
    ensures
        found(rows, id) ==> ranks_of(rows, id).len() > 0,
    decreases rows.len(),
{
    if rows.len() > 0 {
        lemma_found_has_rank(rows.drop_last(), id);
    }
}

} // verus!
