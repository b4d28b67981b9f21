//! The search pipeline over rows that the database returned: how many to
//! fetch, how keyword and semantic results are merged, and in which order
//! they are handed out.
use vstd::prelude::*;
use vstd::string::StringExecFns;

use crate::models::{created_at_sort_key, fits_sort_key};
use crate::rank::{law_ranking_exists, law_ranking_rearranges, rank, ranking, values};
use crate::text::{blank, chars_of, is_blank, str_eq, string_from_chars};
use crate::time::Instant;

verus! {

/// Which retrieval method or methods contributed to a result.
#[derive(Debug, Clone, Copy, PartialEq, Eq, Structural)]
pub enum MatchType {
    Keyword,
    Semantic,
    KeywordAndSemantic,
}

impl MatchType {
    /// The label of a match type.
    pub open spec fn name(self) -> Seq<char> {
        match self {
            MatchType::Keyword => "keyword"@,
            MatchType::Semantic => "semantic"@,
            MatchType::KeywordAndSemantic => "keyword+semantic"@,
        }
    }

    /// The label of a match type.
    pub fn label(&self) -> (r: &'static str)
        ensures
            r@ == self.name(),
    {
        match self {
            MatchType::Keyword => "keyword",
            MatchType::Semantic => "semantic",
            MatchType::KeywordAndSemantic => "keyword+semantic",
        }
    }
}

/// How results are ranked.
#[derive(Debug, Clone, Copy, PartialEq, Eq, Structural)]
pub enum Order {
    /// Best match first.
    Relevance,
    /// Newest first. This replaces the relevance ranking, so it changes which
    /// posts are returned, not just their order.
    DateDesc,
}

impl Default for Order {
    fn default() -> (r: Order)
        ensures
            r == Order::Relevance,
    {
        Order::Relevance
    }
}

/// A real number, by the bits of its binary64 form.
#[derive(Debug, Clone, Copy, PartialEq, Eq, Structural)]
pub struct Real {
    pub bits: u64,
}

impl Real {
    /// The bits without the sign.
    pub open spec fn magnitude(self) -> int {
        self.bits as int % 0x8000_0000_0000_0000
    }

    /// Whether the bits are those of no number.
    pub open spec fn not_a_number(self) -> bool {
        self.magnitude() > 0x7ff0_0000_0000_0000
    }

    /// An integer that orders numbers as their values do: the magnitude, and
    /// its opposite where the sign is set. Both zeros have the key zero.
    pub open spec fn key(self) -> int {
        if self.bits >= 0x8000_0000_0000_0000 {
            -self.magnitude()
        } else {
            self.magnitude()
        }
    }

    /// Whether a number is at most another; never where either is no number.
    pub open spec fn at_most(self, other: Real) -> bool {
        !self.not_a_number() && !other.not_a_number() && self.key() <= other.key()
    }

    /// The integer that orders the number.
    pub fn order_key(&self) -> (r: i128)
        ensures
            r == self.key(),
    {
        let magnitude: u64 = self.bits % 0x8000_0000_0000_0000;
        if self.bits >= 0x8000_0000_0000_0000 {
            -(magnitude as i128)
        } else {
            magnitude as i128
        }
    }

    /// Whether this number is at most another.
    pub fn le(&self, other: &Real) -> (r: bool)
        ensures
            r == self.at_most(*other),
    {
        let a: u64 = self.bits % 0x8000_0000_0000_0000;
        let b: u64 = other.bits % 0x8000_0000_0000_0000;
        if a > 0x7ff0_0000_0000_0000 || b > 0x7ff0_0000_0000_0000 {
            return false;
        }
        self.order_key() <= other.order_key()
    }
}

/// One row of a search.
#[derive(Debug)]
pub struct SearchResult {
    pub id: i64,
    pub uri: String,
    pub cid: String,
    pub author_did: String,
    pub author_handle: String,
    pub text: String,
    pub created_at: String,
    pub source: String,
    pub indexed_at: String,
    pub distance: Option<Real>,
    pub bm25_rank: Option<Real>,
    pub rrf_score: Option<Real>,
    pub match_type: Option<MatchType>,
}

// ---- how many rows to fetch ----

/// How many candidates are drawn for each requested result when ordering by
/// date.
pub const DATE_ORDER_POOL_MULTIPLIER: usize = 20;

/// How many neighbours a semantic search asks for: more when a filter will
/// drop some of them, and more still when the newest are wanted.
pub open spec fn vec_pool(limit: int, filtered: bool, order: Order) -> int {
    if order == Order::DateDesc {
        limit * DATE_ORDER_POOL_MULTIPLIER
    } else if filtered {
        limit * 5
    } else {
        limit
    }
}

/// How many neighbours a semantic search asks for.
pub fn vec_fetch_limit(limit: usize, filtered: bool, order: Order) -> (r: usize)
    requires
        vec_pool(limit as int, filtered, order) <= usize::MAX,
    ensures
        r == vec_pool(limit as int, filtered, order),
{
    match order {
        Order::DateDesc => limit * DATE_ORDER_POOL_MULTIPLIER,
        Order::Relevance => if filtered {
            limit * 5
        } else {
            limit
        },
    }
}

/// How many rows a hybrid search draws from each of its two searches.
pub open spec fn hybrid_pool(limit: int, order: Order) -> int {
    if order == Order::DateDesc {
        limit * DATE_ORDER_POOL_MULTIPLIER
    } else {
        limit * 3
    }
}

/// How many rows a hybrid search draws from each of its two searches.
pub fn hybrid_fetch_limit(limit: usize, order: Order) -> (r: usize)
    requires
        hybrid_pool(limit as int, order) <= usize::MAX,
    ensures
        r == hybrid_pool(limit as int, order),
{
    match order {
        Order::Relevance => limit * 3,
        Order::DateDesc => limit * DATE_ORDER_POOL_MULTIPLIER,
    }
}

/// The limit and the order that a hybrid search hands to each of its two
/// searches: the whole pool, by relevance whatever order was asked for, since
/// the merge is built on the ranks.
pub fn hybrid_searches(limit: usize, order: Order) -> (r: (usize, Order))
    requires
        hybrid_pool(limit as int, order) <= usize::MAX,
    ensures
        r.0 == hybrid_pool(limit as int, order),
        r.1 == Order::Relevance,
{
    (hybrid_fetch_limit(limit, order), Order::Relevance)
}

/// The limit that bounds nothing.
pub const NO_LIMIT: i64 = -1;

/// How many rows a keyword search asks the database for. By relevance the
/// database ranks the rows, and the limit goes to it. By date it could only
/// compare texts, so it is asked for every match.
pub fn fts_fetch_limit(limit: usize, order: Order) -> (r: i64)
    ensures
        order == Order::DateDesc ==> r == NO_LIMIT,
        order == Order::Relevance ==> r == if limit <= i64::MAX {
            limit as int
        } else {
            NO_LIMIT as int
        },
{
    match order {
        Order::Relevance => if limit as u64 <= 0x7fff_ffff_ffff_ffff {
            limit as i64
        } else {
            NO_LIMIT
        },
        Order::DateDesc => NO_LIMIT,
    }
}

/// A pool is never smaller than what was asked for, and ordering by date never
/// draws from a smaller one than ordering by relevance.
pub proof fn law_pools_cover_the_limit(limit: int, filtered: bool, order: Order)
    requires
        0 <= limit,
    ensures
        vec_pool(limit, filtered, order) >= limit,
        hybrid_pool(limit, order) >= limit,
        vec_pool(limit, filtered, Order::DateDesc) >= vec_pool(limit, filtered, order),
        hybrid_pool(limit, Order::DateDesc) >= hybrid_pool(limit, order),
{
}

// ---- order by date ----

/// An integer that orders sort keys as their instants do; what has none comes
/// below everything.
pub open spec fn date_key(key: Option<Instant>) -> i128 {
    match key {
        None => i128::MIN,
        Some(at) => (at.seconds * 0x1_0000_0000 + at.nanos) as i128,
    }
}

/// Whether one instant lies before another.
pub open spec fn before(a: Instant, b: Instant) -> bool {
    a.seconds < b.seconds || (a.seconds == b.seconds && a.nanos < b.nanos)
}

/// The date order is the order of the instants, and a row that cannot be
/// dated comes below every row that can.
pub proof fn law_date_keys_order_instants(a: Instant, b: Instant)
    ensures
        before(a, b) <==> date_key(Some(a)) < date_key(Some(b)),
        date_key(Some(a)) == date_key(Some(b)) <==> a == b,
        date_key(None) < date_key(Some(a)),
{
}

fn find_date_key(key: &Option<Instant>) -> (r: i128)
    ensures
        r == date_key(*key),
{
    match key {
        None => i128::MIN,
        Some(at) => at.seconds as i128 * 0x1_0000_0000 + at.nanos as i128,
    }
}

/// Rows with the keys they are ordered by.
pub open spec fn dated(rows: Seq<SearchResult>, keys: Seq<Option<Instant>>) -> Seq<
    (i128, SearchResult),
> {
    Seq::new(rows.len(), |i: int| (date_key(keys[i]), rows[i]))
}

/// Rows put newest first by the given keys: rows of one instant keep their
/// order, and rows that cannot be dated come last.
pub open spec fn newest_first(rows: Seq<SearchResult>, keys: Seq<Option<Instant>>) -> Seq<
    SearchResult,
> {
    values(ranking(dated(rows, keys)))
}

/// Whether the keys are those of the rows: each the instant that the stored
/// creation time stands for, in some time zone where it has no offset.
pub open spec fn keys_fit(rows: Seq<SearchResult>, keys: Seq<Option<Instant>>) -> bool {
    &&& keys.len() == rows.len()
    &&& forall|i: int| 0 <= i < rows.len() ==> #[trigger] key_fits(rows[i], keys[i])
}

/// Whether a key is that of a row.
pub open spec fn key_fits(row: SearchResult, key: Option<Instant>) -> bool {
    fits_sort_key(row.created_at@, key)
}

/// Whether rows were put newest first.
pub open spec fn is_newest_first(rows: Seq<SearchResult>, sorted: Seq<SearchResult>) -> bool {
    exists|keys: Seq<Option<Instant>>|
        keys_fit(rows, keys) && sorted == #[trigger] newest_first(rows, keys)
}

/// Turns a list round.
pub(crate) fn reversed<T>(items: Vec<T>) -> (r: Vec<T>)
    ensures
        r@ == items@.reverse(),
{
    let ghost all = items@;
    let mut rest = items;
    let mut turned: Vec<T> = Vec::new();
    while rest.len() > 0
        invariant
            rest@.len() + turned@.len() == all.len(),
            rest@ == all.take(rest@.len() as int),
            forall|i: int| 0 <= i < turned@.len() ==> turned@[i] == all[all.len() - 1 - i],
        decreases rest@.len(),
    {
        let ghost left = rest@;
        let item = rest.pop().unwrap();
        assert(item == all[left.len() - 1]);
        turned.push(item);
        assert(rest@ =~= all.take(rest@.len() as int));
    }
    assert(turned@ =~= all.reverse());
    turned
}

/// Pairs rows with their keys.
fn pair_up(rows: Vec<SearchResult>, keys: &Vec<Option<Instant>>) -> (r: Vec<(i128, SearchResult)>)
    requires
        keys@.len() == rows@.len(),
    ensures
        r@ == dated(rows@, keys@),
{
    let ghost all = rows@;
    let mut rest = reversed(rows);
    let mut pairs: Vec<(i128, SearchResult)> = Vec::new();
    let mut i: usize = 0;
    while i < keys.len()
        invariant
            i <= keys@.len() == all.len(),
            rest@ == all.skip(i as int).reverse(),
            pairs@.len() == i,
            forall|j: int| 0 <= j < i ==> #[trigger] pairs@[j] == (date_key(keys@[j]), all[j]),
        decreases keys@.len() - i,
    {
        assert(rest@.last() == all[i as int]);
        let ghost left = rest@;
        let row = rest.pop().unwrap();
        assert(rest@ =~= all.skip(i + 1).reverse());
        pairs.push((find_date_key(&keys[i]), row));
        i = i + 1;
    }
    assert(pairs@ =~= dated(all, keys@));
    pairs
}

/// Drops the keys.
pub(crate) fn unpair<T>(pairs: Vec<(i128, T)>) -> (r: Vec<T>)
    ensures
        r@ == values(pairs@),
{
    let ghost all = pairs@;
    let mut rest = reversed(pairs);
    let mut items: Vec<T> = Vec::new();
    while rest.len() > 0
        invariant
            rest@.len() + items@.len() == all.len(),
            rest@ == all.skip(items@.len() as int).reverse(),
            forall|j: int| 0 <= j < items@.len() ==> #[trigger] items@[j] == all[j].1,
        decreases rest@.len(),
    {
        assert(rest@.last() == all[items@.len() as int]);
        let ghost done = items@.len() as int;
        let pair = rest.pop().unwrap();
        assert(rest@ =~= all.skip(done + 1).reverse());
        items.push(pair.1);
    }
    assert(items@ =~= values(all));
    items
}

/// Puts rows newest first, by keys that are given.
pub fn order_by_keys(rows: Vec<SearchResult>, keys: &Vec<Option<Instant>>) -> (r: Vec<
    SearchResult,
>)
    requires
        keys@.len() == rows@.len(),
    ensures
        r@ == newest_first(rows@, keys@),
{
    unpair(rank(pair_up(rows, keys)))
}

/// Puts results newest first, in place. Rows that share an instant keep their
/// order; rows whose creation time cannot be read come last.
pub fn sort_by_created_at_desc(results: &mut Vec<SearchResult>)
    ensures
        is_newest_first(old(results)@, final(results)@),
{
    let ghost all = results@;
    let mut keys: Vec<Option<Instant>> = Vec::new();
    let mut i: usize = 0;
    while i < results.len()
        invariant
            i <= results@.len(),
            results@ == all,
            keys@.len() == i,
            forall|j: int| 0 <= j < i ==> #[trigger] key_fits(all[j], keys@[j]),
        decreases results@.len() - i,
    {
        let key = created_at_sort_key(results[i].created_at.as_str());
        assert(key_fits(all[i as int], key));
        keys.push(key);
        i = i + 1;
    }
    let mut rows: Vec<SearchResult> = Vec::new();
    std::mem::swap(&mut rows, results);
    let mut sorted = order_by_keys(rows, &keys);
    std::mem::swap(&mut sorted, results);
    assert(keys_fit(all, keys@));
}

// ---- filters and limits ----

/// Whether a row passes the filters.
pub open spec fn passes(
    row: SearchResult,
    source: Option<Seq<char>>,
    handle: Option<Seq<char>>,
) -> bool {
    &&& source matches Some(wanted) ==> row.source@ == wanted
    &&& handle matches Some(wanted) ==> row.author_handle@ == wanted
}

/// The rows that pass the filters, in their order.
pub open spec fn kept(
    rows: Seq<SearchResult>,
    source: Option<Seq<char>>,
    handle: Option<Seq<char>>,
) -> Seq<SearchResult>
    decreases rows.len(),
{
    if rows.len() == 0 {
        Seq::empty()
    } else if passes(rows.last(), source, handle) {
        kept(rows.drop_last(), source, handle).push(rows.last())
    } else {
        kept(rows.drop_last(), source, handle)
    }
}

/// The first `limit` rows.
pub open spec fn limited(rows: Seq<SearchResult>, limit: int) -> Seq<SearchResult> {
    if rows.len() <= limit {
        rows
    } else {
        rows.take(limit)
    }
}

fn row_passes(row: &SearchResult, source: Option<&str>, handle: Option<&str>) -> (r: bool)
    ensures
        r == passes(*row, crate::json::str_view(source), crate::json::str_view(handle)),
{
    let by_source = match source {
        Some(wanted) => str_eq(row.source.as_str(), wanted),
        None => true,
    };
    let by_handle = match handle {
        Some(wanted) => str_eq(row.author_handle.as_str(), wanted),
        None => true,
    };
    by_source && by_handle
}

fn keep_rows(rows: Vec<SearchResult>, source: Option<&str>, handle: Option<&str>) -> (r: Vec<
    SearchResult,
>)
    ensures
        r@ == kept(rows@, crate::json::str_view(source), crate::json::str_view(handle)),
{
    let ghost all = rows@;
    let ghost by_source = crate::json::str_view(source);
    let ghost by_handle = crate::json::str_view(handle);
    let mut rest = reversed(rows);
    let mut out: Vec<SearchResult> = Vec::new();
    let ghost mut done: int = 0;
    assert(all.take(0) =~= Seq::<SearchResult>::empty());
    assert(out@ =~= kept(all.take(0), by_source, by_handle));
    while rest.len() > 0
        invariant
            by_source == crate::json::str_view(source),
            by_handle == crate::json::str_view(handle),
            0 <= done <= all.len(),
            rest@.len() + done == all.len(),
            rest@ == all.skip(done).reverse(),
            out@ == kept(all.take(done), by_source, by_handle),
        decreases rest@.len(),
    {
        assert(rest@.last() == all[done]);
        let row = rest.pop().unwrap();
        proof {
            assert(rest@ =~= all.skip(done + 1).reverse());
            assert(all.take(done + 1).drop_last() =~= all.take(done));
            assert(all.take(done + 1).last() == all[done]);
            done = done + 1;
        }
        if row_passes(&row, source, handle) {
            out.push(row);
        }
    }
    assert(all.take(done) =~= all);
    out
}

/// What a semantic search makes of the neighbours it was given: the filters
/// are applied, then the order, then the limit.
pub open spec fn is_refined(
    rows: Seq<SearchResult>,
    limit: int,
    source: Option<Seq<char>>,
    handle: Option<Seq<char>>,
    order: Order,
    out: Seq<SearchResult>,
) -> bool {
    is_ordered(kept(rows, source, handle), limit, order, out)
}

/// Whether rows were brought into the order asked for, and cut to the limit.
pub open spec fn is_ordered(
    rows: Seq<SearchResult>,
    limit: int,
    order: Order,
    out: Seq<SearchResult>,
) -> bool {
    match order {
        Order::Relevance => out == limited(rows, limit),
        Order::DateDesc => exists|sorted: Seq<SearchResult>| #[trigger]
            is_newest_first(rows, sorted) && out == limited(sorted, limit),
    }
}

/// Brings rows into the order asked for, and cuts them to the limit.
pub(crate) fn order_rows(rows: Vec<SearchResult>, limit: usize, order: Order) -> (r: Vec<SearchResult>)
    ensures
        is_ordered(rows@, limit as int, order, r@),
{
    let mut out = rows;
    if order == Order::DateDesc {
        sort_by_created_at_desc(&mut out);
        assert(is_newest_first(rows@, out@));
    }
    let ghost sorted = out@;
    out.truncate(limit);
    assert(out@ =~= limited(sorted, limit as int));
    out
}

/// Filters, orders and cuts the neighbours that a semantic search found.
pub fn refine_vec_results(
    rows: Vec<SearchResult>,
    limit: usize,
    source: Option<&str>,
    handle: Option<&str>,
    order: Order,
) -> (r: Vec<SearchResult>)
    ensures
        is_refined(
            rows@,
            limit as int,
            crate::json::str_view(source),
            crate::json::str_view(handle),
            order,
            r@,
        ),
{
    order_rows(keep_rows(rows, source, handle), limit, order)
}

/// Rows put newest first are the same rows, each as often as it was there.
pub proof fn law_date_order_rearranges(rows: Seq<SearchResult>, sorted: Seq<SearchResult>)
    requires
        is_newest_first(rows, sorted),
    ensures
        sorted.to_multiset() == rows.to_multiset(),
        sorted.len() == rows.len(),
{
    let keys = choose|keys: Seq<Option<Instant>>|
        keys_fit(rows, keys) && sorted == #[trigger] newest_first(rows, keys);
    let pairs = dated(rows, keys);
    law_ranking_exists(pairs);
    law_ranking_rearranges(pairs, ranking(pairs));
    lemma_values_rearrange(pairs, ranking(pairs));
    assert(values(pairs) =~= rows);
}

/// Rearranged pairs hold rearranged items.
pub(crate) proof fn lemma_values_rearrange<T>(one: Seq<(i128, T)>, other: Seq<(i128, T)>)
    requires
        one.to_multiset() == other.to_multiset(),
    ensures
        values(one).to_multiset() == values(other).to_multiset(),
    decreases one.len(),
{
    broadcast use vstd::seq_lib::group_to_multiset_ensures;

    assert(one.len() == one.to_multiset().len() && other.len() == other.to_multiset().len());
    if one.len() == 0 {
        assert(values(one) =~= values(other));
    } else {
        let pair = one.last();
        assert(one.contains(pair));
        assert(other.to_multiset().contains(pair));
        let p = choose|p: int| 0 <= p < other.len() && other[p] == pair;
        let less = one.drop_last();
        let rest = other.remove(p);
        assert(one =~= less.push(pair));
        assert(less.to_multiset() =~= one.to_multiset().remove(pair));
        assert(rest.to_multiset() =~= other.to_multiset().remove(pair));
        lemma_values_rearrange(less, rest);
        assert(values(one) =~= values(less).push(pair.1));
        assert(values(rest) =~= values(other).remove(p));
        assert(values(other)[p] == pair.1);
        assert(values(other).to_multiset() =~= values(rest).to_multiset().insert(pair.1));
    }
}

/// Whether sort keys fall: no instant stands behind an earlier one, and none
/// behind a row that cannot be dated.
pub open spec fn falling_dates(keys: Seq<Option<Instant>>) -> bool {
    forall|i: int, j: int|
        0 <= i < j < keys.len() ==> match (#[trigger] keys[i], #[trigger] keys[j]) {
            (Some(a), Some(b)) => !before(a, b),
            (None, key) => key is None,
            (Some(_), None) => true,
        }
}

/// Rows put newest first are dated by falling instants: no row stands behind
/// one that is older, and behind a row that cannot be dated stands none that
/// can.
pub proof fn law_newest_rows_come_first(rows: Seq<SearchResult>, sorted: Seq<SearchResult>)
    requires
        is_newest_first(rows, sorted),
    ensures
        exists|keys: Seq<Option<Instant>>| #[trigger]
            keys_fit(sorted, keys) && falling_dates(keys),
{
    let keys = choose|keys: Seq<Option<Instant>>|
        keys_fit(rows, keys) && sorted == #[trigger] newest_first(rows, keys);
    let pairs = dated(rows, keys);
    let ranked = ranking(pairs);
    law_ranking_exists(pairs);
    law_ranking_rearranges(pairs, ranked);
    let dates = Seq::new(sorted.len(), |i: int| key_of(ranked[i], rows, keys));
    assert forall|i: int| 0 <= i < sorted.len() implies #[trigger] key_fits(sorted[i], dates[i])
        && date_key(dates[i]) == ranked[i].0 by {
        lemma_key_of(rows, keys, ranked, i);
        assert(sorted[i] == ranked[i].1);
    }
    assert(keys_fit(sorted, dates));
    assert forall|i: int, j: int| 0 <= i < j < dates.len() implies match (
        #[trigger] dates[i],
        #[trigger] dates[j],
    ) {
        (Some(a), Some(b)) => !before(a, b),
        (None, key) => key is None,
        (Some(_), None) => true,
    } by {
        assert(key_fits(sorted[i], dates[i]) && key_fits(sorted[j], dates[j]));
        assert(ranked[i].0 >= ranked[j].0);
    }
}

/// Where the newest rows were asked for, the limit cuts off the oldest: what
/// is returned and what is left out make up the given rows, dated by falling
/// instants.
pub proof fn law_limit_keeps_the_newest(rows: Seq<SearchResult>, limit: int, out: Seq<SearchResult>)
    requires
        0 <= limit,
        is_ordered(rows, limit, Order::DateDesc, out),
    ensures
        exists|rest: Seq<SearchResult>, keys: Seq<Option<Instant>>| #[trigger]
            keys_fit(out + rest, keys) && falling_dates(keys) && (out + rest).to_multiset()
                == rows.to_multiset() && (rest.len() > 0 ==> out.len() == limit),
{
    let sorted = choose|sorted: Seq<SearchResult>| #[trigger]
        is_newest_first(rows, sorted) && out == limited(sorted, limit);
    law_newest_rows_come_first(rows, sorted);
    law_date_order_rearranges(rows, sorted);
    let rest = sorted.skip(out.len() as int);
    assert(out + rest =~= sorted);
    let keys = choose|keys: Seq<Option<Instant>>| #[trigger]
        keys_fit(sorted, keys) && falling_dates(keys);
    assert(keys_fit(out + rest, keys));
}

/// The key of a row that was ranked.
spec fn key_of(
    pair: (i128, SearchResult),
    rows: Seq<SearchResult>,
    keys: Seq<Option<Instant>>,
) -> Option<Instant> {
    keys[choose|i: int| 0 <= i < rows.len() && #[trigger] dated(rows, keys)[i] == pair]
}

proof fn lemma_key_of(
    rows: Seq<SearchResult>,
    keys: Seq<Option<Instant>>,
    ranked: Seq<(i128, SearchResult)>,
    i: int,
)
    requires
        keys_fit(rows, keys),
        ranked.to_multiset() == dated(rows, keys).to_multiset(),
        0 <= i < ranked.len(),
    ensures
        key_fits(ranked[i].1, key_of(ranked[i], rows, keys)),
        date_key(key_of(ranked[i], rows, keys)) == ranked[i].0,
{
    broadcast use vstd::seq_lib::group_to_multiset_ensures;

    assert(ranked.contains(ranked[i]));
    assert(dated(rows, keys).to_multiset().contains(ranked[i]));
    assert(dated(rows, keys).contains(ranked[i]));
    let k = choose|k: int| 0 <= k < rows.len() && #[trigger] dated(rows, keys)[k] == ranked[i];
    assert(key_fits(rows[k], keys[k]));
}

/// Rows brought into order and cut are rows that were there, as many as there
/// are or as were asked for.
pub proof fn law_ordered_rows_were_there(
    rows: Seq<SearchResult>,
    limit: int,
    order: Order,
    out: Seq<SearchResult>,
    i: int,
)
    requires
        0 <= limit,
        is_ordered(rows, limit, order, out),
        0 <= i < out.len(),
    ensures
        rows.contains(out[i]),
        out.len() == if rows.len() <= limit {
            rows.len() as int
        } else {
            limit
        },
{
    broadcast use vstd::seq_lib::group_to_multiset_ensures;

    if order == Order::DateDesc {
        let sorted = choose|sorted: Seq<SearchResult>| #[trigger]
            is_newest_first(rows, sorted) && out == limited(sorted, limit);
        law_date_order_rearranges(rows, sorted);
        assert(sorted[i] == out[i]);
        assert(sorted.contains(out[i]));
        assert(rows.to_multiset().contains(out[i]));
    } else {
        assert(rows[i] == out[i]);
    }
}

/// A refined search returns only rows that it was given and that pass the
/// filters, and never more than was asked for.
pub proof fn law_refined_rows_pass(
    rows: Seq<SearchResult>,
    limit: int,
    source: Option<Seq<char>>,
    handle: Option<Seq<char>>,
    order: Order,
    out: Seq<SearchResult>,
    i: int,
)
    requires
        0 <= limit,
        is_refined(rows, limit, source, handle, order, out),
        0 <= i < out.len(),
    ensures
        passes(out[i], source, handle),
        rows.contains(out[i]),
        out.len() <= limit,
{
    let some = kept(rows, source, handle);
    law_ordered_rows_were_there(some, limit, order, out, i);
    lemma_kept(rows, source, handle);
    let k = choose|k: int| 0 <= k < some.len() && some[k] == out[i];
    assert(passes(some[k], source, handle));
}

proof fn lemma_kept(
    rows: Seq<SearchResult>,
    source: Option<Seq<char>>,
    handle: Option<Seq<char>>,
)
    ensures
        forall|i: int|
            0 <= i < kept(rows, source, handle).len() ==> passes(
                #[trigger] kept(rows, source, handle)[i],
                source,
                handle,
            ) && rows.contains(kept(rows, source, handle)[i]),
    decreases rows.len(),
{
    if rows.len() > 0 {
        let rest = rows.drop_last();
        lemma_kept(rest, source, handle);
        let out = kept(rows, source, handle);
        let before = kept(rest, source, handle);
        assert forall|i: int| 0 <= i < out.len() implies passes(#[trigger] out[i], source, handle)
            && rows.contains(out[i]) by {
            if i < before.len() {
                assert(out[i] == before[i]);
                assert(rest.contains(before[i]));
                let j = choose|j: int| 0 <= j < rest.len() && rest[j] == before[i];
                assert(rows[j] == out[i]);
            } else {
                assert(rows[rows.len() - 1] == out[i]);
            }
        }
    }
}

// ---- keyword queries ----

/// A text without quotation marks.
pub open spec fn without_quotes(text: Seq<char>) -> Seq<char>
    decreases text.len(),
{
    if text.len() == 0 {
        Seq::empty()
    } else if text.last() == '"' {
        without_quotes(text.drop_last())
    } else {
        without_quotes(text.drop_last()).push(text.last())
    }
}

/// Whether a keyword query asks for anything.
pub fn query_is_empty(query: &str) -> (r: bool)
    ensures
        r == blank(query@),
{
    is_blank(query)
}

/// The query as a phrase literal, for when the query language refused it: its
/// quotation marks are dropped, and it is put between a pair of them.
pub fn phrase_query(query: &str) -> (r: String)
    ensures
        r@ == seq!['"'] + without_quotes(query@) + seq!['"'],
{
    let chars = chars_of(query);
    let mut out: Vec<char> = Vec::new();
    out.push('"');
    let mut i: usize = 0;
    assert(chars@.take(0) =~= Seq::<char>::empty());
    assert(out@ =~= seq!['"'] + without_quotes(chars@.take(0)));
    while i < chars.len()
        invariant
            i <= chars@.len(),
            out@ == seq!['"'] + without_quotes(chars@.take(i as int)),
        decreases chars@.len() - i,
    {
        let c: char = chars[i];
        assert(chars@.take(i + 1).drop_last() =~= chars@.take(i as int));
        assert(chars@.take(i + 1).last() == c);
        let ghost had = out@;
        if c != '"' {
            out.push(c);
            assert(out@ =~= seq!['"'] + without_quotes(chars@.take(i + 1)));
        }
        i = i + 1;
    }
    assert(chars@.take(i as int) =~= chars@);
    out.push('"');
    assert(out@ =~= seq!['"'] + without_quotes(query@) + seq!['"']);
    string_from_chars(out.as_slice())
}

/// What a keyword search does next.
#[derive(Debug)]
pub enum FtsStep {
    /// The query asks for nothing: there are no results.
    Nothing,
    /// Run a query.
    Run(String),
    /// Give up.
    Fail,
}

/// Decides what a keyword search does, by how many queries failed so far: a
/// query that the query language refuses is tried once more as a phrase.
pub fn fts_step(query: &str, failed: u32) -> (r: FtsStep)
    ensures
        blank(query@) ==> r is Nothing,
        !blank(query@) && failed == 0 ==> (r matches FtsStep::Run(text) && text@ == query@),
        !blank(query@) && failed == 1 ==> (r matches FtsStep::Run(text) && text@ == seq!['"']
            + without_quotes(query@) + seq!['"']),
        !blank(query@) && failed > 1 ==> r is Fail,
{
    if query_is_empty(query) {
        FtsStep::Nothing
    } else if failed == 0 {
        FtsStep::Run(query.to_owned())
    } else if failed == 1 {
        FtsStep::Run(phrase_query(query))
    } else {
        FtsStep::Fail
    }
}

/// A phrase literal holds no quotation mark but the pair around it, so the
/// query language takes it as one phrase.
pub proof fn law_phrase_holds_no_quotes(text: Seq<char>, i: int)
    requires
        0 <= i < without_quotes(text).len(),
    ensures
        without_quotes(text)[i] != '"',
    decreases text.len(),
{
    if text.len() > 0 && i < without_quotes(text.drop_last()).len() {
        law_phrase_holds_no_quotes(text.drop_last(), i);
    }
}

/// The statement of a keyword search: the match, the filters that are set,
/// the order, and the limit, with the parameters numbered in that order.
pub open spec fn fts_statement(has_source: bool, has_handle: bool, order: Order) -> Seq<char> {
    "SELECT p.id, fts_posts.rank AS bm25_rank, p.uri, p.cid, p.author_did, p.author_handle, p.text, p.created_at, p.source, p.indexed_at FROM fts_posts INNER JOIN posts p ON p.id = fts_posts.rowid WHERE fts_posts MATCH ?1"@
        + (if has_source {
        " AND p.source = ?2"@
    } else {
        Seq::empty()
    }) + (if has_handle {
        if has_source {
            " AND p.author_handle = ?3"@
        } else {
            " AND p.author_handle = ?2"@
        }
    } else {
        Seq::empty()
    }) + (match order {
        Order::Relevance => " ORDER BY fts_posts.rank"@,
        Order::DateDesc => " ORDER BY p.created_at DESC"@,
    }) + (if has_source && has_handle {
        " LIMIT ?4"@
    } else if has_source || has_handle {
        " LIMIT ?3"@
    } else {
        " LIMIT ?2"@
    })
}

/// Builds the statement of a keyword search.
pub fn fts_query_sql(has_source: bool, has_handle: bool, order: Order) -> (r: String)
    ensures
        r@ == fts_statement(has_source, has_handle, order),
{
    let mut sql =
        "SELECT p.id, fts_posts.rank AS bm25_rank, p.uri, p.cid, p.author_did, p.author_handle, p.text, p.created_at, p.source, p.indexed_at FROM fts_posts INNER JOIN posts p ON p.id = fts_posts.rowid WHERE fts_posts MATCH ?1".to_owned();
    let ghost mut want = sql@;
    if has_source {
        sql.append(" AND p.source = ?2");
        proof {
            want = want + " AND p.source = ?2"@;
        }
    } else {
        proof {
            want = want + Seq::empty();
        }
        assert(sql@ =~= want);
    }
    if has_handle {
        if has_source {
            sql.append(" AND p.author_handle = ?3");
            proof {
                want = want + " AND p.author_handle = ?3"@;
            }
        } else {
            sql.append(" AND p.author_handle = ?2");
            proof {
                want = want + " AND p.author_handle = ?2"@;
            }
        }
    } else {
        proof {
            want = want + Seq::empty();
        }
        assert(sql@ =~= want);
    }
    match order {
        Order::Relevance => {
            sql.append(" ORDER BY fts_posts.rank");
        },
        Order::DateDesc => {
            sql.append(" ORDER BY p.created_at DESC");
        },
    }
    if has_source && has_handle {
        sql.append(" LIMIT ?4");
    } else if has_source || has_handle {
        sql.append(" LIMIT ?3");
    } else {
        sql.append(" LIMIT ?2");
    }
    sql
}

/// The results of a keyword search, of the rows that the database found: by
/// relevance they come ranked; by date the newest of them are picked here, by
/// their instants.
pub fn order_fts_results(rows: Vec<SearchResult>, limit: usize, order: Order) -> (r: Vec<
    SearchResult,
>)
    ensures
        is_ordered(rows@, limit as int, order, r@),
{
    order_rows(rows, limit, order)
}

} // verus!
