//! Stable ranking: items put in falling order of a key, equals left in the
//! order they came in.
use vstd::prelude::*;

verus! {

/// The items with one key, in their order.
pub open spec fn with_key<T>(items: Seq<(i128, T)>, key: i128) -> Seq<(i128, T)>
    decreases items.len(),
{
    if items.len() == 0 {
        Seq::empty()
    } else if items.last().0 == key {
        with_key(items.drop_last(), key).push(items.last())
    } else {
        with_key(items.drop_last(), key)
    }
}

/// Whether items stand in falling order of their keys.
pub open spec fn falling<T>(items: Seq<(i128, T)>) -> bool {
    forall|i: int, j: int|
        0 <= i < j < items.len() ==> (#[trigger] items[i]).0 >= (#[trigger] items[j]).0
}

/// Whether `after` is `before` put in falling order, with the items of each
/// key in the order they had.
pub open spec fn is_ranking<T>(before: Seq<(i128, T)>, after: Seq<(i128, T)>) -> bool {
    &&& falling(after)
    &&& forall|key: i128| #[trigger] with_key(after, key) == with_key(before, key)
}

/// The items put in falling order of their keys, equals in the order they
/// had.
pub open spec fn ranking<T>(items: Seq<(i128, T)>) -> Seq<(i128, T)> {
    choose|after: Seq<(i128, T)>| is_ranking(items, after)
}

/// The items without their keys.
pub open spec fn values<T>(items: Seq<(i128, T)>) -> Seq<T> {
    Seq::new(items.len(), |i: int| items[i].1)
}

proof fn lemma_with_key_add<T>(a: Seq<(i128, T)>, b: Seq<(i128, T)>, key: i128)
    ensures
        with_key(a + b, key) == with_key(a, key) + with_key(b, key),
    decreases b.len(),
{
    if b.len() == 0 {
        assert(a + b =~= a);
        assert(with_key(a, key) + with_key(b, key) =~= with_key(a, key));
    } else {
        lemma_with_key_add(a, b.drop_last(), key);
        assert((a + b).drop_last() =~= a + b.drop_last());
        assert((a + b).last() == b.last());
        assert(with_key(a + b, key) =~= with_key(a, key) + with_key(b, key));
    }
}

proof fn lemma_with_key_single<T>(item: (i128, T), key: i128)
    ensures
        with_key(seq![item], key) == if item.0 == key {
            seq![item]
        } else {
            Seq::empty()
        },
{
    let one = seq![item];
    assert(one.drop_last() =~= Seq::<(i128, T)>::empty());
    assert(with_key(one.drop_last(), key) =~= Seq::<(i128, T)>::empty());
    assert(Seq::<(i128, T)>::empty().push(item) =~= one);
}

proof fn lemma_without_key<T>(items: Seq<(i128, T)>, key: i128)
    requires
        forall|i: int| 0 <= i < items.len() ==> (#[trigger] items[i]).0 != key,
    ensures
        with_key(items, key) == Seq::<(i128, T)>::empty(),
    decreases items.len(),
{
    if items.len() > 0 {
        let rest = items.drop_last();
        assert forall|i: int| 0 <= i < rest.len() implies (#[trigger] rest[i]).0 != key by {
            assert(rest[i] == items[i]);
        }
        lemma_without_key(rest, key);
    }
}

/// The items of the first item's key start with it.
proof fn lemma_first_with_key<T>(items: Seq<(i128, T)>, key: i128)
    requires
        items.len() > 0,
    ensures
        with_key(items, key) == (if items[0].0 == key {
            seq![items[0]]
        } else {
            Seq::empty()
        }) + with_key(items.drop_first(), key),
{
    assert(seq![items[0]] + items.drop_first() =~= items);
    lemma_with_key_add(seq![items[0]], items.drop_first(), key);
    lemma_with_key_single(items[0], key);
}

/// There is only one ranking of a sequence.
pub proof fn law_ranking_is_unique<T>(
    before: Seq<(i128, T)>,
    one: Seq<(i128, T)>,
    other: Seq<(i128, T)>,
)
    requires
        is_ranking(before, one),
        is_ranking(before, other),
    ensures
        one == other,
{
    assert forall|key: i128| #[trigger] with_key(one, key) == with_key(other, key) by {
        assert(with_key(one, key) == with_key(before, key));
    }
    lemma_same_groups(one, other);
}

/// Two falling sequences with the same items for each key are the same.
proof fn lemma_same_groups<T>(one: Seq<(i128, T)>, other: Seq<(i128, T)>)
    requires
        falling(one),
        falling(other),
        forall|key: i128| #[trigger] with_key(one, key) == with_key(other, key),
    ensures
        one == other,
    decreases one.len(),
{
    if one.len() == 0 {
        if other.len() > 0 {
            lemma_first_with_key(other, other[0].0);
            assert(with_key(one, other[0].0).len() == 0);
            assert(with_key(other, other[0].0).len() > 0);
        }
        assert(one =~= other);
    } else {
        let top = one[0].0;
        lemma_first_with_key(one, top);
        assert(with_key(one, top)[0] == one[0]);
        if other.len() == 0 {
            assert(with_key(other, top).len() == 0);
        }
        let rival = other[0].0;
        lemma_first_with_key(other, rival);
        assert(with_key(other, rival)[0] == other[0]);
        if rival < top {
            assert forall|i: int| 0 <= i < other.len() implies (#[trigger] other[i]).0 != top by {
                assert(other[0].0 >= other[i].0);
            }
            lemma_without_key(other, top);
        }
        if rival > top {
            assert forall|i: int| 0 <= i < one.len() implies (#[trigger] one[i]).0 != rival by {
                assert(one[0].0 >= one[i].0);
            }
            lemma_without_key(one, rival);
        }
        assert(one[0] == other[0]);
        let a = one.drop_first();
        let b = other.drop_first();
        assert forall|key: i128| #[trigger] with_key(a, key) == with_key(b, key) by {
            lemma_first_with_key(one, key);
            lemma_first_with_key(other, key);
            let front = if one[0].0 == key {
                seq![one[0]]
            } else {
                Seq::empty()
            };
            assert(with_key(one, key) == with_key(other, key));
            assert((front + with_key(a, key)).skip(front.len() as int) =~= with_key(a, key));
            assert((front + with_key(b, key)).skip(front.len() as int) =~= with_key(b, key));
        }
        assert(falling(a)) by {
            assert forall|i: int, j: int| 0 <= i < j < a.len() implies (#[trigger] a[i]).0 >= (
            #[trigger] a[j]).0 by {
                assert(a[i] == one[i + 1]);
                assert(a[j] == one[j + 1]);
            }
        }
        assert(falling(b)) by {
            assert forall|i: int, j: int| 0 <= i < j < b.len() implies (#[trigger] b[i]).0 >= (
            #[trigger] b[j]).0 by {
                assert(b[i] == other[i + 1]);
                assert(b[j] == other[j + 1]);
            }
        }
        lemma_same_groups(a, b);
        assert(one =~= seq![one[0]] + a);
        assert(other =~= seq![other[0]] + b);
    }
}

/// A ranking is a rearrangement: every item stays as often as it was there.
pub proof fn law_ranking_rearranges<T>(before: Seq<(i128, T)>, after: Seq<(i128, T)>)
    requires
        is_ranking(before, after),
    ensures
        after.to_multiset() == before.to_multiset(),
        after.len() == before.len(),
{
    broadcast use vstd::seq_lib::group_to_multiset_ensures;

    assert forall|item: (i128, T)| after.to_multiset().count(item) == before.to_multiset().count(
        item,
    ) by {
        lemma_count_with_key(before, item);
        lemma_count_with_key(after, item);
        assert(with_key(after, item.0) == with_key(before, item.0));
    }
    assert(after.to_multiset() =~= before.to_multiset());
    assert(after.to_multiset().len() == after.len());
    assert(before.to_multiset().len() == before.len());
}

/// An item is counted among those of its key.
proof fn lemma_count_with_key<T>(items: Seq<(i128, T)>, item: (i128, T))
    ensures
        items.to_multiset().count(item) == with_key(items, item.0).to_multiset().count(item),
    decreases items.len(),
{
    broadcast use vstd::seq_lib::group_to_multiset_ensures;

    if items.len() > 0 {
        lemma_count_with_key(items.drop_last(), item);
        assert(items =~= items.drop_last().push(items.last()));
    } else {
        assert(with_key(items, item.0) =~= items);
    }
}

/// Where an item with a key belongs in a falling sequence, behind its equals.
spec fn place_for<T>(items: Seq<(i128, T)>, key: i128) -> int
    decreases items.len(),
{
    if items.len() == 0 || items.last().0 >= key {
        items.len() as int
    } else {
        place_for(items.drop_last(), key)
    }
}

proof fn lemma_place_for<T>(items: Seq<(i128, T)>, key: i128)
    requires
        falling(items),
    ensures
        0 <= place_for(items, key) <= items.len(),
        forall|i: int| 0 <= i < place_for(items, key) ==> (#[trigger] items[i]).0 >= key,
        forall|i: int| place_for(items, key) <= i < items.len() ==> (#[trigger] items[i]).0 < key,
    decreases items.len(),
{
    if items.len() > 0 && items.last().0 < key {
        let rest = items.drop_last();
        assert forall|i: int, j: int| 0 <= i < j < rest.len() implies (#[trigger] rest[i]).0 >= (
        #[trigger] rest[j]).0 by {
            assert(rest[i] == items[i] && rest[j] == items[j]);
        }
        lemma_place_for(rest, key);
        assert forall|i: int| 0 <= i < items.len() implies if i < place_for(items, key) {
            (#[trigger] items[i]).0 >= key
        } else {
            items[i].0 < key
        } by {
            if i < rest.len() {
                assert(rest[i] == items[i]);
            }
        }
    }
}

/// Every sequence has a ranking.
pub proof fn law_ranking_exists<T>(items: Seq<(i128, T)>)
    ensures
        is_ranking(items, ranking(items)),
    decreases items.len(),
{
    if items.len() == 0 {
        assert(is_ranking(items, items));
    } else {
        let rest = items.drop_last();
        let item = items.last();
        law_ranking_exists(rest);
        let had = ranking(rest);
        lemma_place_for(had, item.0);
        let p = place_for(had, item.0);
        let front = had.take(p);
        let back = had.skip(p);
        let after = (front + seq![item]) + back;
        assert(had =~= front + back);
        assert forall|key: i128| #[trigger] with_key(after, key) == with_key(items, key) by {
            lemma_with_key_add(front, back, key);
            lemma_with_key_add(front + seq![item], back, key);
            lemma_with_key_add(front, seq![item], key);
            lemma_with_key_single(item, key);
            assert(with_key(had, key) == with_key(rest, key));
            if key == item.0 {
                assert forall|i: int| 0 <= i < back.len() implies (#[trigger] back[i]).0 != key by {
                    assert(back[i] == had[i + p]);
                }
                lemma_without_key(back, key);
            }
            assert(with_key(after, key) =~= with_key(items, key));
        }
        assert forall|i: int, j: int| 0 <= i < j < after.len() implies (#[trigger] after[i]).0 >= (
        #[trigger] after[j]).0 by {
            let x = if i < p {
                i
            } else {
                i - 1
            };
            let y = if j < p {
                j
            } else {
                j - 1
            };
            assert(i == p || after[i] == had[x]);
            assert(j == p || after[j] == had[y]);
        }
        assert(is_ranking(items, after));
    }
}

/// Puts items in falling order of their keys, equals in the order they had.
pub fn rank<T>(items: Vec<(i128, T)>) -> (r: Vec<(i128, T)>)
    ensures
        r@ == ranking(items@),
        is_ranking(items@, r@),
{
    let ghost before = items@;
    let mut rest = items;
    let mut sorted: Vec<(i128, T)> = Vec::new();
    assert forall|key: i128| with_key(rest@, key) + #[trigger] with_key(sorted@, key) == with_key(
        before,
        key,
    ) by {
        assert(with_key(rest@, key) + with_key(sorted@, key) =~= with_key(before, key));
    }
    while rest.len() > 0
        invariant
            falling(sorted@),
            forall|key: i128|
                with_key(rest@, key) + #[trigger] with_key(sorted@, key) == with_key(before, key),
        decreases rest@.len(),
    {
        let ghost left = rest@;
        let item = rest.pop().unwrap();
        let mut p: usize = 0;
        while p < sorted.len() && sorted[p].0 > item.0
            invariant
                p <= sorted@.len(),
                forall|i: int| 0 <= i < p ==> (#[trigger] sorted@[i]).0 > item.0,
            decreases sorted@.len() - p,
        {
            p = p + 1;
        }
        let ghost had = sorted@;
        sorted.insert(p, item);
        proof {
            let front = had.take(p as int);
            let back = had.skip(p as int);
            assert(had =~= front + back);
            assert(sorted@ =~= (front + seq![item]) + back);
            assert forall|key: i128| with_key(rest@, key) + #[trigger] with_key(sorted@, key)
                == with_key(before, key) by {
                assert(with_key(left, key) + with_key(had, key) == with_key(before, key));
                lemma_with_key_add(front, back, key);
                lemma_with_key_add(front + seq![item], back, key);
                lemma_with_key_add(front, seq![item], key);
                lemma_with_key_single(item, key);
                assert(left.drop_last() =~= rest@);
                if key == item.0 {
                    assert forall|i: int| 0 <= i < front.len() implies (#[trigger] front[i]).0
                        != key by {
                        assert(front[i] == had[i]);
                    }
                    lemma_without_key(front, key);
                }
                assert(with_key(rest@, key) + with_key(sorted@, key) =~= with_key(left, key)
                    + with_key(had, key));
            }
            assert forall|i: int, j: int| 0 <= i < j < sorted@.len() implies (#[trigger] sorted@[i]).0
                >= (#[trigger] sorted@[j]).0 by {
                if i > p {
                    assert(sorted@[i] == had[i - 1]);
                } else if i < p {
                    assert(sorted@[i] == had[i]);
                }
                if j > p {
                    assert(sorted@[j] == had[j - 1]);
                } else if j < p {
                    assert(sorted@[j] == had[j]);
                }
                if i < p && j == p {
                    assert(had[i].0 > item.0);
                }
                if i == p && j > p {
                    assert(had[p as int].0 <= item.0);
                    if j - 1 > p {
                        assert(had[p as int].0 >= had[j - 1].0);
                    }
                }
            }
        }
    }
    proof {
        assert(rest@ =~= Seq::<(i128, T)>::empty());
        assert forall|key: i128| #[trigger] with_key(sorted@, key) == with_key(before, key) by {
            assert(with_key(rest@, key) + with_key(sorted@, key) == with_key(before, key));
            assert(with_key(rest@, key) + with_key(sorted@, key) =~= with_key(sorted@, key));
        }
        assert(is_ranking(before, sorted@));
        law_ranking_is_unique(before, sorted@, ranking(before));
    }
    sorted
}

} // verus!
