//! Selecting and ordering the items of a list.

use vstd::prelude::*;

verus! {

/// Those of the first `n` items that `p` holds of.
pub open spec fn filtered_to<T>(items: Seq<T>, p: spec_fn(T) -> bool, n: int) -> Seq<T>
    decreases n,
{
    if n <= 0 {
        Seq::empty()
    } else if p(items[n - 1]) {
        filtered_to(items, p, n - 1).push(items[n - 1])
    } else {
        filtered_to(items, p, n - 1)
    }
}

/// The items that `p` holds of, in their order.
pub open spec fn filtered<T>(items: Seq<T>, p: spec_fn(T) -> bool) -> Seq<T> {
    filtered_to(items, p, items.len() as int)
}

/// An item that `p` holds of is selected.
pub proof fn lemma_filtered_has<T>(items: Seq<T>, p: spec_fn(T) -> bool, i: int, n: int)
    requires
        0 <= i < n <= items.len(),
        p(items[i]),
    ensures
        filtered_to(items, p, n).contains(items[i]),
    decreases n,
{
    let before = filtered_to(items, p, n - 1);
    if i == n - 1 {
        assert(before.push(items[i])[before.len() as int] == items[i]);
    } else {
        lemma_filtered_has(items, p, i, n - 1);
        let k = choose|k: int| 0 <= k < before.len() && before[k] == items[i];
        assert(filtered_to(items, p, n)[k] == items[i]);
    }
}

/// `p` holds of what is selected.
pub proof fn lemma_filtered_holds<T>(items: Seq<T>, p: spec_fn(T) -> bool, n: int)
    requires
        0 <= n <= items.len(),
    ensures
        forall|k: int|
            0 <= k < filtered_to(items, p, n).len() ==> p(#[trigger] filtered_to(items, p, n)[k]),
    decreases n,
{
    if n > 0 {
        lemma_filtered_holds(items, p, n - 1);
        let before = filtered_to(items, p, n - 1);
        let after = filtered_to(items, p, n);
        assert forall|k: int| 0 <= k < after.len() implies p(#[trigger] after[k]) by {
            if k < before.len() {
                assert(after[k] == before[k]);
            }
        }
    }
}

/// Where an item of weight `w` goes among the first `n` items: after those
/// that weigh no less.
pub open spec fn place_to<T>(items: Seq<T>, weight: spec_fn(T) -> int, w: int, n: int) -> int
    decreases n,
{
    if 0 < n && weight(items[n - 1]) < w {
        place_to(items, weight, w, n - 1)
    } else {
        n
    }
}

/// The items with one more, which goes after those that weigh no less.
pub open spec fn placed<T>(items: Seq<T>, weight: spec_fn(T) -> int, item: T) -> Seq<T> {
    items.insert(place_to(items, weight, weight(item), items.len() as int), item)
}

/// The first `n` items by weight, the heaviest first; those that weigh the
/// same stay in their order.
pub open spec fn ranked_to<T>(items: Seq<T>, weight: spec_fn(T) -> int, n: int) -> Seq<T>
    decreases n,
{
    if n <= 0 {
        Seq::empty()
    } else {
        placed(ranked_to(items, weight, n - 1), weight, items[n - 1])
    }
}

/// The items by weight, the heaviest first; those that weigh the same stay
/// in their order.
pub open spec fn ranked<T>(items: Seq<T>, weight: spec_fn(T) -> int) -> Seq<T> {
    ranked_to(items, weight, items.len() as int)
}

/// The first items, `max` at most.
pub open spec fn first<T>(items: Seq<T>, max: int) -> Seq<T> {
    if items.len() > max {
        items.take(max)
    } else {
        items
    }
}

pub proof fn lemma_place<T>(items: Seq<T>, weight: spec_fn(T) -> int, w: int, n: int)
    requires
        0 <= n <= items.len(),
    ensures
        0 <= place_to(items, weight, w, n) <= n,
        forall|i: int|
            place_to(items, weight, w, n) <= i < n ==> weight(#[trigger] items[i]) < w,
        place_to(items, weight, w, n) > 0 ==> weight(
            items[place_to(items, weight, w, n) - 1],
        ) >= w,
    decreases n,
{
    if 0 < n && weight(items[n - 1]) < w {
        lemma_place(items, weight, w, n - 1);
    }
}

pub proof fn lemma_ranked_len<T>(items: Seq<T>, weight: spec_fn(T) -> int, n: int)
    requires
        0 <= n <= items.len(),
    ensures
        ranked_to(items, weight, n).len() == n,
    decreases n,
{
    if n > 0 {
        lemma_ranked_len(items, weight, n - 1);
        let rest = ranked_to(items, weight, n - 1);
        lemma_place(rest, weight, weight(items[n - 1]), rest.len() as int);
    }
}

/// No two of the items have the same key.
pub open spec fn distinct_by<T, K>(items: Seq<T>, key: spec_fn(T) -> K) -> bool {
    forall|i: int, j: int|
        0 <= i < j < items.len() ==> key(#[trigger] items[i]) != key(#[trigger] items[j])
}

/// Each of the selected items was among the first `n`.
pub proof fn lemma_filtered_from<T>(items: Seq<T>, p: spec_fn(T) -> bool, n: int)
    requires
        0 <= n <= items.len(),
    ensures
        forall|k: int|
            0 <= k < filtered_to(items, p, n).len() ==> items.take(n).contains(
                #[trigger] filtered_to(items, p, n)[k],
            ),
    decreases n,
{
    if n > 0 {
        lemma_filtered_from(items, p, n - 1);
        let before = filtered_to(items, p, n - 1);
        let after = filtered_to(items, p, n);
        let some = items.take(n - 1);
        let all = items.take(n);
        assert(all[n - 1] == items[n - 1]);
        assert forall|k: int| 0 <= k < after.len() implies all.contains(#[trigger] after[k]) by {
            if k < before.len() {
                assert(after[k] == before[k]);
                let m = choose|m: int| 0 <= m < some.len() && some[m] == before[k];
                assert(all[m] == after[k]);
            }
        }
    }
}

/// Distinct items that are selected stay distinct.
pub proof fn lemma_filtered_distinct<T, K>(
    items: Seq<T>,
    p: spec_fn(T) -> bool,
    key: spec_fn(T) -> K,
    n: int,
)
    requires
        0 <= n <= items.len(),
        distinct_by(items, key),
    ensures
        distinct_by(filtered_to(items, p, n), key),
    decreases n,
{
    if n > 0 {
        lemma_filtered_distinct(items, p, key, n - 1);
        lemma_filtered_from(items, p, n - 1);
        let before = filtered_to(items, p, n - 1);
        let after = filtered_to(items, p, n);
        let some = items.take(n - 1);
        assert forall|i: int, j: int| 0 <= i < j < after.len() implies key(#[trigger] after[i])
            != key(#[trigger] after[j]) by {
            assert(after[i] == before[i]);
            if j < before.len() {
                assert(after[j] == before[j]);
            } else {
                assert(some.contains(before[i]));
                let m = choose|m: int| 0 <= m < some.len() && some[m] == before[i];
                assert(items[m] == before[i]);
            }
        }
    }
}

/// Each of the ranked items was among the first `n`.
pub proof fn lemma_ranked_from<T>(items: Seq<T>, weight: spec_fn(T) -> int, n: int)
    requires
        0 <= n <= items.len(),
    ensures
        forall|k: int|
            0 <= k < ranked_to(items, weight, n).len() ==> items.take(n).contains(
                #[trigger] ranked_to(items, weight, n)[k],
            ),
    decreases n,
{
    if n > 0 {
        lemma_ranked_from(items, weight, n - 1);
        let before = ranked_to(items, weight, n - 1);
        let after = ranked_to(items, weight, n);
        let item = items[n - 1];
        let some = items.take(n - 1);
        let all = items.take(n);
        let at = place_to(before, weight, weight(item), before.len() as int);
        lemma_place(before, weight, weight(item), before.len() as int);
        assert(all[n - 1] == item);
        assert forall|k: int| 0 <= k < before.len() implies all.contains(#[trigger] before[k]) by {
            let m = choose|m: int| 0 <= m < some.len() && some[m] == before[k];
            assert(all[m] == before[k]);
        }
        assert forall|k: int| 0 <= k < after.len() implies all.contains(#[trigger] after[k]) by {
            if k < at {
                assert(after[k] == before[k]);
            } else if k > at {
                assert(after[k] == before[k - 1]);
            }
        }
    }
}

/// Distinct items stay distinct when they are ranked.
pub proof fn lemma_ranked_distinct<T, K>(
    items: Seq<T>,
    weight: spec_fn(T) -> int,
    key: spec_fn(T) -> K,
    n: int,
)
    requires
        0 <= n <= items.len(),
        distinct_by(items, key),
    ensures
        distinct_by(ranked_to(items, weight, n), key),
    decreases n,
{
    if n > 0 {
        lemma_ranked_distinct(items, weight, key, n - 1);
        lemma_ranked_from(items, weight, n - 1);
        let before = ranked_to(items, weight, n - 1);
        let after = ranked_to(items, weight, n);
        let item = items[n - 1];
        let some = items.take(n - 1);
        let at = place_to(before, weight, weight(item), before.len() as int);
        lemma_place(before, weight, weight(item), before.len() as int);
        assert forall|k: int| 0 <= k < before.len() implies key(#[trigger] before[k]) != key(
            item,
        ) by {
            assert(some.contains(before[k]));
            let m = choose|m: int| 0 <= m < some.len() && some[m] == before[k];
            assert(items[m] == before[k]);
        }
        assert forall|i: int, j: int| 0 <= i < j < after.len() implies key(#[trigger] after[i])
            != key(#[trigger] after[j]) by {
            let a = if i < at {
                i
            } else {
                i - 1
            };
            let b = if j < at {
                j
            } else {
                j - 1
            };
            if i != at {
                assert(after[i] == before[a]);
            }
            if j != at {
                assert(after[j] == before[b]);
            }
        }
    }
}

/// Ranked items are in the order of their weights, and they are the same
/// items.
pub proof fn law_ranked_items<T>(items: Seq<T>, weight: spec_fn(T) -> int, n: int)
    requires
        0 <= n <= items.len(),
    ensures
        forall|i: int, j: int|
            0 <= i < j < ranked_to(items, weight, n).len() ==> weight(
                #[trigger] ranked_to(items, weight, n)[i],
            ) >= weight(#[trigger] ranked_to(items, weight, n)[j]),
        ranked_to(items, weight, n).to_multiset() =~= items.take(n).to_multiset(),
    decreases n,
{
    broadcast use vstd::seq_lib::group_to_multiset_ensures;

    if n > 0 {
        law_ranked_items(items, weight, n - 1);
        lemma_ranked_len(items, weight, n - 1);
        let rest = ranked_to(items, weight, n - 1);
        let item = items[n - 1];
        let at = place_to(rest, weight, weight(item), rest.len() as int);
        lemma_place(rest, weight, weight(item), rest.len() as int);
        let all = placed(rest, weight, item);
        assert forall|i: int, j: int| 0 <= i < j < all.len() implies weight(#[trigger] all[i])
            >= weight(#[trigger] all[j]) by {
            let a = if i < at {
                i
            } else {
                i - 1
            };
            let b = if j < at {
                j
            } else {
                j - 1
            };
            if i != at {
                assert(all[i] == rest[a]);
            }
            if j != at {
                assert(all[j] == rest[b]);
            }
            if j == at && i < at - 1 {
                assert(weight(rest[i]) >= weight(rest[at - 1]));
            }
        }
        assert(items.take(n) =~= items.take(n - 1).push(item));
        assert(all[at] == item);
        assert(all.remove(at) =~= rest);
        assert(all.contains(item));
    } else {
        assert(items.take(0) =~= Seq::empty());
    }
}

/// Items that weigh the same stay in their order when they are ranked.
pub proof fn law_ranking_is_stable<T>(
    items: Seq<T>,
    weight: spec_fn(T) -> int,
    w: int,
    n: int,
)
    requires
        0 <= n <= items.len(),
    ensures
        ranked_to(items, weight, n).filter(|t: T| weight(t) == w) == items.take(n).filter(
            |t: T| weight(t) == w,
        ),
    decreases n,
{
    let same = |t: T| weight(t) == w;
    if n > 0 {
        law_ranking_is_stable(items, weight, w, n - 1);
        law_ranked_items(items, weight, n - 1);
        let rest = ranked_to(items, weight, n - 1);
        let item = items[n - 1];
        let at = place_to(rest, weight, weight(item), rest.len() as int);
        lemma_place(rest, weight, weight(item), rest.len() as int);
        let all = placed(rest, weight, item);
        let front = rest.take(at);
        let back = rest.skip(at);
        let one = seq![item];
        assert(all =~= front + (one + back));
        assert(rest =~= front + back);
        Seq::filter_distributes_over_add(front, one + back, same);
        Seq::filter_distributes_over_add(one, back, same);
        Seq::filter_distributes_over_add(front, back, same);
        assert(items.take(n) =~= items.take(n - 1) + one);
        Seq::filter_distributes_over_add(items.take(n - 1), one, same);
        lemma_filter_one(item, same);
        if weight(item) == w {
            assert forall|i: int| 0 <= i < back.len() implies !same(#[trigger] back[i]) by {
                assert(back[i] == rest[at + i]);
                assert(weight(rest[at + i]) < weight(item));
            }
            lemma_filter_none(back, same);
            assert(all.filter(same) =~= items.take(n).filter(same));
        } else {
            assert(all.filter(same) =~= items.take(n).filter(same));
        }
    } else {
        assert(items.take(0) =~= Seq::empty());
    }
}

proof fn lemma_filter_one<T>(item: T, p: spec_fn(T) -> bool)
    ensures
        seq![item].filter(p) == if p(item) {
            seq![item]
        } else {
            Seq::empty()
        },
{
    reveal(Seq::filter);
    let one = seq![item];
    assert(one.drop_last() =~= Seq::empty());
    assert(one.drop_last().filter(p) =~= Seq::empty());
    assert(one.last() == item);
    assert(Seq::empty().push(item) =~= one);
}

proof fn lemma_filter_none<T>(items: Seq<T>, p: spec_fn(T) -> bool)
    requires
        forall|i: int| 0 <= i < items.len() ==> !p(#[trigger] items[i]),
    ensures
        items.filter(p) == Seq::<T>::empty(),
    decreases items.len(),
{
    reveal(Seq::filter);
    if items.len() > 0 {
        let rest = items.drop_last();
        assert forall|i: int| 0 <= i < rest.len() implies !p(#[trigger] rest[i]) by {
            assert(rest[i] == items[i]);
        }
        lemma_filter_none(rest, p);
        assert(items.last() == items[items.len() - 1]);
    } else {
        assert(items =~= Seq::empty());
    }
}

} // verus!
