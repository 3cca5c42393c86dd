//! Stable sorting by a three-part key (a text, a number, a name), the order
//! in which the browsing screens list albums, artists and playlists.
use vstd::prelude::*;

use crate::text::{chars_of, compare_text, text_less, text_less_transitive, text_less_trichotomy};

verus! {

/// The parts of a listing key: a text, a number and a name, compared in
/// this order.
pub type RankView = (Seq<char>, nat, Seq<char>);

/// Whether one key sorts strictly before another.
pub open spec fn rank_less(a: RankView, b: RankView) -> bool {
    ||| text_less(a.0, b.0)
    ||| (a.0 == b.0 && a.1 < b.1)
    ||| (a.0 == b.0 && a.1 == b.1 && text_less(a.2, b.2))
}

/// Keys are totally ordered: never before themselves, one of two distinct
/// keys first, never both, and the order is transitive.
pub proof fn rank_order(a: RankView, b: RankView, c: RankView)
    ensures
        !rank_less(a, a),
        a != b ==> (rank_less(a, b) || rank_less(b, a)),
        !(rank_less(a, b) && rank_less(b, a)),
        rank_less(a, b) && rank_less(b, c) ==> rank_less(a, c),
{
    text_less_trichotomy(a.0, a.0);
    text_less_trichotomy(a.2, a.2);
    text_less_trichotomy(a.0, b.0);
    text_less_trichotomy(a.2, b.2);
    text_less_trichotomy(b.0, c.0);
    text_less_trichotomy(b.2, c.2);
    text_less_trichotomy(a.0, c.0);
    if text_less(a.0, b.0) && text_less(b.0, c.0) {
        text_less_transitive(a.0, b.0, c.0);
    }
    if text_less(a.2, b.2) && text_less(b.2, c.2) {
        text_less_transitive(a.2, b.2, c.2);
    }
}

/// A listing key, ready to compare.
pub struct RankKey {
    pub text: Vec<char>,
    pub rank: u32,
    pub name: Vec<char>,
}

impl RankKey {
    /// The key's parts.
    pub open spec fn rank_view(&self) -> RankView {
        (self.text@, self.rank as nat, self.name@)
    }

    /// The key made of a text, a number and a name.
    pub fn new(text: &str, rank: u32, name: &str) -> (key: RankKey)
        ensures
            key.rank_view() == (text@, rank as nat, name@),
    {
        RankKey { text: chars_of(text), rank, name: chars_of(name) }
    }
}

/// Whether key `a` sorts strictly before key `b`.
pub fn ranks_before(a: &RankKey, b: &RankKey) -> (less: bool)
    ensures
        less == rank_less(a.rank_view(), b.rank_view()),
{
    let by_text = compare_text(&a.text, &b.text);
    if by_text != 0 {
        return by_text == -1;
    }
    if a.rank != b.rank {
        return a.rank < b.rank;
    }
    compare_text(&a.name, &b.name) == -1
}

/// Whether `sorted` is `items` put in key order, with `order[i]` the
/// position in `items` of `sorted[i]`: every position used once, and items
/// with equal keys in the order in which they came.
pub open spec fn arranges<T>(
    items: Seq<T>,
    sorted: Seq<T>,
    order: Seq<int>,
    key_of: spec_fn(T) -> RankView,
) -> bool {
    &&& order.len() == items.len()
    &&& sorted.len() == items.len()
    &&& forall|i: int|
        0 <= i < order.len() ==> 0 <= #[trigger] order[i] < items.len() && sorted[i]
            == items[order[i]]
    &&& forall|i: int, j: int| 0 <= i < j < order.len() ==> #[trigger] order[i] != #[trigger] order[j]
    &&& forall|i: int, j: int|
        0 <= i < j < order.len() ==> rank_less(key_of(#[trigger] sorted[i]), key_of(#[trigger] sorted[j]))
            || (key_of(sorted[i]) == key_of(sorted[j]) && order[i] < order[j])
}

/// Whether `sorted` is the stable sort of `items` by `key_of`: the items in
/// key order, those with equal keys in the order in which they came.
pub open spec fn is_stable_sort<T>(
    items: Seq<T>,
    sorted: Seq<T>,
    key_of: spec_fn(T) -> RankView,
) -> bool {
    &&& exists|order: Seq<int>| arranges(items, sorted, order, key_of)
    &&& sorted.to_multiset() == items.to_multiset()
}

/// A stable sort lists its items in key order: no item comes after one
/// whose key sorts strictly after its own.
pub proof fn sorted_in_key_order<T>(items: Seq<T>, sorted: Seq<T>, key_of: spec_fn(T) -> RankView)
    requires
        is_stable_sort(items, sorted, key_of),
    ensures
        forall|i: int, j: int|
            0 <= i < j < sorted.len() ==> !rank_less(key_of(#[trigger] sorted[j]), key_of(#[trigger] sorted[i])),
{
    let order = choose|order: Seq<int>| arranges(items, sorted, order, key_of);
    assert forall|i: int, j: int| 0 <= i < j < sorted.len() implies !rank_less(
        key_of(#[trigger] sorted[j]),
        key_of(#[trigger] sorted[i]),
    ) by {
        rank_order(key_of(sorted[i]), key_of(sorted[j]), key_of(sorted[i]));
    }
}

/// A stable sort keeps its items: an item is in the sorted list exactly
/// when it is in the list that was sorted, as often.
pub proof fn sorted_keeps_items<T>(items: Seq<T>, sorted: Seq<T>, key_of: spec_fn(T) -> RankView, x: T)
    requires
        is_stable_sort(items, sorted, key_of),
    ensures
        sorted.contains(x) == items.contains(x),
        sorted.to_multiset().count(x) == items.to_multiset().count(x),
{
    broadcast use vstd::seq_lib::group_to_multiset_ensures;

    assert(sorted.contains(x) <==> sorted.to_multiset().count(x) > 0);
    assert(items.contains(x) <==> items.to_multiset().count(x) > 0);
}

/// Sorts items by their keys, keeping the arrival order of items whose keys
/// are equal (`sort_by_key`); `keys[i]` is the key of `items[i]`.
pub fn stable_sort<T>(
    items: Vec<T>,
    keys: Vec<RankKey>,
    Ghost(key_of): Ghost<spec_fn(T) -> RankView>,
) -> (sorted: Vec<T>)
    requires
        keys@.len() == items@.len(),
        forall|i: int| 0 <= i < items@.len() ==> #[trigger] keys@[i].rank_view() == key_of(items@[i]),
    ensures
        is_stable_sort(items@, sorted@, key_of),
{
    let ghost original = items@;
    let mut rest_items = items;
    let mut rest_keys = keys;
    let mut out_items: Vec<T> = Vec::new();
    let mut out_keys: Vec<RankKey> = Vec::new();
    let ghost mut order: Seq<int> = Seq::empty();
    let mut taken: usize = 0;
    let total = rest_items.len();
    assert(original.take(0) =~= out_items@);
    while rest_items.len() > 0
        invariant
            total == original.len(),
            taken + rest_items@.len() == total,
            rest_keys@.len() == rest_items@.len(),
            rest_items@ == original.skip(taken as int),
            forall|i: int|
                0 <= i < rest_items@.len() ==> #[trigger] rest_keys@[i].rank_view() == key_of(
                    rest_items@[i],
                ),
            out_keys@.len() == out_items@.len(),
            forall|i: int|
                0 <= i < out_items@.len() ==> #[trigger] out_keys@[i].rank_view() == key_of(
                    out_items@[i],
                ),
            arranges(original.take(taken as int), out_items@, order, key_of),
            out_items@.to_multiset() == original.take(taken as int).to_multiset(),
        decreases rest_items@.len(),
    {
        let ghost prior_items = rest_items@;
        let ghost prior_keys = rest_keys@;
        let item = rest_items.remove(0);
        let key = rest_keys.remove(0);
        proof {
            assert(key == prior_keys[0] && item == prior_items[0]);
            assert(original.skip(taken + 1) =~= original.skip(taken as int).remove(0));
            assert(original[taken as int] == item);
            assert forall|i: int| 0 <= i < rest_items@.len() implies #[trigger] rest_keys@[i].rank_view()
                == key_of(rest_items@[i]) by {
                assert(rest_items@[i] == prior_items[i + 1]);
                assert(rest_keys@[i] == prior_keys[i + 1]);
            }
        }
        let mut p: usize = 0;
        while p < out_keys.len() && !ranks_before(&key, &out_keys[p])
            invariant
                p <= out_keys@.len(),
                out_keys@.len() == out_items@.len(),
                key.rank_view() == key_of(item),
                forall|i: int|
                    0 <= i < out_items@.len() ==> #[trigger] out_keys@[i].rank_view() == key_of(
                        out_items@[i],
                    ),
                forall|j: int|
                    0 <= j < p ==> !rank_less(key_of(item), key_of(#[trigger] out_items@[j])),
            decreases out_keys@.len() - p,
        {
            p = p + 1;
        }
        let ghost before = out_items@;
        let ghost before_order = order;
        let ghost prefix = original.take(taken as int);
        let ghost next_prefix = original.take(taken + 1);
        proof {
            assert(next_prefix =~= prefix.push(item));
            let s = before.insert(p as int, item);
            let o = before_order.insert(p as int, taken as int);
            assert forall|i: int| 0 <= i < o.len() implies 0 <= #[trigger] o[i] < next_prefix.len()
                && s[i] == next_prefix[o[i]] by {
                if i < p {
                    assert(o[i] == before_order[i] && s[i] == before[i]);
                    assert(prefix[before_order[i]] == next_prefix[before_order[i]]);
                } else if i == p {
                    assert(o[i] == taken && s[i] == item);
                } else {
                    assert(o[i] == before_order[i - 1] && s[i] == before[i - 1]);
                    assert(prefix[before_order[i - 1]] == next_prefix[before_order[i - 1]]);
                }
            }
            assert forall|i: int, j: int| 0 <= i < j < o.len() implies #[trigger] o[i]
                != #[trigger] o[j] by {
                if j < p {
                    assert(o[i] == before_order[i] && o[j] == before_order[j]);
                } else if j == p {
                    assert(o[i] == before_order[i] && o[j] == taken);
                } else if i < p {
                    assert(o[i] == before_order[i] && o[j] == before_order[j - 1]);
                } else if i == p {
                    assert(o[i] == taken && o[j] == before_order[j - 1]);
                } else {
                    assert(o[i] == before_order[i - 1] && o[j] == before_order[j - 1]);
                }
            }
            assert forall|i: int, j: int| 0 <= i < j < o.len() implies rank_less(
                key_of(#[trigger] s[i]),
                key_of(#[trigger] s[j]),
            ) || (key_of(s[i]) == key_of(s[j]) && o[i] < o[j]) by {
                if j < p {
                    assert(s[i] == before[i] && s[j] == before[j]);
                    assert(o[i] == before_order[i] && o[j] == before_order[j]);
                } else if j == p {
                    assert(s[i] == before[i] && s[j] == item);
                    assert(o[i] == before_order[i] && o[j] == taken);
                    rank_order(key_of(before[i]), key_of(item), key_of(item));
                } else if i < p {
                    assert(s[i] == before[i] && s[j] == before[j - 1]);
                    assert(o[i] == before_order[i] && o[j] == before_order[j - 1]);
                } else if i == p {
                    assert(s[i] == item && s[j] == before[j - 1]);
                    assert(o[i] == taken && o[j] == before_order[j - 1]);
                    // the item sorts before `before[p]`, which does not sort
                    // after `before[j - 1]`
                    if j - 1 > p {
                        assert(rank_less(key_of(before[p as int]), key_of(before[j - 1])) || key_of(
                            before[p as int],
                        ) == key_of(before[j - 1]));
                        rank_order(key_of(item), key_of(before[p as int]), key_of(before[j - 1]));
                    }
                } else {
                    assert(s[i] == before[i - 1] && s[j] == before[j - 1]);
                    assert(o[i] == before_order[i - 1] && o[j] == before_order[j - 1]);
                }
            }
            order = o;
        }
        out_items.insert(p, item);
        out_keys.insert(p, key);
        proof {
            broadcast use vstd::seq_lib::group_to_multiset_ensures;

            assert(out_items@ == before.insert(p as int, item));
            assert(out_items@.to_multiset() == next_prefix.to_multiset());
            assert forall|i: int| 0 <= i < out_items@.len() implies #[trigger] out_keys@[i].rank_view()
                == key_of(out_items@[i]) by {
                if i < p {
                    assert(out_items@[i] == before[i]);
                } else if i > p {
                    assert(out_items@[i] == before[i - 1]);
                }
            }
        }
        taken = taken + 1;
    }
    assert(original.take(total as int) =~= original);
    out_items
}

} // verus!
