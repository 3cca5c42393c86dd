//! Stable sorting by a text key and an optional media identity, the order
//! the unified library presents its albums, tracks, issues and providers in.

use vstd::prelude::*;
use vstd::relations::sorted_by;

use crate::model::{kind_rank, MediaId};
use crate::text::{chars_of, compare_text, text_less, text_less_transitive, text_less_trichotomy};

verus! {

broadcast use vstd::seq_lib::group_to_multiset_ensures;

/// The parts of a media identity that order it: provider, kind, item.
pub type IdOrderView = (Seq<char>, nat, Seq<char>);

/// What an item is sorted by: a text, then (where there is one) a media
/// identity.
pub type KeyView = (Seq<char>, Option<IdOrderView>);

/// The ordering parts of a media identity.
pub open spec fn id_order_view(id: MediaId) -> IdOrderView {
    (id.provider_id.0@, kind_rank(id.kind), id.item_id@)
}

/// Whether one media identity sorts before another: by provider, then kind,
/// then item, as the derived order of `MediaId` compares them.
pub open spec fn id_less(a: IdOrderView, b: IdOrderView) -> bool {
    ||| text_less(a.0, b.0)
    ||| (a.0 == b.0 && a.1 < b.1)
    ||| (a.0 == b.0 && a.1 == b.1 && text_less(a.2, b.2))
}

/// Whether one key sorts strictly before another: by text, then by identity,
/// an absent identity first.
pub open spec fn key_less(a: KeyView, b: KeyView) -> bool {
    ||| text_less(a.0, b.0)
    ||| (a.0 == b.0 && match (a.1, b.1) {
        (Some(x), Some(y)) => id_less(x, y),
        (None, Some(_)) => true,
        _ => false,
    })
}

/// Whether `a` may stand before `b`: `b` does not sort strictly before `a`.
pub open spec fn key_le(a: KeyView, b: KeyView) -> bool {
    !key_less(b, a)
}

proof fn lemma_key_less_order(a: KeyView, b: KeyView, c: KeyView)
    ensures
        !key_less(a, a),
        key_less(a, b) ==> !key_less(b, a),
        key_less(a, b) && key_less(b, c) ==> key_less(a, c),
{
    text_less_trichotomy(a.0, a.0);
    text_less_trichotomy(a.0, b.0);
    text_less_trichotomy(b.0, c.0);
    text_less_trichotomy(a.0, c.0);
    if text_less(a.0, b.0) && text_less(b.0, c.0) {
        text_less_transitive(a.0, b.0, c.0);
    }
    match (a.1, b.1, c.1) {
        (Some(x), Some(y), Some(z)) => {
            text_less_trichotomy(x.0, x.0);
            text_less_trichotomy(x.2, x.2);
            text_less_trichotomy(x.0, y.0);
            text_less_trichotomy(x.2, y.2);
            text_less_trichotomy(y.0, z.0);
            if text_less(x.0, y.0) && text_less(y.0, z.0) {
                text_less_transitive(x.0, y.0, z.0);
            }
            if text_less(x.2, y.2) && text_less(y.2, z.2) {
                text_less_transitive(x.2, y.2, z.2);
            }
        },
        (Some(x), Some(y), None) => {
            text_less_trichotomy(x.0, x.0);
            text_less_trichotomy(x.2, x.2);
            text_less_trichotomy(x.0, y.0);
            text_less_trichotomy(x.2, y.2);
        },
        (Some(x), _, _) => {
            text_less_trichotomy(x.0, x.0);
            text_less_trichotomy(x.2, x.2);
        },
        _ => {},
    }
}

/// The ordering parts of a media identity, ready to compare.
pub struct IdKey {
    pub provider: Vec<char>,
    pub rank: u8,
    pub item: Vec<char>,
}

/// A sort key, ready to compare.
pub struct SortKey {
    pub text: Vec<char>,
    pub id: Option<IdKey>,
}

impl SortKey {
    /// The key's ordering parts.
    pub open spec fn key_view(&self) -> KeyView {
        (
            self.text@,
            match self.id {
                Some(id) => Some((id.provider@, id.rank as nat, id.item@)),
                None => None,
            },
        )
    }

    /// The key made of a text and, where given, a media identity.
    pub fn new(text: &str, id: Option<&MediaId>) -> (key: SortKey)
        ensures
            key.key_view() == (text@, match id {
                Some(m) => Some(id_order_view(*m)),
                None => None,
            }),
    {
        let id_key = match id {
            Some(m) => Some(
                IdKey {
                    provider: chars_of(m.provider_id.0.as_str()),
                    rank: m.kind.rank(),
                    item: chars_of(m.item_id.as_str()),
                },
            ),
            None => None,
        };
        SortKey { text: chars_of(text), id: id_key }
    }
}

/// Whether `a` sorts strictly before `b`.
pub fn sorts_before(a: &SortKey, b: &SortKey) -> (less: bool)
    ensures
        less == key_less(a.key_view(), b.key_view()),
{
    let by_text = compare_text(&a.text, &b.text);
    if by_text != 0 {
        return by_text == -1;
    }
    match (&a.id, &b.id) {
        (Some(x), Some(y)) => {
            let by_provider = compare_text(&x.provider, &y.provider);
            if by_provider != 0 {
                return by_provider == -1;
            }
            if x.rank != y.rank {
                return x.rank < y.rank;
            }
            compare_text(&x.item, &y.item) == -1
        },
        (None, Some(_)) => true,
        _ => false,
    }
}

/// Whether a sequence is in key order, each item's key given by `key_of`.
pub open spec fn sorted_by_key<T>(items: Seq<T>, key_of: spec_fn(T) -> KeyView) -> bool {
    sorted_by(items, key_order(key_of))
}

/// The order "may stand before" on items, by their keys.
pub open spec fn key_order<T>(key_of: spec_fn(T) -> KeyView) -> spec_fn(T, T) -> bool {
    |a: T, b: T| key_le(key_of(a), key_of(b))
}

/// Sorts items by their keys, keeping the arrival order of items whose keys
/// are equal; `keys[i]` is the key of `items[i]`.
pub fn sort_by_keys<T>(
    items: Vec<T>,
    keys: Vec<SortKey>,
    Ghost(key_of): Ghost<spec_fn(T) -> KeyView>,
) -> (sorted: Vec<T>)
    requires
        keys@.len() == items@.len(),
        forall|i: int| 0 <= i < items@.len() ==> #[trigger] keys@[i].key_view() == key_of(items@[i]),
    ensures
        sorted@.to_multiset() == items@.to_multiset(),
        sorted_by_key(sorted@, key_of),
{
    let ghost original = items@;
    let mut rest_items = items;
    let mut rest_keys = keys;
    let mut out_items: Vec<T> = Vec::new();
    let mut out_keys: Vec<SortKey> = Vec::new();
    let mut taken: usize = 0;
    let total = rest_items.len();
    while rest_items.len() > 0
        invariant
            total == original.len(),
            taken + rest_items@.len() == total,
            rest_keys@.len() == rest_items@.len(),
            rest_items@ == original.skip(taken as int),
            forall|i: int|
                0 <= i < rest_items@.len() ==> #[trigger] rest_keys@[i].key_view() == key_of(
                    rest_items@[i],
                ),
            out_keys@.len() == out_items@.len(),
            forall|i: int|
                0 <= i < out_items@.len() ==> #[trigger] out_keys@[i].key_view() == key_of(
                    out_items@[i],
                ),
            out_items@.to_multiset() == original.take(taken as int).to_multiset(),
            sorted_by_key(out_items@, key_of),
        decreases rest_items@.len(),
    {
        let ghost prior_items = rest_items@;
        let ghost prior_keys = rest_keys@;
        let item = rest_items.remove(0);
        let key = rest_keys.remove(0);
        proof {
            assert(key == prior_keys[0] && item == prior_items[0]);
            assert(key.key_view() == key_of(item));
            assert(original.take(taken + 1) =~= original.take(taken as int).push(item));
            assert(original.skip(taken + 1) =~= original.skip(taken as int).remove(0));
            assert forall|i: int| 0 <= i < rest_items@.len() implies #[trigger] rest_keys@[i].key_view()
                == key_of(rest_items@[i]) by {
                assert(rest_items@[i] == prior_items[i + 1]);
                assert(rest_keys@[i] == prior_keys[i + 1]);
            }
        }
        let mut p: usize = 0;
        while p < out_keys.len() && !sorts_before(&key, &out_keys[p])
            invariant
                p <= out_keys@.len(),
                out_keys@.len() == out_items@.len(),
                key.key_view() == key_of(item),
                forall|i: int|
                    0 <= i < out_items@.len() ==> #[trigger] out_keys@[i].key_view() == key_of(
                        out_items@[i],
                    ),
                forall|j: int| 0 <= j < p ==> !key_less(key_of(item), key_of(#[trigger] out_items@[j])),
            decreases out_keys@.len() - p,
        {
            p = p + 1;
        }
        let ghost before = out_items@;
        proof {
            let ghost le = key_order(key_of);
            assert forall|i: int, j: int|
                0 <= i < j < before.insert(p as int, item).len() implies #[trigger] le(
                before.insert(p as int, item)[i],
                before.insert(p as int, item)[j],
            ) by {
                let s = before.insert(p as int, item);
                if j < p {
                    assert(s[i] == before[i] && s[j] == before[j]);
                    assert(le(before[i], before[j]));
                } else if j == p {
                    assert(s[j] == item);
                    assert(s[i] == before[i]);
                } else if i == p {
                    assert(s[i] == item);
                    assert(s[j] == before[j - 1]);
                    // item sorts strictly before before[p], and before[j - 1]
                    // does not sort before before[p].
                    lemma_key_less_order(key_of(before[j - 1]), key_of(item), key_of(before[p as int]));
                    if j - 1 > p {
                        assert(le(before[p as int], before[j - 1]));
                    }
                } else if i < p {
                    assert(s[i] == before[i] && s[j] == before[j - 1]);
                    assert(le(before[i], before[j - 1]));
                } else {
                    assert(s[i] == before[i - 1] && s[j] == before[j - 1]);
                    assert(le(before[i - 1], before[j - 1]));
                }
            }
        }
        out_items.insert(p, item);
        out_keys.insert(p, key);
        proof {
            assert forall|i: int| 0 <= i < out_items@.len() implies #[trigger] out_keys@[i].key_view()
                == key_of(out_items@[i]) by {
                if i < p {
                    assert(out_items@[i] == before[i]);
                } else if i > p {
                    assert(out_items@[i] == before[i - 1]);
                }
            }
        }
        taken = taken + 1;
    }
    assert(original.take(total as int) =~= original);
    out_items
}

} // verus!
