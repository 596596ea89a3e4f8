//! Vectors whose items are found by a text key, no key twice: the map they
//! stand for, and how it changes when an item is replaced or added.

use vstd::prelude::*;

verus! {

/// The items of `s` by key, each mapped to `val` of the item; where two
/// items share a key, one of them.
pub open spec fn keyed_view<T, V>(
    s: Seq<T>,
    key: spec_fn(T) -> Seq<char>,
    val: spec_fn(T) -> V,
) -> Map<Seq<char>, V> {
    Map::new(
        |k: Seq<char>| exists|i: int| 0 <= i < s.len() && key(s[i]) == k,
        |k: Seq<char>| val(s[choose|i: int| 0 <= i < s.len() && key(s[i]) == k]),
    )
}

/// No two items of `s` share a key.
pub open spec fn keys_distinct<T>(s: Seq<T>, key: spec_fn(T) -> Seq<char>) -> bool {
    forall|i: int, j: int| 0 <= i < j < s.len() ==> key(s[i]) != key(s[j])
}

/// Replacing the item at `i` by one of the same key, or adding an item of a
/// new key at the end, keeps the keys apart and sets that key in the map.
pub proof fn lemma_keyed_update<T, V>(
    old_items: Seq<T>,
    nv: Seq<T>,
    i: int,
    item: T,
    key: spec_fn(T) -> Seq<char>,
    val: spec_fn(T) -> V,
)
    requires
        keys_distinct(old_items, key),
        0 <= i <= old_items.len(),
        i < old_items.len() ==> key(old_items[i]) == key(item) && nv == old_items.update(i, item),
        i == old_items.len() ==> (forall|m: int|
            0 <= m < old_items.len() ==> key(old_items[m]) != key(item)) && nv == old_items.push(
            item,
        ),
    ensures
        keys_distinct(nv, key),
        keyed_view(nv, key, val) == keyed_view(old_items, key, val).insert(key(item), val(item)),
{
    let k0 = key(item);
    let target = keyed_view(old_items, key, val).insert(k0, val(item));
    let view = keyed_view(nv, key, val);
    assert(nv[i] == item);
    assert forall|a: int, b: int| 0 <= a < b < nv.len() implies key(nv[a]) != key(nv[b]) by {
        if a == i {
            assert(key(old_items[b]) != k0);
        } else if b == i {
            if i < old_items.len() {
                assert(key(old_items[a]) != key(old_items[i]));
            }
        } else {
            assert(nv[a] == old_items[a] && nv[b] == old_items[b]);
        }
    }
    assert forall|k: Seq<char>| #[trigger] view.contains_key(k) <==> target.contains_key(k) by {
        if k != k0 && target.contains_key(k) {
            let w = choose|m: int| 0 <= m < old_items.len() && key(old_items[m]) == k;
            assert(w != i);
            assert(nv[w] == old_items[w]);
        }
        if k == k0 {
            assert(key(nv[i]) == k);
        }
        if view.contains_key(k) && k != k0 {
            let w = choose|m: int| 0 <= m < nv.len() && key(nv[m]) == k;
            assert(w != i);
            assert(old_items[w] == nv[w]);
        }
    }
    assert forall|k: Seq<char>| #[trigger] view.contains_key(k) implies view[k] == target[k] by {
        let w = choose|m: int| 0 <= m < nv.len() && key(nv[m]) == k;
        if k == k0 {
            assert(w == i);
        } else {
            let w0 = choose|m: int| 0 <= m < old_items.len() && key(old_items[m]) == k;
            assert(w0 != i);
            assert(nv[w0] == old_items[w0]);
            assert(w0 == w);
        }
    }
    assert(view =~= target);
}

} // verus!
