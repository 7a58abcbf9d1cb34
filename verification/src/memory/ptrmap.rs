//! The pointer map of the analyzer: an `indexmap::IndexMap` from pointer
//! to event index, and what the analyzer relies on of it.

use indexmap::IndexMap;
use vstd::prelude::*;

verus! {

/// Makes `indexmap::IndexMap` known as a type whose values are opaque:
/// what a map holds is told by `ptrmap_entries` alone.
#[verifier::external_type_specification]
#[verifier::external_body]
#[verifier::reject_recursive_types(K)]
#[verifier::reject_recursive_types(V)]
#[verifier::reject_recursive_types(S)]
pub struct ExIndexMap<K, V, S>(IndexMap<K, V, S>);

/// The entries of a pointer map, in the map's own order: the order in
/// which `IndexMap::values` walks them.
pub uninterp spec fn ptrmap_entries(m: IndexMap<u64, usize>) -> Seq<(u64, usize)>;

/// The position of the first entry with key `key`, or the length when
/// there is none.
pub open spec fn position(entries: Seq<(u64, usize)>, key: u64) -> int
    decreases entries.len(),
{
    if entries.len() == 0 {
        0
    } else if entries.first().0 == key {
        0
    } else {
        1 + position(entries.drop_first(), key)
    }
}

/// Whether some entry has the key.
pub open spec fn has_key(entries: Seq<(u64, usize)>, key: u64) -> bool {
    position(entries, key) < entries.len()
}

/// The value stored under `key`, if any.
pub open spec fn lookup(entries: Seq<(u64, usize)>, key: u64) -> Option<usize> {
    if has_key(entries, key) {
        Some(entries[position(entries, key)].1)
    } else {
        None
    }
}

/// The entries after storing `value` under `key`: an entry with that key
/// keeps its place and takes the value; otherwise a new entry goes last.
pub open spec fn inserted(entries: Seq<(u64, usize)>, key: u64, value: usize) -> Seq<(u64, usize)> {
    if has_key(entries, key) {
        entries.update(position(entries, key), (key, value))
    } else {
        entries.push((key, value))
    }
}

/// The entries after removing `key`: the last entry takes the place of
/// the removed one. Unchanged when the key is absent.
pub open spec fn swap_removed(entries: Seq<(u64, usize)>, key: u64) -> Seq<(u64, usize)> {
    if has_key(entries, key) {
        entries.update(position(entries, key), entries.last()).drop_last()
    } else {
        entries
    }
}

/// The values of the entries, in order.
pub open spec fn values_of(entries: Seq<(u64, usize)>) -> Seq<usize> {
    Seq::new(entries.len(), |i: int| entries[i].1)
}

/// Whether no key occurs in two entries.
pub open spec fn keys_distinct(entries: Seq<(u64, usize)>) -> bool {
    forall|i: int, j: int|
        0 <= i < j < entries.len() ==> (#[trigger] entries[i]).0 != (#[trigger] entries[j]).0
}

/// An empty pointer map.
///
/// Calls `IndexMap::new`, which makes a map without entries.
#[verifier::external_body]
pub(crate) fn ptrmap_new() -> (m: IndexMap<u64, usize>)
    ensures
        ptrmap_entries(m) == Seq::<(u64, usize)>::empty(),
{
    IndexMap::new()
}

/// Stores `value` under `key` and returns the value that was there.
///
/// Calls `IndexMap::insert`: an equal key keeps its place in the order
/// and has its value replaced, the old value being returned; a new key
/// is put last and `None` is returned.
#[verifier::external_body]
pub(crate) fn ptrmap_insert(m: &mut IndexMap<u64, usize>, key: u64, value: usize) -> (prev: Option<
    usize,
>)
    ensures
        ptrmap_entries(*final(m)) == inserted(ptrmap_entries(*old(m)), key, value),
        prev == lookup(ptrmap_entries(*old(m)), key),
{
    m.insert(key, value)
}

/// Removes `key` and returns its value, or `None` when it is absent.
///
/// Calls `IndexMap::swap_remove`: the entry is removed by swapping it
/// with the last entry of the map and popping it, so the entry that was
/// last takes its place; an absent key leaves the map as it is.
#[verifier::external_body]
pub(crate) fn ptrmap_swap_remove(m: &mut IndexMap<u64, usize>, key: u64) -> (prev: Option<usize>)
    ensures
        ptrmap_entries(*final(m)) == swap_removed(ptrmap_entries(*old(m)), key),
        prev == lookup(ptrmap_entries(*old(m)), key),
{
    m.swap_remove(&key)
}

/// The values of the map, in the map's order.
///
/// Calls `IndexMap::values`, which walks the entries in their order, and
/// copies each value out.
#[verifier::external_body]
pub(crate) fn ptrmap_values(m: &IndexMap<u64, usize>) -> (values: Vec<usize>)
    ensures
        values@ == values_of(ptrmap_entries(*m)),
{
    m.values().copied().collect()
}

/// The position of a key is where the key first occurs.
pub proof fn lemma_position(entries: Seq<(u64, usize)>, key: u64)
    ensures
        0 <= position(entries, key) <= entries.len(),
        has_key(entries, key) ==> entries[position(entries, key)].0 == key,
        forall|i: int| 0 <= i < position(entries, key) ==> (#[trigger] entries[i]).0 != key,
    decreases entries.len(),
{
    if entries.len() > 0 && entries.first().0 != key {
        let rest = entries.drop_first();
        lemma_position(rest, key);
        assert forall|i: int| 0 <= i < position(entries, key) implies (#[trigger] entries[i]).0
            != key by {
            if i > 0 {
                assert(entries[i] == rest[i - 1]);
            }
        }
    }
}

/// An index is the position of a key when the key is not found before it
/// and is found at it, or the index is the length.
pub proof fn lemma_position_is(entries: Seq<(u64, usize)>, key: u64, at: int)
    requires
        0 <= at <= entries.len(),
        at < entries.len() ==> entries[at].0 == key,
        forall|i: int| 0 <= i < at ==> (#[trigger] entries[i]).0 != key,
    ensures
        position(entries, key) == at,
    decreases entries.len(),
{
    if entries.len() > 0 && at > 0 {
        let rest = entries.drop_first();
        assert(entries[0].0 != key);
        assert forall|i: int| 0 <= i < at - 1 implies (#[trigger] rest[i]).0 != key by {
            assert(rest[i] == entries[i + 1]);
        }
        lemma_position_is(rest, key, at - 1);
    }
}

/// With distinct keys, every entry is found under its key.
pub proof fn lemma_lookup_entry(entries: Seq<(u64, usize)>, at: int)
    requires
        keys_distinct(entries),
        0 <= at < entries.len(),
    ensures
        position(entries, entries[at].0) == at,
        lookup(entries, entries[at].0) == Some(entries[at].1),
{
    assert forall|i: int| 0 <= i < at implies (#[trigger] entries[i]).0 != entries[at].0 by {}
    lemma_position_is(entries, entries[at].0, at);
}

/// Storing a value keeps the keys distinct, makes the key map to the
/// value and leaves every other key as it was.
pub proof fn lemma_inserted(entries: Seq<(u64, usize)>, key: u64, value: usize, other: u64)
    requires
        keys_distinct(entries),
    ensures
        keys_distinct(inserted(entries, key, value)),
        lookup(inserted(entries, key, value), other) == if other == key {
            Some(value)
        } else {
            lookup(entries, other)
        },
{
    let next = inserted(entries, key, value);
    lemma_position(entries, key);
    lemma_position(entries, other);
    let at = position(entries, key);
    let q = position(entries, other);
    if has_key(entries, key) {
        assert forall|i: int| 0 <= i < next.len() implies (#[trigger] next[i]).0 == entries[i].0 by {}
        assert(keys_distinct(next)) by {
            assert forall|i: int, j: int| 0 <= i < j < next.len() implies (#[trigger] next[i]).0 != (
            #[trigger] next[j]).0 by {
                assert(entries[i].0 != entries[j].0);
            }
        }
        assert forall|i: int| 0 <= i < q implies (#[trigger] next[i]).0 != other by {
            assert(entries[i].0 != other);
        }
        lemma_position_is(next, other, q);
    } else {
        assert(at == entries.len());
        assert(keys_distinct(next)) by {
            assert forall|i: int, j: int| 0 <= i < j < next.len() implies (#[trigger] next[i]).0 != (
            #[trigger] next[j]).0 by {
                if j == entries.len() {
                    assert(next[i] == entries[i]);
                    assert(entries[i].0 != key);
                } else {
                    assert(entries[i].0 != entries[j].0);
                }
            }
        }
        if other == key {
            assert forall|i: int| 0 <= i < at implies (#[trigger] next[i]).0 != other by {
                assert(next[i] == entries[i]);
            }
            lemma_position_is(next, other, at);
        } else if q < entries.len() {
            assert forall|i: int| 0 <= i < q implies (#[trigger] next[i]).0 != other by {
                assert(next[i] == entries[i]);
            }
            lemma_position_is(next, other, q);
        } else {
            assert forall|i: int| 0 <= i < next.len() implies (#[trigger] next[i]).0 != other by {
                if i < entries.len() {
                    assert(next[i] == entries[i]);
                }
            }
            lemma_position_is(next, other, next.len() as int);
        }
    }
}

/// Removing a key keeps the keys distinct, leaves the key absent and
/// every other key as it was.
pub proof fn lemma_swap_removed(entries: Seq<(u64, usize)>, key: u64, other: u64)
    requires
        keys_distinct(entries),
    ensures
        keys_distinct(swap_removed(entries, key)),
        lookup(swap_removed(entries, key), other) == if other == key {
            None
        } else {
            lookup(entries, other)
        },
{
    let next = swap_removed(entries, key);
    lemma_position(entries, key);
    lemma_position(entries, other);
    let at = position(entries, key);
    let q = position(entries, other);
    if has_key(entries, key) {
        let last = entries.len() - 1;
        // Where each entry of `next` stood before.
        assert forall|i: int| 0 <= i < next.len() implies #[trigger] next[i] == entries[if i
            == at {
            last
        } else {
            i
        }] by {}
        assert(keys_distinct(next)) by {
            assert forall|i: int, j: int| 0 <= i < j < next.len() implies (#[trigger] next[i]).0 != (
            #[trigger] next[j]).0 by {
                let a = if i == at {
                    last
                } else {
                    i
                };
                let b = if j == at {
                    last
                } else {
                    j
                };
                assert(next[i] == entries[a]);
                assert(next[j] == entries[b]);
                if a < b {
                    assert(entries[a].0 != entries[b].0);
                } else {
                    assert(entries[b].0 != entries[a].0);
                }
            }
        }
        if other == key {
            assert forall|i: int| 0 <= i < next.len() implies (#[trigger] next[i]).0 != other by {
                let a = if i == at {
                    last
                } else {
                    i
                };
                assert(next[i] == entries[a]);
                if a < at {
                    assert(entries[a].0 != entries[at].0);
                } else {
                    assert(entries[at].0 != entries[a].0);
                }
            }
            lemma_position_is(next, other, next.len() as int);
        } else if q == entries.len() {
            assert forall|i: int| 0 <= i < next.len() implies (#[trigger] next[i]).0 != other by {
                let a = if i == at {
                    last
                } else {
                    i
                };
                assert(next[i] == entries[a]);
                assert(entries[a].0 != other);
            }
            lemma_position_is(next, other, next.len() as int);
        } else {
            // `other` is found at `q`; it moves only when it was last.
            let to = if q == last {
                at
            } else {
                q
            };
            assert(q != at);
            assert(next[to] == entries[q]);
            assert forall|i: int| 0 <= i < to implies (#[trigger] next[i]).0 != other by {
                let a = if i == at {
                    last
                } else {
                    i
                };
                assert(next[i] == entries[a]);
                if a < q {
                    assert(entries[a].0 != entries[q].0);
                } else if a > q {
                    assert(entries[q].0 != entries[a].0);
                }
            }
            lemma_position_is(next, other, to);
        }
    }
}

} // verus!
