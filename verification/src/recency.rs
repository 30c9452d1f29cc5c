//! Entries in the order of their use, and the recency list that holds them.
use lru::LruCache;
use vstd::prelude::*;

verus! {

/// Whether no two entries have the same key.
pub open spec fn distinct(entries: Seq<(Seq<char>, u64)>) -> bool {
    forall|i: int, j: int|
        0 <= i < j < entries.len() ==> (#[trigger] entries[i]).0 != (#[trigger] entries[j]).0
}

/// The size recorded under `key`, if there is one.
pub open spec fn lookup(entries: Seq<(Seq<char>, u64)>, key: Seq<char>) -> Option<u64>
    decreases entries.len(),
{
    if entries.len() == 0 {
        None
    } else if entries.last().0 == key {
        Some(entries.last().1)
    } else {
        lookup(entries.drop_last(), key)
    }
}

/// All entries but those under `key`, in the same order.
pub open spec fn without(entries: Seq<(Seq<char>, u64)>, key: Seq<char>) -> Seq<(Seq<char>, u64)>
    decreases entries.len(),
{
    if entries.len() == 0 {
        entries
    } else if entries.last().0 == key {
        without(entries.drop_last(), key)
    } else {
        without(entries.drop_last(), key).push(entries.last())
    }
}

/// `entries` once `key` is recorded with `size`, as the most recently used.
pub open spec fn recorded(
    entries: Seq<(Seq<char>, u64)>,
    key: Seq<char>,
    size: u64,
) -> Seq<(Seq<char>, u64)> {
    without(entries, key).push((key, size))
}

/// `entries` once `key` is used: if it is there, it becomes the most recently
/// used.
pub open spec fn promoted(
    entries: Seq<(Seq<char>, u64)>,
    key: Seq<char>,
) -> Seq<(Seq<char>, u64)> {
    match lookup(entries, key) {
        Some(size) => recorded(entries, key, size),
        None => entries,
    }
}

/// The sum of all sizes.
pub open spec fn total_size(entries: Seq<(Seq<char>, u64)>) -> nat
    decreases entries.len(),
{
    if entries.len() == 0 {
        0
    } else {
        total_size(entries.drop_last()) + entries.last().1 as nat
    }
}

/// The keys, in order.
pub open spec fn keys(entries: Seq<(Seq<char>, u64)>) -> Seq<Seq<char>> {
    entries.map_values(|e: (Seq<char>, u64)| e.0)
}

/// What a recency list holds, from the least to the most recently used.
pub uninterp spec fn lru_entries(cache: LruCache<String, u64>) -> Seq<(Seq<char>, u64)>;

/// How many entries a recency list was made to hold at most.
pub uninterp spec fn lru_capacity(cache: LruCache<String, u64>) -> usize;

/// `lru::LruCache`, a list of entries in the order of their use.
#[verifier::external_type_specification]
#[verifier::external_body]
#[verifier::reject_recursive_types(K)]
#[verifier::reject_recursive_types(V)]
#[verifier::reject_recursive_types(S)]
pub struct ExLruCache<K, V, S>(lru::LruCache<K, V, S>);

/// Calls `LruCache::unbounded`: the list is empty, and its capacity is the
/// largest there is.
#[verifier::external_body]
pub(crate) fn lru_unbounded() -> (cache: LruCache<String, u64>)
    ensures
        lru_entries(cache) == Seq::<(Seq<char>, u64)>::empty(),
        lru_capacity(cache) == usize::MAX,
{
    LruCache::unbounded()
}

/// Calls `LruCache::put`: the key holds the new size and is the most recently
/// used; the size that it held before is handed back. A list that is full would
/// drop an entry to make room, so there has to be room.
#[verifier::external_body]
pub(crate) fn lru_put(cache: &mut LruCache<String, u64>, key: String, size: u64) -> (before: Option<
    u64,
>)
    requires
        lru_entries(*old(cache)).len() < lru_capacity(*old(cache)),
    ensures
        before == lookup(lru_entries(*old(cache)), key@),
        lru_entries(*final(cache)) == recorded(lru_entries(*old(cache)), key@, size),
        lru_capacity(*final(cache)) == lru_capacity(*old(cache)),
{
    cache.put(key, size)
}

/// Calls `LruCache::get`: hands back the size under the key, and makes the key
/// the most recently used.
#[verifier::external_body]
pub(crate) fn lru_get(cache: &mut LruCache<String, u64>, key: &str) -> (size: Option<u64>)
    ensures
        size == lookup(lru_entries(*old(cache)), key@),
        lru_entries(*final(cache)) == promoted(lru_entries(*old(cache)), key@),
        lru_capacity(*final(cache)) == lru_capacity(*old(cache)),
{
    cache.get(key).copied()
}

/// Calls `LruCache::pop`: takes the key out, and hands back the size it held.
#[verifier::external_body]
pub(crate) fn lru_pop(cache: &mut LruCache<String, u64>, key: &str) -> (size: Option<u64>)
    ensures
        size == lookup(lru_entries(*old(cache)), key@),
        lru_entries(*final(cache)) == without(lru_entries(*old(cache)), key@),
        lru_capacity(*final(cache)) == lru_capacity(*old(cache)),
{
    cache.pop(key)
}

/// Calls `LruCache::pop_lru`: takes out the least recently used entry and hands
/// it back; `None` if the list is empty.
#[verifier::external_body]
pub(crate) fn lru_pop_lru(cache: &mut LruCache<String, u64>) -> (entry: Option<(String, u64)>)
    ensures
        entry is Some <==> lru_entries(*old(cache)).len() > 0,
        entry matches Some(e) ==> (e.0@, e.1) == lru_entries(*old(cache)).first()
            && lru_entries(*final(cache)) == lru_entries(*old(cache)).drop_first(),
        entry is None ==> lru_entries(*final(cache)) == lru_entries(*old(cache)),
        lru_capacity(*final(cache)) == lru_capacity(*old(cache)),
{
    cache.pop_lru()
}

/// Calls `LruCache::len`: how many entries there are.
#[verifier::external_body]
pub(crate) fn lru_len(cache: &LruCache<String, u64>) -> (n: usize)
    ensures
        n == lru_entries(*cache).len(),
{
    cache.len()
}

/// `lookup` finds a key exactly where an entry has it.
pub proof fn lookup_finds(entries: Seq<(Seq<char>, u64)>, key: Seq<char>)
    ensures
        lookup(entries, key) is None <==> (forall|i: int|
            0 <= i < entries.len() ==> (#[trigger] entries[i]).0 != key),
        lookup(entries, key) matches Some(size) ==> exists|i: int|
            0 <= i < entries.len() && #[trigger] entries[i] == (key, size),
    decreases entries.len(),
{
    if entries.len() > 0 {
        let rest = entries.drop_last();
        lookup_finds(rest, key);
        if entries.last().0 == key {
            assert(entries[entries.len() - 1] == (key, entries.last().1));
        } else {
            if lookup(rest, key) is Some {
                let size = lookup(rest, key)->0;
                let i = choose|i: int|
                    0 <= i < rest.len() && #[trigger] rest[i] == (key, size);
                assert(entries[i] == (key, size));
            } else {
                assert forall|i: int| 0 <= i < entries.len() implies (#[trigger] entries[i]).0
                    != key by {
                    if i < rest.len() {
                        assert(rest[i] == entries[i]);
                    }
                }
            }
        }
    }
}

/// Where keys are distinct, an entry is what `lookup` finds under its key.
pub proof fn lookup_of_entry(entries: Seq<(Seq<char>, u64)>, i: int)
    requires
        distinct(entries),
        0 <= i < entries.len(),
    ensures
        lookup(entries, entries[i].0) == Some(entries[i].1),
    decreases entries.len(),
{
    let rest = entries.drop_last();
    if i < rest.len() {
        assert(entries[i].0 != entries[entries.len() - 1].0);
        assert(distinct(rest));
        lookup_of_entry(rest, i);
    }
}

/// Taking a key out leaves every other key as it was, and frees the size that
/// the key held.
pub proof fn without_takes_out(entries: Seq<(Seq<char>, u64)>, key: Seq<char>)
    requires
        distinct(entries),
    ensures
        distinct(without(entries, key)),
        lookup(without(entries, key), key) is None,
        forall|k: Seq<char>|
            k != key ==> #[trigger] lookup(without(entries, key), k) == lookup(entries, k),
        total_size(without(entries, key)) + (match lookup(entries, key) {
            Some(size) => size as nat,
            None => 0,
        }) == total_size(entries),
        without(entries, key).len() <= entries.len(),
        lookup(entries, key) is None ==> without(entries, key) == entries,
    decreases entries.len(),
{
    if entries.len() > 0 {
        let rest = entries.drop_last();
        let last = entries.last();
        assert(distinct(rest));
        without_takes_out(rest, key);
        lookup_finds(rest, key);
        if last.0 == key {
            assert forall|i: int| 0 <= i < rest.len() implies (#[trigger] rest[i]).0 != key by {
                assert(rest[i] == entries[i]);
                assert(entries[i].0 != entries[entries.len() - 1].0);
            }
            assert(without(rest, key) == rest);
            assert forall|k: Seq<char>| k != key implies #[trigger] lookup(
                without(entries, key),
                k,
            ) == lookup(entries, k) by {}
        } else {
            let kept = without(rest, key);
            let all = kept.push(last);
            assert(all.drop_last() =~= kept);
            assert forall|k: Seq<char>| k != key implies #[trigger] lookup(
                without(entries, key),
                k,
            ) == lookup(entries, k) by {
                assert(lookup(all, k) == if last.0 == k {
                    Some(last.1)
                } else {
                    lookup(kept, k)
                });
            }
            assert(lookup(rest, last.0) is None) by {
                lookup_finds(rest, last.0);
                assert forall|i: int| 0 <= i < rest.len() implies (#[trigger] rest[i]).0
                    != last.0 by {
                    assert(rest[i] == entries[i]);
                    assert(entries[i].0 != entries[entries.len() - 1].0);
                }
            }
            assert(lookup(kept, last.0) is None);
            lookup_finds(kept, last.0);
            assert(distinct(all)) by {
                assert forall|i: int, j: int| 0 <= i < j < all.len() implies (#[trigger] all[i]).0
                    != (#[trigger] all[j]).0 by {
                    assert(all[i] == kept[i]);
                    if j < kept.len() {
                        assert(all[j] == kept[j]);
                    }
                }
            }
            if lookup(entries, key) is None {
                assert(all =~= entries);
            }
        }
    }
}

/// Recording a key leaves every other key as it was, and counts the key once.
pub proof fn recorded_adds(entries: Seq<(Seq<char>, u64)>, key: Seq<char>, size: u64)
    requires
        distinct(entries),
    ensures
        distinct(recorded(entries, key, size)),
        lookup(recorded(entries, key, size), key) == Some(size),
        forall|k: Seq<char>|
            k != key ==> #[trigger] lookup(recorded(entries, key, size), k) == lookup(entries, k),
        total_size(recorded(entries, key, size)) == total_size(without(entries, key)) + size,
        recorded(entries, key, size).len() <= entries.len() + 1,
{
    without_takes_out(entries, key);
    let kept = without(entries, key);
    let all = recorded(entries, key, size);
    assert(all.drop_last() =~= kept);
    lookup_finds(kept, key);
    assert forall|i: int, j: int| 0 <= i < j < all.len() implies (#[trigger] all[i]).0 != (
    #[trigger] all[j]).0 by {
        assert(all[i] == kept[i]);
        if j < kept.len() {
            assert(all[j] == kept[j]);
        }
    }
    assert forall|k: Seq<char>| k != key implies #[trigger] lookup(all, k) == lookup(
        entries,
        k,
    ) by {
        assert(lookup(all, k) == lookup(kept, k));
    }
}

/// Using a key changes the order alone: every key holds what it held, and the
/// sum stays the same.
pub proof fn promoted_reorders(entries: Seq<(Seq<char>, u64)>, key: Seq<char>)
    requires
        distinct(entries),
    ensures
        distinct(promoted(entries, key)),
        forall|k: Seq<char>| #[trigger] lookup(promoted(entries, key), k) == lookup(entries, k),
        total_size(promoted(entries, key)) == total_size(entries),
        promoted(entries, key).len() == entries.len(),
        lookup(entries, key) is Some ==> promoted(entries, key).last().0 == key,
{
    without_takes_out(entries, key);
    without_drops_one(entries, key);
    match lookup(entries, key) {
        Some(size) => {
            recorded_adds(entries, key, size);
        },
        None => {},
    }
}

proof fn without_drops_one(entries: Seq<(Seq<char>, u64)>, key: Seq<char>)
    requires
        distinct(entries),
    ensures
        lookup(entries, key) is Some ==> without(entries, key).len() == entries.len() - 1,
    decreases entries.len(),
{
    if entries.len() > 0 {
        let rest = entries.drop_last();
        assert(distinct(rest));
        without_drops_one(rest, key);
        if entries.last().0 == key {
            lookup_finds(rest, key);
            assert forall|i: int| 0 <= i < rest.len() implies (#[trigger] rest[i]).0 != key by {
                assert(rest[i] == entries[i]);
                assert(entries[i].0 != entries[entries.len() - 1].0);
            }
            without_takes_out(rest, key);
        }
    }
}

/// The sum of all sizes is the first size and the sum of the rest.
pub proof fn total_size_front(entries: Seq<(Seq<char>, u64)>)
    requires
        entries.len() > 0,
    ensures
        total_size(entries) == entries.first().1 + total_size(entries.drop_first()),
    decreases entries.len(),
{
    let rest = entries.drop_first();
    if rest.len() > 0 {
        let front = entries.drop_last();
        total_size_front(front);
        assert(front.drop_first() =~= rest.drop_last());
        assert(front.first() == entries.first());
        assert(rest.last() == entries.last());
    } else {
        assert(entries.drop_last() =~= rest);
        assert(entries.last() == entries.first());
    }
}

} // verus!
