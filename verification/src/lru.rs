//! The least-recently-used cache that holds the chunks, and what the rest of
//! the crate takes for granted about it.
//!
//! The cache is `lru_time_cache::LruCache`, made with a capacity and without
//! an expiry time. Its contents are modelled as a sequence of entries, the
//! least recently used first. Nothing in this file is proved: each function
//! states what the source of that crate shows of the call it makes.
use vstd::prelude::*;
use lru_time_cache::LruCache;

verus! {

#[verifier::external_type_specification]
#[verifier::external_body]
#[verifier::reject_recursive_types(Key)]
#[verifier::reject_recursive_types(Value)]
pub struct ExLruCache<Key, Value>(LruCache<Key, Value>);

/// The entries of a cache, each a key and its value, the least recently used
/// first.
pub uninterp spec fn lru_entries(cache: LruCache<u128, usize>) -> Seq<(u128, usize)>;

/// The number of entries that a cache was made to hold.
pub uninterp spec fn lru_capacity(cache: LruCache<u128, usize>) -> nat;

/// Whether the entries hold `key`.
pub open spec fn holds(entries: Seq<(u128, usize)>, key: u128) -> bool {
    exists|i: int| 0 <= i < entries.len() && (#[trigger] entries[i]).0 == key
}

/// A place at which the entries hold `key`.
pub open spec fn place_of(entries: Seq<(u128, usize)>, key: u128) -> int {
    choose|i: int| 0 <= i < entries.len() && (#[trigger] entries[i]).0 == key
}

/// The value stored under `key`, if any.
pub open spec fn value_of(entries: Seq<(u128, usize)>, key: u128) -> Option<usize> {
    if holds(entries, key) {
        Some(entries[place_of(entries, key)].1)
    } else {
        None
    }
}

/// The entries after `key` was used: its entry has moved to the end.
pub open spec fn promoted(entries: Seq<(u128, usize)>, key: u128) -> Seq<(u128, usize)> {
    if holds(entries, key) {
        let place = place_of(entries, key);
        entries.remove(place).push(entries[place])
    } else {
        entries
    }
}

/// The entries that stay when room is made for one more in a cache of the
/// given capacity: the least recently used leave first.
pub open spec fn with_room(entries: Seq<(u128, usize)>, capacity: nat) -> Seq<(u128, usize)> {
    if entries.len() >= capacity {
        entries.skip(entries.len() - capacity + 1)
    } else {
        entries
    }
}

/// The entries after `value` was inserted under `key`. A key that was held
/// gets the new value and moves to the end; a new key is added at the end
/// after room was made for it.
pub open spec fn inserted(
    entries: Seq<(u128, usize)>,
    capacity: nat,
    key: u128,
    value: usize,
) -> Seq<(u128, usize)> {
    if holds(entries, key) {
        entries.remove(place_of(entries, key)).push((key, value))
    } else {
        with_room(entries, capacity).push((key, value))
    }
}

/// `LruCache::with_capacity`: an empty cache for `capacity` entries. The call
/// reserves room for `capacity` keys at once, so `capacity` keys of sixteen
/// bytes must fit the address space.
#[verifier::external_body]
pub(crate) fn lru_with_capacity(capacity: usize) -> (cache: LruCache<u128, usize>)
    requires
        capacity * 16 <= isize::MAX,
    ensures
        lru_entries(cache) == Seq::<(u128, usize)>::empty(),
        lru_capacity(cache) == capacity,
{
    LruCache::with_capacity(capacity)
}

/// `LruCache::insert`: stores `value` under `key` as the most recently used
/// entry and returns the value that `key` had. For a new key in a full cache
/// the least recently used entry is dropped first. The call panics in a cache
/// of capacity zero.
#[verifier::external_body]
pub(crate) fn lru_insert(cache: &mut LruCache<u128, usize>, key: u128, value: usize) -> (replaced:
    Option<usize>)
    requires
        lru_capacity(*old(cache)) >= 1,
    ensures
        lru_entries(*final(cache)) == inserted(
            lru_entries(*old(cache)),
            lru_capacity(*old(cache)),
            key,
            value,
        ),
        lru_capacity(*final(cache)) == lru_capacity(*old(cache)),
        replaced == value_of(lru_entries(*old(cache)), key),
{
    cache.insert(key, value)
}

/// `LruCache::get`: the value under `key`, which becomes the most recently
/// used entry.
#[verifier::external_body]
pub(crate) fn lru_get(cache: &mut LruCache<u128, usize>, key: u128) -> (value: Option<usize>)
    ensures
        lru_entries(*final(cache)) == promoted(lru_entries(*old(cache)), key),
        lru_capacity(*final(cache)) == lru_capacity(*old(cache)),
        value == value_of(lru_entries(*old(cache)), key),
{
    cache.get(&key).copied()
}

/// `LruCache::peek`: the value under `key`; the order of the entries stays.
#[verifier::external_body]
pub(crate) fn lru_peek(cache: &LruCache<u128, usize>, key: u128) -> (value: Option<usize>)
    ensures
        value == value_of(lru_entries(*cache), key),
{
    cache.peek(&key).copied()
}

/// `LruCache::contains_key`: whether the cache holds `key`.
#[verifier::external_body]
pub(crate) fn lru_contains_key(cache: &LruCache<u128, usize>, key: u128) -> (found: bool)
    ensures
        found == holds(lru_entries(*cache), key),
{
    cache.contains_key(&key)
}

/// `LruCache::len`: the number of entries.
#[verifier::external_body]
pub(crate) fn lru_len(cache: &LruCache<u128, usize>) -> (len: usize)
    ensures
        len == lru_entries(*cache).len(),
{
    cache.len()
}

/// `LruCache::peek_iter`: the entries as the iterator hands them out, the
/// most recently used first, which is the order of the entries reversed.
/// The order of use stays.
#[verifier::external_body]
pub(crate) fn lru_peek_all(cache: &LruCache<u128, usize>) -> (newest_first: Vec<(u128, usize)>)
    ensures
        newest_first@.len() == lru_entries(*cache).len(),
        forall|i: int|
            0 <= i < newest_first@.len() ==> newest_first@[i] == lru_entries(*cache)[
                newest_first@.len() - 1 - i
            ],
{
    cache.peek_iter().map(|entry| (*entry.0, *entry.1)).collect()
}

} // verus!
