//! The boundary to the `lru` crate: the cache type, the names under which
//! contracts speak of what a cache holds, and one wrapper for each method of
//! `LruCache` that the library calls. Nothing in this file is proved; the
//! contracts restate what the crate's source shows.

use vstd::prelude::*;
use lru::LruCache;

verus! {

/// A cached template: its text and the time of its last use, in milliseconds
/// on the caller's clock.
pub struct CachedTemplate {
    pub content: String,
    pub last_accessed: u64,
}

/// One cache entry as contracts see it.
pub struct Slot {
    pub key: Seq<char>,
    pub content: Seq<char>,
    pub last_accessed: u64,
}

/// The slot that `value` fills when it is stored under `key`.
pub open spec fn slot_of(key: Seq<char>, value: CachedTemplate) -> Slot {
    Slot { key, content: value.content@, last_accessed: value.last_accessed }
}

/// Whether some slot is stored under `key`.
pub open spec fn holds(slots: Seq<Slot>, key: Seq<char>) -> bool {
    exists|i: int| 0 <= i < slots.len() && (#[trigger] slots[i]).key == key
}

/// Where the slot stored under `key` stands, counted from the most recently
/// used one.
pub open spec fn position(slots: Seq<Slot>, key: Seq<char>) -> int {
    choose|i: int| 0 <= i < slots.len() && (#[trigger] slots[i]).key == key
}

/// The slots after `slot` was put among `slots` in a cache made for `limit`
/// entries. The new slot stands first. It takes the place of the slot with
/// its key if there is one; if there is none and the cache is full, the last
/// slot leaves.
pub open spec fn stored(slots: Seq<Slot>, limit: nat, slot: Slot) -> Seq<Slot> {
    if holds(slots, slot.key) {
        seq![slot] + slots.remove(position(slots, slot.key))
    } else if slots.len() == limit {
        seq![slot] + slots.drop_last()
    } else {
        seq![slot] + slots
    }
}

/// The slots after the one under `key`, if any, was taken out.
pub open spec fn without(slots: Seq<Slot>, key: Seq<char>) -> Seq<Slot> {
    if holds(slots, key) {
        slots.remove(position(slots, key))
    } else {
        slots
    }
}

/// `lru::LruCache`, held as it is. Of what a cache holds the library knows
/// what the wrappers below state, and nothing else.
#[verifier::external_type_specification]
#[verifier::external_body]
#[verifier::reject_recursive_types(K)]
#[verifier::reject_recursive_types(V)]
#[verifier::reject_recursive_types(S)]
pub struct ExLruCache<K, V, S>(LruCache<K, V, S>);

/// `lru::DefaultHasher`, the hasher of a cache that is made with
/// `LruCache::new`. The library never touches it.
#[verifier::external_type_specification]
#[verifier::external_body]
pub struct ExDefaultHasher(lru::DefaultHasher);

/// The entries of a cache in the order of its recency list, the most
/// recently used first.
pub uninterp spec fn lru_slots(cache: LruCache<String, CachedTemplate>) -> Seq<Slot>;

/// The number of entries that the cache was made to hold.
pub uninterp spec fn lru_limit(cache: LruCache<String, CachedTemplate>) -> nat;

/// The largest capacity that a cache can be made for.
pub const MAX_CAPACITY: usize = usize::MAX / 128;

/// `LruCache::new`: an empty cache that holds at most `cap` entries. The
/// capacity is handed over as a `NonZeroUsize`, so zero is left out. The
/// cache lays out its index for `cap` entries at once, in a hash table that
/// panics where the table would be larger than a single allocation can be;
/// up to `MAX_CAPACITY` entries it is not, whether addresses have 32 or 64
/// bits.
#[verifier::external_body]
pub(crate) fn lru_new(cap: usize) -> (cache: LruCache<String, CachedTemplate>)
    requires
        0 < cap <= MAX_CAPACITY,
    ensures
        lru_slots(cache) == Seq::<Slot>::empty(),
        lru_limit(cache) == cap,
{
    LruCache::new(std::num::NonZeroUsize::new(cap).unwrap())
}

/// `LruCache::len`: the number of entries.
#[verifier::external_body]
pub(crate) fn lru_len(cache: &LruCache<String, CachedTemplate>) -> (n: usize)
    ensures
        n == lru_slots(*cache).len(),
{
    cache.len()
}

/// `LruCache::get_mut`: a reference to the value under `key`, if there is
/// one. The entry is moved to the front of the recency list, and what the
/// caller leaves behind the reference is what the cache holds afterwards.
/// Without such an entry nothing changes.
#[verifier::external_body]
pub(crate) fn lru_get_mut<'a>(
    cache: &'a mut LruCache<String, CachedTemplate>,
    key: &str,
) -> (found: Option<&'a mut CachedTemplate>)
    ensures
        lru_limit(*final(cache)) == lru_limit(*old(cache)),
        match found {
            Some(entry) => {
                &&& holds(lru_slots(*old(cache)), key@)
                &&& slot_of(key@, *entry) == lru_slots(*old(cache))[position(
                    lru_slots(*old(cache)),
                    key@,
                )]
                &&& lru_slots(*final(cache)) == seq![slot_of(key@, *final(entry))] + lru_slots(
                    *old(cache),
                ).remove(position(lru_slots(*old(cache)), key@))
            },
            None => {
                &&& !holds(lru_slots(*old(cache)), key@)
                &&& lru_slots(*final(cache)) == lru_slots(*old(cache))
            },
        },
{
    cache.get_mut(key)
}

/// `LruCache::put`: stores `value` under `key` at the front of the recency
/// list. An entry with that key is replaced and its old value returned.
/// Otherwise `None` is returned, and a cache that was full has dropped the
/// entry at the back of the list.
#[verifier::external_body]
pub(crate) fn lru_put(
    cache: &mut LruCache<String, CachedTemplate>,
    key: String,
    value: CachedTemplate,
) -> (previous: Option<CachedTemplate>)
    ensures
        lru_limit(*final(cache)) == lru_limit(*old(cache)),
        lru_slots(*final(cache)) == stored(
            lru_slots(*old(cache)),
            lru_limit(*old(cache)),
            slot_of(key@, value),
        ),
        match previous {
            Some(was) => {
                &&& holds(lru_slots(*old(cache)), key@)
                &&& slot_of(key@, was) == lru_slots(*old(cache))[position(
                    lru_slots(*old(cache)),
                    key@,
                )]
            },
            None => !holds(lru_slots(*old(cache)), key@),
        },
{
    cache.put(key, value)
}

/// `LruCache::pop`: takes the entry under `key` out of the cache and returns
/// its value; `None`, and no change, where there is no such entry.
#[verifier::external_body]
pub(crate) fn lru_pop(cache: &mut LruCache<String, CachedTemplate>, key: &str) -> (taken: Option<
    CachedTemplate,
>)
    ensures
        lru_limit(*final(cache)) == lru_limit(*old(cache)),
        lru_slots(*final(cache)) == without(lru_slots(*old(cache)), key@),
        match taken {
            Some(was) => {
                &&& holds(lru_slots(*old(cache)), key@)
                &&& slot_of(key@, was) == lru_slots(*old(cache))[position(
                    lru_slots(*old(cache)),
                    key@,
                )]
            },
            None => !holds(lru_slots(*old(cache)), key@),
        },
{
    cache.pop(key)
}

/// `LruCache::iter`: walks the entries from the most recently used one to
/// the least recently used one. Each entry is handed out as a copy of its key
/// with the time of its last use.
#[verifier::external_body]
pub(crate) fn lru_stamps(cache: &LruCache<String, CachedTemplate>) -> (stamps: Vec<(String, u64)>)
    ensures
        stamps@.len() == lru_slots(*cache).len(),
        forall|i: int|
            0 <= i < stamps@.len() ==> (#[trigger] stamps@[i]).0@ == lru_slots(*cache)[i].key
                && stamps@[i].1 == lru_slots(*cache)[i].last_accessed,
{
    cache.iter().map(|(key, value)| (key.clone(), value.last_accessed)).collect()
}

} // verus!
