//! The cache as contracts see it: a sequence of slots, the most recently
//! used first, and what each operation makes of it. The lemmas of this file
//! show that every operation keeps the keys distinct and the size within
//! the limit.

use vstd::prelude::*;
use crate::lru_store::{holds, position, stored, without, Slot};

verus! {

/// No two slots share a key.
pub open spec fn distinct_keys(slots: Seq<Slot>) -> bool {
    forall|i: int, j: int|
        0 <= i < j < slots.len() ==> (#[trigger] slots[i]).key != (#[trigger] slots[j]).key
}

/// The text stored under `key`, if any.
pub open spec fn content_at(slots: Seq<Slot>, key: Seq<char>) -> Option<Seq<char>> {
    if holds(slots, key) {
        Some(slots[position(slots, key)].content)
    } else {
        None
    }
}

/// The slots after a hit on `key` at time `now`: the slot moves to the front
/// and carries the new time.
pub open spec fn touched(slots: Seq<Slot>, key: Seq<char>, now: u64) -> Seq<Slot> {
    if holds(slots, key) {
        let at = position(slots, key);
        seq![Slot { last_accessed: now, ..slots[at] }] + slots.remove(at)
    } else {
        slots
    }
}

/// How long an entry last used at `last_accessed` has been idle at `now`.
/// A reading of the clock that lies before the entry's time counts as no
/// idle time.
pub open spec fn idle_time(now: u64, last_accessed: u64) -> nat {
    if now >= last_accessed {
        (now - last_accessed) as nat
    } else {
        0
    }
}

/// Whether a slot survives a sweep at `now` for entries idle `max_age` or
/// longer.
pub open spec fn is_fresh(slot: Slot, now: u64, max_age: u64) -> bool {
    idle_time(now, slot.last_accessed) < max_age
}

/// The slots that survive a sweep, in their order.
pub open spec fn fresh(slots: Seq<Slot>, now: u64, max_age: u64) -> Seq<Slot> {
    slots.filter(|slot: Slot| is_fresh(slot, now, max_age))
}

/// Putting a slot into a cache keeps its keys distinct and its size within
/// the limit.
pub proof fn lemma_stored_well_formed(slots: Seq<Slot>, limit: nat, slot: Slot)
    requires
        distinct_keys(slots),
        slots.len() <= limit,
        limit >= 1,
    ensures
        distinct_keys(stored(slots, limit, slot)),
        stored(slots, limit, slot).len() <= limit,
        stored(slots, limit, slot).len() >= 1,
        stored(slots, limit, slot)[0] == slot,
{
    let after = stored(slots, limit, slot);
    if holds(slots, slot.key) {
        let at = position(slots, slot.key);
        assert forall|i: int, j: int| 0 <= i < j < after.len() implies (#[trigger] after[i]).key
            != (#[trigger] after[j]).key by {
            lemma_removed_index(slots, at, j - 1);
            if i > 0 {
                lemma_removed_index(slots, at, i - 1);
            }
        }
    } else {
        assert forall|i: int, j: int| 0 <= i < j < after.len() implies (#[trigger] after[i]).key
            != (#[trigger] after[j]).key by {
            assert(after[j] == slots[j - 1]);
            if i > 0 {
                assert(after[i] == slots[i - 1]);
            }
        }
    }
}

/// A hit keeps the keys distinct and the number of slots.
pub proof fn lemma_touched_well_formed(slots: Seq<Slot>, key: Seq<char>, now: u64)
    requires
        distinct_keys(slots),
    ensures
        distinct_keys(touched(slots, key, now)),
        touched(slots, key, now).len() == slots.len(),
{
    if holds(slots, key) {
        let at = position(slots, key);
        let after = touched(slots, key, now);
        assert forall|i: int, j: int| 0 <= i < j < after.len() implies (#[trigger] after[i]).key
            != (#[trigger] after[j]).key by {
            lemma_removed_index(slots, at, j - 1);
            if i > 0 {
                lemma_removed_index(slots, at, i - 1);
            }
        }
    }
}

/// Taking a key out keeps the keys distinct and does not add a slot.
pub proof fn lemma_without_well_formed(slots: Seq<Slot>, key: Seq<char>)
    requires
        distinct_keys(slots),
    ensures
        distinct_keys(without(slots, key)),
        without(slots, key).len() <= slots.len(),
        !holds(without(slots, key), key),
{
    if holds(slots, key) {
        let at = position(slots, key);
        let after = without(slots, key);
        assert forall|i: int, j: int| 0 <= i < j < after.len() implies (#[trigger] after[i]).key
            != (#[trigger] after[j]).key by {
            lemma_removed_index(slots, at, i);
            lemma_removed_index(slots, at, j);
        }
        assert forall|i: int| 0 <= i < after.len() implies (#[trigger] after[i]).key != key by {
            lemma_removed_index(slots, at, i);
        }
    }
}

/// A sweep keeps the keys distinct and does not add a slot.
pub proof fn lemma_fresh_well_formed(slots: Seq<Slot>, now: u64, max_age: u64)
    requires
        distinct_keys(slots),
    ensures
        distinct_keys(fresh(slots, now, max_age)),
        fresh(slots, now, max_age).len() <= slots.len(),
    decreases slots.len(),
{
    reveal(Seq::filter);
    if slots.len() > 0 {
        let earlier = slots.drop_last();
        assert(distinct_keys(earlier)) by {
            assert forall|i: int, j: int| 0 <= i < j < earlier.len() implies (
            #[trigger] earlier[i]).key != (#[trigger] earlier[j]).key by {
                assert(earlier[i] == slots[i]);
                assert(earlier[j] == slots[j]);
            }
        }
        lemma_fresh_well_formed(earlier, now, max_age);
        let keep = |slot: Slot| is_fresh(slot, now, max_age);
        let kept = fresh(earlier, now, max_age);
        if is_fresh(slots.last(), now, max_age) {
            let after = kept.push(slots.last());
            assert forall|i: int, j: int| 0 <= i < j < after.len() implies (
            #[trigger] after[i]).key != (#[trigger] after[j]).key by {
                if j == kept.len() {
                    assert(kept.contains(kept[i]));
                    earlier.lemma_filter_contains_rev(keep, kept[i]);
                    let k = choose|k: int| 0 <= k < earlier.len() && earlier[k] == kept[i];
                    assert(slots[k].key != slots[slots.len() - 1].key);
                }
            }
        }
    }
}

/// A sweep over no slots leaves none.
pub proof fn lemma_fresh_of_nothing(slots: Seq<Slot>, now: u64, max_age: u64)
    ensures
        fresh(slots.take(0), now, max_age) == Seq::<Slot>::empty(),
{
    reveal(Seq::filter);
    assert(slots.take(0) =~= Seq::<Slot>::empty());
}

/// One step of a sweep from the front: with the first `i` slots swept and
/// the others still in place, taking out the key of slot `i` where it is
/// stale, or leaving it where it is fresh, gives the first `i + 1` swept.
pub proof fn lemma_sweep_step(all: Seq<Slot>, i: int, now: u64, max_age: u64)
    requires
        distinct_keys(all),
        0 <= i < all.len(),
    ensures
        is_fresh(all[i], now, max_age) ==> fresh(all.take(i), now, max_age) + all.skip(i)
            == fresh(all.take(i + 1), now, max_age) + all.skip(i + 1),
        !is_fresh(all[i], now, max_age) ==> without(
            fresh(all.take(i), now, max_age) + all.skip(i),
            all[i].key,
        ) == fresh(all.take(i + 1), now, max_age) + all.skip(i + 1),
{
    let keep = |slot: Slot| is_fresh(slot, now, max_age);
    let swept = fresh(all.take(i), now, max_age);
    let current = swept + all.skip(i);
    assert(all.take(i + 1).drop_last() =~= all.take(i));
    assert(all.take(i + 1).last() == all[i]);
    assert(fresh(all.take(i + 1), now, max_age) == if is_fresh(all[i], now, max_age) {
        swept.push(all[i])
    } else {
        swept
    }) by {
        reveal(Seq::filter);
    }
    if is_fresh(all[i], now, max_age) {
        assert(current =~= swept.push(all[i]) + all.skip(i + 1));
    } else {
        let key = all[i].key;
        let here = swept.len() as int;
        assert(current[here] == all[i]);
        assert forall|k: int| 0 <= k < current.len() && k != here implies (
        #[trigger] current[k]).key != key by {
            if k < here {
                assert(swept.contains(swept[k]));
                all.take(i).lemma_filter_contains_rev(keep, swept[k]);
                let j = choose|j: int| 0 <= j < all.take(i).len() && all.take(i)[j] == swept[k];
                assert(all[j] == swept[k]);
            } else {
                assert(current[k] == all[i + (k - here)]);
            }
        }
        assert(holds(current, key));
        assert(position(current, key) == here);
        assert(current.remove(here) =~= swept + all.skip(i + 1));
    }
}

/// What stands at index `k` after the slot at `at` was removed.
pub proof fn lemma_removed_index(slots: Seq<Slot>, at: int, k: int)
    requires
        0 <= at < slots.len(),
        0 <= k < slots.len() - 1,
    ensures
        slots.remove(at).len() == slots.len() - 1,
        slots.remove(at)[k] == if k < at {
            slots[k]
        } else {
            slots[k + 1]
        },
{
}

} // verus!
