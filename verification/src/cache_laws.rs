//! What holds of the cache over any run of operations, stated over the
//! functions that the contracts of `AppState` use.

use vstd::prelude::*;
use crate::cache_model::{
    content_at, distinct_keys, fresh, is_fresh, lemma_fresh_well_formed, lemma_removed_index,
    lemma_stored_well_formed, lemma_touched_well_formed, lemma_without_well_formed, touched,
};
use crate::lru_store::{holds, position, stored, without, Slot};

verus! {

/// The slots stand in the order of their times: one nearer the front was
/// used no earlier than one behind it.
pub open spec fn time_ordered(slots: Seq<Slot>) -> bool {
    forall|i: int, j: int|
        0 <= i < j < slots.len() ==> (#[trigger] slots[i]).last_accessed >= (
        #[trigger] slots[j]).last_accessed
}

/// No slot was used after `now`.
pub open spec fn not_after(slots: Seq<Slot>, now: u64) -> bool {
    forall|i: int| 0 <= i < slots.len() ==> (#[trigger] slots[i]).last_accessed <= now
}

/// One operation on the cache.
pub enum Op {
    /// A lookup of `key` at time `now`.
    Lookup { key: Seq<char>, now: u64 },
    /// An insert, or a load or a refresh that stores what was read.
    Insert { slot: Slot },
    /// The removal of `key`.
    Remove { key: Seq<char> },
    /// A sweep at time `now` of what has been idle for `max_age` or longer.
    Sweep { max_age: u64, now: u64 },
}

/// The slots after `op`.
pub open spec fn applied(slots: Seq<Slot>, limit: nat, op: Op) -> Seq<Slot> {
    match op {
        Op::Lookup { key, now } => touched(slots, key, now),
        Op::Insert { slot } => stored(slots, limit, slot),
        Op::Remove { key } => without(slots, key),
        Op::Sweep { max_age, now } => fresh(slots, now, max_age),
    }
}

/// The slots after each of `ops`, one after the other.
pub open spec fn run(slots: Seq<Slot>, limit: nat, ops: Seq<Op>) -> Seq<Slot>
    decreases ops.len(),
{
    if ops.len() == 0 {
        slots
    } else {
        applied(run(slots, limit, ops.drop_last()), limit, ops.last())
    }
}

/// The time that `op` stamps an entry with, if it stamps one.
pub open spec fn stamp(op: Op) -> Option<u64> {
    match op {
        Op::Lookup { key, now } => Some(now),
        Op::Insert { slot } => Some(slot.last_accessed),
        Op::Remove { key } => None,
        Op::Sweep { max_age, now } => None,
    }
}

/// The times that the operations stamp entries with never go back.
pub open spec fn clock_never_goes_back(ops: Seq<Op>) -> bool {
    forall|i: int, j: int|
        0 <= i < j < ops.len() ==> (stamp(#[trigger] ops[i]) matches Some(earlier) ==> (stamp(
            #[trigger] ops[j],
        ) matches Some(later) ==> earlier <= later))
}

/// No slot was used after any of the times that the operations stamp
/// entries with.
pub open spec fn lies_before(slots: Seq<Slot>, ops: Seq<Op>) -> bool {
    forall|i: int|
        0 <= i < ops.len() ==> (stamp(#[trigger] ops[i]) matches Some(time) ==> not_after(
            slots,
            time,
        ))
}

/// Whatever the operations are, and however many, the cache holds no more
/// entries than its capacity, and no key twice.
pub proof fn lemma_run_stays_within_capacity(slots: Seq<Slot>, limit: nat, ops: Seq<Op>)
    requires
        distinct_keys(slots),
        slots.len() <= limit,
        limit >= 1,
    ensures
        distinct_keys(run(slots, limit, ops)),
        run(slots, limit, ops).len() <= limit,
    decreases ops.len(),
{
    if ops.len() > 0 {
        lemma_run_stays_within_capacity(slots, limit, ops.drop_last());
        let before = run(slots, limit, ops.drop_last());
        match ops.last() {
            Op::Lookup { key, now } => {
                lemma_touched_well_formed(before, key, now);
            },
            Op::Insert { slot } => {
                lemma_stored_well_formed(before, limit, slot);
            },
            Op::Remove { key } => {
                lemma_without_well_formed(before, key);
            },
            Op::Sweep { max_age, now } => {
                lemma_fresh_well_formed(before, now, max_age);
            },
        }
    }
}

/// An insert of a new key into a full cache evicts one entry, the last of the
/// recency order, and keeps all the others as they were. Where the slots
/// stand in the order of their times, no entry was used earlier than the
/// evicted one.
pub proof fn lemma_eviction_takes_the_oldest(slots: Seq<Slot>, limit: nat, slot: Slot)
    requires
        distinct_keys(slots),
        limit >= 1,
        slots.len() == limit,
        !holds(slots, slot.key),
    ensures
        stored(slots, limit, slot) == seq![slot] + slots.drop_last(),
        !holds(stored(slots, limit, slot), slots.last().key),
        forall|i: int|
            0 <= i < slots.len() - 1 ==> stored(slots, limit, slot)[i + 1] == #[trigger] slots[i],
        time_ordered(slots) ==> forall|i: int|
            0 <= i < slots.len() ==> slots.last().last_accessed <= (
            #[trigger] slots[i]).last_accessed,
{
    let after = stored(slots, limit, slot);
    let last = slots.len() - 1;
    assert forall|k: int| 0 <= k < after.len() implies (#[trigger] after[k]).key
        != slots.last().key by {
        if k > 0 {
            assert(after[k] == slots[k - 1]);
            assert(slots[k - 1].key != slots[last].key);
        } else {
            assert(slots[last].key != slot.key);
        }
    }
    if time_ordered(slots) {
        assert forall|i: int| 0 <= i < slots.len() implies slots.last().last_accessed <= (
        #[trigger] slots[i]).last_accessed by {
            if i < last {
                assert(slots[i].last_accessed >= slots[last].last_accessed);
            }
        }
    }
}

/// An insert that replaces an entry, or that finds room, evicts nothing:
/// every key that was held is held afterwards.
pub proof fn lemma_insert_with_room_evicts_nothing(slots: Seq<Slot>, limit: nat, slot: Slot)
    requires
        distinct_keys(slots),
        slots.len() <= limit,
        holds(slots, slot.key) || slots.len() < limit,
    ensures
        forall|i: int|
            0 <= i < slots.len() ==> holds(stored(slots, limit, slot), (#[trigger] slots[i]).key),
{
    let after = stored(slots, limit, slot);
    assert forall|i: int| 0 <= i < slots.len() implies holds(
        after,
        (#[trigger] slots[i]).key,
    ) by {
        if holds(slots, slot.key) {
            let at = position(slots, slot.key);
            if i == at {
                assert(after[0].key == slots[i].key);
            } else if i < at {
                lemma_removed_index(slots, at, i);
                assert(after[i + 1] == slots[i]);
            } else {
                lemma_removed_index(slots, at, i - 1);
                assert(after[i] == slots[i]);
            }
        } else {
            assert(after[i + 1] == slots[i]);
        }
    }
}

/// An insert at a time that no slot lies after keeps the slots in the order
/// of their times.
pub proof fn lemma_stored_keeps_time_order(slots: Seq<Slot>, limit: nat, slot: Slot)
    requires
        limit >= 1,
        time_ordered(slots),
        not_after(slots, slot.last_accessed),
    ensures
        time_ordered(stored(slots, limit, slot)),
        not_after(stored(slots, limit, slot), slot.last_accessed),
{
    let after = stored(slots, limit, slot);
    if holds(slots, slot.key) {
        let at = position(slots, slot.key);
        assert forall|k: int| 1 <= k < after.len() implies #[trigger] after[k] == slots[if k - 1
            < at {
            k - 1
        } else {
            k
        }] by {
            lemma_removed_index(slots, at, k - 1);
        }
    } else {
        assert forall|k: int| 1 <= k < after.len() implies #[trigger] after[k] == slots[k
            - 1] by {}
    }
    lemma_shifted_time_order(slots, after, slot.last_accessed);
}

/// A hit at a time that no slot lies after keeps the slots in the order of
/// their times.
pub proof fn lemma_touched_keeps_time_order(slots: Seq<Slot>, key: Seq<char>, now: u64)
    requires
        time_ordered(slots),
        not_after(slots, now),
    ensures
        time_ordered(touched(slots, key, now)),
        not_after(touched(slots, key, now), now),
{
    if holds(slots, key) {
        let at = position(slots, key);
        let after = touched(slots, key, now);
        assert forall|k: int| 1 <= k < after.len() implies #[trigger] after[k] == slots[if k - 1
            < at {
            k - 1
        } else {
            k
        }] by {
            lemma_removed_index(slots, at, k - 1);
        }
        lemma_shifted_time_order(slots, after, now);
    }
}

/// A first slot of time `now`, followed by slots of `slots` in their old
/// order, each at its old index or one behind it, stands in the order of the
/// times where `slots` does and `now` lies before none of them.
proof fn lemma_shifted_time_order(slots: Seq<Slot>, after: Seq<Slot>, now: u64)
    requires
        time_ordered(slots),
        not_after(slots, now),
        after.len() >= 1,
        after[0].last_accessed == now,
        after.len() <= slots.len() + 1,
        forall|k: int|
            1 <= k < after.len() ==> (#[trigger] after[k] == slots[k - 1] || (after[k] == slots[k]
                && k < slots.len())),
    ensures
        time_ordered(after),
        not_after(after, now),
{
    assert forall|i: int, j: int| 0 <= i < j < after.len() implies (
    #[trigger] after[i]).last_accessed >= (#[trigger] after[j]).last_accessed by {
        let from_j = if after[j] == slots[j - 1] {
            j - 1
        } else {
            j
        };
        assert(after[j] == slots[from_j]);
        if i > 0 {
            let from_i = if after[i] == slots[i - 1] {
                i - 1
            } else {
                i
            };
            assert(after[i] == slots[from_i]);
            if from_i < from_j {
                assert(slots[from_i].last_accessed >= slots[from_j].last_accessed);
            }
        } else {
            assert(slots[from_j].last_accessed <= now);
        }
    }
    assert forall|i: int| 0 <= i < after.len() implies (#[trigger] after[i]).last_accessed
        <= now by {
        if i > 0 {
            let from_i = if after[i] == slots[i - 1] {
                i - 1
            } else {
                i
            };
            assert(after[i] == slots[from_i]);
        }
    }
}

/// Taking a key out keeps the slots in the order of their times.
pub proof fn lemma_without_keeps_time_order(slots: Seq<Slot>, key: Seq<char>)
    requires
        time_ordered(slots),
    ensures
        time_ordered(without(slots, key)),
{
    if holds(slots, key) {
        let at = position(slots, key);
        let after = without(slots, key);
        assert forall|i: int, j: int| 0 <= i < j < after.len() implies (
        #[trigger] after[i]).last_accessed >= (#[trigger] after[j]).last_accessed by {
            lemma_removed_index(slots, at, i);
            lemma_removed_index(slots, at, j);
        }
    }
}

/// What holds of a run behind one of its prefixes holds of the prefix.
proof fn lemma_prefix_of_run(slots: Seq<Slot>, ops: Seq<Op>, k: int)
    requires
        0 <= k <= ops.len(),
        clock_never_goes_back(ops),
        lies_before(slots, ops),
    ensures
        clock_never_goes_back(ops.take(k)),
        lies_before(slots, ops.take(k)),
{
    let prefix = ops.take(k);
    assert forall|i: int, j: int| 0 <= i < j < prefix.len() implies (stamp(
        #[trigger] prefix[i],
    ) matches Some(earlier) ==> (stamp(#[trigger] prefix[j]) matches Some(later) ==> earlier
        <= later)) by {
        assert(prefix[i] == ops[i]);
        assert(prefix[j] == ops[j]);
    }
    assert forall|i: int| 0 <= i < prefix.len() implies (stamp(
        #[trigger] prefix[i],
    ) matches Some(time) ==> not_after(slots, time)) by {
        assert(prefix[i] == ops[i]);
    }
}

/// Over any run of operations on a clock that never goes back, the slots
/// stay in the order of their times, and none of them is stamped later than
/// a time that no operation of the run and no slot before it lies after.
pub proof fn lemma_run_keeps_time_order(slots: Seq<Slot>, limit: nat, ops: Seq<Op>)
    requires
        limit >= 1,
        time_ordered(slots),
        clock_never_goes_back(ops),
        lies_before(slots, ops),
    ensures
        time_ordered(run(slots, limit, ops)),
        forall|time: u64|
            not_after(slots, time) && (forall|i: int|
                0 <= i < ops.len() ==> (stamp(#[trigger] ops[i]) matches Some(at) ==> at <= time))
                ==> #[trigger] not_after(run(slots, limit, ops), time),
    decreases ops.len(),
{
    if ops.len() > 0 {
        let earlier = ops.drop_last();
        let before = run(slots, limit, earlier);
        let after = run(slots, limit, ops);
        assert(earlier == ops.take(ops.len() - 1));
        lemma_prefix_of_run(slots, ops, ops.len() - 1);
        lemma_run_keeps_time_order(slots, limit, earlier);
        assert forall|i: int| 0 <= i < earlier.len() implies earlier[i] == ops[i] by {}
        match ops.last() {
            Op::Lookup { key, now } => {
                assert(stamp(ops[ops.len() - 1]) == Some(now));
                assert(not_after(before, now)) by {
                    assert forall|i: int| 0 <= i < earlier.len() implies (stamp(
                        #[trigger] earlier[i],
                    ) matches Some(at) ==> at <= now) by {
                        assert(earlier[i] == ops[i]);
                    }
                }
                lemma_touched_keeps_time_order(before, key, now);
            },
            Op::Insert { slot } => {
                assert(stamp(ops[ops.len() - 1]) == Some(slot.last_accessed));
                assert(not_after(before, slot.last_accessed)) by {
                    assert forall|i: int| 0 <= i < earlier.len() implies (stamp(
                        #[trigger] earlier[i],
                    ) matches Some(at) ==> at <= slot.last_accessed) by {
                        assert(earlier[i] == ops[i]);
                    }
                }
                lemma_stored_keeps_time_order(before, limit, slot);
            },
            Op::Remove { key } => {
                lemma_without_keeps_time_order(before, key);
            },
            Op::Sweep { max_age, now } => {
                lemma_sweep_keeps_time_order(before, now, max_age);
            },
        }
        assert forall|time: u64|
            not_after(slots, time) && (forall|i: int|
                0 <= i < ops.len() ==> (stamp(#[trigger] ops[i]) matches Some(at) ==> at
                    <= time)) implies #[trigger] not_after(after, time) by {
            assert forall|i: int| 0 <= i < earlier.len() implies (stamp(
                #[trigger] earlier[i],
            ) matches Some(at) ==> at <= time) by {
                assert(earlier[i] == ops[i]);
            }
            assert(not_after(before, time));
            lemma_applied_not_after(before, limit, ops.last(), time);
        }
    }
}

/// An operation that stamps no later than `time`, on slots none of which was
/// used after `time`, leaves no slot that was used after `time`.
proof fn lemma_applied_not_after(slots: Seq<Slot>, limit: nat, op: Op, time: u64)
    requires
        limit >= 1,
        not_after(slots, time),
        stamp(op) matches Some(at) ==> at <= time,
    ensures
        not_after(applied(slots, limit, op), time),
{
    let after = applied(slots, limit, op);
    match op {
        Op::Lookup { key, now } => {
            if holds(slots, key) {
                let at = position(slots, key);
                assert forall|k: int| 0 <= k < after.len() implies (
                #[trigger] after[k]).last_accessed <= time by {
                    if k > 0 {
                        lemma_removed_index(slots, at, k - 1);
                    }
                }
            }
        },
        Op::Insert { slot } => {
            if holds(slots, slot.key) {
                let at = position(slots, slot.key);
                assert forall|k: int| 0 <= k < after.len() implies (
                #[trigger] after[k]).last_accessed <= time by {
                    if k > 0 {
                        lemma_removed_index(slots, at, k - 1);
                    }
                }
            } else {
                assert forall|k: int| 0 <= k < after.len() implies (
                #[trigger] after[k]).last_accessed <= time by {
                    if k > 0 {
                        assert(after[k] == slots[k - 1]);
                    }
                }
            }
        },
        Op::Remove { key } => {
            if holds(slots, key) {
                let at = position(slots, key);
                assert forall|k: int| 0 <= k < after.len() implies (
                #[trigger] after[k]).last_accessed <= time by {
                    lemma_removed_index(slots, at, k);
                }
            }
        },
        Op::Sweep { max_age, now } => {
            let keep = |slot: Slot| is_fresh(slot, now, max_age);
            assert forall|k: int| 0 <= k < after.len() implies (
            #[trigger] after[k]).last_accessed <= time by {
                assert(after.contains(after[k]));
                slots.lemma_filter_contains_rev(keep, after[k]);
                let j = choose|j: int| 0 <= j < slots.len() && slots[j] == after[k];
                assert(slots[j].last_accessed <= time);
            }
        },
    }
}

/// Over any run of operations on a clock that never goes back, every insert
/// that evicts takes the entry that was used longest ago: no entry of the
/// cache at that time has a smaller time of last use. The run starts from
/// slots in the order of their times that lie before it, such as none.
pub proof fn lemma_every_eviction_takes_the_oldest(
    slots: Seq<Slot>,
    limit: nat,
    ops: Seq<Op>,
    k: int,
)
    requires
        distinct_keys(slots),
        slots.len() <= limit,
        limit >= 1,
        time_ordered(slots),
        clock_never_goes_back(ops),
        lies_before(slots, ops),
        0 <= k < ops.len(),
        ops[k] is Insert,
        !holds(run(slots, limit, ops.take(k)), ops[k]->slot.key),
        run(slots, limit, ops.take(k)).len() == limit,
    ensures
        run(slots, limit, ops.take(k + 1)) == seq![ops[k]->slot] + run(
            slots,
            limit,
            ops.take(k),
        ).drop_last(),
        !holds(run(slots, limit, ops.take(k + 1)), run(slots, limit, ops.take(k)).last().key),
        forall|i: int|
            0 <= i < limit ==> run(slots, limit, ops.take(k)).last().last_accessed <= (
            #[trigger] run(slots, limit, ops.take(k))[i]).last_accessed,
{
    let before = run(slots, limit, ops.take(k));
    lemma_prefix_of_run(slots, ops, k);
    lemma_run_stays_within_capacity(slots, limit, ops.take(k));
    lemma_run_keeps_time_order(slots, limit, ops.take(k));
    assert(ops.take(k + 1).drop_last() =~= ops.take(k));
    assert(ops.take(k + 1).last() == ops[k]);
    lemma_eviction_takes_the_oldest(before, limit, ops[k]->slot);
}

/// A lookup of a key that was just inserted finds exactly the text that was
/// inserted.
pub proof fn lemma_lookup_after_insert(slots: Seq<Slot>, limit: nat, slot: Slot)
    requires
        distinct_keys(slots),
        slots.len() <= limit,
        limit >= 1,
    ensures
        content_at(stored(slots, limit, slot), slot.key) == Some(slot.content),
{
    lemma_stored_well_formed(slots, limit, slot);
    let after = stored(slots, limit, slot);
    assert(after[0].key == slot.key);
    assert(holds(after, slot.key));
    let at = position(after, slot.key);
    if at != 0 {
        assert(after[0].key != after[at].key);
    }
}

/// A lookup of one key leaves the text under every key as it was.
pub proof fn lemma_lookup_keeps_contents(slots: Seq<Slot>, looked_up: Seq<char>, now: u64, key: Seq<
    char,
>)
    requires
        distinct_keys(slots),
    ensures
        content_at(touched(slots, looked_up, now), key) == content_at(slots, key),
{
    if holds(slots, looked_up) {
        let at = position(slots, looked_up);
        let after = touched(slots, looked_up, now);
        lemma_touched_well_formed(slots, looked_up, now);
        assert forall|k: int| 1 <= k < after.len() implies #[trigger] after[k] == slots[if k - 1
            < at {
            k - 1
        } else {
            k
        }] by {
            lemma_removed_index(slots, at, k - 1);
        }
        if holds(slots, key) {
            let was = position(slots, key);
            let now_at = if was == at {
                0
            } else if was < at {
                was + 1
            } else {
                was
            };
            if was != at {
                lemma_removed_index(slots, at, now_at - 1);
            }
            assert(after[now_at].key == key);
            assert(after[now_at].content == slots[was].content);
            let found = position(after, key);
            if found != now_at {
                if found < now_at {
                    assert(after[found].key != after[now_at].key);
                } else {
                    assert(after[now_at].key != after[found].key);
                }
            }
        } else {
            if holds(after, key) {
                let found = position(after, key);
                if found == 0 {
                    assert(slots[at].key == key);
                } else {
                    assert(after[found] == slots[if found - 1 < at {
                        found - 1
                    } else {
                        found
                    }]);
                }
            }
        }
    }
}

/// Whether `op` inserts under `key`.
pub open spec fn inserts_under(op: Op, key: Seq<char>) -> bool {
    op matches Op::Insert { slot } && slot.key == key
}

/// Where every slot of `after` under `key` is a slot of `slots`, the text
/// under `key` in `after`, if there is one, is the text under `key` in
/// `slots`.
proof fn lemma_text_carried_over(slots: Seq<Slot>, after: Seq<Slot>, key: Seq<char>)
    requires
        distinct_keys(slots),
        forall|k: int|
            0 <= k < after.len() && (#[trigger] after[k]).key == key ==> slots.contains(after[k]),
    ensures
        holds(after, key) ==> content_at(after, key) == content_at(slots, key),
{
    if holds(after, key) {
        let at = position(after, key);
        assert(slots.contains(after[at]));
        let from = choose|j: int| 0 <= j < slots.len() && slots[j] == after[at];
        assert(slots[from].key == key);
        let found = position(slots, key);
        if found < from {
            assert(slots[found].key != slots[from].key);
        } else if from < found {
            assert(slots[from].key != slots[found].key);
        }
    }
}

/// No operation but an insert under a key changes the text under that key:
/// after the operation the key is held with the text it had, or not held.
pub proof fn lemma_held_entry_keeps_its_text(slots: Seq<Slot>, limit: nat, op: Op, key: Seq<char>)
    requires
        distinct_keys(slots),
        limit >= 1,
        !inserts_under(op, key),
    ensures
        holds(applied(slots, limit, op), key) ==> content_at(applied(slots, limit, op), key)
            == content_at(slots, key) && holds(slots, key),
{
    let after = applied(slots, limit, op);
    match op {
        Op::Lookup { key: looked_up, now } => {
            lemma_lookup_keeps_contents(slots, looked_up, now, key);
        },
        Op::Insert { slot } => {
            assert forall|k: int| 0 <= k < after.len() && (#[trigger] after[k]).key
                == key implies slots.contains(after[k]) by {
                if holds(slots, slot.key) {
                    lemma_removed_index(slots, position(slots, slot.key), k - 1);
                } else {
                    assert(after[k] == slots[k - 1]);
                }
            }
            lemma_text_carried_over(slots, after, key);
        },
        Op::Remove { key: removed } => {
            assert forall|k: int| 0 <= k < after.len() && (#[trigger] after[k]).key
                == key implies slots.contains(after[k]) by {
                if holds(slots, removed) {
                    lemma_removed_index(slots, position(slots, removed), k);
                }
            }
            lemma_text_carried_over(slots, after, key);
        },
        Op::Sweep { max_age, now } => {
            let keep = |slot: Slot| is_fresh(slot, now, max_age);
            assert forall|k: int| 0 <= k < after.len() && (#[trigger] after[k]).key
                == key implies slots.contains(after[k]) by {
                assert(after.contains(after[k]));
                slots.lemma_filter_contains_rev(keep, after[k]);
            }
            lemma_text_carried_over(slots, after, key);
        },
    }
}

/// An entry keeps its text until it is replaced: over any run of operations
/// none of which inserts under `key`, the key is held at the end with the
/// text it had at the start, or is not held. So a lookup that follows an
/// insert, however late, finds what was inserted or misses.
pub proof fn lemma_text_stays_until_replaced(
    slots: Seq<Slot>,
    limit: nat,
    ops: Seq<Op>,
    key: Seq<char>,
)
    requires
        distinct_keys(slots),
        slots.len() <= limit,
        limit >= 1,
        forall|i: int| 0 <= i < ops.len() ==> !inserts_under(#[trigger] ops[i], key),
    ensures
        holds(run(slots, limit, ops), key) ==> content_at(run(slots, limit, ops), key)
            == content_at(slots, key) && holds(slots, key),
    decreases ops.len(),
{
    if ops.len() > 0 {
        let earlier = ops.drop_last();
        assert forall|i: int| 0 <= i < earlier.len() implies !inserts_under(
            #[trigger] earlier[i],
            key,
        ) by {
            assert(earlier[i] == ops[i]);
        }
        lemma_text_stays_until_replaced(slots, limit, earlier, key);
        lemma_run_stays_within_capacity(slots, limit, earlier);
        assert(!inserts_under(ops[ops.len() - 1], key));
        lemma_held_entry_keeps_its_text(run(slots, limit, earlier), limit, ops.last(), key);
    }
}

/// A sweep removes all the entries that have been idle for `max_age` or
/// longer, and only these: an entry that has been idle for less is held
/// afterwards as it was, and nothing else is.
pub proof fn lemma_sweep_removes_all_and_only_stale(slots: Seq<Slot>, now: u64, max_age: u64)
    requires
        distinct_keys(slots),
    ensures
        forall|i: int|
            0 <= i < slots.len() && is_fresh(#[trigger] slots[i], now, max_age) ==> fresh(
                slots,
                now,
                max_age,
            ).contains(slots[i]),
        forall|i: int|
            0 <= i < slots.len() && !is_fresh(#[trigger] slots[i], now, max_age) ==> !holds(
                fresh(slots, now, max_age),
                slots[i].key,
            ),
        forall|k: int|
            0 <= k < fresh(slots, now, max_age).len() ==> slots.contains(
                #[trigger] fresh(slots, now, max_age)[k],
            ) && is_fresh(fresh(slots, now, max_age)[k], now, max_age),
{
    let keep = |slot: Slot| is_fresh(slot, now, max_age);
    let kept = fresh(slots, now, max_age);
    assert forall|i: int| 0 <= i < slots.len() && is_fresh(
        #[trigger] slots[i],
        now,
        max_age,
    ) implies kept.contains(slots[i]) by {
        slots.lemma_filter_contains(keep, i);
    }
    assert forall|k: int| 0 <= k < kept.len() implies slots.contains(#[trigger] kept[k])
        && is_fresh(kept[k], now, max_age) by {
        slots.lemma_filter_pred(keep, k);
        assert(kept.contains(kept[k]));
        slots.lemma_filter_contains_rev(keep, kept[k]);
    }
    assert forall|i: int| 0 <= i < slots.len() && !is_fresh(
        #[trigger] slots[i],
        now,
        max_age,
    ) implies !holds(kept, slots[i].key) by {
        if holds(kept, slots[i].key) {
            let k = position(kept, slots[i].key);
            assert(slots.contains(kept[k]) && is_fresh(kept[k], now, max_age));
            let j = choose|j: int| 0 <= j < slots.len() && slots[j] == kept[k];
            if j < i {
                assert(slots[j].key != slots[i].key);
            } else if i < j {
                assert(slots[i].key != slots[j].key);
            }
        }
    }
}

/// A sweep keeps the order of the entries that stay.
pub proof fn lemma_sweep_keeps_time_order(slots: Seq<Slot>, now: u64, max_age: u64)
    requires
        time_ordered(slots),
    ensures
        time_ordered(fresh(slots, now, max_age)),
    decreases slots.len(),
{
    reveal(Seq::filter);
    if slots.len() > 0 {
        let earlier = slots.drop_last();
        assert(time_ordered(earlier)) by {
            assert forall|i: int, j: int| 0 <= i < j < earlier.len() implies (
            #[trigger] earlier[i]).last_accessed >= (#[trigger] earlier[j]).last_accessed by {
                assert(earlier[i] == slots[i]);
                assert(earlier[j] == slots[j]);
            }
        }
        lemma_sweep_keeps_time_order(earlier, now, max_age);
        let keep = |slot: Slot| is_fresh(slot, now, max_age);
        let kept = fresh(earlier, now, max_age);
        if is_fresh(slots.last(), now, max_age) {
            let after = kept.push(slots.last());
            assert forall|i: int, j: int| 0 <= i < j < after.len() implies (
            #[trigger] after[i]).last_accessed >= (#[trigger] after[j]).last_accessed by {
                if j == kept.len() {
                    assert(kept.contains(kept[i]));
                    earlier.lemma_filter_contains_rev(keep, kept[i]);
                    let k = choose|k: int| 0 <= k < earlier.len() && earlier[k] == kept[i];
                    assert(slots[k].last_accessed >= slots[slots.len() - 1].last_accessed);
                }
            }
        }
    }
}

/// Removing a key twice is removing it once, and removing an absent key
/// changes nothing.
pub proof fn lemma_remove_is_idempotent(slots: Seq<Slot>, key: Seq<char>)
    requires
        distinct_keys(slots),
    ensures
        without(without(slots, key), key) == without(slots, key),
        !holds(slots, key) ==> without(slots, key) == slots,
{
    lemma_without_well_formed(slots, key);
}

/// Inserting an entry twice is inserting it once.
pub proof fn lemma_insert_is_idempotent(slots: Seq<Slot>, limit: nat, slot: Slot)
    requires
        distinct_keys(slots),
        slots.len() <= limit,
        limit >= 1,
    ensures
        stored(stored(slots, limit, slot), limit, slot) == stored(slots, limit, slot),
{
    let once = stored(slots, limit, slot);
    lemma_stored_well_formed(slots, limit, slot);
    assert(once[0].key == slot.key);
    assert(holds(once, slot.key));
    let at = position(once, slot.key);
    if at != 0 {
        assert(once[0].key != once[at].key);
    }
    assert(seq![slot] + once.remove(0) =~= once);
}

/// An entry that was stored and then removed is gone, whatever was cached
/// before: a file that appears and disappears leaves no entry behind.
pub proof fn lemma_removed_after_stored(slots: Seq<Slot>, limit: nat, slot: Slot)
    requires
        distinct_keys(slots),
        slots.len() <= limit,
        limit >= 1,
    ensures
        content_at(without(stored(slots, limit, slot), slot.key), slot.key) is None,
{
    lemma_stored_well_formed(slots, limit, slot);
    lemma_without_well_formed(stored(slots, limit, slot), slot.key);
}

/// After an entry was removed, a lookup of its key misses and changes
/// nothing: the text has to be read again.
pub proof fn lemma_miss_after_remove(slots: Seq<Slot>, key: Seq<char>, now: u64)
    requires
        distinct_keys(slots),
    ensures
        content_at(without(slots, key), key) is None,
        touched(without(slots, key), key, now) == without(slots, key),
{
    lemma_without_well_formed(slots, key);
}

} // verus!
