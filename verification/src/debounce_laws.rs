//! What holds of the debouncer over any burst of notifications, stated over
//! the functions that the contracts of `Debouncer` use.

use vstd::prelude::*;
use crate::template_watcher::{
    after_drain, classified, dispatches, distinct_paths, lemma_recorded_well_formed, observed_one,
    place, recorded, waits, CacheAction, Change, ChangeKind, FsEventKind,
};
use crate::utils::is_template;

verus! {

/// The pending changes after each of `kinds` was recorded for `path`, one
/// after the other.
pub open spec fn recorded_all(changes: Seq<Change>, path: Seq<char>, kinds: Seq<ChangeKind>) -> Seq<
    Change,
>
    decreases kinds.len(),
{
    if kinds.len() == 0 {
        changes
    } else {
        recorded(recorded_all(changes, path, kinds.drop_last()), path, kinds.last())
    }
}

/// The pending changes as a mapping from each path to the kind that waits
/// for it.
pub open spec fn as_map(changes: Seq<Change>) -> Map<Seq<char>, ChangeKind> {
    Map::new(
        |path: Seq<char>| waits(changes, path),
        |path: Seq<char>| changes[place(changes, path)].kind,
    )
}

/// Recording over a change that already waits for the path is the same as
/// recording once: the earlier kind leaves no trace.
pub proof fn lemma_last_write_wins(
    changes: Seq<Change>,
    path: Seq<char>,
    first: ChangeKind,
    second: ChangeKind,
)
    requires
        distinct_paths(changes),
    ensures
        recorded(recorded(changes, path, first), path, second) == recorded(changes, path, second),
{
    let once = recorded(changes, path, first);
    lemma_recorded_well_formed(changes, path, first);
    if waits(changes, path) {
        let at = place(changes, path);
        assert(once[at].path == path);
        let found = place(once, path);
        if found != at {
            assert(changes[found].path == changes[at].path);
        }
        assert(recorded(once, path, second) =~= recorded(changes, path, second));
    } else {
        let end = changes.len() as int;
        assert(once[end].path == path);
        let found = place(once, path);
        if found != end {
            assert(changes[found].path == path);
        }
        assert(recorded(once, path, second) =~= recorded(changes, path, second));
    }
}

/// Any number of notifications for one path, one at least, leave what the
/// last of them alone would have left: one pending change for the path, of
/// the kind that came last.
pub proof fn lemma_burst_collapses(changes: Seq<Change>, path: Seq<char>, kinds: Seq<ChangeKind>)
    requires
        distinct_paths(changes),
        kinds.len() > 0,
    ensures
        recorded_all(changes, path, kinds) == recorded(changes, path, kinds.last()),
        distinct_paths(recorded_all(changes, path, kinds)),
    decreases kinds.len(),
{
    let earlier = kinds.drop_last();
    if earlier.len() == 0 {
        assert(recorded_all(changes, path, earlier) == changes);
    } else {
        lemma_burst_collapses(changes, path, earlier);
        lemma_last_write_wins(changes, path, earlier.last(), kinds.last());
    }
    lemma_recorded_well_formed(changes, path, kinds.last());
}

/// A burst for one path with nothing else pending leaves exactly one change
/// to drain.
pub proof fn lemma_burst_from_nothing(path: Seq<char>, kinds: Seq<ChangeKind>)
    requires
        kinds.len() > 0,
    ensures
        recorded_all(Seq::<Change>::empty(), path, kinds) == seq![
            Change { path, kind: kinds.last() },
        ],
{
    lemma_burst_collapses(Seq::<Change>::empty(), path, kinds);
    assert(recorded(Seq::<Change>::empty(), path, kinds.last()) =~= seq![
        Change { path, kind: kinds.last() },
    ]);
}

/// The pending changes after notifications of each of `kinds` for `path`,
/// one after the other.
pub open spec fn observed_all(
    changes: Seq<Change>,
    kinds: Seq<FsEventKind>,
    path: Seq<char>,
) -> Seq<Change>
    decreases kinds.len(),
{
    if kinds.len() == 0 {
        changes
    } else {
        observed_one(observed_all(changes, kinds.drop_last(), path), kinds.last(), path)
    }
}

/// The change that the last of `kinds` that counts stands for, if any of
/// them counts.
pub open spec fn last_counted(kinds: Seq<FsEventKind>) -> Option<ChangeKind>
    decreases kinds.len(),
{
    if kinds.len() == 0 {
        None
    } else {
        match classified(kinds.last()) {
            Some(change) => Some(change),
            None => last_counted(kinds.drop_last()),
        }
    }
}

/// A burst of notifications for one path leaves one pending change for it,
/// that of the last notification that counts, where the path names a
/// template and some notification counts. Else it leaves all as it was.
pub proof fn lemma_notified_burst_collapses(
    changes: Seq<Change>,
    kinds: Seq<FsEventKind>,
    path: Seq<char>,
)
    requires
        distinct_paths(changes),
    ensures
        observed_all(changes, kinds, path) == match last_counted(kinds) {
            Some(change) => if is_template(path) {
                recorded(changes, path, change)
            } else {
                changes
            },
            None => changes,
        },
    decreases kinds.len(),
{
    if kinds.len() > 0 {
        let earlier = kinds.drop_last();
        lemma_notified_burst_collapses(changes, earlier, path);
        if is_template(path) {
            match classified(kinds.last()) {
                Some(change) => match last_counted(earlier) {
                    Some(before) => {
                        lemma_last_write_wins(changes, path, before, change);
                    },
                    None => {},
                },
                None => {},
            }
        }
    }
}

/// The actions for a modification and for a removal of one path name the
/// same key, the path relative to the template directory: what a refresh
/// stores, a removal finds.
pub proof fn lemma_actions_share_the_key(
    reload: CacheAction,
    evict: CacheAction,
    relative: Seq<char>,
    path: Seq<char>,
)
    requires
        dispatches(reload, Some(relative), path, ChangeKind::Modify),
        dispatches(evict, Some(relative), path, ChangeKind::Remove),
    ensures
        reload matches CacheAction::Reload { key: stored, source } && evict
            matches CacheAction::Evict { key: removed } && stored@ == removed@ && stored@
            == relative && source@ == path,
{
}

/// A drain leaves nothing pending, whatever was pending before. So a drain
/// that follows a drain finds nothing, hands out nothing and changes nothing,
/// and a path that was recorded once is handed out by one drain only.
pub proof fn lemma_drain_settles(changes: Seq<Change>, path: Seq<char>)
    ensures
        after_drain(changes).len() == 0,
        !waits(after_drain(changes), path),
        after_drain(after_drain(changes)) == after_drain(changes),
{
}

/// Recording is writing into the mapping: the path maps to the new kind, and
/// every other path to what it mapped to before.
pub proof fn lemma_recorded_is_insert(changes: Seq<Change>, path: Seq<char>, kind: ChangeKind)
    requires
        distinct_paths(changes),
    ensures
        as_map(recorded(changes, path, kind)) == as_map(changes).insert(path, kind),
{
    let after = recorded(changes, path, kind);
    lemma_recorded_well_formed(changes, path, kind);
    assert forall|other: Seq<char>| other != path implies waits(after, other) == waits(
        changes,
        other,
    ) && (waits(changes, other) ==> after[place(after, other)].kind == changes[place(
        changes,
        other,
    )].kind) by {
        if waits(changes, other) {
            let was = place(changes, other);
            assert(after[was] == changes[was]);
            assert(waits(after, other));
            let found = place(after, other);
            if found != was {
                if found < changes.len() {
                    assert(changes[found].path == other || after[found].path == path);
                    if found < was {
                        assert(changes[found].path != changes[was].path);
                    } else {
                        assert(changes[was].path != changes[found].path);
                    }
                }
            }
        } else if waits(after, other) {
            let found = place(after, other);
            if found < changes.len() {
                assert(changes[found].path == other || after[found].path == path);
            }
        }
    }
    assert(as_map(after) =~= as_map(changes).insert(path, kind));
}

} // verus!
