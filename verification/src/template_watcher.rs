//! From file system notifications to cache actions: which notifications
//! count, how a burst of them is collapsed to one pending change for each
//! path, and what each pending change asks of the cache once it is drained.
//!
//! Nothing here waits or reads a file. `watch_templates` is one step of the
//! pipeline: it takes what happened and says what is to be done next.

use vstd::prelude::*;
use crate::utils::{
    get_relative_path, has_tracked_extension, is_template, relative_path, RelativePathError,
};

verus! {

/// Time, in milliseconds, between a notification and the drain it schedules.
pub const DEBOUNCE_WINDOW_MS: u64 = 200;

/// Notifications that may wait between the notifier and the pipeline; a
/// notifier that finds the queue full blocks.
pub const EVENT_QUEUE_CAPACITY: usize = 16;

/// Time, in milliseconds, between two looks of a polling notifier.
pub const WATCH_POLL_INTERVAL_MS: u64 = 100;

/// What a file system notification reports.
#[derive(Debug, Clone, Copy, PartialEq, Eq, Structural)]
pub enum FsEventKind {
    Any,
    Access,
    Create,
    Modify,
    Remove,
    Other,
}

/// What a notification means for the cache.
#[derive(Debug, Clone, Copy, PartialEq, Eq, Structural)]
pub enum ChangeKind {
    /// The file was created or changed: its entry is to be refreshed.
    Modify,
    /// The file is gone: its entry is to be removed.
    Remove,
}

/// A file system notification: what happened, and to which paths.
#[derive(Debug, PartialEq, Eq)]
pub struct FsEvent {
    pub kind: FsEventKind,
    pub paths: Vec<String>,
}

/// A change that waits for the next drain.
#[derive(Debug, PartialEq, Eq)]
pub struct PendingChange {
    pub path: String,
    pub kind: ChangeKind,
}

/// A pending change as contracts see it.
pub struct Change {
    pub path: Seq<char>,
    pub kind: ChangeKind,
}

/// What a drained change asks of the cache.
#[derive(Debug, PartialEq, Eq)]
pub enum CacheAction {
    /// Read `source` and refresh the entry `key` with what was read.
    Reload { key: String, source: String },
    /// Remove the entry `key`.
    Evict { key: String },
    /// Nothing: `path` does not lie below the template directory, so no key
    /// can be told for it.
    Skip { path: String, kind: ChangeKind },
}

/// One input of the pipeline.
#[derive(Debug, PartialEq, Eq)]
pub enum WatchInput {
    /// The notifier reported `event`.
    Notified { event: FsEvent },
    /// A drain that was scheduled earlier is due.
    DrainDue,
}

/// What the pipeline asks for in answer to an input.
#[derive(Debug, PartialEq, Eq)]
pub enum WatchOutput {
    /// Hand in `WatchInput::DrainDue` once `delay_ms` milliseconds have
    /// passed.
    DrainAfter { delay_ms: u64 },
    /// Carry out `actions`, each on its own.
    Apply { actions: Vec<CacheAction> },
}

/// The change that a notification of `kind` stands for, if it stands for one:
/// creation and modification refresh, removal removes, all else is ignored.
pub open spec fn classified(kind: FsEventKind) -> Option<ChangeKind> {
    match kind {
        FsEventKind::Create => Some(ChangeKind::Modify),
        FsEventKind::Modify => Some(ChangeKind::Modify),
        FsEventKind::Remove => Some(ChangeKind::Remove),
        FsEventKind::Any => None,
        FsEventKind::Access => None,
        FsEventKind::Other => None,
    }
}

/// The pending change as contracts see it.
pub open spec fn change_of(pending: PendingChange) -> Change {
    Change { path: pending.path@, kind: pending.kind }
}

/// The pending changes as contracts see them.
pub open spec fn changes_of(pending: Seq<PendingChange>) -> Seq<Change> {
    pending.map_values(|p: PendingChange| change_of(p))
}

/// The paths as text.
pub open spec fn texts(paths: Seq<String>) -> Seq<Seq<char>> {
    paths.map_values(|p: String| p@)
}

/// Whether a change is pending for `path`.
pub open spec fn waits(changes: Seq<Change>, path: Seq<char>) -> bool {
    exists|i: int| 0 <= i < changes.len() && (#[trigger] changes[i]).path == path
}

/// Where the change pending for `path` stands.
pub open spec fn place(changes: Seq<Change>, path: Seq<char>) -> int {
    choose|i: int| 0 <= i < changes.len() && (#[trigger] changes[i]).path == path
}

/// No path has two pending changes.
pub open spec fn distinct_paths(changes: Seq<Change>) -> bool {
    forall|i: int, j: int|
        0 <= i < j < changes.len() ==> (#[trigger] changes[i]).path != (#[trigger] changes[j]).path
}

/// The pending changes after `kind` was recorded for `path`: the kind takes
/// the place of the one pending for `path`, or is added behind the others.
pub open spec fn recorded(changes: Seq<Change>, path: Seq<char>, kind: ChangeKind) -> Seq<Change> {
    if waits(changes, path) {
        changes.update(place(changes, path), Change { path, kind })
    } else {
        changes.push(Change { path, kind })
    }
}

/// The pending changes after a notification of `kind` for `path`: recorded
/// where the path names a template and the kind counts, else as before.
pub open spec fn observed_one(changes: Seq<Change>, kind: FsEventKind, path: Seq<char>) -> Seq<
    Change,
> {
    match classified(kind) {
        Some(change) => if is_template(path) {
            recorded(changes, path, change)
        } else {
            changes
        },
        None => changes,
    }
}

/// The pending changes after a notification of `kind` for `paths`, taken one
/// after the other.
pub open spec fn observed(changes: Seq<Change>, kind: FsEventKind, paths: Seq<Seq<char>>) -> Seq<
    Change,
>
    decreases paths.len(),
{
    if paths.len() == 0 {
        changes
    } else {
        observed_one(observed(changes, kind, paths.drop_last()), kind, paths.last())
    }
}

/// What a drain leaves pending: nothing.
pub open spec fn after_drain(changes: Seq<Change>) -> Seq<Change> {
    Seq::empty()
}

/// Whether `action` is what a drained change of `kind` for `path` asks for,
/// where `resolved` is the path relative to the template directory. A path
/// that resolves is refreshed or removed under its relative path; one that
/// does not resolve is skipped.
pub open spec fn dispatches(
    action: CacheAction,
    resolved: Option<Seq<char>>,
    path: Seq<char>,
    kind: ChangeKind,
) -> bool {
    match resolved {
        Some(relative) => match kind {
            ChangeKind::Modify => {
                &&& action matches CacheAction::Reload { key, source }
                &&& key@ == relative
                &&& source@ == path
            },
            ChangeKind::Remove => {
                &&& action matches CacheAction::Evict { key }
                &&& key@ == relative
            },
        },
        None => {
            &&& action matches CacheAction::Skip { path: skipped, kind: skipped_kind }
            &&& skipped@ == path
            &&& skipped_kind == kind
        },
    }
}

/// Tells what a notification of `kind` means for the cache.
pub fn classify(kind: FsEventKind) -> (change: Option<ChangeKind>)
    ensures
        change == classified(kind),
{
    match kind {
        FsEventKind::Create => Some(ChangeKind::Modify),
        FsEventKind::Modify => Some(ChangeKind::Modify),
        FsEventKind::Remove => Some(ChangeKind::Remove),
        FsEventKind::Any => None,
        FsEventKind::Access => None,
        FsEventKind::Other => None,
    }
}

/// Turns a drained change into the action it asks for, given what resolving
/// its path against the template directory gave.
pub fn dispatch(
    resolved: Result<String, RelativePathError>,
    path: &str,
    kind: ChangeKind,
) -> (action: CacheAction)
    ensures
        dispatches(
            action,
            match resolved {
                Ok(relative) => Some(relative@),
                Err(_) => None,
            },
            path@,
            kind,
        ),
{
    match resolved {
        Ok(relative) => match kind {
            ChangeKind::Modify => CacheAction::Reload { key: relative, source: path.to_owned() },
            ChangeKind::Remove => CacheAction::Evict { key: relative },
        },
        Err(_) => CacheAction::Skip { path: path.to_owned(), kind },
    }
}

/// The changes that wait for the next drain: for each path at most one, the
/// last that was recorded for it.
pub struct Debouncer {
    pending: Vec<PendingChange>,
}

impl View for Debouncer {
    type V = Seq<Change>;

    /// The pending changes, in the order in which their paths first came.
    closed spec fn view(&self) -> Seq<Change> {
        changes_of(self.pending@)
    }
}

impl Debouncer {
    /// What holds of every debouncer: no path waits twice.
    pub open spec fn wf(&self) -> bool {
        distinct_paths(self@)
    }

    /// A debouncer with nothing pending.
    pub fn new() -> (debouncer: Self)
        ensures
            debouncer.wf(),
            debouncer@ == Seq::<Change>::empty(),
    {
        let debouncer = Debouncer { pending: Vec::new() };
        assert(debouncer@ =~= Seq::<Change>::empty());
        debouncer
    }

    /// The number of paths for which a change is pending.
    pub fn len(&self) -> (n: usize)
        ensures
            n == self@.len(),
    {
        self.pending.len()
    }

    /// Records `kind` for `path`, in place of whatever was pending for it.
    pub fn record(&mut self, path: String, kind: ChangeKind)
        requires
            old(self).wf(),
        ensures
            final(self).wf(),
            final(self)@ == recorded(old(self)@, path@, kind),
    {
        let ghost before = self@;
        let mut i: usize = 0;
        while i < self.pending.len()
            invariant
                0 <= i <= self.pending.len(),
                self@ == before,
                before == old(self)@,
                distinct_paths(before),
                forall|k: int| 0 <= k < i ==> (#[trigger] before[k]).path != path@,
            decreases self.pending.len() - i,
        {
            if self.pending[i].path == path {
                proof {
                    assert(before[i as int].path == path@);
                    assert(waits(before, path@));
                    assert(place(before, path@) == i);
                }
                self.pending.set(i, PendingChange { path, kind });
                proof {
                    lemma_recorded_well_formed(before, path@, kind);
                    assert(self@ =~= recorded(before, path@, kind));
                }
                return;
            }
            i += 1;
        }
        proof {
            assert(!waits(before, path@));
            lemma_recorded_well_formed(before, path@, kind);
        }
        self.pending.push(PendingChange { path, kind });
        proof {
            assert(self@ =~= recorded(before, path@, kind));
        }
    }

    /// Takes in one notification: for each of its paths that names a
    /// template, the change it stands for is recorded.
    pub fn observe(&mut self, event: &FsEvent)
        requires
            old(self).wf(),
        ensures
            final(self).wf(),
            final(self)@ == observed(old(self)@, event.kind, texts(event.paths@)),
    {
        let ghost before = self@;
        let ghost paths = texts(event.paths@);
        let mut i: usize = 0;
        proof {
            assert(paths.take(0) =~= Seq::<Seq<char>>::empty());
        }
        while i < event.paths.len()
            invariant
                0 <= i <= event.paths.len(),
                paths == texts(event.paths@),
                self.wf(),
                self@ == observed(before, event.kind, paths.take(i as int)),
            decreases event.paths.len() - i,
        {
            let path = &event.paths[i];
            proof {
                assert(paths.take(i + 1).drop_last() =~= paths.take(i as int));
                assert(paths.take(i + 1).last() == path@);
            }
            if has_tracked_extension(path.as_str()) {
                match classify(event.kind) {
                    Some(change) => {
                        self.record(path.clone(), change);
                    },
                    None => {},
                }
            }
            i += 1;
        }
        proof {
            assert(paths.take(event.paths@.len() as int) =~= paths);
        }
    }

    /// Takes out all that is pending. What it returns is what was pending,
    /// each path once; nothing is pending afterwards.
    pub fn drain(&mut self) -> (taken: Vec<PendingChange>)
        requires
            old(self).wf(),
        ensures
            final(self).wf(),
            changes_of(taken@) == old(self)@,
            final(self)@ == after_drain(old(self)@),
    {
        let mut taken: Vec<PendingChange> = Vec::new();
        std::mem::swap(&mut taken, &mut self.pending);
        proof {
            assert(self@ =~= Seq::<Change>::empty());
        }
        taken
    }
}

/// Recording keeps the paths distinct.
pub proof fn lemma_recorded_well_formed(changes: Seq<Change>, path: Seq<char>, kind: ChangeKind)
    requires
        distinct_paths(changes),
    ensures
        distinct_paths(recorded(changes, path, kind)),
        waits(recorded(changes, path, kind), path),
        recorded(changes, path, kind)[place(recorded(changes, path, kind), path)].kind == kind,
{
    let after = recorded(changes, path, kind);
    if waits(changes, path) {
        let at = place(changes, path);
        assert(after[at].path == path);
    } else {
        assert(after[changes.len() as int].path == path);
    }
    let found = place(after, path);
    if waits(changes, path) {
        let at = place(changes, path);
        if found != at {
            assert(changes[found].path == changes[at].path);
        }
    } else {
        if found != changes.len() {
            assert(changes[found].path == path);
        }
    }
}

/// One step of the pipeline.
///
/// A notification is taken in as `Debouncer::observe` says, and a drain is
/// asked for after the debounce window, whatever the notification held.
/// A drain that is due takes out all that is pending and turns each change
/// into its action, in the order in which the changes waited; with nothing
/// pending there are no actions.
pub fn watch_templates(
    cwd: &str,
    template_dir: &str,
    pending: &mut Debouncer,
    input: WatchInput,
) -> (output: WatchOutput)
    requires
        old(pending).wf(),
    ensures
        final(pending).wf(),
        match input {
            WatchInput::Notified { event } => {
                &&& final(pending)@ == observed(old(pending)@, event.kind, texts(event.paths@))
                &&& output == (WatchOutput::DrainAfter { delay_ms: DEBOUNCE_WINDOW_MS })
            },
            WatchInput::DrainDue => {
                &&& final(pending)@ == after_drain(old(pending)@)
                &&& output matches WatchOutput::Apply { actions }
                &&& actions@.len() == old(pending)@.len()
                &&& forall|i: int|
                    0 <= i < actions@.len() ==> dispatches(
                        #[trigger] actions@[i],
                        relative_path(cwd@, template_dir@, old(pending)@[i].path),
                        old(pending)@[i].path,
                        old(pending)@[i].kind,
                    )
            },
        },
{
    match input {
        WatchInput::Notified { event } => {
            pending.observe(&event);
            WatchOutput::DrainAfter { delay_ms: DEBOUNCE_WINDOW_MS }
        },
        WatchInput::DrainDue => {
            let ghost before = pending@;
            let taken = pending.drain();
            let mut actions: Vec<CacheAction> = Vec::new();
            let mut i: usize = 0;
            while i < taken.len()
                invariant
                    0 <= i <= taken.len(),
                    changes_of(taken@) == before,
                    actions@.len() == i,
                    forall|k: int|
                        0 <= k < i ==> dispatches(
                            #[trigger] actions@[k],
                            relative_path(cwd@, template_dir@, before[k].path),
                            before[k].path,
                            before[k].kind,
                        ),
                decreases taken.len() - i,
            {
                let change = &taken[i];
                proof {
                    assert(before[i as int] == change_of(taken@[i as int]));
                }
                let resolved = get_relative_path(cwd, template_dir, change.path.as_str());
                let action = dispatch(resolved, change.path.as_str(), change.kind);
                actions.push(action);
                i += 1;
            }
            WatchOutput::Apply { actions }
        },
    }
}

} // verus!
