//! The template cache: a store of template texts by key, bounded in size,
//! ordered by recency of use, and swept by age.
//!
//! Keys are paths relative to the template directory. Time is a count of
//! milliseconds on a clock of the caller's choosing; every operation that
//! stamps or compares times takes the current reading as `now`.
//!
//! Every operation that changes the cache or its recency order takes it by
//! `&mut`, lookups included: each call has the cache to itself. Reading a
//! file is left to the caller. A lookup that misses names the file, and
//! `load_template` takes what reading it gave; `get_or_load` does both
//! around a reader that is handed in.

use vstd::prelude::*;
use vstd::string::StringExecFns;
use lru::LruCache;
use crate::cache_model::{
    content_at, distinct_keys, fresh, lemma_fresh_of_nothing, lemma_stored_well_formed,
    lemma_sweep_step, lemma_touched_well_formed, lemma_without_well_formed, touched,
};
use crate::lru_store::{
    lru_get_mut, lru_len, lru_limit, lru_new, lru_pop, lru_put, lru_slots, lru_stamps, stored,
    without, CachedTemplate, Slot, MAX_CAPACITY,
};

verus! {

/// Entries the cache holds when nothing else is configured.
pub const DEFAULT_CACHE_CAPACITY: usize = 100;

/// Idle time, in milliseconds, from which an entry is swept.
pub const TEMPLATE_TTL_MS: u64 = 3_600_000;

/// Time between two sweeps, in milliseconds.
pub const SWEEP_INTERVAL_MS: u64 = 600_000;

/// The file that backs the entry `key` of a cache over the directory `dir`.
pub open spec fn backing_file(dir: Seq<char>, key: Seq<char>) -> Seq<char> {
    dir + seq!['/'] + key
}

/// The message of a lookup that missed and whose backing file could not be
/// read.
pub open spec fn load_failure(file: Seq<char>, reason: Seq<char>) -> Seq<char> {
    "Failed to read template file "@ + file + ": "@ + reason
}

/// The message of a refresh whose file could not be read.
pub open spec fn reload_failure(path: Seq<char>) -> Seq<char> {
    "Failed to reload template: "@ + path
}

/// What a lookup found.
#[derive(Debug, PartialEq, Eq)]
pub enum Lookup {
    /// The entry was cached; this is a copy of its text.
    Hit { content: String },
    /// Nothing is cached under the key. The caller reads `file` and hands
    /// what came of it to `AppState::load_template`.
    Miss { file: String },
}

/// The cache with the directory its templates are read from.
pub struct AppState {
    template_cache: LruCache<String, CachedTemplate>,
    template_dir: String,
}

impl View for AppState {
    type V = Seq<Slot>;

    /// The entries, most recently used first.
    closed spec fn view(&self) -> Seq<Slot> {
        lru_slots(self.template_cache)
    }
}

impl AppState {
    /// The number of entries the cache was made to hold.
    pub closed spec fn capacity(&self) -> nat {
        lru_limit(self.template_cache)
    }

    /// The template directory, as text.
    pub closed spec fn dir(&self) -> Seq<char> {
        self.template_dir@
    }

    /// What holds of every cache: no key twice, and never more entries than
    /// the capacity, which is at least one.
    pub open spec fn wf(&self) -> bool {
        &&& distinct_keys(self@)
        &&& self@.len() <= self.capacity()
        &&& 1 <= self.capacity() <= usize::MAX
    }

    /// An empty cache for at most `cache_capacity` entries over `template_dir`.
    /// The capacity is at least one and no more than a cache can be made for.
    pub fn new(cache_capacity: usize, template_dir: String) -> (state: Self)
        requires
            0 < cache_capacity <= MAX_CAPACITY,
        ensures
            state.wf(),
            state@ == Seq::<Slot>::empty(),
            state.capacity() == cache_capacity,
            state.dir() == template_dir@,
    {
        AppState { template_cache: lru_new(cache_capacity), template_dir }
    }

    /// The template directory.
    pub fn template_dir(&self) -> (dir: &str)
        ensures
            dir@ == self.dir(),
    {
        self.template_dir.as_str()
    }

    /// The number of entries.
    pub fn len(&self) -> (n: usize)
        ensures
            n == self@.len(),
    {
        lru_len(&self.template_cache)
    }

    /// Creates or replaces the entry for `path` with `content`, used at `now`.
    pub fn insert_template(&mut self, path: String, content: String, now: u64)
        requires
            old(self).wf(),
        ensures
            final(self).wf(),
            final(self).capacity() == old(self).capacity(),
            final(self).dir() == old(self).dir(),
            final(self)@ == stored(
                old(self)@,
                old(self).capacity(),
                Slot { key: path@, content: content@, last_accessed: now },
            ),
    {
        proof {
            lemma_stored_well_formed(
                self@,
                self.capacity(),
                Slot { key: path@, content: content@, last_accessed: now },
            );
        }
        let _ = lru_put(
            &mut self.template_cache,
            path,
            CachedTemplate { content, last_accessed: now },
        );
    }

    /// Looks `path` up at time `now`. A hit makes the entry the most recently
    /// used one, stamps it with `now` and returns a copy of its text. A miss
    /// changes nothing and names the file to read.
    pub fn get_template(&mut self, path: &str, now: u64) -> (found: Lookup)
        requires
            old(self).wf(),
        ensures
            final(self).wf(),
            final(self).capacity() == old(self).capacity(),
            final(self).dir() == old(self).dir(),
            final(self)@ == touched(old(self)@, path@, now),
            match found {
                Lookup::Hit { content } => content_at(old(self)@, path@) == Some(content@),
                Lookup::Miss { file } => {
                    &&& content_at(old(self)@, path@) is None
                    &&& file@ == backing_file(old(self).dir(), path@)
                },
            },
    {
        proof {
            lemma_touched_well_formed(self@, path@, now);
        }
        match lru_get_mut(&mut self.template_cache, path) {
            Some(cached) => {
                cached.last_accessed = now;
                Lookup::Hit { content: cached.content.clone() }
            },
            None => Lookup::Miss { file: self.backing_path(path) },
        }
    }

    /// The file that backs the entry `key`: the template directory, a slash
    /// and the key.
    pub fn backing_path(&self, key: &str) -> (file: String)
        ensures
            file@ == backing_file(self.dir(), key@),
    {
        proof {
            reveal_strlit("/");
        }
        let mut file = self.template_dir.clone();
        file.append("/");
        file.append(key);
        assert("/"@ =~= seq!['/']);
        file
    }

    /// Completes a miss on `path` with what reading its backing file gave.
    /// Text that was read is stored as the entry for `path`, used at `now`,
    /// and returned. A failed read leaves the cache as it was and is reported
    /// with the file and the reason.
    pub fn load_template(&mut self, path: &str, read: Result<String, String>, now: u64) -> (loaded:
        Result<String, String>)
        requires
            old(self).wf(),
        ensures
            final(self).wf(),
            final(self).capacity() == old(self).capacity(),
            final(self).dir() == old(self).dir(),
            match read {
                Ok(content) => {
                    &&& loaded matches Ok(text)
                    &&& text@ == content@
                    &&& final(self)@ == stored(
                        old(self)@,
                        old(self).capacity(),
                        Slot { key: path@, content: content@, last_accessed: now },
                    )
                },
                Err(reason) => {
                    &&& loaded matches Err(message)
                    &&& message@ == load_failure(backing_file(old(self).dir(), path@), reason@)
                    &&& final(self)@ == old(self)@
                },
            },
    {
        match read {
            Ok(content) => {
                self.insert_template(path.to_owned(), content.clone(), now);
                Ok(content)
            },
            Err(reason) => {
                let mut message = "Failed to read template file ".to_owned();
                message.append(self.backing_path(path).as_str());
                message.append(": ");
                message.append(reason.as_str());
                Err(message)
            },
        }
    }

    /// Returns the text for `path` at time `now`: from the cache on a hit,
    /// which counts as a use; else from `read`, which is called once with the
    /// backing file and whose result is taken as `load_template` says. On a
    /// hit `read` is not called.
    pub fn get_or_load<F>(&mut self, path: &str, now: u64, read: F) -> (loaded: Result<
        String,
        String,
    >) where F: FnOnce(&str) -> Result<String, String>
        requires
            old(self).wf(),
            forall|file: &str|
                file@ == backing_file(old(self).dir(), path@) ==> call_requires(read, (file,)),
        ensures
            final(self).wf(),
            final(self).capacity() == old(self).capacity(),
            final(self).dir() == old(self).dir(),
            match content_at(old(self)@, path@) {
                Some(content) => {
                    &&& loaded matches Ok(text)
                    &&& text@ == content
                    &&& final(self)@ == touched(old(self)@, path@, now)
                },
                None => exists|file: &str, outcome: Result<String, String>|
                    (file@ == backing_file(old(self).dir(), path@) && call_ensures(
                        read,
                        (file,),
                        outcome,
                    ) && match outcome {
                        Ok(content) => {
                            &&& loaded matches Ok(text)
                            &&& text@ == content@
                            &&& final(self)@ == stored(
                                old(self)@,
                                old(self).capacity(),
                                Slot { key: path@, content: content@, last_accessed: now },
                            )
                        },
                        Err(reason) => {
                            &&& loaded matches Err(message)
                            &&& message@ == load_failure(file@, reason@)
                            &&& final(self)@ == old(self)@
                        },
                    }),
            },
    {
        match self.get_template(path, now) {
            Lookup::Hit { content } => Ok(content),
            Lookup::Miss { file } => {
                let outcome = read(file.as_str());
                self.load_template(path, outcome, now)
            },
        }
    }

    /// Refreshes the entry for `path` from what reading its file gave. Text
    /// that was read replaces or creates the entry, used at `now`. A failed
    /// read leaves the cache as it was, stale entry included, and is reported.
    pub fn reload_template(&mut self, path: &str, read: Result<String, String>, now: u64) -> (done:
        Result<(), String>)
        requires
            old(self).wf(),
        ensures
            final(self).wf(),
            final(self).capacity() == old(self).capacity(),
            final(self).dir() == old(self).dir(),
            match read {
                Ok(content) => {
                    &&& done is Ok
                    &&& final(self)@ == stored(
                        old(self)@,
                        old(self).capacity(),
                        Slot { key: path@, content: content@, last_accessed: now },
                    )
                },
                Err(_) => {
                    &&& done matches Err(message)
                    &&& message@ == reload_failure(path@)
                    &&& final(self)@ == old(self)@
                },
            },
    {
        match read {
            Ok(content) => {
                self.insert_template(path.to_owned(), content, now);
                Ok(())
            },
            Err(_) => {
                let mut message = "Failed to reload template: ".to_owned();
                message.append(path);
                Err(message)
            },
        }
    }

    /// Deletes the entry for `relative_path` if there is one. An absent key
    /// is no error: the call always succeeds.
    pub fn remove_template_from_cache(&mut self, relative_path: &str) -> (done: Result<(), String>)
        requires
            old(self).wf(),
        ensures
            final(self).wf(),
            final(self).capacity() == old(self).capacity(),
            final(self).dir() == old(self).dir(),
            done is Ok,
            final(self)@ == without(old(self)@, relative_path@),
    {
        proof {
            lemma_without_well_formed(self@, relative_path@);
        }
        let _ = lru_pop(&mut self.template_cache, relative_path);
        Ok(())
    }

    /// Removes every entry that at `now` has been idle for `max_age`
    /// milliseconds or longer. The others keep their text, their time and
    /// their order.
    pub fn clean_old_templates(&mut self, max_age: u64, now: u64)
        requires
            old(self).wf(),
        ensures
            final(self).wf(),
            final(self).capacity() == old(self).capacity(),
            final(self).dir() == old(self).dir(),
            final(self)@ == fresh(old(self)@, now, max_age),
    {
        let ghost all = self@;
        let ghost limit = self.capacity();
        let ghost dir = self.dir();
        let stamps = lru_stamps(&self.template_cache);
        let mut i: usize = 0;
        proof {
            lemma_fresh_of_nothing(all, now, max_age);
            assert(all.skip(0) =~= all);
        }
        while i < stamps.len()
            invariant
                0 <= i <= stamps.len(),
                stamps@.len() == all.len(),
                forall|k: int|
                    0 <= k < stamps@.len() ==> (#[trigger] stamps@[k]).0@ == all[k].key
                        && stamps@[k].1 == all[k].last_accessed,
                distinct_keys(all),
                self.wf(),
                self.capacity() == limit,
                self.dir() == dir,
                self@ == fresh(all.take(i as int), now, max_age) + all.skip(i as int),
            decreases stamps.len() - i,
        {
            let stamp = &stamps[i];
            proof {
                lemma_sweep_step(all, i as int, now, max_age);
                assert(*stamp == stamps@[i as int]);
            }
            let idle: u64 = if now >= stamp.1 {
                now - stamp.1
            } else {
                0
            };
            if idle >= max_age {
                proof {
                    lemma_without_well_formed(self@, stamp.0@);
                }
                let _ = lru_pop(&mut self.template_cache, stamp.0.as_str());
            }
            i += 1;
        }
        proof {
            assert(all.take(all.len() as int) =~= all);
            assert(all.skip(all.len() as int) =~= Seq::<Slot>::empty());
        }
    }
}

/// The state a server starts with: an empty cache of the default capacity
/// over the template directory `relative_path`.
pub fn initialize_state(relative_path: &str) -> (state: AppState)
    ensures
        state.wf(),
        state@ == Seq::<Slot>::empty(),
        state.capacity() == DEFAULT_CACHE_CAPACITY,
        state.dir() == relative_path@,
{
    AppState::new(DEFAULT_CACHE_CAPACITY, relative_path.to_owned())
}

/// The periodic sweep: removes the entries that at `now` have been idle for
/// the time to live or longer.
pub fn clean_template_cache(app_state: &mut AppState, now: u64)
    requires
        old(app_state).wf(),
    ensures
        final(app_state).wf(),
        final(app_state).capacity() == old(app_state).capacity(),
        final(app_state).dir() == old(app_state).dir(),
        final(app_state)@ == fresh(old(app_state)@, now, TEMPLATE_TTL_MS),
{
    app_state.clean_old_templates(TEMPLATE_TTL_MS, now);
}

} // verus!
