//! A cache of MJML templates and the pipeline that keeps it in step with the
//! template files on disk.
//!
//! The cache holds template texts by key, a path relative to the template
//! directory. It is bounded in size, evicts the least recently used entry, and
//! is swept of entries that have been idle too long. Changes to the files are
//! reported as notifications; bursts of them are collapsed to one pending
//! change for each path, and each pending change becomes one action on the
//! cache: a refresh or a removal.
//!
//! The library computes and decides; it does not read files, wait, or talk to
//! the network. Its callers read the clock and the disk and hand over what
//! they found.
//!
//! - [`app_state`]: the cache and its operations.
//! - [`cache_model`]: the cache as a sequence of slots, and the lemmas that
//!   every operation keeps it well formed.
//! - [`cache_laws`]: what holds of the cache over any run of operations.
//! - [`lru_store`]: the boundary to the `lru` crate, on which the cache rests.
//! - [`template_watcher`]: notifications, the debouncer, and the actions that
//!   drained changes ask for.
//! - [`debounce_laws`]: what holds of the debouncer over any burst.
//! - [`utils`]: paths relative to the template directory.
//! - [`handlers`], [`models`]: the rules by which requests are taken or turned
//!   down.

pub mod app_state;
pub mod cache_laws;
pub mod cache_model;
pub mod debounce_laws;
pub mod handlers;
pub mod lru_store;
pub mod models;
pub mod template_watcher;
pub mod utils;
