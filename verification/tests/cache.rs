use mjml_templates::app_state::{
    clean_template_cache, initialize_state, AppState, Lookup, DEFAULT_CACHE_CAPACITY,
    SWEEP_INTERVAL_MS, TEMPLATE_TTL_MS,
};
use mjml_templates::lru_store::MAX_CAPACITY;

const MINUTE: u64 = 60_000;

fn cache(capacity: usize) -> AppState {
    AppState::new(capacity, "templates".to_string())
}

fn put(state: &mut AppState, key: &str, content: &str, now: u64) {
    state.insert_template(key.to_string(), content.to_string(), now);
}

fn hit(content: &str) -> Lookup {
    Lookup::Hit { content: content.to_string() }
}

fn miss(file: &str) -> Lookup {
    Lookup::Miss { file: file.to_string() }
}

#[test]
fn new_cache_is_empty() {
    let mut state = cache(3);
    assert_eq!(state.len(), 0);
    assert_eq!(state.get_template("a.mjml", 0), miss("templates/a.mjml"));
    assert_eq!(state.len(), 0);
}

#[test]
fn capacity_of_one_keeps_the_last_insert() {
    let mut state = cache(1);
    put(&mut state, "a", "1", 1);
    put(&mut state, "b", "2", 2);
    assert_eq!(state.len(), 1);
    assert_eq!(state.get_template("a", 3), miss("templates/a"));
    assert_eq!(state.get_template("b", 3), hit("2"));
}

#[test]
fn insert_then_lookup_returns_the_text() {
    let mut state = cache(3);
    put(&mut state, "a.mjml", "<mjml>a</mjml>", 10);
    assert_eq!(state.len(), 1);
    assert_eq!(state.get_template("a.mjml", 11), hit("<mjml>a</mjml>"));
    assert_eq!(state.len(), 1);
}

#[test]
fn insert_replaces_an_existing_entry() {
    let mut state = cache(3);
    put(&mut state, "a.mjml", "old", 10);
    put(&mut state, "a.mjml", "new", 20);
    assert_eq!(state.len(), 1);
    assert_eq!(state.get_template("a.mjml", 21), hit("new"));
}

#[test]
fn replacing_in_a_full_cache_evicts_nothing() {
    let mut state = cache(2);
    put(&mut state, "a", "1", 1);
    put(&mut state, "b", "2", 2);
    put(&mut state, "a", "3", 3);
    assert_eq!(state.len(), 2);
    assert_eq!(state.get_template("a", 4), hit("3"));
    assert_eq!(state.get_template("b", 5), hit("2"));
}

#[test]
fn inserts_never_exceed_the_capacity() {
    let mut state = cache(4);
    for i in 0..50u64 {
        put(&mut state, &format!("t{}.mjml", i % 9), "x", i);
        assert!(state.len() <= 4);
    }
    assert_eq!(state.len(), 4);
}

#[test]
fn eviction_takes_the_entry_used_longest_ago() {
    let mut state = cache(3);
    put(&mut state, "a", "1", 10);
    put(&mut state, "b", "2", 20);
    put(&mut state, "c", "3", 30);
    assert_eq!(state.get_template("a", 40), hit("1"));
    assert_eq!(state.get_template("b", 50), hit("2"));
    // "c" was used at 30, the others at 40 and 50.
    put(&mut state, "d", "4", 60);
    assert_eq!(state.len(), 3);
    assert_eq!(state.get_template("c", 70), miss("templates/c"));
    assert_eq!(state.get_template("a", 70), hit("1"));
    assert_eq!(state.get_template("b", 70), hit("2"));
    assert_eq!(state.get_template("d", 70), hit("4"));
}

#[test]
fn least_recently_used_entry_is_evicted() {
    let mut state = cache(2);
    put(&mut state, "A", "a", 1);
    put(&mut state, "B", "b", 2);
    assert_eq!(state.get_template("A", 3), hit("a"));
    put(&mut state, "C", "c", 4);
    assert_eq!(state.len(), 2);
    assert_eq!(state.get_template("B", 5), miss("templates/B"));
    assert_eq!(state.get_template("A", 6), hit("a"));
    assert_eq!(state.get_template("C", 7), hit("c"));
}

#[test]
fn a_miss_changes_nothing() {
    let mut state = cache(2);
    put(&mut state, "a", "1", 1);
    put(&mut state, "b", "2", 2);
    assert_eq!(state.get_template("zzz", 3), miss("templates/zzz"));
    assert_eq!(state.len(), 2);
    // "a" is still the least recently used one.
    put(&mut state, "c", "3", 4);
    assert_eq!(state.get_template("a", 5), miss("templates/a"));
    assert_eq!(state.get_template("b", 5), hit("2"));
}

#[test]
fn a_hit_stamps_the_entry_with_the_time_of_the_lookup() {
    let mut state = cache(2);
    put(&mut state, "a", "1", 0);
    assert_eq!(state.get_template("a", 50 * MINUTE), hit("1"));
    // Idle for 20 minutes since the hit, not 70 since the insert.
    state.clean_old_templates(60 * MINUTE, 70 * MINUTE);
    assert_eq!(state.get_template("a", 70 * MINUTE), hit("1"));
}

#[test]
fn sweep_removes_all_and_only_the_idle_entries() {
    let mut state = cache(10);
    put(&mut state, "idle-longer", "1", 0);
    put(&mut state, "idle-exactly", "2", 100);
    put(&mut state, "idle-less", "3", 101);
    put(&mut state, "just-used", "4", 1100);
    state.clean_old_templates(1000, 1100);
    assert_eq!(state.len(), 2);
    assert_eq!(state.get_template("idle-longer", 1100), miss("templates/idle-longer"));
    assert_eq!(state.get_template("idle-exactly", 1100), miss("templates/idle-exactly"));
    assert_eq!(state.get_template("idle-less", 1100), hit("3"));
    assert_eq!(state.get_template("just-used", 1100), hit("4"));
}

#[test]
fn sweep_keeps_the_recency_order_of_what_stays() {
    let mut state = cache(3);
    put(&mut state, "a", "1", 500);
    put(&mut state, "gone", "x", 0);
    put(&mut state, "b", "2", 600);
    assert_eq!(state.get_template("gone", 1), hit("x"));
    // Order now: gone (1), b (600), a (500).
    state.clean_old_templates(100, 650);
    assert_eq!(state.len(), 1);
    assert_eq!(state.get_template("b", 650), hit("2"));
    assert_eq!(state.get_template("a", 650), miss("templates/a"));
}

#[test]
fn sweep_of_an_empty_cache_does_nothing() {
    let mut state = cache(2);
    state.clean_old_templates(0, 10);
    assert_eq!(state.len(), 0);
}

#[test]
fn sweep_with_no_age_allowed_removes_everything() {
    let mut state = cache(3);
    put(&mut state, "a", "1", 5);
    put(&mut state, "b", "2", 50);
    state.clean_old_templates(0, 10);
    assert_eq!(state.len(), 0);
}

#[test]
fn a_clock_reading_before_the_entry_counts_as_no_idle_time() {
    let mut state = cache(3);
    put(&mut state, "a", "1", 1000);
    state.clean_old_templates(1, 10);
    assert_eq!(state.get_template("a", 10), hit("1"));
}

#[test]
fn entry_idle_for_61_minutes_is_swept_and_59_minutes_survives() {
    let mut state = cache(100);
    put(&mut state, "old.mjml", "old", 0);
    put(&mut state, "young.mjml", "young", 2 * MINUTE);
    assert_eq!(TEMPLATE_TTL_MS, 60 * MINUTE);
    clean_template_cache(&mut state, 61 * MINUTE);
    assert_eq!(state.len(), 1);
    assert_eq!(state.get_template("old.mjml", 61 * MINUTE), miss("templates/old.mjml"));
    assert_eq!(state.get_template("young.mjml", 61 * MINUTE), hit("young"));
}

#[test]
fn entry_idle_for_exactly_the_time_to_live_is_swept() {
    let mut state = cache(100);
    put(&mut state, "a", "1", 7);
    put(&mut state, "b", "2", 8);
    clean_template_cache(&mut state, 7 + TEMPLATE_TTL_MS);
    assert_eq!(state.get_template("a", 7 + TEMPLATE_TTL_MS), miss("templates/a"));
    assert_eq!(state.get_template("b", 7 + TEMPLATE_TTL_MS), hit("2"));
}

#[test]
fn remove_then_lookup_misses() {
    let mut state = cache(3);
    put(&mut state, "a.mjml", "1", 1);
    put(&mut state, "b.mjml", "2", 2);
    assert_eq!(state.remove_template_from_cache("a.mjml"), Ok(()));
    assert_eq!(state.len(), 1);
    assert_eq!(state.get_template("a.mjml", 3), miss("templates/a.mjml"));
    assert_eq!(state.get_template("b.mjml", 3), hit("2"));
}

#[test]
fn remove_of_an_absent_key_is_no_error() {
    let mut state = cache(3);
    put(&mut state, "a", "1", 1);
    assert_eq!(state.remove_template_from_cache("nope"), Ok(()));
    assert_eq!(state.remove_template_from_cache("nope"), Ok(()));
    assert_eq!(state.len(), 1);
    assert_eq!(state.get_template("a", 2), hit("1"));
}

#[test]
fn removed_entry_is_read_again_on_the_next_lookup() {
    let mut state = cache(3);
    let mut reads = 0;
    for _ in 0..2 {
        if let Lookup::Miss { file } = state.get_template("a.mjml", 1) {
            assert_eq!(file, "templates/a.mjml");
            reads += 1;
            assert_eq!(
                state.load_template("a.mjml", Ok("text".to_string()), 1),
                Ok("text".to_string())
            );
        }
    }
    assert_eq!(reads, 1);
    assert_eq!(state.remove_template_from_cache("a.mjml"), Ok(()));
    if let Lookup::Miss { .. } = state.get_template("a.mjml", 2) {
        reads += 1;
    }
    assert_eq!(reads, 2);
}

#[test]
fn load_stores_what_was_read() {
    let mut state = cache(2);
    assert_eq!(
        state.load_template("a.mjml", Ok("<mjml/>".to_string()), 5),
        Ok("<mjml/>".to_string())
    );
    assert_eq!(state.len(), 1);
    assert_eq!(state.get_template("a.mjml", 6), hit("<mjml/>"));
}

#[test]
fn load_evicts_when_the_cache_is_full() {
    let mut state = cache(1);
    put(&mut state, "a", "1", 1);
    assert_eq!(state.load_template("b", Ok("2".to_string()), 2), Ok("2".to_string()));
    assert_eq!(state.len(), 1);
    assert_eq!(state.get_template("a", 3), miss("templates/a"));
}

#[test]
fn failed_load_reports_the_file_and_changes_nothing() {
    let mut state = cache(2);
    put(&mut state, "kept", "1", 1);
    assert_eq!(
        state.load_template("gone.mjml", Err("No such file or directory".to_string()), 2),
        Err("Failed to read template file templates/gone.mjml: No such file or directory"
            .to_string())
    );
    assert_eq!(state.len(), 1);
    assert_eq!(state.get_template("gone.mjml", 3), miss("templates/gone.mjml"));
    assert_eq!(state.get_template("kept", 3), hit("1"));
}

#[test]
fn reload_refreshes_the_entry() {
    let mut state = cache(2);
    put(&mut state, "a.mjml", "old", 1);
    assert_eq!(state.reload_template("a.mjml", Ok("new".to_string()), 2), Ok(()));
    assert_eq!(state.len(), 1);
    assert_eq!(state.get_template("a.mjml", 3), hit("new"));
}

#[test]
fn reload_creates_an_entry_that_was_not_cached() {
    let mut state = cache(2);
    assert_eq!(state.reload_template("a.mjml", Ok("new".to_string()), 2), Ok(()));
    assert_eq!(state.get_template("a.mjml", 3), hit("new"));
}

#[test]
fn failed_reload_keeps_the_stale_entry() {
    let mut state = cache(2);
    put(&mut state, "a.mjml", "stale", 1);
    assert_eq!(
        state.reload_template("a.mjml", Err("permission denied".to_string()), 2),
        Err("Failed to reload template: a.mjml".to_string())
    );
    assert_eq!(state.get_template("a.mjml", 3), hit("stale"));
    // The failed reload did not count as a use.
    state.clean_old_templates(2, 3);
    assert_eq!(state.len(), 1);
    state.clean_old_templates(2, 5);
    assert_eq!(state.len(), 0);
}

#[test]
fn backing_path_joins_directory_and_key() {
    let state = AppState::new(1, "/srv/templates".to_string());
    assert_eq!(state.backing_path("mail/welcome.mjml"), "/srv/templates/mail/welcome.mjml");
    assert_eq!(state.backing_path(""), "/srv/templates/");
    assert_eq!(state.template_dir(), "/srv/templates");
}

#[test]
fn keys_are_compared_by_their_full_text() {
    let mut state = cache(4);
    put(&mut state, "a", "1", 1);
    put(&mut state, "A", "2", 2);
    put(&mut state, "a ", "3", 3);
    put(&mut state, "", "4", 4);
    assert_eq!(state.len(), 4);
    assert_eq!(state.get_template("a", 5), hit("1"));
    assert_eq!(state.get_template("", 5), hit("4"));
}

#[test]
fn initial_state_holds_the_default_capacity() {
    let mut state = initialize_state("templates");
    assert_eq!(DEFAULT_CACHE_CAPACITY, 100);
    assert_eq!(SWEEP_INTERVAL_MS, 600_000);
    assert_eq!(state.len(), 0);
    assert_eq!(state.template_dir(), "templates");
    for i in 0..101u64 {
        put(&mut state, &format!("t{}", i), "x", i);
    }
    assert_eq!(state.len(), 100);
    assert_eq!(state.get_template("t0", 200), miss("templates/t0"));
    assert_eq!(state.get_template("t1", 200), hit("x"));
}

#[test]
fn get_or_load_reads_the_backing_file_on_a_miss_only() {
    let mut state = cache(2);
    let mut reads = 0;
    let first = state.get_or_load("a.mjml", 1, |file| {
        reads += 1;
        assert_eq!(file, "templates/a.mjml");
        Ok("text".to_string())
    });
    assert_eq!(first, Ok("text".to_string()));
    let second = state.get_or_load("a.mjml", 2, |_| {
        reads += 1;
        Ok("other".to_string())
    });
    assert_eq!(second, Ok("text".to_string()));
    assert_eq!(reads, 1);
    assert_eq!(state.len(), 1);
}

#[test]
fn get_or_load_after_remove_reads_again() {
    let mut state = cache(2);
    put(&mut state, "a.mjml", "cached", 1);
    assert_eq!(state.remove_template_from_cache("a.mjml"), Ok(()));
    let mut reads = 0;
    let loaded = state.get_or_load("a.mjml", 2, |_| {
        reads += 1;
        Ok("from disk".to_string())
    });
    assert_eq!(loaded, Ok("from disk".to_string()));
    assert_eq!(reads, 1);
}

#[test]
fn get_or_load_that_cannot_read_fails_and_stores_nothing() {
    let mut state = cache(2);
    let loaded = state.get_or_load("a.mjml", 1, |_| Err("permission denied".to_string()));
    assert_eq!(
        loaded,
        Err("Failed to read template file templates/a.mjml: permission denied".to_string())
    );
    assert_eq!(state.len(), 0);
}

#[test]
fn get_or_load_counts_as_a_use() {
    let mut state = cache(2);
    put(&mut state, "a", "1", 1);
    put(&mut state, "b", "2", 2);
    assert_eq!(state.get_or_load("a", 3, |_| Err("unused".to_string())), Ok("1".to_string()));
    put(&mut state, "c", "3", 4);
    assert_eq!(state.get_template("b", 5), miss("templates/b"));
    assert_eq!(state.get_template("a", 5), hit("1"));
}

#[test]
fn default_capacity_is_one_a_cache_can_be_made_for() {
    assert_eq!(MAX_CAPACITY, usize::MAX / 128);
    assert!(0 < DEFAULT_CACHE_CAPACITY && DEFAULT_CACHE_CAPACITY <= MAX_CAPACITY);
}

#[test]
fn entry_keeps_its_text_until_it_is_replaced() {
    let mut state = cache(3);
    put(&mut state, "a", "first", 1);
    put(&mut state, "b", "x", 2);
    assert_eq!(state.get_template("b", 3), hit("x"));
    assert_eq!(state.remove_template_from_cache("b"), Ok(()));
    state.clean_old_templates(100, 50);
    put(&mut state, "c", "y", 60);
    assert_eq!(state.get_template("a", 70), hit("first"));
    put(&mut state, "a", "second", 80);
    assert_eq!(state.get_template("a", 90), hit("second"));
}

#[test]
fn inserting_twice_is_inserting_once() {
    let mut once = cache(2);
    let mut twice = cache(2);
    for state in [&mut once, &mut twice] {
        put(state, "a", "1", 1);
        put(state, "b", "2", 2);
        put(state, "c", "3", 3);
    }
    put(&mut twice, "c", "3", 3);
    for state in [&mut once, &mut twice] {
        assert_eq!(state.len(), 2);
        assert_eq!(state.get_template("a", 4), miss("templates/a"));
        assert_eq!(state.get_template("b", 4), hit("2"));
        assert_eq!(state.get_template("c", 4), hit("3"));
    }
}

#[test]
fn sweep_of_a_middle_entry_keeps_the_others_in_their_order() {
    let mut state = cache(3);
    put(&mut state, "a", "1", 10);
    put(&mut state, "b", "2", 1);
    put(&mut state, "c", "3", 20);
    // Only "b" has been idle for 15 or longer.
    state.clean_old_templates(15, 20);
    assert_eq!(state.len(), 2);
    put(&mut state, "d", "4", 21);
    put(&mut state, "e", "5", 22);
    // "a" stood behind "c" and is the one that had to leave.
    assert_eq!(state.len(), 3);
    assert_eq!(state.get_template("a", 23), miss("templates/a"));
    assert_eq!(state.get_template("b", 23), miss("templates/b"));
    assert_eq!(state.get_template("c", 23), hit("3"));
    assert_eq!(state.get_template("d", 23), hit("4"));
    assert_eq!(state.get_template("e", 23), hit("5"));
}

#[test]
fn eviction_follows_recency_where_the_clock_went_back() {
    let mut state = cache(2);
    put(&mut state, "a", "1", 10);
    put(&mut state, "b", "2", 5);
    put(&mut state, "c", "3", 11);
    // "a" was used least recently, though "b" carries the smaller time.
    assert_eq!(state.get_template("a", 12), miss("templates/a"));
    assert_eq!(state.get_template("b", 12), hit("2"));
}
