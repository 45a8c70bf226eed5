use oeis_tui::store::LocalStore;
use oeis_tui::store::ingest_searches;
use oeis_tui::store::ingest_views;
use oeis_tui::store::resolve_recent_details;

#[test]
fn test_cache_creation() {
    let cache = LocalStore::open_in_memory();
    assert!(cache.is_some());
}

#[test]
fn test_cache_sequence() {
    let mut cache = LocalStore::open_in_memory().unwrap();

    cache.cache_sequence(123, "Test sequence", 0);

    let cached = cache.get_cached_sequence(123, 365, 0);
    assert!(cached.is_some());

    let payload = cached.unwrap();
    assert_eq!(payload, "Test sequence");
    assert!(cache.get_cached_sequence(124, 365, 0).is_none());
}

#[test]
fn test_search_history() {
    let mut cache = LocalStore::open_in_memory().unwrap();

    cache.add_search_history("fibonacci", 1);
    cache.add_search_history("prime numbers", 2);

    let history = cache.get_search_history(10);
    assert!(history.len() >= 2);
    assert_eq!(history[0].0, "prime numbers");
    assert_eq!(history[1].0, "fibonacci");
}

#[test]
fn test_bookmarks() {
    let mut cache = LocalStore::open_in_memory().unwrap();

    cache.add_bookmark(45, Some("Fibonacci sequence"), 0);
    assert!(cache.is_bookmarked(45));

    let bookmarks = cache.get_bookmarks();
    assert!(!bookmarks.is_empty());
    assert_eq!(bookmarks[0].0, 45);
    assert_eq!(bookmarks[0].1.as_deref(), Some("Fibonacci sequence"));

    cache.remove_bookmark(45);
    assert!(!cache.is_bookmarked(45));
}

#[test]
fn test_ttl_read_symmetry() {
    let mut store = LocalStore::open_in_memory().unwrap();

    store.cache_search("fibonacci", "payload", 10);
    assert_eq!(store.get_cached_search("fibonacci", i64::MAX, 10).as_deref(), Some("payload"));

    // a zero threshold reads nothing back once any time has passed
    assert!(store.get_cached_search("fibonacci", 0, 11).is_none());
    // but immediately it still reads back
    assert_eq!(store.get_cached_search("fibonacci", 0, 10).as_deref(), Some("payload"));
}

#[test]
fn test_entity_cache_expiry() {
    let mut store = LocalStore::open_in_memory().unwrap();

    store.cache_sequence(45, "seq", 0);
    assert_eq!(store.get_cached_sequence(45, 365, 0).as_deref(), Some("seq"));

    // four hundred days later the record is stale, though still stored
    assert!(store.get_cached_sequence(45, 365, 400).is_none());
    assert_eq!(store.get_stats().cached_sequences, 1);
}

#[test]
fn test_view_increment() {
    let mut store = LocalStore::open_in_memory().unwrap();

    store.record_view(7, 1);
    store.record_view(7, 2);
    store.record_view(7, 3);
    store.cache_sequence(7, "seven", 3);

    let rows = store.get_recently_viewed_with_details(8);
    assert_eq!(rows.len(), 1);
    assert_eq!(rows[0].number, 7);
    assert_eq!(rows[0].view_count, 3);
    assert_eq!(rows[0].viewed_at, 3);

    assert_eq!(store.get_recently_viewed(8), vec![7]);
}

#[test]
fn test_recent_order_is_most_recent_first() {
    let mut store = LocalStore::open_in_memory().unwrap();

    store.record_view(1, 1);
    store.record_view(2, 2);
    store.record_view(1, 3);

    assert_eq!(store.get_recently_viewed(8), vec![1, 2]);
    assert_eq!(store.get_recently_viewed(1), vec![1]);
}

#[test]
fn test_clear_cache_asymmetry() {
    let mut store = LocalStore::open_in_memory().unwrap();

    store.cache_search("fibonacci", "r1", 1);
    store.cache_sequence(45, "s1", 2);
    store.add_search_history("fibonacci", 3);
    store.record_view(45, 4);
    store.add_bookmark(45, None, 5);

    store.clear_cache();

    let stats = store.get_stats();
    assert_eq!(stats.cached_searches, 0);
    assert_eq!(stats.cached_sequences, 0);
    assert_eq!(stats.total_searches, 1);
    assert_eq!(stats.viewed_sequences, 1);
    assert_eq!(stats.bookmarked_sequences, 1);
    assert!(store.is_bookmarked(45));
    assert!(store.get_cached_search("fibonacci", i64::MAX, 5).is_none());
}

#[test]
fn test_upsert_last_write_wins() {
    let mut store = LocalStore::open_in_memory().unwrap();

    store.cache_search("q", "old", 1);
    store.cache_search("q", "new", 2);
    assert_eq!(store.get_cached_search("q", i64::MAX, 2).as_deref(), Some("new"));
    assert_eq!(store.get_stats().cached_searches, 1);
}

#[test]
fn test_history_dedup_keeps_most_recent() {
    let mut store = LocalStore::open_in_memory().unwrap();

    store.add_search_history("alpha", 1);
    store.add_search_history("beta", 2);
    store.add_search_history("alpha", 3);

    let history = store.get_search_history(10);
    assert_eq!(history.len(), 2);
    assert_eq!(history[0], ("alpha".to_string(), 3));
    assert_eq!(history[1], ("beta".to_string(), 2));

    let limited = store.get_search_history(1);
    assert_eq!(limited.len(), 1);
    assert_eq!(limited[0].0, "alpha");
}

#[test]
fn test_recent_details_skip_missing_payload() {
    let mut store = LocalStore::open_in_memory().unwrap();

    store.record_view(1, 1);
    store.record_view(2, 2);
    store.cache_sequence(2, "two", 2);

    // entity 1 has no cached payload, so only entity 2 is listed
    let rows = store.get_recently_viewed_with_details(8);
    assert_eq!(rows.len(), 1);
    assert_eq!(rows[0].number, 2);
    assert_eq!(rows[0].payload, "two");

    // a row whose payload fails to decode is dropped, not surfaced
    let names = vec![None];
    let resolved = resolve_recent_details(&rows, &names);
    assert!(resolved.is_empty());

    let names = vec![Some("Two".to_string())];
    let resolved = resolve_recent_details(&rows, &names);
    assert_eq!(resolved.len(), 1);
    assert_eq!(resolved[0].1, "Two");
}

#[test]
fn test_ingest_admits_first_occurrence_per_key() {
    // nothing is promised of rows on disk, so repeated keys must be
    // dropped on the way in, first occurrence winning
    let rows = vec![
        ("a".to_string(), "one".to_string(), 5),
        ("b".to_string(), "two".to_string(), 4),
        ("a".to_string(), "three".to_string(), 3),
    ];
    let records = ingest_searches(&rows);
    assert_eq!(records.len(), 2);
    assert_eq!(records[0].key, "a");
    assert_eq!(records[0].payload, "one");
    assert_eq!(records[1].key, "b");

    // view rows additionally get their count clamped to at least one
    let rows = vec![(7, 9, 0), (7, 8, 2), (8, 7, -3)];
    let ledger = ingest_views(&rows);
    assert_eq!(ledger.len(), 2);
    assert_eq!(ledger[0].number, 7);
    assert_eq!(ledger[0].view_count, 1);
    assert_eq!(ledger[1].number, 8);
    assert_eq!(ledger[1].view_count, 1);
}

#[test]
fn test_reopen_keeps_nothing_in_memory_database() {
    // an in-memory database is fresh on every open
    let store = LocalStore::open_in_memory().unwrap();
    let stats = store.get_stats();
    assert_eq!(stats.cached_searches, 0);
    assert_eq!(stats.total_searches, 0);
    assert_eq!(stats.bookmarked_sequences, 0);
}
