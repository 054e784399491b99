use nanopdf::handle::HandleStore;
use nanopdf::handle::new_handle;
use nanopdf::store::{EvictionPolicy, Store, StoreType};

fn test_store() -> Store {
    // Mirrors the store the original tests ran against: a 1 MiB budget.
    Store::new(1024 * 1024)
}

#[test]
fn test_store_item() {
    let mut store = test_store();
    let id = store.put(StoreType::Image, 100, 1024, b"test_key".to_vec());
    assert!(id > 0);
    assert_eq!(store.count(), 1);
    assert_eq!(store.current_size(), 1024);
}

#[test]
fn test_store_find() {
    let mut store = test_store();
    let handle: u64 = 42;
    store.put(StoreType::Font, handle, 100, b"find_test".to_vec());
    let found = store.find_by_key(b"find_test");
    assert_eq!(found, Some(handle));
    assert_eq!(store.hits(), 1);
}

#[test]
fn test_store_miss() {
    let mut store = test_store();
    let found = store.find_by_key(b"nonexistent");
    assert_eq!(found, None);
    assert_eq!(store.misses(), 1);
}

#[test]
fn test_store_eviction() {
    let mut store = Store::new(500);
    for i in 0..10u64 {
        let key = format!("key_{}", i);
        store.put(StoreType::Image, i, 100, key.into_bytes());
    }
    // Some items must have been evicted to hold the budget.
    assert!(store.current_size() <= 500);
    assert!(store.total_evicted() > 0);
}

#[test]
fn test_store_remove() {
    let mut store = test_store();
    let handle: u64 = 99;
    let id = store.put(StoreType::Font, handle, 50, b"remove_test".to_vec());
    assert_eq!(store.count(), 1);
    let removed = store.remove(id);
    assert_eq!(removed, Some(handle));
    assert_eq!(store.count(), 0);
}

#[test]
fn test_store_type_tracking() {
    let mut store = test_store();
    store.put(StoreType::Font, 1, 100, b"font1".to_vec());
    store.put(StoreType::Image, 2, 200, b"image1".to_vec());
    assert_eq!(store.type_size(StoreType::Font), 100);
    assert_eq!(store.type_size(StoreType::Image), 200);
    assert_eq!(store.type_count(StoreType::Font), 1);
    assert_eq!(store.type_count(StoreType::Image), 1);
}

#[test]
fn test_store_clear() {
    let mut store = test_store();
    for i in 0..5u64 {
        let key = format!("clear_{}", i);
        store.put(StoreType::Generic, i, 10, key.into_bytes());
    }
    assert_eq!(store.count(), 5);
    store.clear();
    assert_eq!(store.count(), 0);
    assert_eq!(store.current_size(), 0);
}

#[test]
fn test_hit_rate() {
    let mut store = test_store();
    store.put(StoreType::Generic, 1, 10, b"hit_rate".to_vec());
    // 2 hits
    store.find_by_key(b"hit_rate");
    store.find_by_key(b"hit_rate");
    // 1 miss
    store.find_by_key(b"miss");
    let rate = store.hits() as f32 / (store.hits() + store.misses()) as f32;
    assert!((rate - 0.666).abs() < 0.01); // ~66.6% hit rate
}

#[test]
fn test_non_evictable() {
    let mut store = Store::new(200);
    let id1 = store.put(StoreType::Generic, 1, 150, b"pinned".to_vec());
    store.set_evictable(id1, false); // Mark as non-evictable
    // Try to add an item that would require eviction
    store.put(StoreType::Generic, 2, 100, b"new".to_vec());
    // Pinned item should still be there
    let found = store.find_by_key(b"pinned");
    assert_eq!(found, Some(1));
}

// Budget invariant: after a run of puts and removes the charged size always
// matches the live entries, and stays within the budget when nothing is
// pinned.
#[test]
fn budget_stays_within_max() {
    let mut store = Store::new(250);
    let a = store.put(StoreType::Generic, 1, 100, b"a".to_vec());
    store.put(StoreType::Generic, 2, 100, b"b".to_vec());
    assert_eq!(store.current_size(), 200);
    store.remove(a);
    assert_eq!(store.current_size(), 100);
    store.put(StoreType::Generic, 3, 100, b"c".to_vec());
    store.put(StoreType::Generic, 4, 100, b"d".to_vec());
    // One entry must have gone to make room.
    assert!(store.current_size() <= 250);
}

// An item larger than the whole budget is still admitted, temporarily
// exceeding the budget rather than being rejected.
#[test]
fn oversized_item_is_admitted() {
    let mut store = Store::new(100);
    let id = store.put(StoreType::Generic, 1, 500, b"big".to_vec());
    assert!(id > 0);
    assert_eq!(store.count(), 1);
    assert_eq!(store.current_size(), 500);
}

// Hit/miss accounting: every lookup with a non-empty key counts exactly
// once, as a hit or as a miss.
#[test]
fn hit_miss_accounting() {
    let mut store = test_store();
    let id = store.put(StoreType::Generic, 7, 10, b"k".to_vec());
    store.find_by_key(b"k");
    store.find_by_key(b"unknown");
    store.find_by_id(id);
    store.find_by_id(id + 1000);
    assert_eq!(store.hits(), 2);
    assert_eq!(store.misses(), 2);
    assert_eq!(store.hits() + store.misses(), 4);
    // An empty key is not a lookup and counts nowhere.
    assert_eq!(store.find_by_key(b""), None);
    assert_eq!(store.hits() + store.misses(), 4);
}

// LRU selection: with a budget that holds two entries, the least recently
// used candidate loses on each insertion.
#[test]
fn lru_selection() {
    let mut store = Store::new(200);
    let a = store.put(StoreType::Generic, 1, 100, b"a".to_vec());
    let b = store.put(StoreType::Generic, 2, 100, b"b".to_vec());
    let c = store.put(StoreType::Generic, 3, 100, b"c".to_vec());
    // Inserting C evicted A, the least recently used of {A, B}.
    assert_eq!(store.find_by_id(a), None);
    // Re-accessing keeps an entry fresh; after this B is the oldest.
    store.find_by_id(c);
    let d = store.put(StoreType::Generic, 4, 100, b"d".to_vec());
    assert_eq!(store.find_by_id(b), None);
    assert_eq!(store.find_by_id(c), Some(3));
    assert_eq!(store.find_by_id(d), Some(4));
}

// Reference pinning: an entry with two logical references survives one
// release; the second release makes it unreachable by key and id.
#[test]
fn reference_pinning() {
    let mut store = test_store();
    let id = store.put(StoreType::Generic, 5, 10, b"refs".to_vec());
    assert_eq!(store.keep(id), id);
    store.drop_ref(id);
    assert_eq!(store.find_by_key(b"refs"), Some(5));
    store.drop_ref(id);
    assert_eq!(store.find_by_key(b"refs"), None);
    assert_eq!(store.find_by_id(id), None);
}

// A referenced entry is never an eviction victim.
#[test]
fn referenced_entry_survives_eviction() {
    let mut store = Store::new(200);
    let a = store.put(StoreType::Generic, 1, 100, b"a".to_vec());
    store.keep(a);
    store.put(StoreType::Generic, 2, 100, b"b".to_vec());
    store.put(StoreType::Generic, 3, 100, b"c".to_vec());
    assert_eq!(store.find_by_id(a), Some(1));
}

// Idempotent removal: removing an id twice misses the second time, without
// an error.
#[test]
fn idempotent_removal() {
    let mut store = test_store();
    let id = store.put(StoreType::Generic, 9, 10, b"once".to_vec());
    assert_eq!(store.remove(id), Some(9));
    assert_eq!(store.remove(id), None);
}

// Budget 500, ten same-kind 100-byte entries inserted sequentially under
// LRU: the budget holds and at least five entries were evicted.
#[test]
fn sequential_inserts_under_budget() {
    let mut store = Store::new(500);
    store.set_policy(EvictionPolicy::LRU);
    for i in 0..10u64 {
        let key = format!("e{}", i);
        store.put(StoreType::Image, i, 100, key.into_bytes());
    }
    assert!(store.current_size() <= 500);
    assert!(store.total_evicted() >= 5);
}

// The same ten inserts, pinned down exactly: each put past the fifth
// evicts precisely the least recently used entry, so the five youngest
// survive.
#[test]
fn sequential_inserts_exact_counts() {
    let mut store = Store::new(500);
    for i in 0..10u64 {
        let key = format!("e{}", i);
        store.put(StoreType::Image, i, 100, key.into_bytes());
    }
    assert_eq!(store.count(), 5);
    assert_eq!(store.current_size(), 500);
    assert_eq!(store.total_evicted(), 5);
    for i in 0..5u64 {
        let key = format!("e{}", i);
        assert_eq!(store.find_by_key(key.as_bytes()), None);
    }
    for i in 5..10u64 {
        let key = format!("e{}", i);
        assert_eq!(store.find_by_key(key.as_bytes()), Some(i));
    }
}

// Evicting a kind stops once the kind charges nothing, so a zero-size
// candidate that remains alone is left in place.
#[test]
fn evict_kind_leaves_zero_size_candidates() {
    let mut store = test_store();
    store.put(StoreType::Font, 1, 50, b"f1".to_vec());
    let zid = store.put(StoreType::Font, 2, 0, b"f2".to_vec());
    let n = store.evict_kind(StoreType::Font);
    assert_eq!(n, 1);
    assert_eq!(store.type_count(StoreType::Font), 1);
    assert_eq!(store.item_size(zid), 0);
    assert_eq!(store.find_by_key(b"f2"), Some(2));
}

// One entry found twice and one missing key queried once: two hits, one
// miss, a hit rate of about 0.667.
#[test]
fn hit_rate_two_thirds() {
    let mut store = test_store();
    store.put(StoreType::Generic, 1, 10, b"present".to_vec());
    assert_eq!(store.find_by_key(b"present"), Some(1));
    assert_eq!(store.find_by_key(b"present"), Some(1));
    assert_eq!(store.find_by_key(b"absent"), None);
    assert_eq!(store.hits(), 2);
    assert_eq!(store.misses(), 1);
    let rate = store.hits() as f64 / (store.hits() + store.misses()) as f64;
    assert!((rate - 0.667).abs() < 0.001);
}

// Pinning exemption: a pinned entry under tight budget pressure survives
// while unpinned competitors of equal or older age are evicted first.
#[test]
fn pinning_exemption() {
    let mut store = Store::new(200);
    let pinned = store.put(StoreType::Generic, 1, 100, b"pinned".to_vec());
    store.set_evictable(pinned, false);
    let young = store.put(StoreType::Generic, 2, 100, b"young".to_vec());
    // A third entry forces eviction: the unpinned competitor goes, the
    // pinned entry stays although it is older.
    store.put(StoreType::Generic, 3, 100, b"third".to_vec());
    assert_eq!(store.find_by_id(young), None);
    assert_eq!(store.find_by_key(b"pinned"), Some(1));
}

#[test]
fn duplicate_key_reclaims_budget() {
    let mut store = test_store();
    let first = store.put(StoreType::Generic, 1, 100, b"dup".to_vec());
    let second = store.put(StoreType::Generic, 2, 60, b"dup".to_vec());
    assert_ne!(first, second);
    assert_eq!(store.count(), 1);
    assert_eq!(store.current_size(), 60);
    assert_eq!(store.find_by_key(b"dup"), Some(2));
    assert_eq!(store.find_by_id(first), None);
}

#[test]
fn lfu_selects_least_frequently_used() {
    let mut store = test_store();
    store.set_policy(EvictionPolicy::LFU);
    let a = store.put(StoreType::Generic, 1, 10, b"a".to_vec());
    let b = store.put(StoreType::Generic, 2, 10, b"b".to_vec());
    let c = store.put(StoreType::Generic, 3, 10, b"c".to_vec());
    store.find_by_id(a);
    store.find_by_id(b);
    store.find_by_id(b);
    assert_eq!(store.select_victim(), c);
}

#[test]
fn fifo_selects_first_inserted() {
    let mut store = test_store();
    store.set_policy(EvictionPolicy::FIFO);
    let a = store.put(StoreType::Generic, 1, 10, b"a".to_vec());
    store.put(StoreType::Generic, 2, 10, b"b".to_vec());
    // Accessing A does not protect it under FIFO.
    store.find_by_id(a);
    assert_eq!(store.select_victim(), a);
}

#[test]
fn random_policy_picks_first_candidate() {
    let mut store = test_store();
    store.set_policy(EvictionPolicy::Random);
    let a = store.put(StoreType::Generic, 1, 10, b"a".to_vec());
    let b = store.put(StoreType::Generic, 2, 10, b"b".to_vec());
    store.set_evictable(a, false);
    // The deterministic arbitrary pick takes the first candidate in
    // insertion order; A is pinned, so B is next.
    assert_eq!(store.select_victim(), b);
    store.set_evictable(a, true);
    assert_eq!(store.select_victim(), a);
}

#[test]
fn type_limit_is_enforced() {
    let mut store = test_store();
    store.set_type_limit(StoreType::Font, 150);
    store.put(StoreType::Font, 1, 100, b"f1".to_vec());
    store.put(StoreType::Font, 2, 100, b"f2".to_vec());
    assert!(store.type_size(StoreType::Font) <= 150);
    // Other kinds are not limited.
    store.put(StoreType::Image, 3, 400, b"i1".to_vec());
    assert_eq!(store.type_size(StoreType::Image), 400);
}

#[test]
fn evict_kind_clears_one_kind() {
    let mut store = test_store();
    store.put(StoreType::Font, 1, 100, b"f1".to_vec());
    store.put(StoreType::Image, 2, 200, b"i1".to_vec());
    let n = store.evict_kind(StoreType::Font);
    assert_eq!(n, 1);
    assert_eq!(store.type_count(StoreType::Font), 0);
    assert_eq!(store.type_count(StoreType::Image), 1);
    assert_eq!(store.total_evicted(), 1);
}

#[test]
fn evict_older_than_sweeps_stale_entries() {
    let mut store = test_store();
    let a = store.put(StoreType::Generic, 1, 10, b"a".to_vec());
    let b = store.put(StoreType::Generic, 2, 10, b"b".to_vec());
    store.find_by_id(a); // refresh a
    let n = store.evict_older_than(0);
    assert_eq!(n, 1);
    assert_eq!(store.find_by_key(b"b"), None);
    assert_eq!(store.find_by_id(b), None);
    assert_eq!(store.item_size(a), 10);
}

#[test]
fn item_metadata_accessors() {
    let mut store = test_store();
    let id = store.put(StoreType::Font, 4, 77, b"meta".to_vec());
    assert_eq!(store.item_size(id), 77);
    assert_eq!(store.item_type(id), Some(StoreType::Font));
    assert_eq!(store.item_access_count(id), 0);
    store.find_by_id(id);
    assert_eq!(store.item_access_count(id), 1);
    assert_eq!(store.item_age(id), 1);
    // Unknown ids report zero values.
    assert_eq!(store.item_size(id + 100), 0);
    assert_eq!(store.item_type(id + 100), None);
}

#[test]
fn remove_by_key_detaches_entry() {
    let mut store = test_store();
    store.put(StoreType::Generic, 11, 10, b"k1".to_vec());
    assert_eq!(store.remove_by_key(b"k1"), Some(11));
    assert_eq!(store.remove_by_key(b"k1"), None);
    assert_eq!(store.remove_by_key(b""), None);
}

#[test]
fn stats_accumulate_and_reset() {
    let mut store = test_store();
    store.put(StoreType::Generic, 1, 10, b"x".to_vec());
    store.put(StoreType::Generic, 2, 10, b"y".to_vec());
    assert_eq!(store.total_stored(), 2);
    store.find_by_key(b"x");
    store.find_by_key(b"zzz");
    store.reset_stats();
    assert_eq!(store.hits(), 0);
    assert_eq!(store.misses(), 0);
    assert_eq!(store.total_stored(), 0);
    assert_eq!(store.total_evicted(), 0);
    // Entries themselves survive a statistics reset.
    assert_eq!(store.count(), 2);
}

#[test]
fn set_max_size_shrinks_immediately() {
    let mut store = Store::new(400);
    store.put(StoreType::Generic, 1, 100, b"a".to_vec());
    store.put(StoreType::Generic, 2, 100, b"b".to_vec());
    store.put(StoreType::Generic, 3, 100, b"c".to_vec());
    store.set_max_size(150);
    assert_eq!(store.max_size(), 150);
    assert!(store.current_size() <= 150);
    assert!(store.total_evicted() >= 2);
}

#[test]
fn clear_counts_cleared_items_as_evicted() {
    let mut store = test_store();
    store.put(StoreType::Generic, 1, 10, b"a".to_vec());
    store.put(StoreType::Generic, 2, 10, b"b".to_vec());
    store.clear();
    assert_eq!(store.total_evicted(), 2);
}

#[test]
fn default_store_has_default_budget() {
    let store = Store::default();
    assert_eq!(store.max_size(), 256 * 1024 * 1024);
    assert_eq!(store.count(), 0);
}

// An entry stored without a key is reachable by id only.
#[test]
fn unkeyed_entry_reachable_by_id_only() {
    let mut store = test_store();
    let id = store.put(StoreType::Glyph, 77, 10, Vec::new());
    assert_eq!(store.find_by_id(id), Some(77));
    assert_eq!(store.find_by_key(b""), None);
    // The empty-key probe counted nothing; only the id lookup did.
    assert_eq!(store.hits(), 1);
    assert_eq!(store.misses(), 0);
}

#[test]
fn find_by_id_counts_misses() {
    let mut store = test_store();
    assert_eq!(store.find_by_id(12345), None);
    assert_eq!(store.misses(), 1);
}

// Handle allocator and handle table
#[test]
fn handle_counter_is_monotonic() {
    let mut counter: u64 = 1;
    let h1 = new_handle(&mut counter);
    let h2 = new_handle(&mut counter);
    assert_eq!(h1, 1);
    assert_eq!(h2, 2);
    assert_ne!(h1, 0);
    assert_eq!(counter, 3);
}

#[test]
fn handle_store_insert_get_remove() {
    let mut table: HandleStore<String> = HandleStore::new();
    let h = table.insert("value".to_string());
    assert_ne!(h, 0);
    assert_eq!(table.get(h), Some(&"value".to_string()));
    assert_eq!(table.remove(h), Some("value".to_string()));
    assert_eq!(table.get(h), None);
    // Removing the same handle again yields nothing, not an error.
    assert_eq!(table.remove(h), None);
}

#[test]
fn handle_store_handles_are_unique() {
    let mut table: HandleStore<u32> = HandleStore::new();
    let h1 = table.insert(1);
    let h2 = table.insert(2);
    let h3 = table.insert(3);
    assert!(h1 != h2 && h2 != h3 && h1 != h3);
    assert_eq!(table.get(h2), Some(&2));
}

#[test]
fn handle_store_keep_returns_same_handle() {
    let mut table: HandleStore<u32> = HandleStore::new();
    let h = table.insert(9);
    assert_eq!(table.keep(h), h);
    assert_eq!(table.get(h), Some(&9));
}
