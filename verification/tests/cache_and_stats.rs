use dataload_rs::Cache;
use dataload_rs::HashCache;
use dataload_rs::WorkerStats;

#[test]
fn cache_get_in_input_order() {
    let mut cache = HashCache::new();
    cache.insert(1, "one".to_owned());
    cache.insert(2, "two".to_owned());
    assert_eq!(
        cache.get(&vec![2, 3, 1]),
        vec![Some("two".to_owned()), None, Some("one".to_owned())]
    );
}

#[test]
fn cache_get_key_vals_pairs_keys() {
    let mut cache = HashCache::new();
    cache.insert(5, "five".to_owned());
    assert_eq!(
        cache.get_key_vals(&vec![5, 6]),
        vec![(5, Some("five".to_owned())), (6, None)]
    );
}

#[test]
fn cache_insert_many_later_pair_wins() {
    let mut cache = HashCache::new();
    cache.insert_many(vec![
        (1, "a".to_owned()),
        (2, "b".to_owned()),
        (1, "c".to_owned()),
    ]);
    assert_eq!(cache.get(&vec![1, 2]), vec![Some("c".to_owned()), Some("b".to_owned())]);
}

#[test]
fn cache_remove_and_flush() {
    let mut cache = HashCache::new();
    cache.insert_many(vec![(1, "a".to_owned()), (2, "b".to_owned()), (3, "c".to_owned())]);
    cache.remove(&vec![1, 3]);
    assert_eq!(cache.get(&vec![1, 2, 3]), vec![None, Some("b".to_owned()), None]);
    cache.flush();
    assert_eq!(cache.get(&vec![2]), vec![None]);
}

#[test]
fn stats_track_batches_exactly() {
    let mut stats = WorkerStats::new("worker");
    stats.record_load_request(3);
    stats.record_load_request(1);
    stats.record_cache_hits(2);
    stats.record_load_exec(4);
    stats.record_load_exec(2);
    stats.record_load_exec_completed(3, 3);
    stats.record_load_exec_completed(2, 1);

    assert_eq!(stats.tag, "worker");
    assert_eq!(stats.load_requests, 2);
    assert_eq!(stats.items_requested, 4);
    assert_eq!(stats.cache_hits, 2);
    assert_eq!(stats.loads, 2);
    assert_eq!(stats.total_batch_size, 6);
    assert_eq!(stats.max_batch_size, 4);
    assert_eq!(stats.min_batch_size, 2);
    assert_eq!(stats.max_batch_unique, 3);
    assert_eq!(stats.min_batch_unique, 2);
    assert_eq!(stats.items_loaded, 4);
}

#[test]
fn stats_counters_saturate() {
    let mut stats = WorkerStats::new("saturating");
    stats.record_cache_hits(u64::MAX);
    stats.record_cache_hits(7);
    assert_eq!(stats.cache_hits, u64::MAX);
}
