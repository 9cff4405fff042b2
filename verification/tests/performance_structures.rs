use claude_sdk_verified::performance::{
    BatchProcessor, BoundedCache, DataAggregator, HighThroughputProcessor, ObjectPool,
    SimpleBatchProcessor, TimeIndex,
};
use claude_sdk_verified::pools::ObjectPool as RecyclingPool;
use claude_sdk_verified::time::Duration;

#[test]
fn test_bounded_cache() {
    let mut cache = BoundedCache::new(2, 1, |s: &String| s.len());

    cache.put("key1".to_string(), "value1".to_string());
    cache.put("key2".to_string(), "value2".to_string());

    assert!(cache.get("key1").is_some());
    assert!(cache.get("key2").is_some());

    // This evicts the oldest entry.
    cache.put("key3".to_string(), "value3".to_string());

    assert!(cache.get("key3").is_some());
    assert!(cache.get("key1").is_none());
    assert_eq!(cache.get("key2"), Some("value2".to_string()));
}

#[test]
fn bounded_cache_respects_the_memory_budget() {
    // One megabyte: a 600 KB value and a 500 KB value do not fit together.
    let mut cache = BoundedCache::new(10, 1, |v: &Vec<u8>| v.len());
    cache.put("a".to_string(), vec![0u8; 600 * 1024]);
    cache.put("b".to_string(), vec![1u8; 500 * 1024]);
    assert!(cache.get("a").is_none());
    assert_eq!(cache.get("b").map(|v| v.len()), Some(500 * 1024));
    cache.clear();
    assert!(cache.get("b").is_none());
}

#[test]
fn bounded_cache_replaces_a_key() {
    let mut cache = BoundedCache::new(3, 1, |s: &String| s.len());
    cache.put("k".to_string(), "old".to_string());
    cache.put("k".to_string(), "new".to_string());
    assert_eq!(cache.get("k"), Some("new".to_string()));
}

#[test]
fn test_object_pool() {
    let mut pool: ObjectPool<Vec<u8>, _> = ObjectPool::new(5, || vec![0u8; 1024]);

    let mut objects = Vec::new();
    for _ in 0..3 {
        objects.push(pool.acquire());
    }
    for obj in &mut objects {
        obj[0] = 1;
    }
    for obj in objects {
        pool.release(obj);
    }

    let recycled = pool.acquire();
    assert_eq!(recycled[0], 1);
}

#[test]
fn a_full_pool_drops_released_objects() {
    let mut pool: ObjectPool<u32, _> = ObjectPool::new(1, || 0);
    pool.release(7);
    pool.release(8);
    assert_eq!(pool.acquire(), 7);
    assert_eq!(pool.acquire(), 0);
}

#[test]
fn test_object_pooling() {
    let mut pool = RecyclingPool::new(5, || Vec::<u32>::with_capacity(100));
    let buffer1 = pool.get();
    assert!(buffer1.is_empty());
    pool.return_object(buffer1);
    let buffer2 = pool.get();
    assert!(buffer2.is_empty());
    let (hits, misses, pooled) = pool.get_stats();
    assert_eq!((hits, misses, pooled), (1, 1, 0));
}

#[test]
fn recycling_pool_hands_out_the_oldest_first() {
    let mut pool = RecyclingPool::new(2, || 0u32);
    pool.return_object(1);
    pool.return_object(2);
    pool.return_object(3);
    assert_eq!(pool.get(), 1);
    assert_eq!(pool.get(), 2);
    assert_eq!(pool.get(), 0);
    assert_eq!(pool.get_stats(), (2, 1, 0));
}

#[test]
fn test_simple_batch_processor() {
    let processor = SimpleBatchProcessor::new(10, 4);
    let chunks = processor.chunks(25);
    assert_eq!(chunks, vec![(0, 10), (10, 20), (20, 25)]);
    let processed: usize = chunks.iter().map(|(a, b)| b - a).sum();
    assert_eq!(processed, 25);
    assert!(processor.chunks(0).is_empty());
}

#[test]
fn batch_processor_hands_over_full_batches() {
    let mut batches = BatchProcessor::new(2, Duration { millis: 100 }, 1);
    assert_eq!(batches.add('a'), None);
    assert_eq!(batches.add('b'), Some(vec!['a', 'b']));
    assert_eq!(batches.add('c'), None);
    assert_eq!(batches.flush(), Some(vec!['c']));
    assert_eq!(batches.flush(), None);
}

#[test]
fn window_keeps_the_latest_values() {
    let mut window = DataAggregator::new(3);
    for v in [1.0, 2.0, 3.0, 4.0] {
        window.add_value(v);
    }
    assert_eq!(window.values(), &vec![2.0, 3.0, 4.0]);
    let average: f64 = window.values().iter().sum::<f64>() / window.values().len() as f64;
    assert_eq!(average, 3.0);
}

#[test]
fn time_index_groups_by_day() {
    let day = 86_400;
    let mut index = TimeIndex::new();
    index.add_entry(2 * day + 10, 0);
    index.add_entry(day + 5, 1);
    index.add_entry(2 * day + 3600, 2);
    index.add_entry(-1, 3);

    assert_eq!(index.get_range(day, 0, 2 * day, 0), vec![1, 0, 2]);
    assert_eq!(index.get_range(day, 1, 2 * day, 0), vec![0, 2]);
    assert_eq!(index.get_range(-day, 0, 0, 0), vec![3]);
    assert_eq!(index.get_range(3 * day, 0, 4 * day, 0), Vec::<usize>::new());
}

#[test]
fn throughput_counts_batches() {
    let mut p = HighThroughputProcessor::new(4, 100);
    p.record_batch(100, true);
    p.record_batch(30, false);
    p.record_batch(20, true);
    assert_eq!(p.counts(), (120, 30));
    assert_eq!(p.shape(), (4, 100));
}
