use claude_sdk_verified::dashboard_cache::{
    analytics_summary_size, time_series_size, CacheConfig, CacheDataType, CacheSlot, CacheKey,
    DashboardCache, Store, DASHBOARD_DATA_BYTES, LIVE_DASHBOARD_BYTES,
};

const NOW: i64 = 1_700_000_000_000;

#[test]
fn test_dashboard_cache_basic_operations() {
    let config = CacheConfig {
        default_ttl_seconds: 60,
        max_memory_mb: 10,
        max_items: 100,
        ..Default::default()
    };
    let mut cache: DashboardCache<f64> = DashboardCache::new(config);
    let key = CacheKey::dashboard_data(None);

    assert!(cache.get(Store::Dashboard, &key, NOW).is_none());

    cache.set(Store::Dashboard, key.clone(), 10.50, None, DASHBOARD_DATA_BYTES, NOW);

    let cached = cache.get(Store::Dashboard, &key, NOW + 1);
    assert!(cached.is_some());
    assert_eq!(*cached.unwrap(), 10.50);
}

#[test]
fn test_cache_expiration() {
    let config = CacheConfig {
        default_ttl_seconds: 1,
        ..Default::default()
    };
    let mut cache: DashboardCache<u32> = DashboardCache::new(config);
    let key = CacheKey::live_dashboard_data();

    cache.set(Store::Live, key.clone(), 7, Some(1), LIVE_DASHBOARD_BYTES, NOW);
    assert!(cache.get(Store::Live, &key, NOW).is_some());

    // Two seconds later the entry has expired.
    assert!(cache.get(Store::Live, &key, NOW + 2000).is_none());
    assert_eq!(cache.counters().expired_cleaned, 1);
    assert_eq!(cache.item_counts().1, 0);
}

#[test]
fn test_cache_statistics() {
    let mut cache: DashboardCache<f64> = DashboardCache::new(CacheConfig::default());
    let key1 = CacheKey::dashboard_data(None);
    let key2 = CacheKey::analytics_summary(7);

    assert!(cache.get(Store::Dashboard, &key1, NOW).is_none());
    cache.set(Store::Dashboard, key1.clone(), 5.25, None, DASHBOARD_DATA_BYTES, NOW);
    assert!(cache.get(Store::Dashboard, &key1, NOW).is_some());
    assert!(cache.get(Store::Summary, &key2, NOW).is_none());

    let stats = cache.counters();
    assert_eq!(stats.total_requests, 3);
    assert_eq!(stats.cache_hits, 1);
    assert_eq!(stats.cache_misses, 2);
    let hit_ratio = stats.cache_hits as f64 / stats.total_requests as f64;
    assert!((hit_ratio - 0.333).abs() < 0.01);
}

#[test]
fn test_cache_invalidation() {
    let config = CacheConfig {
        enable_smart_invalidation: true,
        ..Default::default()
    };
    let mut cache: DashboardCache<f64> = DashboardCache::new(config);
    let key = CacheKey::dashboard_data(None);

    cache.set(Store::Dashboard, key.clone(), 15.75, None, DASHBOARD_DATA_BYTES, NOW);
    assert!(cache.get(Store::Dashboard, &key, NOW).is_some());

    cache.invalidate_related_caches("cost_data");

    assert!(cache.get(Store::Dashboard, &key, NOW).is_none());
}

#[test]
fn test_cache_cleanup_task() {
    let config = CacheConfig {
        cleanup_interval_seconds: 1,
        default_ttl_seconds: 1,
        ..Default::default()
    };
    let mut cache: DashboardCache<u32> = DashboardCache::new(config);
    let key = CacheKey::dashboard_data(None);
    cache.set(Store::Dashboard, key.clone(), 1, None, DASHBOARD_DATA_BYTES, NOW);
    assert_eq!(cache.item_counts().0, 1);

    cache.cleanup_expired_items(NOW + 2000);

    assert_eq!(cache.item_counts().0, 0);
    assert_eq!(cache.counters().expired_cleaned, 1);
}

#[test]
fn set_then_get_gives_back_the_data() {
    let mut cache: DashboardCache<&str> = DashboardCache::new(CacheConfig::default());
    let key = CacheKey::time_series_data(0, 3600, "cost");
    cache.set(Store::TimeSeries, key.clone(), "series", Some(60), time_series_size(10), NOW);
    assert_eq!(cache.get(Store::TimeSeries, &key, NOW + 59_000), Some(&"series"));
    assert_eq!(cache.counters().current_memory_bytes, 640);
}

#[test]
fn keys_with_different_parameters_are_different_entries() {
    let mut cache: DashboardCache<u32> = DashboardCache::new(CacheConfig::default());
    let a = CacheKey::new(CacheDataType::DashboardData, "dash".to_string())
        .with_param("session".to_string(), "a".to_string());
    let b = CacheKey::new(CacheDataType::DashboardData, "dash".to_string())
        .with_param("session".to_string(), "b".to_string());
    assert!(!a.same_as(&b));
    assert!(a.same_as(&a.clone()));

    cache.set(Store::Dashboard, a.clone(), 1, None, 10, NOW);
    cache.set(Store::Dashboard, b.clone(), 2, None, 10, NOW);
    assert_eq!(cache.get(Store::Dashboard, &a, NOW), Some(&1));
    assert_eq!(cache.get(Store::Dashboard, &b, NOW), Some(&2));
    assert_eq!(cache.item_counts().0, 2);
}

#[test]
fn replacing_an_entry_keeps_one_copy_and_its_size() {
    let mut cache: DashboardCache<u32> = DashboardCache::new(CacheConfig::default());
    let key = CacheKey::analytics_summary(30);
    cache.set(Store::Summary, key.clone(), 1, None, analytics_summary_size(2, 1), NOW);
    assert_eq!(cache.counters().current_memory_bytes, 1424);
    cache.set(Store::Summary, key.clone(), 2, None, analytics_summary_size(0, 0), NOW);
    assert_eq!(cache.item_counts().2, 1);
    assert_eq!(cache.counters().current_memory_bytes, 1024);
    assert_eq!(cache.get(Store::Summary, &key, NOW), Some(&2));
}

#[test]
fn a_full_store_drops_its_least_recently_used_entry() {
    let config = CacheConfig {
        max_items: 2,
        ..Default::default()
    };
    let mut cache: DashboardCache<u32> = DashboardCache::new(config);
    let k1 = CacheKey::analytics_summary(1);
    let k2 = CacheKey::analytics_summary(2);
    let k3 = CacheKey::analytics_summary(3);
    cache.set(Store::Summary, k1.clone(), 1, None, 100, NOW);
    cache.set(Store::Summary, k2.clone(), 2, None, 100, NOW);
    // Touch k1 so that k2 is the least recently used.
    assert!(cache.get(Store::Summary, &k1, NOW).is_some());
    cache.set(Store::Summary, k3.clone(), 3, None, 100, NOW);
    assert_eq!(cache.item_counts().2, 2);
    assert!(cache.get(Store::Summary, &k2, NOW).is_none());
    assert_eq!(cache.get(Store::Summary, &k1, NOW), Some(&1));
    assert_eq!(cache.get(Store::Summary, &k3, NOW), Some(&3));
}

#[test]
fn the_memory_budget_evicts_before_storing() {
    let config = CacheConfig {
        max_memory_mb: 1,
        ..Default::default()
    };
    let mut cache: DashboardCache<u32> = DashboardCache::new(config);
    let k1 = CacheKey::dashboard_data(Some(1));
    let k2 = CacheKey::dashboard_data(Some(2));
    cache.set(Store::Dashboard, k1.clone(), 1, None, 800 * 1024, NOW);
    assert!(!cache.would_exceed_memory_limit(100 * 1024));
    assert!(cache.would_exceed_memory_limit(300 * 1024));
    cache.set(Store::Dashboard, k2.clone(), 2, None, 300 * 1024, NOW);
    assert_eq!(cache.counters().evictions, 1);
    assert_eq!(cache.counters().current_memory_bytes, 300 * 1024);
    assert!(cache.get(Store::Dashboard, &k1, NOW).is_none());
    assert_eq!(cache.get(Store::Dashboard, &k2, NOW), Some(&2));
}

#[test]
fn clear_all_empties_every_store() {
    let mut cache: DashboardCache<u32> = DashboardCache::new(CacheConfig::default());
    cache.set(Store::Dashboard, CacheKey::dashboard_data(Some(7)), 1, None, 10, NOW);
    cache.set(Store::Live, CacheKey::live_dashboard_data(), 2, None, 10, NOW);
    assert_eq!(cache.total_items(), 2);
    cache.clear_all();
    assert_eq!(cache.item_counts(), (0, 0, 0, 0));
    assert_eq!(cache.total_items(), 0);
    assert_eq!(cache.counters().current_memory_bytes, 0);
}

#[test]
fn default_time_to_live_by_store() {
    let cache: DashboardCache<u32> = DashboardCache::new(CacheConfig::default());
    assert_eq!(cache.default_ttl_for(Store::Dashboard), 300);
    assert_eq!(cache.default_ttl_for(Store::Live), 30);
    assert_eq!(cache.default_ttl_for(Store::Summary), 600);
    assert_eq!(cache.default_ttl_for(Store::TimeSeries), 300);
}

#[test]
fn most_accessed_keys_rank_by_access_count() {
    let mut cache: DashboardCache<u32> = DashboardCache::new(CacheConfig::default());
    let global = CacheKey::dashboard_data(None);
    let other = CacheKey::new(CacheDataType::DashboardData, "team".to_string());
    let third = CacheKey::new(CacheDataType::DashboardData, "night".to_string());
    cache.set(Store::Dashboard, global.clone(), 1, None, 10, NOW);
    cache.set(Store::Dashboard, other.clone(), 2, None, 10, NOW);
    cache.set(Store::Dashboard, third.clone(), 3, None, 10, NOW);
    for _ in 0..3 {
        assert!(cache.get(Store::Dashboard, &other, NOW).is_some());
    }
    assert!(cache.get(Store::Dashboard, &global, NOW).is_some());
    assert_eq!(
        cache.most_accessed_keys(),
        vec![
            ("DashboardData:team".to_string(), 3),
            ("DashboardData:global".to_string(), 1),
            ("DashboardData:night".to_string(), 0),
        ]
    );
}

#[test]
fn requests_always_add_up_to_hits_and_misses() {
    let config = CacheConfig {
        enable_smart_invalidation: true,
        default_ttl_seconds: 1,
        ..Default::default()
    };
    let mut cache: DashboardCache<u32> = DashboardCache::new(config);
    let a = CacheKey::dashboard_data(None);
    let b = CacheKey::live_dashboard_data();
    cache.set(Store::Dashboard, a.clone(), 1, None, 10, NOW);
    let _ = cache.get(Store::Dashboard, &a, NOW);
    let _ = cache.get(Store::Live, &b, NOW);
    let _ = cache.get(Store::Dashboard, &a, NOW + 5000);
    cache.set(Store::Live, b.clone(), 2, None, 10, NOW);
    let _ = cache.get(Store::Live, &b, NOW);
    cache.invalidate_related_caches("cost_data");
    let _ = cache.get(Store::Dashboard, &a, NOW);
    cache.clear_all();
    let _ = cache.get(Store::Live, &b, NOW);
    let c = cache.counters();
    assert_eq!(c.total_requests, 6);
    assert_eq!(c.total_requests, c.cache_hits + c.cache_misses);
    assert_eq!(c.cache_hits, 2);
}

#[test]
fn a_slot_expires_after_its_time_to_live_and_counts_accesses() {
    let mut slot = CacheSlot::stored_at(NOW, 2, 64);
    assert_eq!(slot.expires_at, NOW + 2000);
    assert!(!slot.is_expired_at(NOW + 2000));
    assert!(slot.is_expired_at(NOW + 2001));
    slot.mark_accessed_at(NOW + 5);
    assert_eq!(slot.access_count, 1);
    assert_eq!(slot.last_accessed, NOW + 5);
}

#[test]
fn a_miss_then_a_store_then_a_hit_gives_the_data_back() {
    let mut cache: DashboardCache<u32> = DashboardCache::new(CacheConfig::default());
    let key = CacheKey::dashboard_data(None);
    assert_eq!(cache.get(Store::Dashboard, &key, NOW), None);
    cache.set(Store::Dashboard, key.clone(), 42, Some(60), 100, NOW);
    assert_eq!(cache.get(Store::Dashboard, &key, NOW + 60_000), Some(&42));
    let stats = cache.get_stats();
    assert_eq!(stats.total_requests, 2);
    assert_eq!(stats.cache_hits, 1);
    assert_eq!(stats.cache_misses, 1);
    assert_eq!(stats.total_items, 1);
    assert_eq!(stats.memory_bytes, 100);
    assert_eq!(stats.most_accessed_keys, vec![("DashboardData:global".to_string(), 1)]);
}
