use ternary_llm::kv_cache::KvCache;

#[test]
fn test_kv_cache_push_and_retrieve() {
    let mut cache = KvCache::new(16);
    cache.push(vec![1.0_f32, -1.0, 0.5], vec![0.3_f32, -0.7, 0.0]);
    assert_eq!(cache.len(), 1);
    let k = cache.get_key(0);
    assert_eq!(k.len(), 3);
    let v = cache.get_value(0);
    assert_eq!(v.len(), 3);
}

#[test]
fn test_kv_cache_max_len_eviction() {
    let mut cache = KvCache::new(3);
    for i in 0..5_usize {
        cache.push(vec![i as f32], vec![i as f32]);
    }
    assert_eq!(cache.len(), 3);
}

#[test]
fn kv_cache_keeps_latest_in_order() {
    let mut cache = KvCache::new(3);
    assert!(cache.is_empty());
    for i in 0..5_u32 {
        cache.push(i, 10 * i);
    }
    assert!(!cache.is_empty());
    assert_eq!(*cache.get_key(0), 2);
    assert_eq!(*cache.get_key(1), 3);
    assert_eq!(*cache.get_key(2), 4);
    assert_eq!(*cache.get_value(2), 40);
}

#[test]
fn kv_cache_reads_back_newest() {
    let mut cache = KvCache::new(2);
    cache.push(7u8, 8u8);
    cache.push(9u8, 1u8);
    cache.push(4u8, 5u8);
    let n = cache.len();
    assert_eq!(*cache.get_key(n - 1), 4);
    assert_eq!(*cache.get_value(n - 1), 5);
}
