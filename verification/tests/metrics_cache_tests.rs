use sniproxy::metrics_cache::MetricLabelCache;

#[test]
fn test_label_cache_basic() {
    let mut cache = MetricLabelCache::new();
    let label1 = cache.get_or_insert("example.com", "http1.1");
    let label2 = cache.get_or_insert("example.com", "http1.1");

    // the second lookup hands out the cached label without growing the map
    assert_eq!(label1, label2);
    assert_eq!(label1, "example.com-http1.1");
    assert_eq!(cache.len(), 1);
}

#[test]
fn test_label_cache_different_entries() {
    let mut cache = MetricLabelCache::new();
    let label1 = cache.get_or_insert("example.com", "http1.1");
    let label2 = cache.get_or_insert("example.com", "http2");

    assert_ne!(label1, label2);
    assert_eq!(label1, "example.com-http1.1");
    assert_eq!(label2, "example.com-http2");
}

#[test]
fn test_label_cache_single() {
    let mut cache = MetricLabelCache::new();
    let label1 = cache.get_or_insert_single("test-label");
    let label2 = cache.get_or_insert_single("test-label");

    assert_eq!(label1, label2);
    assert_eq!(label1, "test-label");
    assert_eq!(cache.len(), 1);
}

#[test]
fn test_cache_len() {
    let mut cache = MetricLabelCache::new();
    assert_eq!(cache.len(), 0);
    assert!(cache.is_empty());

    cache.get_or_insert("example.com", "http1.1");
    assert_eq!(cache.len(), 1);
    assert!(!cache.is_empty());

    cache.get_or_insert("example.com", "http2");
    assert_eq!(cache.len(), 2);
}

#[test]
fn test_cache_clear() {
    let mut cache = MetricLabelCache::new();
    cache.get_or_insert("example.com", "http1.1");
    cache.get_or_insert("example.com", "http2");
    assert_eq!(cache.len(), 2);

    cache.clear();
    assert_eq!(cache.len(), 0);
    assert!(cache.is_empty());
}
