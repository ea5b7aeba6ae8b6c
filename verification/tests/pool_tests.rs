use sniproxy::pool::{ConnectionPool, PoolConfig, PooledConnection, PoolStats};

// the pool is generic in what it parks; a small integer stands in for a
// TCP stream here
type TestPool = ConnectionPool<u32>;

#[test]
fn test_pool_disabled() {
    let config = PoolConfig {
        enabled: false,
        ..Default::default()
    };
    let mut pool: TestPool = ConnectionPool::new(config);

    // Should not accept connections when disabled
    assert!(!pool.put("test.com".to_string(), 1, 0));

    // Should not return connections when disabled
    assert!(pool.get("test.com", 0).is_none());
}

#[test]
fn test_pool_basic() {
    let config = PoolConfig {
        enabled: true,
        max_per_host: 10,
        ..Default::default()
    };
    let mut pool: TestPool = ConnectionPool::new(config);

    // Put connection in pool
    assert!(pool.put("test.com".to_string(), 7, 0));

    // Get connection from pool
    let retrieved = pool.get("test.com", 0);
    assert_eq!(retrieved, Some(7));

    // Pool should be empty now
    assert!(pool.get("test.com", 0).is_none());
}

#[test]
fn test_pool_max_per_host() {
    let config = PoolConfig {
        enabled: true,
        max_per_host: 2,
        ..Default::default()
    };
    let mut pool: TestPool = ConnectionPool::new(config);

    // Should accept first two
    assert!(pool.put("test.com".to_string(), 1, 0));
    assert!(pool.put("test.com".to_string(), 2, 0));

    // Should reject third (pool full)
    assert!(!pool.put("test.com".to_string(), 3, 0));
}

#[test]
fn test_pool_expiration() {
    let config = PoolConfig {
        enabled: true,
        connection_ttl: 1, // 1 second TTL
        idle_timeout: 60,
        ..Default::default()
    };
    let mut pool: TestPool = ConnectionPool::new(config);

    // Put connection in pool at time 0
    assert!(pool.put("test.com".to_string(), 1, 0));

    // Two seconds later the TTL has passed
    assert!(pool.get("test.com", 2).is_none());
}

#[test]
fn test_pool_idle_eviction() {
    let config = PoolConfig {
        enabled: true,
        connection_ttl: 600,
        idle_timeout: 30,
        ..Default::default()
    };
    let mut pool: TestPool = ConnectionPool::new(config);

    assert!(pool.put("test.com".to_string(), 1, 0));

    // past the idle cap the entry is not vended
    assert!(pool.get("test.com", 31).is_none());
}

#[test]
fn test_pool_most_recent_first() {
    let config = PoolConfig {
        enabled: true,
        ..Default::default()
    };
    let mut pool: TestPool = ConnectionPool::new(config);

    assert!(pool.put("h".to_string(), 1, 0));
    assert!(pool.put("h".to_string(), 2, 5));

    // the most recently parked entry comes out first
    assert_eq!(pool.get("h", 6), Some(2));
    assert_eq!(pool.get("h", 6), Some(1));
    assert!(pool.get("h", 6).is_none());
}

#[test]
fn test_pool_skips_stale_entries() {
    let config = PoolConfig {
        enabled: true,
        connection_ttl: 10,
        idle_timeout: 60,
        ..Default::default()
    };
    let mut pool: TestPool = ConnectionPool::new(config);

    assert!(pool.put("h".to_string(), 1, 0)); // will be expired at t = 12
    assert!(pool.put("h".to_string(), 2, 5)); // still fresh at t = 12

    assert_eq!(pool.get("h", 12), Some(2));
    // the older entry was already past its TTL and was discarded
    assert!(pool.get("h", 12).is_none());
}

#[test]
fn test_pool_cleanup() {
    let config = PoolConfig {
        enabled: true,
        connection_ttl: 1,
        idle_timeout: 60,
        ..Default::default()
    };
    let mut pool: TestPool = ConnectionPool::new(config);

    pool.put("test1.com".to_string(), 1, 0);
    pool.put("test2.com".to_string(), 2, 0);

    // Cleanup two seconds later should remove both
    pool.cleanup(2);

    let stats = pool.stats();
    assert_eq!(stats.total_connections, 0);
}

#[test]
fn test_pool_stats() {
    let config = PoolConfig {
        enabled: true,
        ..Default::default()
    };
    let mut pool: TestPool = ConnectionPool::new(config);

    pool.put("host1.com".to_string(), 1, 0);
    pool.put("host2.com".to_string(), 2, 0);

    let stats: PoolStats = pool.stats();
    assert_eq!(stats.total_connections, 2);
    assert_eq!(stats.hosts, 2);
    assert!(stats.enabled);
}

#[test]
fn test_pool_config_default() {
    let config = PoolConfig::default();
    assert!(config.enabled);
    assert_eq!(config.max_per_host, 100);
    assert_eq!(config.connection_ttl, 60);
    assert_eq!(config.idle_timeout, 30);
}

#[test]
fn test_pooled_connection_freshness() {
    let conn = PooledConnection::new(0u32, 100);
    assert!(!conn.is_expired(60, 100));
    assert!(conn.is_expired(60, 161));
    assert!(!conn.is_idle(30, 130));
    assert!(conn.is_idle(30, 131));
    assert!(conn.is_valid(60, 30, 100));
    assert!(!conn.is_valid(60, 30, 161));
}
