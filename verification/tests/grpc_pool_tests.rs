use sniproxy::grpc_pool::{GrpcChannel, GrpcConnectionPool, GrpcPoolConfig};

// the pool is generic in what it parks; a small integer stands in for an
// HTTP/2 channel's stream here
type TestPool = GrpcConnectionPool<u32>;

#[test]
fn test_grpc_pool_config_default() {
    let config = GrpcPoolConfig::default();
    assert_eq!(config.max_channels_per_host, 10);
    assert_eq!(config.channel_ttl, 300);
    assert_eq!(config.idle_timeout, 120);
    assert!(config.enabled);
    assert_eq!(config.max_concurrent_streams, 100);
    assert_eq!(config.health_check_interval, 30);
}

#[test]
fn test_grpc_pool_disabled() {
    let config = GrpcPoolConfig {
        enabled: false,
        ..Default::default()
    };
    let mut pool: TestPool = GrpcConnectionPool::new(config);

    // Should not accept channels when disabled
    assert!(!pool.put("grpc.example.com".to_string(), 1, 0));

    // Should not return channels when disabled
    assert!(pool.get("grpc.example.com", 0).is_none());
}

#[test]
fn test_grpc_pool_basic() {
    let config = GrpcPoolConfig::default();
    let mut pool: TestPool = GrpcConnectionPool::new(config);

    assert!(pool.put("grpc.example.com".to_string(), 9, 0));

    let got = pool.get("grpc.example.com", 1);
    assert_eq!(got, Some(9));
    assert!(pool.get("grpc.example.com", 1).is_none());
}

#[test]
fn test_grpc_pool_max_channels() {
    let config = GrpcPoolConfig {
        max_channels_per_host: 1,
        ..Default::default()
    };
    let mut pool: TestPool = GrpcConnectionPool::new(config);

    assert!(pool.put("h".to_string(), 1, 0));
    assert!(!pool.put("h".to_string(), 2, 0));
}

#[test]
fn test_grpc_channel_expiration() {
    let config = GrpcPoolConfig {
        channel_ttl: 1,
        ..Default::default()
    };
    let mut pool: TestPool = GrpcConnectionPool::new(config);

    assert!(pool.put("h".to_string(), 1, 0));

    // past the TTL nothing is vended
    assert!(pool.get("h", 2).is_none());
}

#[test]
fn test_grpc_pool_cleanup() {
    let config = GrpcPoolConfig {
        channel_ttl: 1,
        ..Default::default()
    };
    let mut pool: TestPool = GrpcConnectionPool::new(config);

    pool.put("a".to_string(), 1, 0);
    pool.put("b".to_string(), 2, 0);

    pool.cleanup(5);
    assert_eq!(pool.stats().total_channels, 0);
}

#[test]
fn test_grpc_pool_stats() {
    let config = GrpcPoolConfig::default();
    let mut pool: TestPool = GrpcConnectionPool::new(config);

    pool.put("a".to_string(), 1, 0);
    pool.put("b".to_string(), 2, 0);

    let stats = pool.stats();
    assert_eq!(stats.total_channels, 2);
    assert_eq!(stats.hosts, 2);
    assert!(stats.enabled);
}

#[test]
fn test_grpc_channel_bookkeeping() {
    let mut ch = GrpcChannel::new(0u32, 10);
    assert!(ch.healthy);
    assert!(ch.can_accept_stream(2));

    ch.mark_used(20);
    assert_eq!(ch.rpc_count, 1);
    assert_eq!(ch.active_streams, 1);
    assert_eq!(ch.last_used, 20);

    ch.release_stream();
    assert_eq!(ch.active_streams, 0);
    ch.release_stream();
    assert_eq!(ch.active_streams, 0);

    ch.mark_unhealthy();
    assert!(!ch.healthy);
    assert!(!ch.can_accept_stream(2));
    assert!(!ch.is_valid(600, 600, 20));
}
