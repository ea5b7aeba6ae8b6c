//! The proxy's configuration snapshot: immutable for the process lifetime,
//! shared read-only by every handler. Loading it from YAML happens outside
//! this crate; here live the typed record and its defaults.

use vstd::prelude::*;

verus! {

/// The whole configuration.
#[derive(Debug)]
pub struct Config {
    /// TCP endpoints to listen on, as `host:port` strings.
    pub listen_addrs: Vec<String>,
    /// Optional UDP endpoints for the QUIC path.
    pub udp_listen_addrs: Option<Vec<String>>,
    /// Timeouts for dialling, classification and idling.
    pub timeouts: Timeouts,
    /// Metrics endpoint settings.
    pub metrics: Metrics,
    /// Optional domain allowlist; absent means allow all.
    pub allowlist: Option<Vec<String>>,
    /// Optional cap on concurrent connections.
    pub max_connections: Option<usize>,
    /// Optional graceful-shutdown window, in seconds.
    pub shutdown_timeout: Option<u64>,
    /// Optional backend pool settings; absent means no pooling.
    pub connection_pool: Option<ConnectionPool>,
}

impl Config {
    /// The admission cap, defaulting to 10000 connections.
    pub fn max_connections_or_default(&self) -> (r: usize)
        ensures
            r == match self.max_connections {
                Some(m) => m as int,
                None => 10000,
            },
    {
        match self.max_connections {
            Some(m) => m,
            None => 10000,
        }
    }

    /// The graceful-shutdown window, defaulting to 30 seconds.
    pub fn shutdown_timeout_or_default(&self) -> (r: u64)
        ensures
            r == match self.shutdown_timeout {
                Some(t) => t as int,
                None => 30,
            },
    {
        match self.shutdown_timeout {
            Some(t) => t,
            None => 30,
        }
    }
}

/// Timeout settings, all in seconds.
#[derive(Debug)]
pub struct Timeouts {
    /// Bound on the backend DNS lookup plus TCP dial.
    pub connect: u64,
    /// Bound on receiving the ClientHello or the request headers.
    pub client_hello: u64,
    /// Per-direction idle bound on an established splice.
    pub idle: u64,
}

/// Metrics endpoint settings.
#[derive(Debug)]
pub struct Metrics {
    /// Whether the metrics endpoint runs at all.
    pub enabled: bool,
    /// The address the metrics HTTP server binds.
    pub address: String,
}

/// Backend pool settings as they appear in the configuration file.
#[derive(Debug, Clone)]
pub struct ConnectionPool {
    /// Whether pooling is on.
    pub enabled: bool,
    /// Maximum parked connections per backend host.
    pub max_per_host: usize,
    /// Absolute age cap for a parked connection, in seconds.
    pub connection_ttl: u64,
    /// Idle cap for a parked connection, in seconds.
    pub idle_timeout: u64,
    /// How often the sweeper runs, in seconds.
    pub cleanup_interval: u64,
}

/// The stock value of `connection_pool.enabled`.
pub fn default_pool_enabled() -> (r: bool)
    ensures
        r,
{
    true
}

/// The stock value of `connection_pool.max_per_host`.
pub fn default_max_per_host() -> (r: usize)
    ensures
        r == 100,
{
    100
}

/// The stock value of `connection_pool.connection_ttl`, in seconds.
pub fn default_connection_ttl() -> (r: u64)
    ensures
        r == 60,
{
    60
}

/// The stock value of `connection_pool.idle_timeout`, in seconds.
pub fn default_idle_timeout() -> (r: u64)
    ensures
        r == 30,
{
    30
}

/// The stock value of `connection_pool.cleanup_interval`, in seconds.
pub fn default_cleanup_interval() -> (r: u64)
    ensures
        r == 10,
{
    10
}

impl Default for ConnectionPool {
    /// Pooling on, 100 per host, 60 s TTL, 30 s idle, 10 s sweeps.
    fn default() -> (r: Self)
        ensures
            r.enabled && r.max_per_host == 100 && r.connection_ttl == 60 && r.idle_timeout == 30
                && r.cleanup_interval == 10,
    {
        ConnectionPool {
            enabled: default_pool_enabled(),
            max_per_host: default_max_per_host(),
            connection_ttl: default_connection_ttl(),
            idle_timeout: default_idle_timeout(),
            cleanup_interval: default_cleanup_interval(),
        }
    }
}

} // verus!
