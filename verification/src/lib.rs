//! Core logic of an SNI-routing proxy.
//!
//! The crate holds the verified pieces of a transparent TCP proxy that routes
//! connections by the hostname visible in their opening bytes: a protocol
//! classifier, a TLS ClientHello parser (SNI and ALPN), an HTTP header
//! scanner, an HTTP/2 `:authority` extractor, an allowlist matcher, a
//! backend connection pool, and the small bookkeeping structures around
//! them. All I/O lives outside this crate; every function here is a
//! computation on plain values with a stated contract.

pub mod admission;
pub mod allowlist;
pub mod classifier;
pub mod config;
pub mod grpc_pool;
pub mod http;
pub mod http2;
pub mod metrics_cache;
pub mod pool;
pub mod protocols;
pub mod push_cache;
pub mod qpack;
pub mod quic;
pub mod ssh;
pub mod text;
pub mod tls;
pub mod websocket;
