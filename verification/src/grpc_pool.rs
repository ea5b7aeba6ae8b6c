//! gRPC channel pool: parked HTTP/2 channels keyed by backend host, picked
//! round-robin, with TTL, idle, health and stream-cap checks.
//!
//! As in [`crate::pool`], time is an explicit parameter in seconds. A
//! vended channel was healthy, within its TTL and idle caps, and below its
//! concurrent-stream cap at the sampled instant.

use vstd::prelude::*;
use vstd::utf8::encode_utf8;

use crate::text::bytes_eq;

verus! {

/// Configuration for gRPC channel pooling.
#[derive(Debug)]
pub struct GrpcPoolConfig {
    /// Maximum channels parked per backend host.
    pub max_channels_per_host: usize,
    /// Absolute age cap for a channel, in seconds.
    pub channel_ttl: u64,
    /// Idle cap for a channel, in seconds.
    pub idle_timeout: u64,
    /// Whether pooling is on at all.
    pub enabled: bool,
    /// Maximum concurrent streams a channel may carry.
    pub max_concurrent_streams: usize,
    /// How often channels are health-checked, in seconds.
    pub health_check_interval: u64,
}

impl Default for GrpcPoolConfig {
    /// The stock configuration: 10 channels per host, 300 s TTL, 120 s
    /// idle, 100 streams, 30 s health checks, enabled.
    fn default() -> (r: Self)
        ensures
            r.max_channels_per_host == 10 && r.channel_ttl == 300 && r.idle_timeout == 120
                && r.enabled && r.max_concurrent_streams == 100 && r.health_check_interval == 30,
    {
        GrpcPoolConfig {
            max_channels_per_host: 10,
            channel_ttl: 300,
            idle_timeout: 120,
            enabled: true,
            max_concurrent_streams: 100,
            health_check_interval: 30,
        }
    }
}

/// A parked gRPC channel and its bookkeeping. The stream type is a
/// parameter: the proxy parks TCP streams, and nothing here looks inside
/// them.
pub struct GrpcChannel<S> {
    pub stream: S,
    pub created_at: u64,
    pub last_used: u64,
    pub rpc_count: usize,
    pub active_streams: usize,
    pub healthy: bool,
}

impl<S> GrpcChannel<S> {
    /// Parks a fresh, healthy channel at time `now`.
    pub fn new(stream: S, now: u64) -> (r: Self)
        ensures
            r.stream == stream && r.created_at == now && r.last_used == now && r.rpc_count == 0
                && r.active_streams == 0 && r.healthy,
    {
        GrpcChannel {
            stream,
            created_at: now,
            last_used: now,
            rpc_count: 0,
            active_streams: 0,
            healthy: true,
        }
    }

    /// The channel has outlived its TTL at time `now`.
    pub open spec fn spec_expired(&self, ttl: u64, now: u64) -> bool {
        now >= self.created_at && now - self.created_at > ttl
    }

    /// The channel has sat idle longer than `idle` at time `now`.
    pub open spec fn spec_idle(&self, idle: u64, now: u64) -> bool {
        now >= self.last_used && now - self.last_used > idle
    }

    /// The channel is healthy and within both caps at time `now`.
    pub open spec fn spec_valid(&self, ttl: u64, idle: u64, now: u64) -> bool {
        self.healthy && !self.spec_expired(ttl, now) && !self.spec_idle(idle, now)
    }

    /// The channel can take one more stream.
    pub open spec fn spec_can_accept(&self, max_streams: usize) -> bool {
        self.healthy && self.active_streams < max_streams
    }

    /// Checks the TTL against the clock.
    pub fn is_expired(&self, ttl: u64, now: u64) -> (r: bool)
        ensures
            r == self.spec_expired(ttl, now),
    {
        now >= self.created_at && now - self.created_at > ttl
    }

    /// Checks the idle cap against the clock.
    pub fn is_idle(&self, idle: u64, now: u64) -> (r: bool)
        ensures
            r == self.spec_idle(idle, now),
    {
        now >= self.last_used && now - self.last_used > idle
    }

    /// Checks health and both caps against the clock.
    pub fn is_valid(&self, ttl: u64, idle: u64, now: u64) -> (r: bool)
        ensures
            r == self.spec_valid(ttl, idle, now),
    {
        self.healthy && !self.is_expired(ttl, now) && !self.is_idle(idle, now)
    }

    /// Checks the concurrent-stream cap.
    pub fn can_accept_stream(&self, max_streams: usize) -> (r: bool)
        ensures
            r == self.spec_can_accept(max_streams),
    {
        self.healthy && self.active_streams < max_streams
    }

    /// Records one more RPC on the channel at time `now`; the counters
    /// saturate rather than wrap.
    pub fn mark_used(&mut self, now: u64)
        ensures
            final(self).stream == old(self).stream,
            final(self).created_at == old(self).created_at,
            final(self).healthy == old(self).healthy,
            final(self).last_used == now,
            final(self).rpc_count == if old(self).rpc_count < usize::MAX {
                old(self).rpc_count + 1
            } else {
                old(self).rpc_count as int
            },
            final(self).active_streams == if old(self).active_streams < usize::MAX {
                old(self).active_streams + 1
            } else {
                old(self).active_streams as int
            },
    {
        if self.rpc_count < usize::MAX {
            self.rpc_count = self.rpc_count + 1;
        }
        if self.active_streams < usize::MAX {
            self.active_streams = self.active_streams + 1;
        }
        self.last_used = now;
    }

    /// Releases one stream, if any is outstanding.
    pub fn release_stream(&mut self)
        ensures
            final(self).active_streams == if old(self).active_streams > 0 {
                old(self).active_streams - 1
            } else {
                0
            },
            final(self).stream == old(self).stream,
            final(self).created_at == old(self).created_at,
            final(self).last_used == old(self).last_used,
            final(self).rpc_count == old(self).rpc_count,
            final(self).healthy == old(self).healthy,
    {
        if self.active_streams > 0 {
            self.active_streams = self.active_streams - 1;
        }
    }

    /// Marks the channel as unhealthy, so it is never vended again.
    pub fn mark_unhealthy(&mut self)
        ensures
            !final(self).healthy,
            final(self).stream == old(self).stream,
            final(self).created_at == old(self).created_at,
            final(self).last_used == old(self).last_used,
            final(self).rpc_count == old(self).rpc_count,
            final(self).active_streams == old(self).active_streams,
    {
        self.healthy = false;
    }
}

/// Whether slot `j` is among the first `attempt` slots visited by a
/// round-robin scan that starts at `start` in a bucket of length `len`.
pub open spec fn spec_scanned(start: int, attempt: int, len: int, j: int) -> bool {
    if j >= start {
        j - start < attempt
    } else {
        j + len - start < attempt
    }
}

/// Usability of a channel at time `now`, as a predicate.
pub open spec fn spec_channel_pred<S>(ttl: u64, idle: u64, now: u64) -> spec_fn(
    GrpcChannel<S>,
) -> bool {
    |c: GrpcChannel<S>| c.spec_valid(ttl, idle, now)
}

/// A snapshot of the pool's size.
#[derive(Debug, Clone)]
pub struct GrpcPoolStats {
    pub total_channels: usize,
    pub hosts: usize,
    pub enabled: bool,
}

/// One host's parked channels, with the round-robin cursor.
struct ChannelBucket<S> {
    host: String,
    channels: Vec<GrpcChannel<S>>,
    next: usize,
}

/// The gRPC channel pool: buckets with pairwise distinct hosts.
pub struct GrpcConnectionPool<S> {
    buckets: Vec<ChannelBucket<S>>,
    config: GrpcPoolConfig,
}

impl<S> GrpcConnectionPool<S> {
    /// Hosts are pairwise distinct and no bucket exceeds the per-host cap.
    pub closed spec fn wf(&self) -> bool {
        (forall|i: int, j: int|
            0 <= i < j < self.buckets@.len() ==> (#[trigger] self.buckets@[i]).host@ != (
            #[trigger] self.buckets@[j]).host@) && (forall|i: int|
            0 <= i < self.buckets@.len() ==> (#[trigger] self.buckets@[i]).channels@.len()
                <= self.config.max_channels_per_host)
    }

    pub closed spec fn spec_config(&self) -> GrpcPoolConfig {
        self.config
    }

    /// Whether a bucket for `host` exists.
    pub closed spec fn spec_has_bucket(&self, host: Seq<char>) -> bool {
        exists|i: int| 0 <= i < self.buckets@.len() && (#[trigger] self.buckets@[i]).host@ == host
    }

    /// The index of the bucket for `host`, when one exists.
    pub closed spec fn spec_bucket_at(&self, host: Seq<char>) -> int {
        choose|i: int| 0 <= i < self.buckets@.len() && (#[trigger] self.buckets@[i]).host@ == host
    }

    /// The parked channels for `host`, oldest first.
    pub closed spec fn spec_channels(&self, host: Seq<char>) -> Seq<GrpcChannel<S>> {
        if self.spec_has_bucket(host) {
            self.buckets@[self.spec_bucket_at(host)].channels@
        } else {
            Seq::empty()
        }
    }

    /// A fresh, empty pool.
    pub fn new(config: GrpcPoolConfig) -> (r: Self)
        ensures
            r.wf(),
            r.spec_config() == config,
            forall|h: Seq<char>| #[trigger] r.spec_channels(h) == Seq::<GrpcChannel<S>>::empty(),
    {
        let r = GrpcConnectionPool { buckets: Vec::new(), config };
        proof {
            assert(forall|h: Seq<char>| !r.spec_has_bucket(h));
        }
        r
    }

    /// The index of the bucket holding `host`, if any.
    fn find_bucket(&self, host: &str) -> (r: Option<usize>)
        ensures
            match r {
                Some(i) => i < self.buckets@.len() && self.buckets@[i as int].host@ == host@
                    && self.spec_has_bucket(host@),
                None => !self.spec_has_bucket(host@),
            },
    {
        let mut i: usize = 0;
        while i < self.buckets.len()
            invariant
                0 <= i <= self.buckets@.len(),
                forall|j: int| 0 <= j < i ==> (#[trigger] self.buckets@[j]).host@ != host@,
            decreases self.buckets@.len() - i,
        {
            if bytes_eq(self.buckets[i].host.as_str().as_bytes(), host.as_bytes()) {
                proof {
                    crate::text::lemma_encode_utf8_injective(self.buckets@[i as int].host@, host@);
                }
                return Some(i);
            }
            proof {
                if self.buckets@[i as int].host@ == host@ {
                    assert(encode_utf8(self.buckets@[i as int].host@) == encode_utf8(host@));
                }
            }
            i += 1;
        }
        None
    }

    /// With distinct hosts, the bucket index for a host is unique.
    proof fn lemma_bucket_at(&self, host: Seq<char>, i: int)
        requires
            self.wf(),
            0 <= i < self.buckets@.len(),
            self.buckets@[i].host@ == host,
        ensures
            self.spec_has_bucket(host),
            self.spec_bucket_at(host) == i,
            self.spec_channels(host) == self.buckets@[i].channels@,
    {
        assert(self.spec_has_bucket(host));
        let k = self.spec_bucket_at(host);
        if k != i {
            assert(self.buckets@[k].host@ == self.buckets@[i].host@);
        }
    }

    /// Two pools that differ only in bucket `bi` have the same channels for
    /// every other host.
    proof fn lemma_channels_frame(a: &GrpcConnectionPool<S>, b: &GrpcConnectionPool<S>, bi: int)
        requires
            a.wf(),
            b.wf(),
            0 <= bi < a.buckets@.len(),
            a.buckets@.len() == b.buckets@.len(),
            a.buckets@[bi].host@ == b.buckets@[bi].host@,
            forall|k: int|
                0 <= k < a.buckets@.len() && k != bi ==> a.buckets@[k] == b.buckets@[k],
        ensures
            forall|h: Seq<char>|
                h != a.buckets@[bi].host@ ==> #[trigger] a.spec_channels(h) == b.spec_channels(h),
    {
        assert forall|h: Seq<char>| h != a.buckets@[bi].host@ implies #[trigger] a.spec_channels(h)
            == b.spec_channels(h) by {
            if a.spec_has_bucket(h) {
                let k = a.spec_bucket_at(h);
                assert(a.buckets@[k].host@ == h);
                assert(k != bi);
                b.lemma_bucket_at(h, k);
                a.lemma_bucket_at(h, k);
            } else if b.spec_has_bucket(h) {
                let k = b.spec_bucket_at(h);
                assert(b.buckets@[k].host@ == h);
                assert(k != bi);
                assert(a.buckets@[k].host@ == h);
            }
        }
    }

    /// Takes a usable channel for `host`, round-robin from the bucket's
    /// cursor. A vended stream always comes from a channel that was
    /// healthy, within its TTL and idle caps, and below its stream cap at
    /// time `now`; when none qualifies, nothing is vended and the bucket's
    /// channels are untouched.
    pub fn get(&mut self, host: &str, now: u64) -> (r: Option<S>)
        requires
            old(self).wf(),
        ensures
            final(self).wf(),
            final(self).spec_config() == old(self).spec_config(),
            !old(self).spec_config().enabled ==> r is None && *final(self) == *old(self),
            forall|h: Seq<char>|
                h != host@ ==> #[trigger] final(self).spec_channels(h) == old(self).spec_channels(
                    h,
                ),
            ({
                let cs = old(self).spec_channels(host@);
                let ttl = old(self).spec_config().channel_ttl;
                let idle = old(self).spec_config().idle_timeout;
                let ms = old(self).spec_config().max_concurrent_streams;
                match r {
                    Some(s) => old(self).spec_config().enabled && exists|j: int|
                        0 <= j < cs.len() && (#[trigger] cs[j]).spec_valid(ttl, idle, now)
                            && cs[j].spec_can_accept(ms) && s == cs[j].stream && final(
                            self).spec_channels(host@) == cs.remove(j),
                    None => !old(self).spec_config().enabled || ((forall|j: int|
                        0 <= j < cs.len() ==> !((#[trigger] cs[j]).spec_valid(ttl, idle, now)
                            && cs[j].spec_can_accept(ms))) && final(self).spec_channels(host@)
                        == cs),
                }
            }),
    {
        if !self.config.enabled {
            return None;
        }
        let bi = match self.find_bucket(host) {
            Some(i) => i,
            None => {
                return None;
            },
        };
        proof {
            self.lemma_bucket_at(host@, bi as int);
        }
        let ttl = self.config.channel_ttl;
        let idle = self.config.idle_timeout;
        let ms = self.config.max_concurrent_streams;
        let len = self.buckets[bi].channels.len();
        if len == 0 {
            proof {
                old(self).lemma_bucket_at(host@, bi as int);
            }
            return None;
        }
        let start = self.buckets[bi].next % len;
        let mut attempt: usize = 0;
        while attempt < len
            invariant
                old(self).wf(),
                self.wf(),
                *self == *old(self),
                0 <= bi < self.buckets@.len(),
                self.buckets@[bi as int].host@ == host@,
                len == self.buckets@[bi as int].channels@.len(),
                len >= 1,
                0 <= start < len,
                0 <= attempt <= len,
                forall|j: int|
                    0 <= j < len && spec_scanned(start as int, attempt as int, len as int, j)
                        ==> !((#[trigger] self.buckets@[bi as int].channels@[j]).spec_valid(
                        ttl,
                        idle,
                        now,
                    ) && self.buckets@[bi as int].channels@[j].spec_can_accept(ms)),
                ttl == self.config.channel_ttl,
                idle == self.config.idle_timeout,
                ms == self.config.max_concurrent_streams,
                self.config.enabled,
            decreases len - attempt,
        {
            let idx = if attempt < len - start {
                start + attempt
            } else {
                attempt - (len - start)
            };
            let usable = {
                let c = &self.buckets[bi].channels[idx];
                c.is_valid(ttl, idle, now) && c.can_accept_stream(ms)
            };
            if usable {
                let c = self.buckets[bi].channels.remove(idx);
                let next_cursor = if idx + 1 < len {
                    idx + 1
                } else {
                    0
                };
                self.buckets[bi].next = next_cursor;
                proof {
                    self.lemma_bucket_at(host@, bi as int);
                    old(self).lemma_bucket_at(host@, bi as int);
                    GrpcConnectionPool::lemma_channels_frame(self, old(self), bi as int);
                }
                return Some(c.stream);
            }
            attempt += 1;
        }
        proof {
            old(self).lemma_bucket_at(host@, bi as int);
            let cs = old(self).spec_channels(host@);
            assert forall|j: int|
                0 <= j < cs.len() implies !((#[trigger] cs[j]).spec_valid(ttl, idle, now)
                && cs[j].spec_can_accept(ms)) by {
                assert(spec_scanned(start as int, len as int, len as int, j));
            }
        }
        None
    }

    /// Parks a channel for `host` at time `now`. Returns false, dropping
    /// the stream, when pooling is off or the bucket is full.
    pub fn put(&mut self, host: String, stream: S, now: u64) -> (r: bool)
        requires
            old(self).wf(),
        ensures
            final(self).wf(),
            final(self).spec_config() == old(self).spec_config(),
            !old(self).spec_config().enabled ==> !r && *final(self) == *old(self),
            forall|h: Seq<char>|
                h != host@ ==> #[trigger] final(self).spec_channels(h) == old(self).spec_channels(
                    h,
                ),
            ({
                let cs = old(self).spec_channels(host@);
                if r {
                    old(self).spec_config().enabled && cs.len() < old(
                        self,
                    ).spec_config().max_channels_per_host && final(self).spec_channels(host@)
                        == cs.push(
                        GrpcChannel {
                            stream,
                            created_at: now,
                            last_used: now,
                            rpc_count: 0,
                            active_streams: 0,
                            healthy: true,
                        },
                    )
                } else {
                    final(self).spec_channels(host@) == cs && (!old(self).spec_config().enabled
                        || cs.len() >= old(self).spec_config().max_channels_per_host)
                }
            }),
    {
        if !self.config.enabled {
            return false;
        }
        match self.find_bucket(host.as_str()) {
            Some(bi) => {
                proof {
                    self.lemma_bucket_at(host@, bi as int);
                }
                if self.buckets[bi].channels.len() >= self.config.max_channels_per_host {
                    return false;
                }
                self.buckets[bi].channels.push(GrpcChannel::new(stream, now));
                proof {
                    self.lemma_bucket_at(host@, bi as int);
                    old(self).lemma_bucket_at(host@, bi as int);
                    GrpcConnectionPool::lemma_channels_frame(self, old(self), bi as int);
                }
                true
            },
            None => {
                if self.config.max_channels_per_host == 0 {
                    return false;
                }
                let mut channels: Vec<GrpcChannel<S>> = Vec::new();
                channels.push(GrpcChannel::new(stream, now));
                self.buckets.push(ChannelBucket { host, channels, next: 0 });
                proof {
                    let bi = self.buckets@.len() - 1;
                    assert(forall|k: int| 0 <= k < bi ==> self.buckets@[k] == old(self).buckets@[k]);
                    self.lemma_bucket_at(host@, bi);
                    assert(old(self).spec_channels(host@) =~= Seq::<GrpcChannel<S>>::empty());
                    assert(self.spec_channels(host@) =~= old(self).spec_channels(host@).push(
                        GrpcChannel {
                            stream,
                            created_at: now,
                            last_used: now,
                            rpc_count: 0,
                            active_streams: 0,
                            healthy: true,
                        },
                    ));
                    assert forall|h: Seq<char>| h != host@ implies #[trigger] self.spec_channels(h)
                        == old(self).spec_channels(h) by {
                        if old(self).spec_has_bucket(h) {
                            let k = old(self).spec_bucket_at(h);
                            old(self).lemma_bucket_at(h, k);
                            self.lemma_bucket_at(h, k);
                        } else if self.spec_has_bucket(h) {
                            let k = self.spec_bucket_at(h);
                            assert(self.buckets@[k].host@ == h);
                            assert(k < bi ==> old(self).buckets@[k].host@ == h);
                        }
                    }
                }
                true
            },
        }
    }

    /// Discards every channel that is unhealthy or past its TTL or idle cap
    /// at time `now`; usable channels stay, in order.
    pub fn cleanup(&mut self, now: u64)
        requires
            old(self).wf(),
        ensures
            final(self).wf(),
            final(self).spec_config() == old(self).spec_config(),
            forall|h: Seq<char>| #[trigger]
                final(self).spec_channels(h) == old(self).spec_channels(h).filter(
                    spec_channel_pred(
                        old(self).spec_config().channel_ttl,
                        old(self).spec_config().idle_timeout,
                        now,
                    ),
                ),
    {
        let ttl = self.config.channel_ttl;
        let idle = self.config.idle_timeout;
        let ghost pred = spec_channel_pred::<S>(ttl, idle, now);
        let mut bi: usize = 0;
        while bi < self.buckets.len()
            invariant
                self.wf(),
                self.config == old(self).config,
                ttl == self.config.channel_ttl,
                idle == self.config.idle_timeout,
                pred == spec_channel_pred::<S>(ttl, idle, now),
                0 <= bi <= self.buckets@.len(),
                self.buckets@.len() == old(self).buckets@.len(),
                forall|k: int|
                    0 <= k < self.buckets@.len() ==> (#[trigger] self.buckets@[k]).host@ == old(
                        self,
                    ).buckets@[k].host@,
                forall|k: int|
                    bi <= k < self.buckets@.len() ==> self.buckets@[k] == old(self).buckets@[k],
                forall|k: int|
                    0 <= k < bi ==> (#[trigger] self.buckets@[k]).channels@ == old(
                        self,
                    ).buckets@[k].channels@.filter(pred),
            decreases self.buckets@.len() - bi,
        {
            let ghost snap = self.buckets@;
            let ghost orig = self.buckets@[bi as int].channels@;
            proof {
                assert(orig.len() <= self.config.max_channels_per_host);
                assert(snap.len() == old(self).buckets@.len());
                assert(forall|k: int|
                    0 <= k < snap.len() ==> (#[trigger] snap[k]).host@
                        == old(self).buckets@[k].host@);
                assert(forall|k: int|
                    bi as int <= k < snap.len() ==> snap[k] == old(self).buckets@[k]);
                assert(forall|k: int|
                    0 <= k < bi as int ==> (#[trigger] snap[k]).channels@
                        == old(self).buckets@[k].channels@.filter(pred));
            }
            // drain the bucket into a scratch vector (reversing it)
            let mut tmp: Vec<GrpcChannel<S>> = Vec::new();
            while self.buckets[bi].channels.len() > 0
                invariant
                    0 <= bi < self.buckets@.len(),
                    tmp@.len() + self.buckets@[bi as int].channels@.len() == orig.len(),
                    self.buckets@[bi as int].channels@ == orig.take(
                        self.buckets@[bi as int].channels@.len() as int,
                    ),
                    forall|k: int|
                        0 <= k < tmp@.len() ==> #[trigger] tmp@[k] == orig[orig.len() - 1 - k],
                    self.wf(),
                    self.config == old(self).config,
                    self.buckets@.len() == snap.len(),
                    self.buckets@[bi as int].host == snap[bi as int].host,
                    orig == snap[bi as int].channels@,
                    forall|k: int|
                        0 <= k < self.buckets@.len() && k != bi ==> self.buckets@[k] == snap[k],
                decreases self.buckets@[bi as int].channels@.len(),
            {
                let popped = self.buckets[bi].channels.pop();
                match popped {
                    None => {},
                    Some(c) => {
                        proof {
                            let m = self.buckets@[bi as int].channels@.len() as int;
                            assert(orig.take(m + 1).last() == orig[m]);
                            assert(orig.take(m + 1).drop_last() =~= orig.take(m));
                        }
                        tmp.push(c);
                    },
                }
            }
            proof {
                assert(self.buckets@[bi as int].channels@ =~= orig.take(0));
                assert(orig.take(0).filter(pred) =~= self.buckets@[bi as int].channels@) by {
                    reveal(Seq::filter);
                }
            }
            // put the usable ones back, oldest first
            while tmp.len() > 0
                invariant
                    0 <= bi < self.buckets@.len(),
                    tmp@.len() <= orig.len(),
                    forall|k: int|
                        0 <= k < tmp@.len() ==> #[trigger] tmp@[k] == orig[orig.len() - 1 - k],
                    self.buckets@[bi as int].channels@ == orig.take(
                        orig.len() - tmp@.len(),
                    ).filter(pred),
                    orig.len() <= self.config.max_channels_per_host,
                    pred == spec_channel_pred::<S>(ttl, idle, now),
                    ttl == self.config.channel_ttl,
                    idle == self.config.idle_timeout,
                    self.wf(),
                    self.config == old(self).config,
                    self.buckets@.len() == snap.len(),
                    self.buckets@[bi as int].host == snap[bi as int].host,
                    orig == snap[bi as int].channels@,
                    forall|k: int|
                        0 <= k < self.buckets@.len() && k != bi ==> self.buckets@[k] == snap[k],
                decreases tmp@.len(),
            {
                let popped = tmp.pop();
                match popped {
                    None => {},
                    Some(c) => {
                        let ghost j = orig.len() - tmp@.len() - 1;
                        proof {
                            assert(c == orig[j]);
                            assert(orig.take(j + 1).drop_last() =~= orig.take(j));
                            assert(orig.take(j + 1).last() == orig[j]);
                            orig.take(j + 1).lemma_filter_len(pred);
                            reveal(Seq::filter);
                        }
                        if c.is_valid(ttl, idle, now) {
                            self.buckets[bi].channels.push(c);
                        }
                    },
                }
            }
            proof {
                assert(orig.take(orig.len() as int) =~= orig);
                assert(orig == old(self).buckets@[bi as int].channels@);
                assert forall|k: int|
                    0 <= k < self.buckets@.len() implies (#[trigger] self.buckets@[k]).host@ == old(
                    self,
                ).buckets@[k].host@ by {
                    if k != bi as int {
                        assert(self.buckets@[k] == snap[k]);
                    }
                }
                assert forall|k: int|
                    0 <= k <= bi as int implies (#[trigger] self.buckets@[k]).channels@ == old(
                    self,
                ).buckets@[k].channels@.filter(pred) by {
                    if k < bi as int {
                        assert(self.buckets@[k] == snap[k]);
                    } else {
                        assert(self.buckets@[bi as int].channels@ == orig.filter(pred));
                    }
                }
            }
            bi += 1;
        }
        proof {
            let opred = spec_channel_pred::<S>(
                old(self).spec_config().channel_ttl,
                old(self).spec_config().idle_timeout,
                now,
            );
            assert(opred == pred);
            assert forall|h: Seq<char>| #[trigger] self.spec_channels(h) == old(
                self,
            ).spec_channels(h).filter(pred) by {
                if old(self).spec_has_bucket(h) {
                    let k = old(self).spec_bucket_at(h);
                    old(self).lemma_bucket_at(h, k);
                    self.lemma_bucket_at(h, k);
                } else {
                    if self.spec_has_bucket(h) {
                        let k = self.spec_bucket_at(h);
                        assert(self.buckets@[k].host@ == h);
                        assert(old(self).buckets@[k].host@ == h);
                    }
                    assert(old(self).spec_channels(h).filter(pred) =~= Seq::<
                        GrpcChannel<S>,
                    >::empty()) by {
                        reveal(Seq::filter);
                    }
                }
            }
        }
    }

    /// The number of parked channels over a bucket sequence.
    pub closed spec fn spec_total(buckets: Seq<ChannelBucket<S>>) -> int
        decreases buckets.len(),
    {
        if buckets.len() == 0 {
            0
        } else {
            Self::spec_total(buckets.drop_last()) + buckets.last().channels@.len()
        }
    }

    /// The number of parked channels in the whole pool.
    pub closed spec fn spec_total_channels(&self) -> int {
        Self::spec_total(self.buckets@)
    }

    /// The number of hosts with a bucket.
    pub closed spec fn spec_hosts(&self) -> int {
        self.buckets@.len() as int
    }

    proof fn lemma_total_nonneg(buckets: Seq<ChannelBucket<S>>)
        ensures
            Self::spec_total(buckets) >= 0,
        decreases buckets.len(),
    {
        if buckets.len() > 0 {
            Self::lemma_total_nonneg(buckets.drop_last());
        }
    }

    /// Counts the parked channels and hosts; a total beyond `usize`
    /// saturates.
    pub fn stats(&self) -> (r: GrpcPoolStats)
        ensures
            r.hosts == self.spec_hosts(),
            r.enabled == self.spec_config().enabled,
            self.spec_total_channels() <= usize::MAX ==> r.total_channels
                == self.spec_total_channels(),
    {
        let mut total: usize = 0;
        let mut saturated = false;
        let mut i: usize = 0;
        while i < self.buckets.len()
            invariant
                0 <= i <= self.buckets@.len(),
                !saturated ==> total == Self::spec_total(self.buckets@.take(i as int)),
                saturated ==> Self::spec_total(self.buckets@.take(i as int)) > usize::MAX,
            decreases self.buckets@.len() - i,
        {
            let l = self.buckets[i].channels.len();
            proof {
                assert(self.buckets@.take(i + 1).drop_last() =~= self.buckets@.take(i as int));
                assert(self.buckets@.take(i + 1).last() == self.buckets@[i as int]);
                Self::lemma_total_nonneg(self.buckets@.take(i as int));
            }
            if !saturated && l <= usize::MAX - total {
                total = total + l;
            } else {
                saturated = true;
            }
            i += 1;
        }
        proof {
            assert(self.buckets@.take(self.buckets@.len() as int) =~= self.buckets@);
        }
        if saturated {
            total = usize::MAX;
        }
        GrpcPoolStats {
            total_channels: total,
            hosts: self.buckets.len(),
            enabled: self.config.enabled,
        }
    }
}

} // verus!
