//! Backend connection pool: parked TCP streams keyed by target host, with
//! TTL, idle and per-host-cap eviction.
//!
//! Time is passed in explicitly as seconds on a monotonic clock, so every
//! operation is a plain function of its arguments and the pool state; the
//! caller samples the clock. The pool never vends an entry that has
//! outlived `connection_ttl` or sat idle longer than `idle_timeout`.

use vstd::prelude::*;
use vstd::utf8::encode_utf8;

use crate::text::bytes_eq;

verus! {

/// Configuration for connection pooling.
#[derive(Debug)]
pub struct PoolConfig {
    /// Maximum connections parked per backend host.
    pub max_per_host: usize,
    /// Absolute age cap for a parked connection, in seconds.
    pub connection_ttl: u64,
    /// Idle cap for a parked connection, in seconds.
    pub idle_timeout: u64,
    /// Whether pooling is on at all.
    pub enabled: bool,
}

impl Default for PoolConfig {
    /// The stock configuration: 100 per host, 60 s TTL, 30 s idle, enabled.
    fn default() -> (r: Self)
        ensures
            r.max_per_host == 100 && r.connection_ttl == 60 && r.idle_timeout == 30 && r.enabled,
    {
        PoolConfig { max_per_host: 100, connection_ttl: 60, idle_timeout: 30, enabled: true }
    }
}

/// A parked connection and the clock readings that age it. The stream
/// type is a parameter: the proxy parks TCP streams, and nothing here
/// looks inside them.
pub struct PooledConnection<S> {
    pub stream: S,
    pub created_at: u64,
    pub last_used: u64,
}

impl<S> PooledConnection<S> {
    /// Parks a stream at time `now`.
    pub fn new(stream: S, now: u64) -> (r: Self)
        ensures
            r.stream == stream && r.created_at == now && r.last_used == now,
    {
        PooledConnection { stream, created_at: now, last_used: now }
    }

    /// The entry has outlived its TTL at time `now`.
    pub open spec fn spec_expired(&self, ttl: u64, now: u64) -> bool {
        now >= self.created_at && now - self.created_at > ttl
    }

    /// The entry has sat idle longer than `idle` at time `now`.
    pub open spec fn spec_idle(&self, idle: u64, now: u64) -> bool {
        now >= self.last_used && now - self.last_used > idle
    }

    /// The entry may still be vended at time `now`.
    pub open spec fn spec_valid(&self, ttl: u64, idle: u64, now: u64) -> bool {
        !self.spec_expired(ttl, now) && !self.spec_idle(idle, now)
    }

    /// Checks the TTL against the clock.
    pub fn is_expired(&self, ttl: u64, now: u64) -> (r: bool)
        ensures
            r == self.spec_expired(ttl, now),
    {
        now >= self.created_at && now - self.created_at > ttl
    }

    /// Checks the idle cap against the clock.
    pub fn is_idle(&self, idle: u64, now: u64) -> (r: bool)
        ensures
            r == self.spec_idle(idle, now),
    {
        now >= self.last_used && now - self.last_used > idle
    }

    /// Checks both caps against the clock.
    pub fn is_valid(&self, ttl: u64, idle: u64, now: u64) -> (r: bool)
        ensures
            r == self.spec_valid(ttl, idle, now),
    {
        !self.is_expired(ttl, now) && !self.is_idle(idle, now)
    }
}

/// Freshness of a parked entry at time `now`, as a predicate.
pub open spec fn spec_fresh_pred<S>(ttl: u64, idle: u64, now: u64) -> spec_fn(
    PooledConnection<S>,
) -> bool {
    |e: PooledConnection<S>| e.spec_valid(ttl, idle, now)
}

/// A snapshot of the pool's size.
#[derive(Debug, Clone)]
pub struct PoolStats {
    pub total_connections: usize,
    pub hosts: usize,
    pub enabled: bool,
}

/// One host's parked connections.
struct Bucket<S> {
    host: String,
    entries: Vec<PooledConnection<S>>,
}

/// The pool: a set of buckets with pairwise distinct hosts.
pub struct ConnectionPool<S> {
    buckets: Vec<Bucket<S>>,
    config: PoolConfig,
}

impl<S> ConnectionPool<S> {
    /// Hosts are pairwise distinct and no bucket exceeds the per-host cap.
    pub closed spec fn wf(&self) -> bool {
        (forall|i: int, j: int|
            0 <= i < j < self.buckets@.len() ==> (#[trigger] self.buckets@[i]).host@ != (
            #[trigger] self.buckets@[j]).host@) && (forall|i: int|
            0 <= i < self.buckets@.len() ==> (#[trigger] self.buckets@[i]).entries@.len()
                <= self.config.max_per_host)
    }

    pub closed spec fn spec_config(&self) -> PoolConfig {
        self.config
    }

    /// Whether a bucket for `host` exists.
    pub closed spec fn spec_has_bucket(&self, host: Seq<char>) -> bool {
        exists|i: int| 0 <= i < self.buckets@.len() && (#[trigger] self.buckets@[i]).host@ == host
    }

    /// The index of the bucket for `host`, when one exists.
    pub closed spec fn spec_bucket_at(&self, host: Seq<char>) -> int {
        choose|i: int| 0 <= i < self.buckets@.len() && (#[trigger] self.buckets@[i]).host@ == host
    }

    /// The parked entries for `host`, oldest first.
    pub closed spec fn spec_entries(&self, host: Seq<char>) -> Seq<PooledConnection<S>> {
        if self.spec_has_bucket(host) {
            self.buckets@[self.spec_bucket_at(host)].entries@
        } else {
            Seq::empty()
        }
    }

    /// A fresh, empty pool.
    pub fn new(config: PoolConfig) -> (r: Self)
        ensures
            r.wf(),
            r.spec_config() == config,
            forall|h: Seq<char>| #[trigger] r.spec_entries(h) == Seq::<PooledConnection<S>>::empty(),
    {
        let r = ConnectionPool { buckets: Vec::new(), config };
        proof {
            assert(forall|h: Seq<char>| !r.spec_has_bucket(h));
        }
        r
    }

    /// The index of the bucket holding `host`, if any.
    fn find_bucket(&self, host: &str) -> (r: Option<usize>)
        ensures
            match r {
                Some(i) => i < self.buckets@.len() && self.buckets@[i as int].host@ == host@
                    && self.spec_has_bucket(host@),
                None => !self.spec_has_bucket(host@),
            },
    {
        let mut i: usize = 0;
        while i < self.buckets.len()
            invariant
                0 <= i <= self.buckets@.len(),
                forall|j: int| 0 <= j < i ==> (#[trigger] self.buckets@[j]).host@ != host@,
            decreases self.buckets@.len() - i,
        {
            if bytes_eq(self.buckets[i].host.as_str().as_bytes(), host.as_bytes()) {
                proof {
                    crate::text::lemma_encode_utf8_injective(self.buckets@[i as int].host@, host@);
                }
                return Some(i);
            }
            proof {
                if self.buckets@[i as int].host@ == host@ {
                    assert(encode_utf8(self.buckets@[i as int].host@) == encode_utf8(host@));
                }
            }
            i += 1;
        }
        None
    }

    /// With distinct hosts, the bucket index for a host is unique.
    proof fn lemma_bucket_at(&self, host: Seq<char>, i: int)
        requires
            self.wf(),
            0 <= i < self.buckets@.len(),
            self.buckets@[i].host@ == host,
        ensures
            self.spec_has_bucket(host),
            self.spec_bucket_at(host) == i,
            self.spec_entries(host) == self.buckets@[i].entries@,
    {
        assert(self.spec_has_bucket(host));
        let k = self.spec_bucket_at(host);
        if k != i {
            assert(self.buckets@[k].host@ == self.buckets@[i].host@);
        }
    }

    /// Two pools that differ only in bucket `bi`'s entries have the same
    /// parked entries for every other host.
    proof fn lemma_entries_frame(a: &ConnectionPool<S>, b: &ConnectionPool<S>, bi: int)
        requires
            a.wf(),
            b.wf(),
            0 <= bi < a.buckets@.len(),
            a.buckets@.len() == b.buckets@.len(),
            a.buckets@[bi].host@ == b.buckets@[bi].host@,
            forall|k: int|
                0 <= k < a.buckets@.len() && k != bi ==> a.buckets@[k] == b.buckets@[k],
        ensures
            forall|h: Seq<char>|
                h != a.buckets@[bi].host@ ==> #[trigger] a.spec_entries(h) == b.spec_entries(h),
    {
        assert forall|h: Seq<char>| h != a.buckets@[bi].host@ implies #[trigger] a.spec_entries(h)
            == b.spec_entries(h) by {
            if a.spec_has_bucket(h) {
                let k = a.spec_bucket_at(h);
                assert(a.buckets@[k].host@ == h);
                assert(k != bi);
                b.lemma_bucket_at(h, k);
                a.lemma_bucket_at(h, k);
            } else if b.spec_has_bucket(h) {
                let k = b.spec_bucket_at(h);
                assert(b.buckets@[k].host@ == h);
                assert(k != bi);
                assert(a.buckets@[k].host@ == h);
            }
        }
    }

    /// Takes a parked connection for `host`, if a still-valid one exists.
    ///
    /// The most recently parked entries are tried first; entries found
    /// expired or idle on the way are discarded. A vended stream always
    /// comes from an entry that was neither past its TTL nor past its idle
    /// cap at time `now`.
    pub fn get(&mut self, host: &str, now: u64) -> (r: Option<S>)
        requires
            old(self).wf(),
        ensures
            final(self).wf(),
            final(self).spec_config() == old(self).spec_config(),
            !old(self).spec_config().enabled ==> r is None && *final(self) == *old(self),
            forall|h: Seq<char>|
                h != host@ ==> #[trigger] final(self).spec_entries(h) == old(self).spec_entries(h),
            ({
                let es = old(self).spec_entries(host@);
                let ttl = old(self).spec_config().connection_ttl;
                let idle = old(self).spec_config().idle_timeout;
                match r {
                    Some(s) => old(self).spec_config().enabled && exists|j: int|
                        0 <= j < es.len() && (#[trigger] es[j]).spec_valid(ttl, idle, now) && s
                            == es[j].stream && final(self).spec_entries(host@) == es.take(j) && (
                        forall|k: int| j < k < es.len() ==> !(#[trigger] es[k]).spec_valid(ttl, idle, now)),
                    None => !old(self).spec_config().enabled || (forall|j: int|
                        0 <= j < es.len() ==> !(#[trigger] es[j]).spec_valid(ttl, idle, now)),
                }
            }),
    {
        if !self.config.enabled {
            return None;
        }
        let bi = match self.find_bucket(host) {
            Some(i) => i,
            None => {
                return None;
            },
        };
        proof {
            self.lemma_bucket_at(host@, bi as int);
        }
        let ttl = self.config.connection_ttl;
        let idle = self.config.idle_timeout;
        let ghost orig = self.buckets@[bi as int].entries@;
        loop
            invariant
                self.wf(),
                old(self).wf(),
                self.config == old(self).config,
                self.config.enabled,
                ttl == self.config.connection_ttl,
                idle == self.config.idle_timeout,
                0 <= bi < self.buckets@.len(),
                self.buckets@.len() == old(self).buckets@.len(),
                self.buckets@[bi as int].host@ == host@,
                forall|k: int|
                    0 <= k < self.buckets@.len() && k != bi ==> self.buckets@[k] == old(
                        self,
                    ).buckets@[k],
                old(self).buckets@[bi as int].host@ == host@,
                orig == old(self).buckets@[bi as int].entries@,
                self.buckets@[bi as int].entries@.len() <= orig.len(),
                self.buckets@[bi as int].entries@ == orig.take(
                    self.buckets@[bi as int].entries@.len() as int,
                ),
                forall|k: int|
                    self.buckets@[bi as int].entries@.len() <= k < orig.len() ==> !(
                    #[trigger] orig[k]).spec_valid(ttl, idle, now),
            decreases self.buckets@[bi as int].entries@.len(),
        {
            let popped = self.buckets[bi].entries.pop();
            match popped {
                None => {
                    proof {
                        self.lemma_bucket_at(host@, bi as int);
                        old(self).lemma_bucket_at(host@, bi as int);
                        ConnectionPool::lemma_entries_frame(self, old(self), bi as int);
                        assert(self.buckets@[bi as int].entries@ =~= orig.take(0));
                    }
                    return None;
                },
                Some(e) => {
                    let ghost m = self.buckets@[bi as int].entries@.len() as int;
                    proof {
                        assert(orig.take(m + 1).last() == orig[m]);
                        assert(orig.take(m + 1).drop_last() =~= orig.take(m));
                    }
                    if e.is_valid(ttl, idle, now) {
                        proof {
                            self.lemma_bucket_at(host@, bi as int);
                            old(self).lemma_bucket_at(host@, bi as int);
                            ConnectionPool::lemma_entries_frame(self, old(self), bi as int);
                        }
                        return Some(e.stream);
                    }
                    // expired or idle: drop it and keep scanning
                },
            }
        }
    }

    /// Parks a stream for `host` at time `now`. Returns false, dropping the
    /// stream, when pooling is off or the host's bucket is full.
    pub fn put(&mut self, host: String, stream: S, now: u64) -> (r: bool)
        requires
            old(self).wf(),
        ensures
            final(self).wf(),
            final(self).spec_config() == old(self).spec_config(),
            !old(self).spec_config().enabled ==> !r && *final(self) == *old(self),
            forall|h: Seq<char>|
                h != host@ ==> #[trigger] final(self).spec_entries(h) == old(self).spec_entries(h),
            ({
                let es = old(self).spec_entries(host@);
                if r {
                    old(self).spec_config().enabled && es.len() < old(
                        self,
                    ).spec_config().max_per_host && final(self).spec_entries(host@) == es.push(
                        PooledConnection { stream, created_at: now, last_used: now },
                    )
                } else {
                    final(self).spec_entries(host@) == es && (!old(self).spec_config().enabled
                        || es.len() >= old(self).spec_config().max_per_host)
                }
            }),
    {
        if !self.config.enabled {
            return false;
        }
        match self.find_bucket(host.as_str()) {
            Some(bi) => {
                proof {
                    self.lemma_bucket_at(host@, bi as int);
                }
                if self.buckets[bi].entries.len() >= self.config.max_per_host {
                    return false;
                }
                self.buckets[bi].entries.push(PooledConnection::new(stream, now));
                proof {
                    self.lemma_bucket_at(host@, bi as int);
                    old(self).lemma_bucket_at(host@, bi as int);
                    ConnectionPool::lemma_entries_frame(self, old(self), bi as int);
                }
                true
            },
            None => {
                if self.config.max_per_host == 0 {
                    return false;
                }
                let mut entries: Vec<PooledConnection<S>> = Vec::new();
                entries.push(PooledConnection::new(stream, now));
                self.buckets.push(Bucket { host, entries });
                proof {
                    let bi = self.buckets@.len() - 1;
                    assert(forall|k: int| 0 <= k < bi ==> self.buckets@[k] == old(self).buckets@[k]);
                    self.lemma_bucket_at(host@, bi);
                    assert(old(self).spec_entries(host@) =~= Seq::<PooledConnection<S>>::empty());
                    assert(self.spec_entries(host@) =~= old(self).spec_entries(host@).push(
                        PooledConnection { stream, created_at: now, last_used: now },
                    ));
                    assert forall|h: Seq<char>| h != host@ implies #[trigger] self.spec_entries(h)
                        == old(self).spec_entries(h) by {
                        if old(self).spec_has_bucket(h) {
                            let k = old(self).spec_bucket_at(h);
                            old(self).lemma_bucket_at(h, k);
                            self.lemma_bucket_at(h, k);
                        } else if self.spec_has_bucket(h) {
                            let k = self.spec_bucket_at(h);
                            assert(self.buckets@[k].host@ == h);
                            assert(k < bi ==> old(self).buckets@[k].host@ == h);
                        }
                    }
                }
                true
            },
        }
    }

    /// Discards every parked entry that is past its TTL or its idle cap at
    /// time `now`; fresh entries stay, in order.
    pub fn cleanup(&mut self, now: u64)
        requires
            old(self).wf(),
        ensures
            final(self).wf(),
            final(self).spec_config() == old(self).spec_config(),
            forall|h: Seq<char>| #[trigger]
                final(self).spec_entries(h) == old(self).spec_entries(h).filter(
                    spec_fresh_pred(
                        old(self).spec_config().connection_ttl,
                        old(self).spec_config().idle_timeout,
                        now,
                    ),
                ),
    {
        let ttl = self.config.connection_ttl;
        let idle = self.config.idle_timeout;
        let ghost pred = spec_fresh_pred::<S>(ttl, idle, now);
        let mut bi: usize = 0;
        while bi < self.buckets.len()
            invariant
                self.wf(),
                self.config == old(self).config,
                ttl == self.config.connection_ttl,
                idle == self.config.idle_timeout,
                pred == spec_fresh_pred::<S>(ttl, idle, now),
                0 <= bi <= self.buckets@.len(),
                self.buckets@.len() == old(self).buckets@.len(),
                forall|k: int|
                    0 <= k < self.buckets@.len() ==> (#[trigger] self.buckets@[k]).host@ == old(
                        self,
                    ).buckets@[k].host@,
                forall|k: int|
                    bi <= k < self.buckets@.len() ==> self.buckets@[k] == old(self).buckets@[k],
                forall|k: int|
                    0 <= k < bi ==> (#[trigger] self.buckets@[k]).entries@ == old(
                        self,
                    ).buckets@[k].entries@.filter(pred),
            decreases self.buckets@.len() - bi,
        {
            let ghost snap = self.buckets@;
            let ghost orig = self.buckets@[bi as int].entries@;
            proof {
                assert(orig.len() <= self.config.max_per_host);
                assert(snap.len() == old(self).buckets@.len());
                assert(forall|k: int|
                    0 <= k < snap.len() ==> (#[trigger] snap[k]).host@
                        == old(self).buckets@[k].host@);
                assert(forall|k: int|
                    bi as int <= k < snap.len() ==> snap[k] == old(self).buckets@[k]);
                assert(forall|k: int|
                    0 <= k < bi as int ==> (#[trigger] snap[k]).entries@
                        == old(self).buckets@[k].entries@.filter(pred));
            }
            // drain the bucket into a scratch vector (reversing it)
            let mut tmp: Vec<PooledConnection<S>> = Vec::new();
            while self.buckets[bi].entries.len() > 0
                invariant
                    0 <= bi < self.buckets@.len(),
                    tmp@.len() + self.buckets@[bi as int].entries@.len() == orig.len(),
                    self.buckets@[bi as int].entries@ == orig.take(
                        self.buckets@[bi as int].entries@.len() as int,
                    ),
                    forall|k: int|
                        0 <= k < tmp@.len() ==> #[trigger] tmp@[k] == orig[orig.len() - 1 - k],
                    self.wf(),
                    self.config == old(self).config,
                    self.buckets@.len() == snap.len(),
                    self.buckets@[bi as int].host == snap[bi as int].host,
                    orig == snap[bi as int].entries@,
                    forall|k: int|
                        0 <= k < self.buckets@.len() && k != bi ==> self.buckets@[k] == snap[k],
                decreases self.buckets@[bi as int].entries@.len(),
            {
                let popped = self.buckets[bi].entries.pop();
                match popped {
                    None => {},
                    Some(e) => {
                        proof {
                            let m = self.buckets@[bi as int].entries@.len() as int;
                            assert(orig.take(m + 1).last() == orig[m]);
                            assert(orig.take(m + 1).drop_last() =~= orig.take(m));
                        }
                        tmp.push(e);
                    },
                }
            }
            proof {
                assert(self.buckets@[bi as int].entries@ =~= orig.take(0));
                assert(orig.take(0).filter(pred) =~= self.buckets@[bi as int].entries@) by {
                    reveal(Seq::filter);
                }
            }
            // put the fresh ones back, oldest first
            while tmp.len() > 0
                invariant
                    0 <= bi < self.buckets@.len(),
                    tmp@.len() <= orig.len(),
                    forall|k: int|
                        0 <= k < tmp@.len() ==> #[trigger] tmp@[k] == orig[orig.len() - 1 - k],
                    self.buckets@[bi as int].entries@ == orig.take(
                        orig.len() - tmp@.len(),
                    ).filter(pred),
                    orig.len() <= self.config.max_per_host,
                    pred == spec_fresh_pred::<S>(ttl, idle, now),
                    ttl == self.config.connection_ttl,
                    idle == self.config.idle_timeout,
                    self.wf(),
                    self.config == old(self).config,
                    self.buckets@.len() == snap.len(),
                    self.buckets@[bi as int].host == snap[bi as int].host,
                    orig == snap[bi as int].entries@,
                    forall|k: int|
                        0 <= k < self.buckets@.len() && k != bi ==> self.buckets@[k] == snap[k],
                decreases tmp@.len(),
            {
                let popped = tmp.pop();
                match popped {
                    None => {},
                    Some(e) => {
                        let ghost j = orig.len() - tmp@.len() - 1;
                        proof {
                            assert(e == orig[j]);
                            assert(orig.take(j + 1).drop_last() =~= orig.take(j));
                            assert(orig.take(j + 1).last() == orig[j]);
                            orig.take(j + 1).lemma_filter_len(pred);
                            orig.subrange(0, j + 1).lemma_filter_len(pred);
                            reveal(Seq::filter);
                        }
                        if e.is_valid(ttl, idle, now) {
                            self.buckets[bi].entries.push(e);
                        }
                    },
                }
            }
            proof {
                assert(orig.take(orig.len() as int) =~= orig);
                assert(orig == old(self).buckets@[bi as int].entries@);
                assert forall|k: int|
                    0 <= k < self.buckets@.len() implies (#[trigger] self.buckets@[k]).host@ == old(
                    self,
                ).buckets@[k].host@ by {
                    if k != bi as int {
                        assert(self.buckets@[k] == snap[k]);
                    }
                }
                assert forall|k: int|
                    0 <= k <= bi as int implies (#[trigger] self.buckets@[k]).entries@ == old(
                    self,
                ).buckets@[k].entries@.filter(pred) by {
                    if k < bi as int {
                        assert(self.buckets@[k] == snap[k]);
                    } else {
                        assert(self.buckets@[bi as int].entries@ == orig.filter(pred));
                    }
                }
            }
            bi += 1;
        }
        proof {
            let opred = spec_fresh_pred::<S>(
                old(self).spec_config().connection_ttl,
                old(self).spec_config().idle_timeout,
                now,
            );
            assert(opred == pred);
            assert forall|h: Seq<char>| #[trigger] self.spec_entries(h) == old(self).spec_entries(
                h,
            ).filter(pred) by {
                if old(self).spec_has_bucket(h) {
                    let k = old(self).spec_bucket_at(h);
                    old(self).lemma_bucket_at(h, k);
                    self.lemma_bucket_at(h, k);
                } else {
                    if self.spec_has_bucket(h) {
                        let k = self.spec_bucket_at(h);
                        assert(self.buckets@[k].host@ == h);
                        assert(old(self).buckets@[k].host@ == h);
                    }
                    assert(old(self).spec_entries(h).filter(pred) =~= Seq::<
                        PooledConnection<S>,
                    >::empty()) by {
                        reveal(Seq::filter);
                    }
                }
            }
        }
    }

    /// The number of parked connections over a bucket sequence.
    pub closed spec fn spec_total(buckets: Seq<Bucket<S>>) -> int
        decreases buckets.len(),
    {
        if buckets.len() == 0 {
            0
        } else {
            Self::spec_total(buckets.drop_last()) + buckets.last().entries@.len()
        }
    }

    /// The number of parked connections in the whole pool.
    pub closed spec fn spec_total_connections(&self) -> int {
        Self::spec_total(self.buckets@)
    }

    /// The number of hosts with a bucket.
    pub closed spec fn spec_hosts(&self) -> int {
        self.buckets@.len() as int
    }

    proof fn lemma_total_nonneg(buckets: Seq<Bucket<S>>)
        ensures
            Self::spec_total(buckets) >= 0,
        decreases buckets.len(),
    {
        if buckets.len() > 0 {
            Self::lemma_total_nonneg(buckets.drop_last());
        }
    }

    /// Counts the parked connections and hosts; a total beyond `usize`
    /// saturates.
    pub fn stats(&self) -> (r: PoolStats)
        ensures
            r.hosts == self.spec_hosts(),
            r.enabled == self.spec_config().enabled,
            self.spec_total_connections() <= usize::MAX ==> r.total_connections
                == self.spec_total_connections(),
    {
        let mut total: usize = 0;
        let mut saturated = false;
        let mut i: usize = 0;
        while i < self.buckets.len()
            invariant
                0 <= i <= self.buckets@.len(),
                !saturated ==> total == Self::spec_total(self.buckets@.take(i as int)),
                saturated ==> Self::spec_total(self.buckets@.take(i as int)) > usize::MAX,
            decreases self.buckets@.len() - i,
        {
            let l = self.buckets[i].entries.len();
            proof {
                assert(self.buckets@.take(i + 1).drop_last() =~= self.buckets@.take(i as int));
                assert(self.buckets@.take(i + 1).last() == self.buckets@[i as int]);
                Self::lemma_total_nonneg(self.buckets@.take(i as int));
            }
            if !saturated && l <= usize::MAX - total {
                total = total + l;
            } else {
                saturated = true;
            }
            i += 1;
        }
        proof {
            assert(self.buckets@.take(self.buckets@.len() as int) =~= self.buckets@);
        }
        if saturated {
            total = usize::MAX;
        }
        PoolStats { total_connections: total, hosts: self.buckets.len(), enabled: self.config.enabled }
    }
}

} // verus!
