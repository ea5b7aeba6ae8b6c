//! Metric label cache: one label string per (host, protocol) pair, built
//! once and handed out on every later lookup.
//!
//! The well-formedness invariant is the point: the cache never holds two
//! entries for one key, so for every pair ever used exactly one label
//! string is constructed.

use vstd::prelude::*;
use vstd::utf8::encode_utf8;

use crate::text::{bytes_eq, lemma_encode_utf8_injective};

verus! {

/// One cached label.
struct LabelEntry {
    host: String,
    protocol: String,
    label: String,
}

/// A map from (host, protocol) to the label used in metric lookups.
pub struct MetricLabelCache {
    entries: Vec<LabelEntry>,
}

impl MetricLabelCache {
    /// No two entries share a key.
    pub closed spec fn wf(&self) -> bool {
        forall|i: int, j: int|
            0 <= i < j < self.entries@.len() ==> !((#[trigger] self.entries@[i]).host@ == (
            #[trigger] self.entries@[j]).host@ && self.entries@[i].protocol@
                == self.entries@[j].protocol@)
    }

    /// Whether a key is cached.
    pub closed spec fn spec_has(&self, host: Seq<char>, protocol: Seq<char>) -> bool {
        exists|i: int|
            0 <= i < self.entries@.len() && (#[trigger] self.entries@[i]).host@ == host
                && self.entries@[i].protocol@ == protocol
    }

    /// The label stored for a key.
    pub closed spec fn spec_label_of(&self, host: Seq<char>, protocol: Seq<char>) -> Seq<char> {
        let i = choose|i: int|
            0 <= i < self.entries@.len() && (#[trigger] self.entries@[i]).host@ == host
                && self.entries@[i].protocol@ == protocol;
        self.entries@[i].label@
    }

    /// The number of cached labels.
    pub closed spec fn spec_len(&self) -> int {
        self.entries@.len() as int
    }

    /// The key of the entry at index `i`.
    pub closed spec fn spec_entry_key(&self, i: int) -> (Seq<char>, Seq<char>) {
        (self.entries@[i].host@, self.entries@[i].protocol@)
    }

    /// An empty cache.
    pub fn new() -> (r: Self)
        ensures
            r.wf(),
            r.spec_len() == 0,
            forall|h: Seq<char>, p: Seq<char>| !r.spec_has(h, p),
    {
        MetricLabelCache { entries: Vec::new() }
    }

    /// The index of the entry for a key, if cached.
    fn find(&self, host: &str, protocol: &str) -> (r: Option<usize>)
        ensures
            match r {
                Some(i) => i < self.entries@.len() && self.entries@[i as int].host@ == host@
                    && self.entries@[i as int].protocol@ == protocol@ && self.spec_has(
                    host@,
                    protocol@,
                ),
                None => !self.spec_has(host@, protocol@),
            },
    {
        let mut i: usize = 0;
        while i < self.entries.len()
            invariant
                0 <= i <= self.entries@.len(),
                forall|j: int|
                    0 <= j < i ==> !((#[trigger] self.entries@[j]).host@ == host@
                        && self.entries@[j].protocol@ == protocol@),
            decreases self.entries@.len() - i,
        {
            let e = &self.entries[i];
            if bytes_eq(e.host.as_str().as_bytes(), host.as_bytes()) && bytes_eq(
                e.protocol.as_str().as_bytes(),
                protocol.as_bytes(),
            ) {
                proof {
                    lemma_encode_utf8_injective(self.entries@[i as int].host@, host@);
                    lemma_encode_utf8_injective(self.entries@[i as int].protocol@, protocol@);
                }
                return Some(i);
            }
            proof {
                if self.entries@[i as int].host@ == host@ && self.entries@[i as int].protocol@
                    == protocol@ {
                    assert(encode_utf8(self.entries@[i as int].host@) == encode_utf8(host@));
                    assert(encode_utf8(self.entries@[i as int].protocol@) == encode_utf8(
                        protocol@,
                    ));
                }
            }
            i += 1;
        }
        None
    }

    /// Returns the label for (host, protocol), building and caching
    /// `host-protocol` only when the pair was never seen before.
    pub fn get_or_insert(&mut self, host: &str, protocol: &str) -> (r: String)
        requires
            old(self).wf(),
        ensures
            final(self).wf(),
            final(self).spec_has(host@, protocol@),
            old(self).spec_has(host@, protocol@) ==> *final(self) == *old(self) && r@ == old(
                self,
            ).spec_label_of(host@, protocol@),
            !old(self).spec_has(host@, protocol@) ==> final(self).spec_len() == old(
                self,
            ).spec_len() + 1 && r@ == host@ + "-"@ + protocol@,
            forall|h: Seq<char>, p: Seq<char>|
                #![trigger old(self).spec_has(h, p)]
                #![trigger final(self).spec_has(h, p)]
                old(self).spec_has(h, p) ==> final(self).spec_has(h, p) && final(self).spec_label_of(h, p) == old(self).spec_label_of(h, p),
    {
        match self.find(host, protocol) {
            Some(i) => {
                proof {
                    let w = choose|k: int|
                        0 <= k < self.entries@.len() && (#[trigger] self.entries@[k]).host@ == host@
                            && self.entries@[k].protocol@ == protocol@;
                    if w != i as int {
                        assert(self.entries@[w].host@ == self.entries@[i as int].host@);
                    }
                }
                self.entries[i].label.clone()
            },
            None => {
                let mut label = host.to_owned();
                label.append("-");
                label.append(protocol);
                let out = label.clone();
                self.entries.push(
                    LabelEntry { host: host.to_owned(), protocol: protocol.to_owned(), label },
                );
                proof {
                    let n = self.entries@.len() - 1;
                    assert(self.entries@[n].host@ == host@ && self.entries@[n].protocol@
                        == protocol@);
                    assert forall|h: Seq<char>, p: Seq<char>|
                        old(self).spec_has(h, p) implies #[trigger] self.spec_has(h, p) && self.spec_label_of(
                        h,
                        p,
                    ) == old(self).spec_label_of(h, p) by {
                        let k = choose|k: int|
                            0 <= k < old(self).entries@.len() && (#[trigger] old(
                                self,
                            ).entries@[k]).host@ == h && old(self).entries@[k].protocol@ == p;
                        assert(self.entries@[k].host@ == h && self.entries@[k].protocol@ == p);
                        let w = choose|w: int|
                            0 <= w < self.entries@.len() && (#[trigger] self.entries@[w]).host@
                                == h && self.entries@[w].protocol@ == p;
                        if w != k {
                            assert(self.entries@[w].host@ == self.entries@[k].host@);
                        }
                        let w0 = choose|w: int|
                            0 <= w < old(self).entries@.len() && (#[trigger] old(
                                self,
                            ).entries@[w]).host@ == h && old(self).entries@[w].protocol@ == p;
                        if w0 != k {
                            assert(old(self).entries@[w0].host@ == old(self).entries@[k].host@);
                        }
                    }
                    let w = choose|w: int|
                        0 <= w < self.entries@.len() && (#[trigger] self.entries@[w]).host@ == host@
                            && self.entries@[w].protocol@ == protocol@;
                    if w != n {
                        assert(old(self).spec_has(host@, protocol@));
                    }
                }
                out
            },
        }
    }

    /// Returns the label for a single string, cached under the key
    /// (label, empty).
    pub fn get_or_insert_single(&mut self, label: &str) -> (r: String)
        requires
            old(self).wf(),
        ensures
            final(self).wf(),
            final(self).spec_has(label@, Seq::empty()),
            old(self).spec_has(label@, Seq::empty()) ==> *final(self) == *old(self) && r@ == old(
                self,
            ).spec_label_of(label@, Seq::empty()),
            !old(self).spec_has(label@, Seq::empty()) ==> final(self).spec_len() == old(
                self,
            ).spec_len() + 1 && r@ == label@,
    {
        match self.find(label, "") {
            Some(i) => {
                proof {
                    reveal_strlit("");
                    assert(""@ =~= Seq::<char>::empty());
                    let w = choose|k: int|
                        0 <= k < self.entries@.len() && (#[trigger] self.entries@[k]).host@
                            == label@ && self.entries@[k].protocol@ == Seq::<char>::empty();
                    if w != i as int {
                        assert(self.entries@[w].host@ == self.entries@[i as int].host@);
                    }
                }
                self.entries[i].label.clone()
            },
            None => {
                proof {
                    reveal_strlit("");
                    assert(""@ =~= Seq::<char>::empty());
                }
                let stored = label.to_owned();
                let out = stored.clone();
                self.entries.push(
                    LabelEntry {
                        host: label.to_owned(),
                        protocol: String::new(),
                        label: stored,
                    },
                );
                proof {
                    let n = self.entries@.len() - 1;
                    assert(self.entries@[n].host@ == label@ && self.entries@[n].protocol@
                        == Seq::<char>::empty());
                    let w = choose|w: int|
                        0 <= w < self.entries@.len() && (#[trigger] self.entries@[w]).host@
                            == label@ && self.entries@[w].protocol@ == Seq::<char>::empty();
                    if w != n {
                        assert(old(self).spec_has(label@, Seq::empty()));
                    }
                }
                out
            },
        }
    }

    /// Empties the cache.
    pub fn clear(&mut self)
        ensures
            final(self).wf(),
            final(self).spec_len() == 0,
            forall|h: Seq<char>, p: Seq<char>| !final(self).spec_has(h, p),
    {
        self.entries.clear();
    }

    /// The number of cached labels.
    pub fn len(&self) -> (r: usize)
        ensures
            r == self.spec_len(),
    {
        self.entries.len()
    }

    /// Whether the cache holds nothing.
    pub fn is_empty(&self) -> (r: bool)
        ensures
            r == (self.spec_len() == 0),
    {
        self.entries.len() == 0
    }
}

impl Default for MetricLabelCache {
    /// The same as [`MetricLabelCache::new`].
    fn default() -> (r: Self)
        ensures
            r.wf(),
            r.spec_len() == 0,
    {
        MetricLabelCache::new()
    }
}

/// Law: a well-formed cache never holds two entries for one
/// (host, protocol) pair, so each pair's label is constructed exactly once.
pub proof fn lemma_label_cache_unique(c: &MetricLabelCache, i: int, j: int)
    requires
        c.wf(),
        0 <= i < j < c.spec_len(),
    ensures
        c.spec_entry_key(i) != c.spec_entry_key(j),
{
}

} // verus!
