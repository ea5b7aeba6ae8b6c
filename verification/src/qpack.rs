//! QPACK dynamic-table bookkeeping for the HTTP/3 path: a FIFO table of
//! header fields with a byte-size budget, and the encoder and decoder
//! shells around it.
//!
//! Entry sizes follow RFC 9204: name length plus value length plus a
//! 32-byte overhead. Inserting evicts oldest-first until the new field
//! fits; a field larger than the whole budget empties the table and is not
//! stored.

use vstd::prelude::*;
use vstd::utf8::encode_utf8;

use crate::text::{bytes_eq, lemma_encode_utf8_injective};

verus! {

/// Configuration of the dynamic table.
#[derive(Debug, Clone)]
pub struct QpackConfig {
    /// Whether the table is used at all.
    pub enabled: bool,
    /// The byte budget of the table.
    pub max_table_capacity: usize,
    /// How many streams may block on table updates.
    pub max_blocked_streams: u16,
    /// Whether strings are Huffman-coded on the wire.
    pub huffman_encoding: bool,
}

impl Default for QpackConfig {
    /// The stock configuration: a 4096-byte table, 16 blocked streams,
    /// Huffman on.
    fn default() -> (r: Self)
        ensures
            r.enabled && r.max_table_capacity == 4096 && r.max_blocked_streams == 16
                && r.huffman_encoding,
    {
        QpackConfig {
            enabled: true,
            max_table_capacity: 4096,
            max_blocked_streams: 16,
            huffman_encoding: true,
        }
    }
}

/// One header field.
#[derive(Debug, PartialEq, Eq)]
pub struct HeaderField {
    /// The header name.
    pub name: String,
    /// The header value.
    pub value: String,
}

/// The RFC 9204 size of a field: name bytes plus value bytes plus 32.
pub open spec fn spec_field_size(f: HeaderField) -> int {
    encode_utf8(f.name@).len() + encode_utf8(f.value@).len() + 32int
}

impl Clone for HeaderField {
    /// A clone carries the same name and value.
    fn clone(&self) -> (r: Self)
        ensures
            r == *self,
    {
        HeaderField { name: self.name.clone(), value: self.value.clone() }
    }
}

impl HeaderField {
    /// Pairs a name with a value.
    pub fn new(name: String, value: String) -> (r: Self)
        ensures
            r.name == name && r.value == value,
    {
        HeaderField { name, value }
    }

    /// The field's table size per RFC 9204.
    pub fn size(&self) -> (r: usize)
        requires
            spec_field_size(*self) <= usize::MAX,
        ensures
            r == spec_field_size(*self),
    {
        self.name.as_str().len() + self.value.as_str().len() + 32
    }
}

/// The summed size of a field sequence.
pub open spec fn spec_table_size(s: Seq<HeaderField>) -> int
    decreases s.len(),
{
    if s.len() == 0 {
        0
    } else {
        spec_table_size(s.drop_last()) + spec_field_size(s.last())
    }
}

/// What is left of a table after evicting oldest-first (from the back)
/// until `need` more bytes fit the budget `cap`.
pub open spec fn spec_evict(s: Seq<HeaderField>, need: int, cap: int) -> Seq<HeaderField>
    decreases s.len(),
{
    if spec_table_size(s) + need <= cap || s.len() == 0 {
        s
    } else {
        spec_evict(s.drop_last(), need, cap)
    }
}

/// The entries after an insertion: evict until the field fits, then put it
/// at the front; a field over the whole budget is dropped (after the
/// eviction has emptied the table).
pub open spec fn spec_insert(s: Seq<HeaderField>, f: HeaderField, cap: int) -> Seq<HeaderField> {
    let evicted = spec_evict(s, spec_field_size(f), cap);
    if spec_field_size(f) <= cap {
        seq![f] + evicted
    } else {
        evicted
    }
}

/// The position of the first entry with the given name and value.
pub open spec fn spec_find_field(
    s: Seq<HeaderField>,
    name: Seq<char>,
    value: Seq<char>,
    i: int,
) -> Option<int>
    decreases s.len() - i
        when 0 <= i
{
    if i >= s.len() {
        None
    } else if s[i].name@ == name && s[i].value@ == value {
        Some(i)
    } else {
        spec_find_field(s, name, value, i + 1)
    }
}

/// The position of the first entry with the given name.
pub open spec fn spec_find_field_name(s: Seq<HeaderField>, name: Seq<char>, i: int) -> Option<int>
    decreases s.len() - i
        when 0 <= i
{
    if i >= s.len() {
        None
    } else if s[i].name@ == name {
        Some(i)
    } else {
        spec_find_field_name(s, name, i + 1)
    }
}

/// Usage counters of the table.
#[derive(Debug, Clone, Copy, Default)]
pub struct QpackStats {
    /// Fields inserted.
    pub insertions: usize,
    /// Fields evicted to make room.
    pub evictions: usize,
    /// Lookups by index that found an entry.
    pub lookups: usize,
    /// Searches that found their field.
    pub hits: usize,
    /// Searches that found nothing.
    pub misses: usize,
}

impl QpackStats {
    /// The number of searches made.
    pub fn total_queries(&self) -> (r: usize)
        requires
            self.hits + self.misses <= usize::MAX,
        ensures
            r == self.hits + self.misses,
    {
        self.hits + self.misses
    }
}

/// A counter bump that sticks at the top instead of wrapping.
pub open spec fn spec_sat_inc(n: usize) -> int {
    if n < usize::MAX {
        n + 1
    } else {
        n as int
    }
}

/// A counter raised by `n`, sticking at the top instead of wrapping.
pub open spec fn spec_sat_add(a: usize, n: int) -> int {
    if a + n <= usize::MAX {
        a + n
    } else {
        usize::MAX as int
    }
}

fn sat_inc(n: usize) -> (r: usize)
    ensures
        r == spec_sat_inc(n),
{
    if n < usize::MAX {
        n + 1
    } else {
        n
    }
}

/// The FIFO dynamic table: most recent entry first.
pub struct QpackDynamicTable {
    config: QpackConfig,
    entries: Vec<HeaderField>,
    current_size: usize,
    stats: QpackStats,
}

impl QpackDynamicTable {
    /// The tracked size is the summed field size and stays within the
    /// budget.
    pub closed spec fn wf(&self) -> bool {
        self.current_size == spec_table_size(self.entries@) && self.current_size
            <= self.config.max_table_capacity
    }

    pub closed spec fn spec_entries(&self) -> Seq<HeaderField> {
        self.entries@
    }

    pub closed spec fn spec_config(&self) -> QpackConfig {
        self.config
    }

    pub closed spec fn spec_stats(&self) -> QpackStats {
        self.stats
    }

    /// An empty table under a configuration.
    pub fn new(config: QpackConfig) -> (r: Self)
        ensures
            r.wf(),
            r.spec_config() == config,
            r.spec_entries() == Seq::<HeaderField>::empty(),
            r.spec_stats() == (QpackStats { insertions: 0, evictions: 0, lookups: 0, hits: 0, misses: 0 }),
    {
        QpackDynamicTable {
            config,
            entries: Vec::new(),
            current_size: 0,
            stats: QpackStats { insertions: 0, evictions: 0, lookups: 0, hits: 0, misses: 0 },
        }
    }

    proof fn lemma_size_nonneg(s: Seq<HeaderField>)
        ensures
            spec_table_size(s) >= 0,
        decreases s.len(),
    {
        if s.len() > 0 {
            Self::lemma_size_nonneg(s.drop_last());
        }
    }

    proof fn lemma_size_prepend(f: HeaderField, s: Seq<HeaderField>)
        ensures
            spec_table_size(seq![f] + s) == spec_field_size(f) + spec_table_size(s),
        decreases s.len(),
    {
        if s.len() == 0 {
            assert(seq![f] + s =~= seq![f]);
            assert((seq![f]).drop_last() =~= Seq::<HeaderField>::empty());
            assert((seq![f]).last() == f);
            assert(spec_table_size(Seq::<HeaderField>::empty()) == 0);
            assert(spec_table_size(seq![f]) == spec_field_size(f));
        } else {
            assert((seq![f] + s).drop_last() =~= seq![f] + s.drop_last());
            assert((seq![f] + s).last() == s.last());
            Self::lemma_size_prepend(f, s.drop_last());
        }
    }

    /// Inserts a field at the front, evicting oldest entries as needed
    /// (see [`spec_insert`]). Returns the index of the new entry, always 0.
    pub fn insert(&mut self, name: String, value: String) -> (r: usize)
        requires
            old(self).wf(),
            encode_utf8(name@).len() + encode_utf8(value@).len() + 32 <= usize::MAX,
        ensures
            final(self).wf(),
            r == 0,
            final(self).spec_config() == old(self).spec_config(),
            !old(self).spec_config().enabled ==> *final(self) == *old(self),
            old(self).spec_config().enabled ==> final(self).spec_entries() == spec_insert(
                old(self).spec_entries(),
                HeaderField { name, value },
                old(self).spec_config().max_table_capacity as int,
            ),
            old(self).spec_config().enabled ==> ({
                let stats = final(self).spec_stats();
                let before = old(self).spec_stats();
                &&& stats.lookups == before.lookups
                &&& stats.hits == before.hits
                &&& stats.misses == before.misses
                &&& stats.evictions == spec_sat_add(
                    before.evictions,
                    old(self).spec_entries().len() - spec_evict(
                        old(self).spec_entries(),
                        spec_field_size(HeaderField { name, value }),
                        old(self).spec_config().max_table_capacity as int,
                    ).len(),
                )
                &&& stats.insertions == if spec_field_size(HeaderField { name, value }) <= old(
                    self,
                ).spec_config().max_table_capacity {
                    spec_sat_inc(before.insertions)
                } else {
                    before.insertions as int
                }
            }),
    {
        if !self.config.enabled {
            return 0;
        }
        let field = HeaderField::new(name, value);
        let field_size = field.size();
        let ghost f = field;
        let ghost orig = self.entries@;
        let ghost cap = self.config.max_table_capacity as int;
        while field_size > self.config.max_table_capacity - self.current_size
            && self.entries.len() > 0
            invariant
                self.wf(),
                self.config == old(self).config,
                self.stats.insertions == old(self).stats.insertions,
                self.stats.lookups == old(self).stats.lookups,
                self.stats.hits == old(self).stats.hits,
                self.stats.misses == old(self).stats.misses,
                cap == self.config.max_table_capacity as int,
                field_size == spec_field_size(f),
                field_size <= usize::MAX,
                self.entries@.len() <= orig.len(),
                spec_evict(self.entries@, field_size as int, cap) == spec_evict(
                    orig,
                    field_size as int,
                    cap,
                ),
                self.stats.evictions == spec_sat_add(
                    old(self).stats.evictions,
                    orig.len() - self.entries@.len(),
                ),
            decreases self.entries@.len(),
        {
            proof {
                Self::lemma_size_nonneg(self.entries@.drop_last());
            }
            let evicted = self.entries.pop();
            match evicted {
                Some(e) => {
                    let es = e.size();
                    self.current_size = self.current_size - es;
                    self.stats.evictions = sat_inc(self.stats.evictions);
                },
                None => {},
            }
        }
        proof {
            assert(spec_evict(self.entries@, field_size as int, cap) == self.entries@);
            assert(spec_evict(orig, field_size as int, cap).len() == self.entries@.len());
        }
        if field_size <= self.config.max_table_capacity {
            let ghost evicted = self.entries@;
            proof {
                Self::lemma_size_nonneg(evicted);
                Self::lemma_size_prepend(f, evicted);
            }
            self.entries.insert(0, field);
            self.current_size = self.current_size + field_size;
            self.stats.insertions = sat_inc(self.stats.insertions);
            proof {
                assert(self.entries@ =~= seq![f] + evicted);
            }
        }
        0
    }

    /// The entry at `index`, zero being the most recent; counted as a
    /// lookup when it exists.
    pub fn get(&mut self, index: usize) -> (r: Option<HeaderField>)
        requires
            old(self).wf(),
        ensures
            final(self).wf(),
            final(self).spec_entries() == old(self).spec_entries(),
            final(self).spec_config() == old(self).spec_config(),
            ({
                let es = old(self).spec_entries();
                if old(self).spec_config().enabled && index < es.len() {
                    r == Some(es[index as int]) && final(self).spec_stats() == (QpackStats {
                        lookups: spec_sat_inc(old(self).spec_stats().lookups) as usize,
                        ..old(self).spec_stats()
                    })
                } else {
                    r is None && *final(self) == *old(self)
                }
            }),
    {
        if !self.config.enabled {
            return None;
        }
        if index < self.entries.len() {
            let field = self.entries[index].clone();
            self.stats.lookups = sat_inc(self.stats.lookups);
            Some(field)
        } else {
            None
        }
    }

    /// The index of the first entry matching both name and value; a hit or
    /// a miss is counted.
    pub fn find(&mut self, name: &str, value: &str) -> (r: Option<usize>)
        requires
            old(self).wf(),
        ensures
            final(self).wf(),
            final(self).spec_entries() == old(self).spec_entries(),
            final(self).spec_config() == old(self).spec_config(),
            ({
                let es = old(self).spec_entries();
                let before = old(self).spec_stats();
                if old(self).spec_config().enabled {
                    match r {
                        Some(i) => spec_find_field(es, name@, value@, 0) == Some(i as int) && final(
                            self).spec_stats() == (QpackStats {
                            hits: spec_sat_inc(before.hits) as usize,
                            ..before
                        }),
                        None => spec_find_field(es, name@, value@, 0) is None && final(
                            self).spec_stats() == (QpackStats {
                            misses: spec_sat_inc(before.misses) as usize,
                            ..before
                        }),
                    }
                } else {
                    r is None && *final(self) == *old(self)
                }
            }),
    {
        if !self.config.enabled {
            return None;
        }
        let mut i: usize = 0;
        while i < self.entries.len()
            invariant
                self.wf(),
                *self == *old(self),
                self.config.enabled,
                0 <= i <= self.entries@.len(),
                spec_find_field(self.entries@, name@, value@, i as int) == spec_find_field(
                    self.entries@,
                    name@,
                    value@,
                    0,
                ),
            decreases self.entries@.len() - i,
        {
            let e = &self.entries[i];
            let name_eq = bytes_eq(e.name.as_str().as_bytes(), name.as_bytes());
            let value_eq = bytes_eq(e.value.as_str().as_bytes(), value.as_bytes());
            proof {
                if name_eq {
                    lemma_encode_utf8_injective(self.entries@[i as int].name@, name@);
                }
                if value_eq {
                    lemma_encode_utf8_injective(self.entries@[i as int].value@, value@);
                }
                if self.entries@[i as int].name@ == name@ {
                    assert(encode_utf8(self.entries@[i as int].name@) == encode_utf8(name@));
                }
                if self.entries@[i as int].value@ == value@ {
                    assert(encode_utf8(self.entries@[i as int].value@) == encode_utf8(value@));
                }
            }
            if name_eq && value_eq {
                proof {
                    assert(spec_find_field(self.entries@, name@, value@, i as int) == Some(
                        i as int,
                    ));
                }
                self.stats.hits = sat_inc(self.stats.hits);
                return Some(i);
            }
            i += 1;
        }
        self.stats.misses = sat_inc(self.stats.misses);
        None
    }

    /// The index of the first entry matching the name alone; not counted.
    pub fn find_name(&mut self, name: &str) -> (r: Option<usize>)
        requires
            old(self).wf(),
        ensures
            final(self).wf(),
            *final(self) == *old(self),
            ({
                let es = old(self).spec_entries();
                if old(self).spec_config().enabled {
                    match r {
                        Some(i) => spec_find_field_name(es, name@, 0) == Some(i as int),
                        None => spec_find_field_name(es, name@, 0) is None,
                    }
                } else {
                    r is None
                }
            }),
    {
        if !self.config.enabled {
            return None;
        }
        let mut i: usize = 0;
        while i < self.entries.len()
            invariant
                self.wf(),
                *self == *old(self),
                self.config.enabled,
                0 <= i <= self.entries@.len(),
                spec_find_field_name(self.entries@, name@, i as int) == spec_find_field_name(
                    self.entries@,
                    name@,
                    0,
                ),
            decreases self.entries@.len() - i,
        {
            let e = &self.entries[i];
            let name_eq = bytes_eq(e.name.as_str().as_bytes(), name.as_bytes());
            proof {
                if name_eq {
                    lemma_encode_utf8_injective(self.entries@[i as int].name@, name@);
                }
                if self.entries@[i as int].name@ == name@ {
                    assert(encode_utf8(self.entries@[i as int].name@) == encode_utf8(name@));
                }
            }
            if name_eq {
                proof {
                    assert(spec_find_field_name(self.entries@, name@, i as int) == Some(i as int));
                }
                return Some(i);
            }
            i += 1;
        }
        None
    }

    /// The tracked table size in bytes.
    pub fn size(&self) -> (r: usize)
        requires
            self.wf(),
        ensures
            r == spec_table_size(self.spec_entries()),
    {
        self.current_size
    }

    /// The number of entries.
    pub fn len(&self) -> (r: usize)
        ensures
            r == self.spec_entries().len(),
    {
        self.entries.len()
    }

    /// Whether the table is empty.
    pub fn is_empty(&self) -> (r: bool)
        ensures
            r == (self.spec_entries().len() == 0),
    {
        self.entries.len() == 0
    }

    /// Empties the table; the statistics stay.
    pub fn clear(&mut self)
        ensures
            final(self).wf(),
            final(self).spec_entries() == Seq::<HeaderField>::empty(),
            final(self).spec_config() == old(self).spec_config(),
            final(self).spec_stats() == old(self).spec_stats(),
    {
        self.entries.clear();
        self.current_size = 0;
    }

    /// A copy of the usage counters.
    pub fn stats(&self) -> (r: QpackStats)
        ensures
            r == self.spec_stats(),
    {
        self.stats
    }

    /// The configuration in use.
    pub fn config(&self) -> (r: &QpackConfig)
        ensures
            *r == self.spec_config(),
    {
        &self.config
    }
}

/// The bytes a literal (not-yet-tabled) field contributes to an encoded
/// block: `name:value` and a newline.
pub open spec fn spec_literal_encoding(name: Seq<char>, value: Seq<char>) -> Seq<u8> {
    encode_utf8(name) + seq![58u8] + encode_utf8(value) + seq![10u8]
}

/// What encoding a header list does, from position `i` on, to a table with
/// the given entries: the bytes emitted and the entries left behind. A
/// field found in the table becomes one indexed byte (high bit plus the
/// truncated index); a new field is inserted and written literally.
pub open spec fn spec_encode(
    headers: Seq<(String, String)>,
    i: int,
    entries: Seq<HeaderField>,
    cap: int,
    enabled: bool,
) -> (Seq<u8>, Seq<HeaderField>)
    decreases headers.len() - i
        when 0 <= i
{
    if i >= headers.len() {
        (Seq::<u8>::empty(), entries)
    } else {
        let name = headers[i].0;
        let value = headers[i].1;
        if enabled && spec_find_field(entries, name@, value@, 0) is Some {
            let idx = spec_find_field(entries, name@, value@, 0)->Some_0;
            let rest = spec_encode(headers, i + 1, entries, cap, enabled);
            (seq![(0x80u8 | ((idx % 256) as u8))] + rest.0, rest.1)
        } else {
            let entries2 = if enabled {
                spec_insert(entries, HeaderField { name, value }, cap)
            } else {
                entries
            };
            let rest = spec_encode(headers, i + 1, entries2, cap, enabled);
            (spec_literal_encoding(name@, value@) + rest.0, rest.1)
        }
    }
}

/// The encoder: a dynamic table plus the literal fallback.
pub struct QpackEncoder {
    table: QpackDynamicTable,
}

impl QpackEncoder {
    pub closed spec fn spec_table(&self) -> QpackDynamicTable {
        self.table
    }

    /// An encoder over a fresh table.
    pub fn new(config: QpackConfig) -> (r: Self)
        ensures
            r.spec_table().wf(),
            r.spec_table().spec_config() == config,
            r.spec_table().spec_entries() == Seq::<HeaderField>::empty(),
    {
        QpackEncoder { table: QpackDynamicTable::new(config) }
    }

    /// Encodes a header list as [`spec_encode`] describes, evolving the
    /// dynamic table along the way.
    pub fn encode(&mut self, headers: &[(String, String)]) -> (r: Vec<u8>)
        requires
            old(self).spec_table().wf(),
            forall|i: int|
                0 <= i < headers@.len() ==> encode_utf8((#[trigger] headers@[i]).0@).len()
                    + encode_utf8(headers@[i].1@).len() + 32 <= usize::MAX,
        ensures
            final(self).spec_table().wf(),
            final(self).spec_table().spec_config() == old(self).spec_table().spec_config(),
            ({
                let target = spec_encode(
                    headers@,
                    0,
                    old(self).spec_table().spec_entries(),
                    old(self).spec_table().spec_config().max_table_capacity as int,
                    old(self).spec_table().spec_config().enabled,
                );
                r@ == target.0 && final(self).spec_table().spec_entries() == target.1
            }),
    {
        let ghost orig = self.table.spec_entries();
        let ghost cap = self.table.spec_config().max_table_capacity as int;
        let ghost en = self.table.spec_config().enabled;
        let mut encoded: Vec<u8> = Vec::new();
        let mut i: usize = 0;
        while i < headers.len()
            invariant
                self.table.wf(),
                self.table.spec_config() == old(self).spec_table().spec_config(),
                cap == self.table.spec_config().max_table_capacity as int,
                en == self.table.spec_config().enabled,
                0 <= i <= headers@.len(),
                forall|k: int|
                    0 <= k < headers@.len() ==> encode_utf8((#[trigger] headers@[k]).0@).len()
                        + encode_utf8(headers@[k].1@).len() + 32 <= usize::MAX,
                spec_encode(headers@, 0, orig, cap, en) == ({
                    let rest = spec_encode(
                        headers@,
                        i as int,
                        self.table.spec_entries(),
                        cap,
                        en,
                    );
                    (encoded@ + rest.0, rest.1)
                }),
            decreases headers@.len() - i,
        {
            let ghost entries_before = self.table.spec_entries();
            let ghost base = encoded@;
            let name = &headers[i].0;
            let value = &headers[i].1;
            match self.table.find(name.as_str(), value.as_str()) {
                Some(index) => {
                    let ib: u8 = 0x80 | ((index % 256) as u8);
                    encoded.push(ib);
                    proof {
                        let idx = spec_find_field(
                            entries_before,
                            headers@[i as int].0@,
                            headers@[i as int].1@,
                            0,
                        )->Some_0;
                        assert(ib == (0x80u8 | ((idx % 256) as u8)));
                        let rest = spec_encode(headers@, i + 1, entries_before, cap, en);
                        assert(base + (seq![ib] + rest.0) =~= encoded@ + rest.0);
                    }
                },
                None => {
                    self.table.insert(name.clone(), value.clone());
                    proof {
                        assert(HeaderField { name: *name, value: *value } == (HeaderField {
                            name: headers@[i as int].0,
                            value: headers@[i as int].1,
                        }));
                    }
                    let nb = name.as_str().as_bytes();
                    let mut k: usize = 0;
                    while k < nb.len()
                        invariant
                            0 <= k <= nb@.len(),
                            nb@ == encode_utf8(headers@[i as int].0@),
                            encoded@ == base + nb@.take(k as int),
                        decreases nb@.len() - k,
                    {
                        proof {
                            assert(base + nb@.take(k + 1) =~= (base + nb@.take(k as int)).push(
                                nb@[k as int],
                            ));
                        }
                        encoded.push(nb[k]);
                        k += 1;
                    }
                    proof {
                        assert(nb@.take(nb@.len() as int) =~= nb@);
                    }
                    encoded.push(58);
                    let ghost base2 = encoded@;
                    let vb = value.as_str().as_bytes();
                    let mut k2: usize = 0;
                    while k2 < vb.len()
                        invariant
                            0 <= k2 <= vb@.len(),
                            vb@ == encode_utf8(headers@[i as int].1@),
                            encoded@ == base2 + vb@.take(k2 as int),
                        decreases vb@.len() - k2,
                    {
                        proof {
                            assert(base2 + vb@.take(k2 + 1) =~= (base2 + vb@.take(k2 as int)).push(
                                vb@[k2 as int],
                            ));
                        }
                        encoded.push(vb[k2]);
                        k2 += 1;
                    }
                    proof {
                        assert(vb@.take(vb@.len() as int) =~= vb@);
                    }
                    encoded.push(10);
                    proof {
                        let rest = spec_encode(
                            headers@,
                            i + 1,
                            self.table.spec_entries(),
                            cap,
                            en,
                        );
                        assert(encoded@ =~= base + spec_literal_encoding(
                            headers@[i as int].0@,
                            headers@[i as int].1@,
                        ));
                        assert(base + (spec_literal_encoding(
                            headers@[i as int].0@,
                            headers@[i as int].1@,
                        ) + rest.0) =~= encoded@ + rest.0);
                    }
                },
            }
            i += 1;
        }
        proof {
            let rest = spec_encode(headers@, i as int, self.table.spec_entries(), cap, en);
            assert(rest.0 =~= Seq::<u8>::empty());
            assert(encoded@ + rest.0 =~= encoded@);
        }
        encoded
    }

    /// The dynamic table behind the encoder.
    pub fn table(&self) -> (r: &QpackDynamicTable)
        ensures
            *r == self.spec_table(),
    {
        &self.table
    }
}

/// The decoder shell: a dynamic table, with block decoding still to come.
pub struct QpackDecoder {
    table: QpackDynamicTable,
}

impl QpackDecoder {
    pub closed spec fn spec_table(&self) -> QpackDynamicTable {
        self.table
    }

    /// A decoder over a fresh table.
    pub fn new(config: QpackConfig) -> (r: Self)
        ensures
            r.spec_table().wf(),
            r.spec_table().spec_config() == config,
            r.spec_table().spec_entries() == Seq::<HeaderField>::empty(),
    {
        QpackDecoder { table: QpackDynamicTable::new(config) }
    }

    /// Block decoding is not implemented; the call always reports that.
    pub fn decode(&mut self, _data: &[u8]) -> (r: Result<Vec<(String, String)>, String>)
        ensures
            r matches Err(m) && m@ == "QPACK decoding not yet fully implemented"@,
    {
        Err(String::from_str("QPACK decoding not yet fully implemented"))
    }

    /// The dynamic table behind the decoder.
    pub fn table(&self) -> (r: &QpackDynamicTable)
        ensures
            *r == self.spec_table(),
    {
        &self.table
    }
}

} // verus!
