//! The in-process cache of stored states: bounded in size, least recently
//! used entry evicted first, with hit and miss counts; and the running
//! totals of a backend's reads and writes, the summary of what it stores,
//! and the cutoff of its cleanup sweeps.
use vstd::prelude::*;
use crate::backend::keys_unique;
use crate::state::{PipelineState, Timestamp};

verus! {

/// A cached state and its use.
#[derive(Debug, Clone)]
pub struct CachedState {
    pub state: PipelineState,
    pub cached_at: Timestamp,
    pub access_count: u64,
    pub last_accessed: Timestamp,
}

/// The pipeline ids of the states in a sequence of cache entries.
pub open spec fn entry_keys(s: Seq<CachedState>) -> Seq<Seq<char>> {
    s.map_values(|x: CachedState| x.state.pipeline_id@)
}

/// The map that a sequence of cache entries with unique ids stands for.
pub open spec fn entry_map(s: Seq<CachedState>) -> Map<Seq<char>, CachedState> {
    Map::new(
        |k: Seq<char>| exists|i: int| 0 <= i < s.len() && s[i].state.pipeline_id@ == k,
        |k: Seq<char>| s[entry_index(s, k)],
    )
}

/// Where `k` stands in `s`, when it does.
pub open spec fn entry_index(s: Seq<CachedState>, k: Seq<char>) -> int {
    choose|i: int| 0 <= i < s.len() && s[i].state.pipeline_id@ == k
}

proof fn lemma_entry_map_at(s: Seq<CachedState>, i: int)
    requires
        keys_unique(entry_keys(s)),
        0 <= i < s.len(),
    ensures
        entry_map(s).contains_key(s[i].state.pipeline_id@),
        entry_map(s)[s[i].state.pipeline_id@] == s[i],
{
    let k = s[i].state.pipeline_id@;
    assert(entry_keys(s)[i] == k);
    assert(0 <= i < s.len() && s[i].state.pipeline_id@ == k);
    let j = entry_index(s, k);
    assert(entry_keys(s)[j] == k);
    assert(i == j);
}

proof fn lemma_entry_map_update(s: Seq<CachedState>, i: int, v: CachedState)
    requires
        keys_unique(entry_keys(s)),
        0 <= i < s.len(),
        v.state.pipeline_id@ == s[i].state.pipeline_id@,
    ensures
        keys_unique(entry_keys(s.update(i, v))),
        entry_map(s.update(i, v)) == entry_map(s).insert(v.state.pipeline_id@, v),
{
    let t = s.update(i, v);
    assert(entry_keys(t) =~= entry_keys(s));
    assert forall|k: Seq<char>| #![trigger entry_map(t).contains_key(k)] entry_map(t).contains_key(k) implies entry_map(t)[k]
        == entry_map(s).insert(v.state.pipeline_id@, v)[k] by {
        let j = choose|j: int| 0 <= j < t.len() && t[j].state.pipeline_id@ == k;
        lemma_entry_map_at(t, j);
        if j != i {
            assert(s[j] == t[j]);
            lemma_entry_map_at(s, j);
            assert(entry_keys(s)[j] == k);
            assert(entry_keys(s)[i] == v.state.pipeline_id@);
        }
    }
    assert forall|k: Seq<char>| #![trigger entry_map(s).insert(v.state.pipeline_id@, v).contains_key(k)] entry_map(s).insert(v.state.pipeline_id@, v).contains_key(k) implies entry_map(t).contains_key(k) by {
        if k != v.state.pipeline_id@ {
            let j = choose|j: int| 0 <= j < s.len() && s[j].state.pipeline_id@ == k;
            assert(t[j].state.pipeline_id@ == k);
        } else {
            assert(t[i].state.pipeline_id@ == k);
        }
    }
    assert(entry_map(t) =~= entry_map(s).insert(v.state.pipeline_id@, v));
}

proof fn lemma_entry_map_push(s: Seq<CachedState>, v: CachedState)
    requires
        keys_unique(entry_keys(s)),
        !entry_map(s).contains_key(v.state.pipeline_id@),
    ensures
        keys_unique(entry_keys(s.push(v))),
        entry_map(s.push(v)) == entry_map(s).insert(v.state.pipeline_id@, v),
{
    let t = s.push(v);
    assert(entry_keys(t) =~= entry_keys(s).push(v.state.pipeline_id@));
    assert forall|i: int| 0 <= i < s.len() implies entry_keys(s)[i] != v.state.pipeline_id@ by {
        assert(s[i].state.pipeline_id@ == entry_keys(s)[i]);
    }
    assert forall|k: Seq<char>| #![trigger entry_map(t).contains_key(k)] entry_map(t).contains_key(k) implies entry_map(t)[k]
        == entry_map(s).insert(v.state.pipeline_id@, v)[k] by {
        let j = choose|j: int| 0 <= j < t.len() && t[j].state.pipeline_id@ == k;
        lemma_entry_map_at(t, j);
        if j < s.len() {
            lemma_entry_map_at(s, j);
        }
    }
    assert forall|k: Seq<char>| #![trigger entry_map(s).insert(v.state.pipeline_id@, v).contains_key(k)] entry_map(s).insert(v.state.pipeline_id@, v).contains_key(k) implies entry_map(t).contains_key(k) by {
        if k != v.state.pipeline_id@ {
            let j = choose|j: int| 0 <= j < s.len() && s[j].state.pipeline_id@ == k;
            assert(t[j].state.pipeline_id@ == k);
        } else {
            assert(t[s.len() as int].state.pipeline_id@ == k);
        }
    }
    assert(entry_map(t) =~= entry_map(s).insert(v.state.pipeline_id@, v));
}

proof fn lemma_entry_map_remove(s: Seq<CachedState>, i: int)
    requires
        keys_unique(entry_keys(s)),
        0 <= i < s.len(),
    ensures
        keys_unique(entry_keys(s.remove(i))),
        entry_map(s.remove(i)) == entry_map(s).remove(s[i].state.pipeline_id@),
{
    let t = s.remove(i);
    let key = s[i].state.pipeline_id@;
    assert(entry_keys(t) =~= entry_keys(s).remove(i));
    assert forall|k: Seq<char>| #![trigger entry_map(t).contains_key(k)] entry_map(t).contains_key(k) implies entry_map(t)[k]
        == entry_map(s).remove(key)[k] && k != key && entry_map(s).remove(key).contains_key(k) by {
        let j = choose|j: int| 0 <= j < t.len() && t[j].state.pipeline_id@ == k;
        lemma_entry_map_at(t, j);
        let sj = if j < i { j } else { j + 1 };
        assert(t[j] == s[sj]);
        lemma_entry_map_at(s, sj);
        assert(entry_keys(s)[sj] == k);
        assert(entry_keys(s)[i] == key);
    }
    assert forall|k: Seq<char>| #![trigger entry_map(s).remove(key).contains_key(k)] entry_map(s).remove(key).contains_key(k) implies entry_map(t).contains_key(k) by {
        let j = choose|j: int| 0 <= j < s.len() && s[j].state.pipeline_id@ == k;
        if j < i {
            assert(t[j] == s[j]);
            assert(0 <= j < t.len() && t[j].state.pipeline_id@ == k);
        } else {
            assert(j != i);
            assert(t[j - 1] == s[j]);
            assert(0 <= j - 1 < t.len() && t[j - 1].state.pipeline_id@ == k);
        }
    }
    assert(entry_map(t) =~= entry_map(s).remove(key));
}

proof fn lemma_entry_map_len(s: Seq<CachedState>)
    requires
        keys_unique(entry_keys(s)),
    ensures
        entry_map(s).len() == s.len(),
    decreases s.len(),
{
    if s.len() == 0 {
        assert(entry_map(s) =~= Map::<Seq<char>, CachedState>::empty());
    } else {
        let t = s.drop_last();
        let v = s.last();
        assert(entry_keys(t) =~= entry_keys(s).drop_last());
        lemma_entry_map_len(t);
        assert(t.push(v) =~= s);
        assert(!entry_map(t).contains_key(v.state.pipeline_id@)) by {
            if entry_map(t).contains_key(v.state.pipeline_id@) {
                let j = entry_index(t, v.state.pipeline_id@);
                assert(entry_keys(s)[j] == entry_keys(s)[s.len() - 1]);
            }
        }
        lemma_entry_map_push(t, v);
        assert(entry_map(t).dom().finite()) by {
            lemma_entry_map_dom_finite(t);
        }
    }
}

proof fn lemma_entry_map_dom_finite(s: Seq<CachedState>)
    ensures
        entry_map(s).dom().finite(),
{
    let f = |i: int| s[i].state.pipeline_id@;
    let idx = Set::new(|i: int| 0 <= i < s.len());
    assert(idx =~= vstd::set_lib::set_int_range(0, s.len() as int));
    vstd::set_lib::lemma_int_range(0, s.len() as int);
    idx.lemma_map_finite(f);
    assert(entry_map(s).dom() =~= idx.map(f)) by {
        assert forall|k: Seq<char>| #![trigger entry_map(s).dom().contains(k)] entry_map(s).dom().contains(k) implies idx.map(f).contains(k) by {
            let j = entry_index(s, k);
            assert(idx.contains(j) && f(j) == k);
        }
    }
}

/// A bounded cache of states by pipeline id.
pub struct StateCache {
    entries: Vec<CachedState>,
    max_size: usize,
    hits: u64,
    misses: u64,
}

/// Entry `i` was used no later than any other.
pub open spec fn is_least_recent(s: Seq<CachedState>, i: int) -> bool {
    0 <= i < s.len() && forall|k: int| 0 <= k < s.len() ==> #[trigger] s[i].last_accessed <= s[k].last_accessed
}

impl StateCache {
    /// The entries held, by pipeline id.
    pub closed spec fn view(&self) -> Map<Seq<char>, CachedState> {
        entry_map(self.entries@)
    }

    /// The most entries held at once.
    pub closed spec fn capacity(&self) -> nat {
        self.max_size as nat
    }

    /// Lookups that found an entry.
    pub closed spec fn hit_count(&self) -> u64 {
        self.hits
    }

    /// Lookups that found none.
    pub closed spec fn miss_count(&self) -> u64 {
        self.misses
    }

    /// Each id is held once, and no more entries than the capacity.
    pub closed spec fn wf(&self) -> bool {
        keys_unique(entry_keys(self.entries@)) && self.entries@.len() <= self.max_size
    }

    /// An empty cache of at most `max_size` entries.
    pub fn new(max_size: usize) -> (r: StateCache)
        ensures
            r.wf(),
            r.view() == Map::<Seq<char>, CachedState>::empty(),
            r.capacity() == max_size,
            r.hit_count() == 0,
            r.miss_count() == 0,
    {
        let r = StateCache { entries: Vec::new(), max_size, hits: 0, misses: 0 };
        assert(r.view() =~= Map::<Seq<char>, CachedState>::empty());
        r
    }

    /// The number of entries held.
    pub fn len(&self) -> (r: usize)
        requires
            self.wf(),
        ensures
            r == self.view().len(),
    {
        proof {
            lemma_entry_map_len(self.entries@);
        }
        self.entries.len()
    }

    fn find(&self, pipeline_id: &str) -> (r: Option<usize>)
        requires
            self.wf(),
        ensures
            r is None <==> !self.view().contains_key(pipeline_id@),
            r matches Some(i) ==> i < self.entries@.len() && self.entries@[i as int].state.pipeline_id@ == pipeline_id@,
    {
        let key = String::from_str(pipeline_id);
        let mut i: usize = 0;
        while i < self.entries.len()
            invariant
                i <= self.entries@.len(),
                key@ == pipeline_id@,
                forall|k: int| 0 <= k < i ==> self.entries@[k].state.pipeline_id@ != pipeline_id@,
            decreases self.entries@.len() - i,
        {
            if self.entries[i].state.pipeline_id.eq(&key) {
                proof {
                    assert(0 <= i < self.entries@.len() && self.entries@[i as int].state.pipeline_id@ == pipeline_id@);
                }
                return Some(i);
            }
            i = i + 1;
        }
        None
    }

    /// The cached state of `pipeline_id`. A hit counts one more access of
    /// the entry at `now`; a miss is counted too.
    pub fn get(&mut self, pipeline_id: &str, now: Timestamp) -> (r: Option<&PipelineState>)
        requires
            old(self).wf(),
        ensures
            final(self).wf(),
            r is Some <==> old(self).view().contains_key(pipeline_id@),
            r matches Some(s) ==> *s == old(self).view()[pipeline_id@].state,
            r is Some ==> final(self).view() == old(self).view().insert(pipeline_id@, (CachedState {
                access_count: if old(self).view()[pipeline_id@].access_count < u64::MAX {
                    (old(self).view()[pipeline_id@].access_count + 1) as u64
                } else {
                    u64::MAX
                },
                last_accessed: now,
                ..old(self).view()[pipeline_id@]
            })),
            r is None ==> final(self).view() == old(self).view(),
            final(self).hit_count() == if r is Some && old(self).hit_count() < u64::MAX { (old(self).hit_count() + 1) as u64 } else { old(self).hit_count() },
            final(self).miss_count() == if r is None && old(self).miss_count() < u64::MAX { (old(self).miss_count() + 1) as u64 } else { old(self).miss_count() },
            final(self).capacity() == old(self).capacity(),
    {
        match self.find(pipeline_id) {
            Some(i) => {
                proof {
                    lemma_entry_map_at(self.entries@, i as int);
                }
                let mut e = self.entries.remove(i);
                let ghost before = e;
                e.access_count = if e.access_count < u64::MAX { e.access_count + 1 } else { u64::MAX };
                e.last_accessed = now;
                self.entries.insert(i, e);
                proof {
                    let s0 = old(self).entries@;
                    assert(self.entries@ =~= s0.update(i as int, self.entries@[i as int]));
                    lemma_entry_map_update(s0, i as int, self.entries@[i as int]);
                }
                if self.hits < u64::MAX {
                    self.hits = self.hits + 1;
                }
                Some(&self.entries[i].state)
            },
            None => {
                if self.misses < u64::MAX {
                    self.misses = self.misses + 1;
                }
                None
            },
        }
    }

    fn least_recent(&self) -> (r: usize)
        requires
            self.entries@.len() > 0,
        ensures
            is_least_recent(self.entries@, r as int),
    {
        let mut best: usize = 0;
        let mut i: usize = 1;
        while i < self.entries.len()
            invariant
                1 <= i <= self.entries@.len(),
                best < i,
                forall|k: int| 0 <= k < i ==> #[trigger] self.entries@[best as int].last_accessed <= self.entries@[k].last_accessed,
            decreases self.entries@.len() - i,
        {
            if self.entries[i].last_accessed < self.entries[best].last_accessed {
                best = i;
            }
            i = i + 1;
        }
        best
    }

    /// Stores `state` as used at `now`, replacing the entry of its pipeline.
    /// A new entry in a full cache first evicts the least recently used one.
    /// A cache of capacity zero holds nothing.
    pub fn store(&mut self, state: PipelineState, now: Timestamp)
        requires
            old(self).wf(),
        ensures
            final(self).wf(),
            final(self).capacity() == old(self).capacity(),
            old(self).capacity() > 0 ==> final(self).view().contains_key(state.pipeline_id@)
                && final(self).view()[state.pipeline_id@] == (CachedState { state, cached_at: now, access_count: 1, last_accessed: now }),
            forall|k: Seq<char>| k != state.pipeline_id@ && #[trigger] final(self).view().contains_key(k)
                ==> old(self).view().contains_key(k) && final(self).view()[k] == old(self).view()[k],
            (old(self).view().contains_key(state.pipeline_id@) || old(self).view().len() < old(self).capacity())
                ==> forall|k: Seq<char>| #[trigger] old(self).view().contains_key(k) ==> final(self).view().contains_key(k),
            final(self).view().len() <= old(self).view().len() + 1,
    {
        proof {
            lemma_entry_map_len(self.entries@);
        }
        if self.max_size == 0 {
            return;
        }
        let entry = CachedState { state, cached_at: now, access_count: 1, last_accessed: now };
        let ghost id = entry.state.pipeline_id@;
        match self.find(entry.state.pipeline_id.as_str()) {
            Some(i) => {
                proof {
                    lemma_entry_map_update(self.entries@, i as int, entry);
                }
                self.entries.set(i, entry);
            },
            None => {
                if self.entries.len() >= self.max_size {
                    let lru = self.least_recent();
                    proof {
                        lemma_entry_map_remove(self.entries@, lru as int);
                    }
                    self.entries.remove(lru);
                }
                proof {
                    lemma_entry_map_push(self.entries@, entry);
                    lemma_entry_map_len(self.entries@);
                }
                self.entries.push(entry);
                proof {
                    lemma_entry_map_len(self.entries@);
                }
            },
        }
        proof {
            lemma_entry_map_len(self.entries@);
        }
    }

    /// Drops the entry of `pipeline_id`, if any.
    pub fn invalidate(&mut self, pipeline_id: &str)
        requires
            old(self).wf(),
        ensures
            final(self).wf(),
            final(self).view() == old(self).view().remove(pipeline_id@),
            final(self).capacity() == old(self).capacity(),
    {
        match self.find(pipeline_id) {
            Some(i) => {
                proof {
                    lemma_entry_map_remove(self.entries@, i as int);
                }
                self.entries.remove(i);
            },
            None => {
                assert(self.view() =~= self.view().remove(pipeline_id@));
            },
        }
    }

    /// Drops every entry.
    pub fn clear(&mut self)
        ensures
            final(self).wf(),
            final(self).view() == Map::<Seq<char>, CachedState>::empty(),
            final(self).capacity() == old(self).capacity(),
    {
        self.entries = Vec::new();
        assert(self.view() =~= Map::<Seq<char>, CachedState>::empty());
    }
}

/// Running totals of a backend's work, in whole milliseconds and bytes;
/// each total stops at the largest `u64`.
#[derive(Debug, Clone, Copy, PartialEq, Eq, Structural)]
pub struct BackendMetrics {
    pub total_reads: u64,
    pub total_writes: u64,
    pub read_time_ms: u64,
    pub write_time_ms: u64,
    pub serialize_count: u64,
    pub serialize_time_ms: u64,
    pub deserialize_count: u64,
    pub deserialize_time_ms: u64,
    pub bytes_read: u64,
    pub bytes_written: u64,
}

/// `a + b`, or the largest `u64` where the sum exceeds it.
pub open spec fn plus(a: u64, b: u64) -> u64 {
    if a as int + b as int > u64::MAX as int { u64::MAX } else { (a + b) as u64 }
}

fn total_plus(a: u64, b: u64) -> (r: u64)
    ensures
        r == plus(a, b),
{
    if a > u64::MAX - b { u64::MAX } else { a + b }
}

/// The average of a total over a count, rounded down; zero when nothing
/// was counted.
pub open spec fn average(total: u64, count: u64) -> u64 {
    if count == 0 { 0 } else { (total / count) as u64 }
}

impl BackendMetrics {
    /// No work recorded yet.
    pub fn new() -> (r: BackendMetrics)
        ensures
            r == (BackendMetrics {
                total_reads: 0,
                total_writes: 0,
                read_time_ms: 0,
                write_time_ms: 0,
                serialize_count: 0,
                serialize_time_ms: 0,
                deserialize_count: 0,
                deserialize_time_ms: 0,
                bytes_read: 0,
                bytes_written: 0,
            }),
    {
        BackendMetrics {
            total_reads: 0,
            total_writes: 0,
            read_time_ms: 0,
            write_time_ms: 0,
            serialize_count: 0,
            serialize_time_ms: 0,
            deserialize_count: 0,
            deserialize_time_ms: 0,
            bytes_read: 0,
            bytes_written: 0,
        }
    }

    /// Counts a read of `bytes` bytes that took `duration_ms`.
    pub fn record_read(&mut self, duration_ms: u64, bytes: u64)
        ensures
            *final(self) == (BackendMetrics {
                total_reads: plus(old(self).total_reads, 1),
                read_time_ms: plus(old(self).read_time_ms, duration_ms),
                bytes_read: plus(old(self).bytes_read, bytes),
                ..*old(self)
            }),
    {
        self.total_reads = total_plus(self.total_reads, 1);
        self.read_time_ms = total_plus(self.read_time_ms, duration_ms);
        self.bytes_read = total_plus(self.bytes_read, bytes);
    }

    /// Counts a write of `bytes` bytes that took `duration_ms`.
    pub fn record_write(&mut self, duration_ms: u64, bytes: u64)
        ensures
            *final(self) == (BackendMetrics {
                total_writes: plus(old(self).total_writes, 1),
                write_time_ms: plus(old(self).write_time_ms, duration_ms),
                bytes_written: plus(old(self).bytes_written, bytes),
                ..*old(self)
            }),
    {
        self.total_writes = total_plus(self.total_writes, 1);
        self.write_time_ms = total_plus(self.write_time_ms, duration_ms);
        self.bytes_written = total_plus(self.bytes_written, bytes);
    }

    /// Counts a serialization that took `duration_ms`.
    pub fn record_serialization(&mut self, duration_ms: u64)
        ensures
            *final(self) == (BackendMetrics {
                serialize_count: plus(old(self).serialize_count, 1),
                serialize_time_ms: plus(old(self).serialize_time_ms, duration_ms),
                ..*old(self)
            }),
    {
        self.serialize_count = total_plus(self.serialize_count, 1);
        self.serialize_time_ms = total_plus(self.serialize_time_ms, duration_ms);
    }

    /// Counts a deserialization that took `duration_ms`.
    pub fn record_deserialization(&mut self, duration_ms: u64)
        ensures
            *final(self) == (BackendMetrics {
                deserialize_count: plus(old(self).deserialize_count, 1),
                deserialize_time_ms: plus(old(self).deserialize_time_ms, duration_ms),
                ..*old(self)
            }),
    {
        self.deserialize_count = total_plus(self.deserialize_count, 1);
        self.deserialize_time_ms = total_plus(self.deserialize_time_ms, duration_ms);
    }

    /// The average read time in milliseconds.
    pub fn average_read_ms(&self) -> (r: u64)
        ensures
            r == average(self.read_time_ms, self.total_reads),
    {
        if self.total_reads == 0 { 0 } else { self.read_time_ms / self.total_reads }
    }

    /// The average write time in milliseconds.
    pub fn average_write_ms(&self) -> (r: u64)
        ensures
            r == average(self.write_time_ms, self.total_writes),
    {
        if self.total_writes == 0 { 0 } else { self.write_time_ms / self.total_writes }
    }
}

/// What a backend holds, in sum: how many items, their bytes, and the
/// earliest and latest of their times.
#[derive(Debug, Clone, Copy, PartialEq, Eq, Structural)]
pub struct StorageSummary {
    pub count: u64,
    pub total_bytes: u64,
    pub average_bytes: u64,
    pub oldest: Option<i64>,
    pub newest: Option<i64>,
}

/// The bytes of the first `n` items, up to the largest `u64`.
pub open spec fn bytes_of(items: Seq<(u64, i64)>, n: int) -> u64
    decreases n,
{
    if n <= 0 || n > items.len() { 0 } else { plus(bytes_of(items, n - 1), items[n - 1].0) }
}

/// `t` is the earliest time among the items.
pub open spec fn is_earliest(items: Seq<(u64, i64)>, t: i64) -> bool {
    (exists|i: int| 0 <= i < items.len() && #[trigger] items[i].1 == t)
        && forall|i: int| 0 <= i < items.len() ==> t <= #[trigger] items[i].1
}

/// `t` is the latest time among the items.
pub open spec fn is_latest(items: Seq<(u64, i64)>, t: i64) -> bool {
    (exists|i: int| 0 <= i < items.len() && #[trigger] items[i].1 == t)
        && forall|i: int| 0 <= i < items.len() ==> #[trigger] items[i].1 <= t
}

/// Sums up stored items given as (bytes, time): their count, total and
/// average bytes (rounded down, zero for none), oldest and newest time.
pub fn summarize_storage(items: &Vec<(u64, i64)>) -> (r: StorageSummary)
    ensures
        r.count == items@.len(),
        r.total_bytes == bytes_of(items@, items@.len() as int),
        r.average_bytes == average(r.total_bytes, r.count),
        items@.len() == 0 ==> r.oldest is None && r.newest is None,
        items@.len() > 0 ==> (r.oldest matches Some(t) && is_earliest(items@, t)),
        items@.len() > 0 ==> (r.newest matches Some(t) && is_latest(items@, t)),
{
    let mut total: u64 = 0;
    let mut oldest: Option<i64> = None;
    let mut newest: Option<i64> = None;
    let mut i: usize = 0;
    while i < items.len()
        invariant
            i <= items@.len(),
            total == bytes_of(items@, i as int),
            i == 0 ==> oldest is None && newest is None,
            i > 0 ==> (oldest matches Some(t) && is_earliest(items@.subrange(0, i as int), t)),
            i > 0 ==> (newest matches Some(t) && is_latest(items@.subrange(0, i as int), t)),
        decreases items@.len() - i,
    {
        let (size, time) = items[i];
        let ghost pre = items@.subrange(0, i as int);
        let ghost next = items@.subrange(0, i + 1);
        proof {
            assert(next =~= pre.push(items@[i as int]));
        }
        total = total_plus(total, size);
        let o = match oldest {
            Some(t) => if time < t { time } else { t },
            None => time,
        };
        let n = match newest {
            Some(t) => if time > t { time } else { t },
            None => time,
        };
        proof {
            assert(next[i as int].1 == time);
            assert forall|k: int| 0 <= k < next.len() implies o <= #[trigger] next[k].1 by {
                if k < i {
                    assert(next[k] == pre[k]);
                }
            }
            assert forall|k: int| 0 <= k < next.len() implies #[trigger] next[k].1 <= n by {
                if k < i {
                    assert(next[k] == pre[k]);
                }
            }
            if i > 0 {
                let a = choose|k: int| 0 <= k < pre.len() && #[trigger] pre[k].1 == oldest->0;
                let b = choose|k: int| 0 <= k < pre.len() && #[trigger] pre[k].1 == newest->0;
                assert(next[a] == pre[a]);
                assert(next[b] == pre[b]);
                if o == time { assert(next[i as int].1 == o); } else { assert(next[a].1 == o); }
                if n == time { assert(next[i as int].1 == n); } else { assert(next[b].1 == n); }
            } else {
                assert(next[0].1 == o);
                assert(next[0].1 == n);
            }
        }
        oldest = Some(o);
        newest = Some(n);
        i = i + 1;
    }
    proof {
        assert(items@.subrange(0, items@.len() as int) =~= items@);
    }
    let count = items.len() as u64;
    StorageSummary {
        count,
        total_bytes: total,
        average_bytes: if count == 0 { 0 } else { total / count },
        oldest,
        newest,
    }
}

/// The cutoff time of a sweep at `now` that ages out what is older than
/// `max_age_hours` (the earliest time representable when that reaches
/// before it).
pub open spec fn cutoff_at(now: i64, max_age_hours: u64) -> i64 {
    let c = now - max_age_hours as int * 3600000;
    if c < i64::MIN { i64::MIN } else { c as i64 }
}

/// The cutoff of a cleanup sweep; see `cutoff_at`.
pub fn cleanup_cutoff(now: i64, max_age_hours: u64) -> (r: i64)
    ensures
        r == cutoff_at(now, max_age_hours),
{
    let c: i128 = now as i128 - (max_age_hours as i128) * 3600000;
    if c < i64::MIN as i128 { i64::MIN } else { c as i64 }
}

/// A lock record with expiry `expires_at`, or a state file last written at
/// `modified`, is swept when its time lies before the cutoff.
pub fn swept(time: Option<i64>, cutoff: i64) -> (r: bool)
    ensures
        r == (time matches Some(t) && t < cutoff),
{
    match time {
        Some(t) => t < cutoff,
        None => false,
    }
}

} // verus!
