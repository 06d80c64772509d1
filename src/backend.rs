//! The in-memory state backend: a keyed store of pipeline states and an
//! advisory, expiring, per-pipeline exclusive lock, with the ownership and
//! optimistic-version rules that every backend follows.
use vstd::prelude::*;
use crate::state::{PipelineState, StateError, Timestamp, copy_string};

verus! {

/// Kind of a state backend.
#[derive(Debug, Clone, Copy, PartialEq, Eq, Structural)]
pub enum SerializationFormat {
    Json,
    Yaml,
    Bincode,
}

/// Configuration of a state backend.
#[derive(Debug, Clone)]
pub enum BackendConfig {
    File { base_path: String, format: SerializationFormat, atomic_writes: bool, lock_timeout_ms: u64 },
    Memory { persistent: bool },
    Redis { connection_string: String, key_prefix: String, ttl_seconds: Option<u64> },
}

/// The record of a held lock.
#[derive(Debug, Clone)]
pub struct LockInfo {
    pub pipeline_id: String,
    pub worker_id: String,
    pub locked_at: Timestamp,
    pub expires_at: Option<Timestamp>,
    pub lock_version: u64,
}

/// Outcome of a backend cleanup sweep.
#[derive(Debug, Clone)]
pub struct CleanupResult {
    pub expired_locks_removed: u64,
    pub stale_states_removed: u64,
    pub total_states_checked: u64,
    pub cleanup_duration_ms: u64,
    pub errors: Vec<String>,
}

/// Why a backup was taken.
#[derive(Debug, Clone, Copy, PartialEq, Eq, Structural)]
pub enum BackupType {
    Automatic,
    Manual,
    PreRepair,
    PreUpgrade,
}

/// Outcome of a repair.
#[derive(Debug, Clone)]
pub struct RepairResult {
    pub success: bool,
    pub backup_created: bool,
    pub backup_id: Option<String>,
    pub repairs_made: Vec<String>,
    pub issues_found: Vec<String>,
    pub manual_intervention_required: bool,
}

/// What one lock acquisition probe decided.
#[derive(Debug, Clone)]
pub enum LockAttempt {
    /// The lock is now held by the caller.
    Acquired(LockInfo),
    /// The lock is held by another worker: probe again after `delay_ms`.
    Retry { delay_ms: u64 },
    /// The wait has used up its time.
    Failed(StateError),
}

/// Pause between two probes of a contested lock.
pub const LOCK_RETRY_DELAY_MS: u64 = 50;

impl LockInfo {
    /// A copy of the record.
    pub fn duplicate(&self) -> (r: LockInfo)
        ensures
            r == *self,
    {
        LockInfo {
            pipeline_id: self.pipeline_id.clone(),
            worker_id: self.worker_id.clone(),
            locked_at: self.locked_at,
            expires_at: self.expires_at,
            lock_version: self.lock_version,
        }
    }
}

/// A lock has lapsed at `now` when its expiry lies before `now`.
pub open spec fn lock_expired(l: LockInfo, now: Timestamp) -> bool {
    match l.expires_at {
        Some(t) => t < now,
        None => false,
    }
}

/// The expiry of a lock taken at `now` for `timeout_ms`.
pub open spec fn lock_expiry(now: Timestamp, timeout_ms: u64) -> Timestamp {
    if now as int + timeout_ms as int > i64::MAX as int {
        i64::MAX
    } else {
        (now + timeout_ms) as Timestamp
    }
}

/// The record of a lock that `worker_id` takes on `pipeline_id` at `now`.
pub open spec fn new_lock(pipeline_id: Seq<char>, worker_id: Seq<char>, now: Timestamp, timeout_ms: u64, l: LockInfo) -> bool {
    &&& l.pipeline_id@ == pipeline_id
    &&& l.worker_id@ == worker_id
    &&& l.locked_at == now
    &&& l.expires_at == Some(lock_expiry(now, timeout_ms))
    &&& l.lock_version == 1
}

/// A store of states may take `s`: there is none for its pipeline yet, or
/// `s` carries a higher version than the one held.
pub open spec fn save_accepted(m: Map<Seq<char>, PipelineState>, s: PipelineState) -> bool {
    !m.contains_key(s.pipeline_id@) || m[s.pipeline_id@].version < s.version
}

/// The states held after saving `s` into `m`.
pub open spec fn saved_view(m: Map<Seq<char>, PipelineState>, s: PipelineState) -> Map<Seq<char>, PipelineState> {
    if save_accepted(m, s) {
        m.insert(s.pipeline_id@, s)
    } else {
        m
    }
}

/// The locks held after `is_locked(id)` at `now`: a lapsed lock is dropped.
pub open spec fn probed_locks(m: Map<Seq<char>, LockInfo>, id: Seq<char>, now: Timestamp) -> Map<Seq<char>, LockInfo> {
    if m.contains_key(id) && lock_expired(m[id], now) {
        m.remove(id)
    } else {
        m
    }
}

/// The lock that `is_locked(id)` reports at `now`.
pub open spec fn reported_lock(m: Map<Seq<char>, LockInfo>, id: Seq<char>, now: Timestamp) -> Option<LockInfo> {
    if m.contains_key(id) && !lock_expired(m[id], now) {
        Some(m[id])
    } else {
        None
    }
}

/// Some worker holds the lock of `id` at `now`.
pub open spec fn lock_held(m: Map<Seq<char>, LockInfo>, id: Seq<char>, now: Timestamp) -> bool {
    m.contains_key(id) && !lock_expired(m[id], now)
}

/// A probe for the lock of `id` at `now`, `elapsed_ms` into a wait of
/// `timeout_ms`, gives up.
pub open spec fn attempt_times_out(
    m: Map<Seq<char>, LockInfo>,
    id: Seq<char>,
    now: Timestamp,
    timeout_ms: u64,
    elapsed_ms: u64,
) -> bool {
    lock_held(m, id, now) && elapsed_ms >= timeout_ms
}

/// `release_lock(id, worker)` is refused: another worker holds the record.
pub open spec fn release_refused(m: Map<Seq<char>, LockInfo>, id: Seq<char>, worker: Seq<char>) -> bool {
    m.contains_key(id) && m[id].worker_id@ != worker
}

/// The locks held after `release_lock(id, worker)`.
pub open spec fn released_locks(m: Map<Seq<char>, LockInfo>, id: Seq<char>, worker: Seq<char>) -> Map<Seq<char>, LockInfo> {
    if release_refused(m, id, worker) {
        m
    } else {
        m.remove(id)
    }
}

/// No key occurs twice.
pub open spec fn keys_unique(keys: Seq<Seq<char>>) -> bool {
    forall|i: int, j: int|
        0 <= i < keys.len() && 0 <= j < keys.len() && i != j ==> keys[i] != keys[j]
}

/// The pipeline ids of a sequence of states.
pub open spec fn state_keys(s: Seq<PipelineState>) -> Seq<Seq<char>> {
    s.map_values(|x: PipelineState| x.pipeline_id@)
}

/// The pipeline ids of a sequence of locks.
pub open spec fn lock_keys(s: Seq<LockInfo>) -> Seq<Seq<char>> {
    s.map_values(|x: LockInfo| x.pipeline_id@)
}

/// The map that a sequence of states with unique ids stands for.
pub open spec fn state_map(s: Seq<PipelineState>) -> Map<Seq<char>, PipelineState> {
    Map::new(
        |k: Seq<char>| exists|i: int| 0 <= i < s.len() && s[i].pipeline_id@ == k,
        |k: Seq<char>| s[state_index(s, k)],
    )
}

/// Where `k` stands in `s`, when it does.
pub open spec fn state_index(s: Seq<PipelineState>, k: Seq<char>) -> int {
    choose|i: int| 0 <= i < s.len() && s[i].pipeline_id@ == k
}

/// The map that a sequence of locks with unique ids stands for.
pub open spec fn lock_map(s: Seq<LockInfo>) -> Map<Seq<char>, LockInfo> {
    Map::new(
        |k: Seq<char>| exists|i: int| 0 <= i < s.len() && s[i].pipeline_id@ == k,
        |k: Seq<char>| s[lock_index(s, k)],
    )
}

/// Where `k` stands in `s`, when it does.
pub open spec fn lock_index(s: Seq<LockInfo>, k: Seq<char>) -> int {
    choose|i: int| 0 <= i < s.len() && s[i].pipeline_id@ == k
}

proof fn lemma_state_map_at(s: Seq<PipelineState>, i: int)
    requires
        keys_unique(state_keys(s)),
        0 <= i < s.len(),
    ensures
        state_map(s).contains_key(s[i].pipeline_id@),
        state_map(s)[s[i].pipeline_id@] == s[i],
{
    let k = s[i].pipeline_id@;
    assert(state_keys(s)[i] == k);
    assert(0 <= i < s.len() && s[i].pipeline_id@ == k);
    let j = state_index(s, k);
    assert(state_keys(s)[j] == k);
    assert(i == j);
}

proof fn lemma_lock_map_at(s: Seq<LockInfo>, i: int)
    requires
        keys_unique(lock_keys(s)),
        0 <= i < s.len(),
    ensures
        lock_map(s).contains_key(s[i].pipeline_id@),
        lock_map(s)[s[i].pipeline_id@] == s[i],
{
    let k = s[i].pipeline_id@;
    assert(lock_keys(s)[i] == k);
    assert(0 <= i < s.len() && s[i].pipeline_id@ == k);
    let j = lock_index(s, k);
    assert(lock_keys(s)[j] == k);
    assert(i == j);
}

proof fn lemma_state_map_update(s: Seq<PipelineState>, i: int, v: PipelineState)
    requires
        keys_unique(state_keys(s)),
        0 <= i < s.len(),
        v.pipeline_id@ == s[i].pipeline_id@,
    ensures
        keys_unique(state_keys(s.update(i, v))),
        state_map(s.update(i, v)) == state_map(s).insert(v.pipeline_id@, v),
{
    let t = s.update(i, v);
    assert(state_keys(t) =~= state_keys(s));
    assert forall|k: Seq<char>| #![trigger state_map(t).contains_key(k)] state_map(t).contains_key(k) implies state_map(t)[k]
        == state_map(s).insert(v.pipeline_id@, v)[k] by {
        let j = choose|j: int| 0 <= j < t.len() && t[j].pipeline_id@ == k;
        lemma_state_map_at(t, j);
        if j != i {
            assert(s[j] == t[j]);
            lemma_state_map_at(s, j);
            assert(state_keys(s)[j] == k);
            assert(state_keys(s)[i] == v.pipeline_id@);
        }
    }
    assert forall|k: Seq<char>| #![trigger state_map(s).insert(v.pipeline_id@, v).contains_key(k)] state_map(s).insert(v.pipeline_id@, v).contains_key(k) implies state_map(t).contains_key(k) by {
        if k != v.pipeline_id@ {
            let j = choose|j: int| 0 <= j < s.len() && s[j].pipeline_id@ == k;
            assert(t[j].pipeline_id@ == k);
        } else {
            assert(t[i].pipeline_id@ == k);
        }
    }
    assert(state_map(t) =~= state_map(s).insert(v.pipeline_id@, v));
}

proof fn lemma_state_map_push(s: Seq<PipelineState>, v: PipelineState)
    requires
        keys_unique(state_keys(s)),
        !state_map(s).contains_key(v.pipeline_id@),
    ensures
        keys_unique(state_keys(s.push(v))),
        state_map(s.push(v)) == state_map(s).insert(v.pipeline_id@, v),
{
    let t = s.push(v);
    assert(state_keys(t) =~= state_keys(s).push(v.pipeline_id@));
    assert forall|i: int| 0 <= i < s.len() implies state_keys(s)[i] != v.pipeline_id@ by {
        assert(s[i].pipeline_id@ == state_keys(s)[i]);
    }
    assert forall|k: Seq<char>| #![trigger state_map(t).contains_key(k)] state_map(t).contains_key(k) implies state_map(t)[k]
        == state_map(s).insert(v.pipeline_id@, v)[k] by {
        let j = choose|j: int| 0 <= j < t.len() && t[j].pipeline_id@ == k;
        lemma_state_map_at(t, j);
        if j < s.len() {
            lemma_state_map_at(s, j);
        }
    }
    assert forall|k: Seq<char>| #![trigger state_map(s).insert(v.pipeline_id@, v).contains_key(k)] state_map(s).insert(v.pipeline_id@, v).contains_key(k) implies state_map(t).contains_key(k) by {
        if k != v.pipeline_id@ {
            let j = choose|j: int| 0 <= j < s.len() && s[j].pipeline_id@ == k;
            assert(t[j].pipeline_id@ == k);
        } else {
            assert(t[s.len() as int].pipeline_id@ == k);
        }
    }
    assert(state_map(t) =~= state_map(s).insert(v.pipeline_id@, v));
}

proof fn lemma_state_map_remove(s: Seq<PipelineState>, i: int)
    requires
        keys_unique(state_keys(s)),
        0 <= i < s.len(),
    ensures
        keys_unique(state_keys(s.remove(i))),
        state_map(s.remove(i)) == state_map(s).remove(s[i].pipeline_id@),
{
    let t = s.remove(i);
    let key = s[i].pipeline_id@;
    assert(state_keys(t) =~= state_keys(s).remove(i));
    assert forall|k: Seq<char>| #![trigger state_map(t).contains_key(k)] state_map(t).contains_key(k) implies state_map(t)[k]
        == state_map(s).remove(key)[k] && k != key && state_map(s).remove(key).contains_key(k) by {
        let j = choose|j: int| 0 <= j < t.len() && t[j].pipeline_id@ == k;
        lemma_state_map_at(t, j);
        let sj = if j < i { j } else { j + 1 };
        assert(t[j] == s[sj]);
        lemma_state_map_at(s, sj);
        assert(state_keys(s)[sj] == k);
        assert(state_keys(s)[i] == key);
    }
    assert forall|k: Seq<char>| #![trigger state_map(s).remove(key).contains_key(k)] state_map(s).remove(key).contains_key(k) implies state_map(t).contains_key(k) by {
        let j = choose|j: int| 0 <= j < s.len() && s[j].pipeline_id@ == k;
        if j < i {
            assert(t[j] == s[j]);
            assert(0 <= j < t.len() && t[j].pipeline_id@ == k);
        } else {
            assert(j != i);
            assert(t[j - 1] == s[j]);
            assert(0 <= j - 1 < t.len() && t[j - 1].pipeline_id@ == k);
        }
    }
    assert(state_map(t) =~= state_map(s).remove(key));
}

proof fn lemma_lock_map_update(s: Seq<LockInfo>, i: int, v: LockInfo)
    requires
        keys_unique(lock_keys(s)),
        0 <= i < s.len(),
        v.pipeline_id@ == s[i].pipeline_id@,
    ensures
        keys_unique(lock_keys(s.update(i, v))),
        lock_map(s.update(i, v)) == lock_map(s).insert(v.pipeline_id@, v),
{
    let t = s.update(i, v);
    assert(lock_keys(t) =~= lock_keys(s));
    assert forall|k: Seq<char>| #![trigger lock_map(t).contains_key(k)] lock_map(t).contains_key(k) implies lock_map(t)[k]
        == lock_map(s).insert(v.pipeline_id@, v)[k] by {
        let j = choose|j: int| 0 <= j < t.len() && t[j].pipeline_id@ == k;
        lemma_lock_map_at(t, j);
        if j != i {
            assert(s[j] == t[j]);
            lemma_lock_map_at(s, j);
            assert(lock_keys(s)[j] == k);
            assert(lock_keys(s)[i] == v.pipeline_id@);
        }
    }
    assert forall|k: Seq<char>| #![trigger lock_map(s).insert(v.pipeline_id@, v).contains_key(k)] lock_map(s).insert(v.pipeline_id@, v).contains_key(k) implies lock_map(t).contains_key(k) by {
        if k != v.pipeline_id@ {
            let j = choose|j: int| 0 <= j < s.len() && s[j].pipeline_id@ == k;
            assert(t[j].pipeline_id@ == k);
        } else {
            assert(t[i].pipeline_id@ == k);
        }
    }
    assert(lock_map(t) =~= lock_map(s).insert(v.pipeline_id@, v));
}

proof fn lemma_lock_map_push(s: Seq<LockInfo>, v: LockInfo)
    requires
        keys_unique(lock_keys(s)),
        !lock_map(s).contains_key(v.pipeline_id@),
    ensures
        keys_unique(lock_keys(s.push(v))),
        lock_map(s.push(v)) == lock_map(s).insert(v.pipeline_id@, v),
{
    let t = s.push(v);
    assert(lock_keys(t) =~= lock_keys(s).push(v.pipeline_id@));
    assert forall|i: int| 0 <= i < s.len() implies lock_keys(s)[i] != v.pipeline_id@ by {
        assert(s[i].pipeline_id@ == lock_keys(s)[i]);
    }
    assert forall|k: Seq<char>| #![trigger lock_map(t).contains_key(k)] lock_map(t).contains_key(k) implies lock_map(t)[k]
        == lock_map(s).insert(v.pipeline_id@, v)[k] by {
        let j = choose|j: int| 0 <= j < t.len() && t[j].pipeline_id@ == k;
        lemma_lock_map_at(t, j);
        if j < s.len() {
            lemma_lock_map_at(s, j);
        }
    }
    assert forall|k: Seq<char>| #![trigger lock_map(s).insert(v.pipeline_id@, v).contains_key(k)] lock_map(s).insert(v.pipeline_id@, v).contains_key(k) implies lock_map(t).contains_key(k) by {
        if k != v.pipeline_id@ {
            let j = choose|j: int| 0 <= j < s.len() && s[j].pipeline_id@ == k;
            assert(t[j].pipeline_id@ == k);
        } else {
            assert(t[s.len() as int].pipeline_id@ == k);
        }
    }
    assert(lock_map(t) =~= lock_map(s).insert(v.pipeline_id@, v));
}

proof fn lemma_lock_map_remove(s: Seq<LockInfo>, i: int)
    requires
        keys_unique(lock_keys(s)),
        0 <= i < s.len(),
    ensures
        keys_unique(lock_keys(s.remove(i))),
        lock_map(s.remove(i)) == lock_map(s).remove(s[i].pipeline_id@),
{
    let t = s.remove(i);
    let key = s[i].pipeline_id@;
    assert(lock_keys(t) =~= lock_keys(s).remove(i));
    assert forall|k: Seq<char>| #![trigger lock_map(t).contains_key(k)] lock_map(t).contains_key(k) implies lock_map(t)[k]
        == lock_map(s).remove(key)[k] && k != key && lock_map(s).remove(key).contains_key(k) by {
        let j = choose|j: int| 0 <= j < t.len() && t[j].pipeline_id@ == k;
        lemma_lock_map_at(t, j);
        let sj = if j < i { j } else { j + 1 };
        assert(t[j] == s[sj]);
        lemma_lock_map_at(s, sj);
        assert(lock_keys(s)[sj] == k);
        assert(lock_keys(s)[i] == key);
    }
    assert forall|k: Seq<char>| #![trigger lock_map(s).remove(key).contains_key(k)] lock_map(s).remove(key).contains_key(k) implies lock_map(t).contains_key(k) by {
        let j = choose|j: int| 0 <= j < s.len() && s[j].pipeline_id@ == k;
        if j < i {
            assert(t[j] == s[j]);
            assert(0 <= j < t.len() && t[j].pipeline_id@ == k);
        } else {
            assert(j != i);
            assert(t[j - 1] == s[j]);
            assert(0 <= j - 1 < t.len() && t[j - 1].pipeline_id@ == k);
        }
    }
    assert(lock_map(t) =~= lock_map(s).remove(key));
}

fn same_text(a: &String, b: &String) -> (r: bool)
    ensures
        r == (a@ == b@),
{
    a.eq(b)
}

/// The rule of every store for a save of a state of version `incoming` when
/// the store holds version `held` (if any): accepted when nothing is held or
/// the incoming version is higher, else `VersionConflict`.
pub fn version_check(held: Option<u64>, incoming: u64) -> (r: Result<(), StateError>)
    ensures
        r is Ok <==> (held is None || held->0 < incoming),
        r matches Err(e) ==> (e matches StateError::VersionConflict { expected, actual } && expected == held->0
            && actual == incoming),
{
    match held {
        Some(v) => if v < incoming {
            Ok(())
        } else {
            Err(StateError::VersionConflict { expected: v, actual: incoming })
        },
        None => Ok(()),
    }
}

/// What follows a probe that found the lock held, `elapsed_ms` into a wait
/// of at most `timeout_ms`: give up with `LockTimeout` once the time is used
/// up, else probe again after `delay_ms`.
pub fn after_contested_probe(elapsed_ms: u64, timeout_ms: u64, delay_ms: u64) -> (r: LockAttempt)
    ensures
        elapsed_ms >= timeout_ms ==> (r matches LockAttempt::Failed(StateError::LockTimeout { timeout_ms: t }) && t == timeout_ms),
        elapsed_ms < timeout_ms ==> r == (LockAttempt::Retry { delay_ms }),
{
    if elapsed_ms >= timeout_ms {
        LockAttempt::Failed(StateError::LockTimeout { timeout_ms })
    } else {
        LockAttempt::Retry { delay_ms }
    }
}

/// The rule of every store for `release_lock` by `worker` of a lock whose
/// record names `holder`: only the holder may release it.
pub fn release_check(holder: &String, worker: &str) -> (r: Result<(), StateError>)
    ensures
        r is Ok <==> holder@ == worker@,
        r matches Err(e) ==> (e matches StateError::LockAlreadyHeld { worker_id } && worker_id@ == holder@),
{
    let w = String::from_str(worker);
    if holder.eq(&w) {
        Ok(())
    } else {
        Err(StateError::LockAlreadyHeld { worker_id: copy_string(holder) })
    }
}

/// Whether a lock record with expiry `expires_at` has lapsed at `now`.
pub fn lock_lapsed(expires_at: Option<Timestamp>, now: Timestamp) -> (r: bool)
    ensures
        r == (expires_at matches Some(t) && t < now),
{
    match expires_at {
        Some(t) => t < now,
        None => false,
    }
}

/// The in-memory realization of the state backend.
pub struct MemoryBackend {
    states: Vec<PipelineState>,
    locks: Vec<LockInfo>,
}

impl MemoryBackend {
    /// The states held, by pipeline id.
    pub closed spec fn states(&self) -> Map<Seq<char>, PipelineState> {
        state_map(self.states@)
    }

    /// The locks held, by pipeline id.
    pub closed spec fn locks(&self) -> Map<Seq<char>, LockInfo> {
        lock_map(self.locks@)
    }

    /// Each pipeline id is held once, and each lock is filed under its own id.
    pub closed spec fn wf(&self) -> bool {
        keys_unique(state_keys(self.states@)) && keys_unique(lock_keys(self.locks@))
    }

    /// An empty backend.
    pub fn new() -> (r: MemoryBackend)
        ensures
            r.wf(),
            r.states() == Map::<Seq<char>, PipelineState>::empty(),
            r.locks() == Map::<Seq<char>, LockInfo>::empty(),
    {
        let r = MemoryBackend { states: Vec::new(), locks: Vec::new() };
        assert(r.states() =~= Map::<Seq<char>, PipelineState>::empty());
        assert(r.locks() =~= Map::<Seq<char>, LockInfo>::empty());
        r
    }

    fn find_state(&self, pipeline_id: &str) -> (r: Option<usize>)
        requires
            self.wf(),
        ensures
            r is None <==> !self.states().contains_key(pipeline_id@),
            r matches Some(i) ==> i < self.states@.len() && self.states@[i as int].pipeline_id@
                == pipeline_id@,
    {
        let key = String::from_str(pipeline_id);
        let mut i: usize = 0;
        while i < self.states.len()
            invariant
                i <= self.states@.len(),
                key@ == pipeline_id@,
                forall|k: int| 0 <= k < i ==> self.states@[k].pipeline_id@ != pipeline_id@,
            decreases self.states@.len() - i,
        {
            if same_text(&self.states[i].pipeline_id, &key) {
                proof {
                    assert(0 <= i < self.states@.len() && self.states@[i as int].pipeline_id@ == pipeline_id@);
                }
                return Some(i);
            }
            i = i + 1;
        }
        None
    }

    fn find_lock(&self, pipeline_id: &str) -> (r: Option<usize>)
        requires
            self.wf(),
        ensures
            r is None <==> !self.locks().contains_key(pipeline_id@),
            r matches Some(i) ==> i < self.locks@.len() && self.locks@[i as int].pipeline_id@
                == pipeline_id@,
    {
        let key = String::from_str(pipeline_id);
        let mut i: usize = 0;
        while i < self.locks.len()
            invariant
                i <= self.locks@.len(),
                key@ == pipeline_id@,
                forall|k: int| 0 <= k < i ==> self.locks@[k].pipeline_id@ != pipeline_id@,
            decreases self.locks@.len() - i,
        {
            if same_text(&self.locks[i].pipeline_id, &key) {
                proof {
                    assert(0 <= i < self.locks@.len() && self.locks@[i as int].pipeline_id@ == pipeline_id@);
                }
                return Some(i);
            }
            i = i + 1;
        }
        None
    }

    /// The state of `pipeline_id`, or `PipelineNotFound`.
    pub fn load_state(&self, pipeline_id: &str) -> (r: Result<&PipelineState, StateError>)
        requires
            self.wf(),
        ensures
            r is Ok <==> self.states().contains_key(pipeline_id@),
            r matches Ok(s) ==> *s == self.states()[pipeline_id@] && s.pipeline_id@ == pipeline_id@,
            r matches Err(e) ==> e matches StateError::PipelineNotFound { pipeline_id: p } && p@
                == pipeline_id@,
    {
        match self.find_state(pipeline_id) {
            Some(i) => {
                proof {
                    lemma_state_map_at(self.states@, i as int);
                }
                Ok(&self.states[i])
            },
            None => Err(StateError::PipelineNotFound { pipeline_id: String::from_str(pipeline_id) }),
        }
    }

    /// Stores `state` under its pipeline id when no state is held for it or
    /// the one held has a lower version; otherwise reports `VersionConflict`
    /// and keeps what is held.
    pub fn save_state(&mut self, state: PipelineState) -> (r: Result<(), StateError>)
        requires
            old(self).wf(),
        ensures
            final(self).wf(),
            r is Ok <==> save_accepted(old(self).states(), state),
            final(self).states() == saved_view(old(self).states(), state),
            final(self).locks() == old(self).locks(),
            r matches Err(e) ==> e matches StateError::VersionConflict { expected, actual } && actual
                == state.version && expected == old(self).states()[state.pipeline_id@].version,
    {
        let ghost m = self.states();
        match self.find_state(state.pipeline_id.as_str()) {
            Some(i) => {
                proof {
                    lemma_state_map_at(self.states@, i as int);
                }
                let held = self.states[i].version;
                if held < state.version {
                    proof {
                        lemma_state_map_update(self.states@, i as int, state);
                    }
                    self.states.set(i, state);
                    Ok(())
                } else {
                    Err(StateError::VersionConflict { expected: held, actual: state.version })
                }
            },
            None => {
                proof {
                    lemma_state_map_push(self.states@, state);
                }
                self.states.push(state);
                Ok(())
            },
        }
    }

    /// Removes the state of `pipeline_id` and its lock, if any.
    pub fn delete_state(&mut self, pipeline_id: &str) -> (r: Result<(), StateError>)
        requires
            old(self).wf(),
        ensures
            final(self).wf(),
            r is Ok,
            final(self).states() == old(self).states().remove(pipeline_id@),
            final(self).locks() == old(self).locks().remove(pipeline_id@),
    {
        match self.find_state(pipeline_id) {
            Some(i) => {
                proof {
                    lemma_state_map_remove(self.states@, i as int);
                }
                self.states.remove(i);
            },
            None => {
                assert(self.states() =~= self.states().remove(pipeline_id@));
            },
        }
        self.force_release_lock(pipeline_id)
    }

    /// The ids of the pipelines that have a state, each once, in ascending
    /// order.
    pub fn list_pipelines(&self) -> (r: Vec<String>)
        requires
            self.wf(),
        ensures
            r@.len() == self.states().len(),
            forall|k: Seq<char>| self.states().contains_key(k) <==> exists|i: int| 0 <= i < r@.len() && #[trigger] r@[i]@ == k,
            keys_unique(r@.map_values(|x: String| x@)),
            crate::text::ascending(r@),
    {
        let ids = self.stored_ids();
        let r = crate::text::sort_texts(ids);
        proof {
            assert forall|k: Seq<char>| self.states().contains_key(k) <==> exists|i: int| 0 <= i < r@.len() && #[trigger] r@[i]@ == k by {
                assert(crate::text::holds_text(r@, k) <==> crate::text::holds_text(ids@, k));
            }
            let views = r@.map_values(|x: String| x@);
            assert forall|i: int, j: int| 0 <= i < views.len() && 0 <= j < views.len() && i != j
                implies #[trigger] views[i] != #[trigger] views[j] by {
                crate::text::lemma_text_lt_asym(r@[i]@, r@[j]@);
                crate::text::lemma_text_lt_asym(r@[j]@, r@[i]@);
                crate::text::lemma_text_lt_asym(r@[i]@, r@[i]@);
            }
            assert(keys_unique(views));
        }
        r
    }

    fn stored_ids(&self) -> (r: Vec<String>)
        requires
            self.wf(),
        ensures
            r@.len() == self.states().len(),
            forall|k: Seq<char>| self.states().contains_key(k) <==> exists|i: int| 0 <= i < r@.len() && #[trigger] r@[i]@ == k,
            forall|i: int, j: int| 0 <= i < j < r@.len() ==> #[trigger] r@[i]@ != #[trigger] r@[j]@,
    {
        let mut r: Vec<String> = Vec::new();
        let mut i: usize = 0;
        while i < self.states.len()
            invariant
                i <= self.states@.len(),
                keys_unique(state_keys(self.states@)),
                r@.len() == i,
                forall|j: int| 0 <= j < i ==> #[trigger] r@[j]@ == self.states@[j].pipeline_id@,
            decreases self.states@.len() - i,
        {
            r.push(copy_string(&self.states[i].pipeline_id));
            i = i + 1;
        }
        proof {
            let ks = state_keys(self.states@);
            assert(r@.map_values(|x: String| x@) =~= ks);
            assert forall|k: Seq<char>| self.states().contains_key(k) implies exists|i: int| 0 <= i < r@.len() && #[trigger] r@[i]@ == k by {
                let j = state_index(self.states@, k);
                assert(r@[j]@ == k);
            }
            assert forall|k: Seq<char>| (exists|i: int| 0 <= i < r@.len() && #[trigger] r@[i]@ == k) implies self.states().contains_key(k) by {
                let j = choose|j: int| 0 <= j < r@.len() && #[trigger] r@[j]@ == k;
                assert(self.states@[j].pipeline_id@ == k);
            }
            lemma_unique_len(self.states@);
            assert forall|i: int, j: int| 0 <= i < j < r@.len() implies #[trigger] r@[i]@ != #[trigger] r@[j]@ by {
                assert(ks[i] == r@[i]@ && ks[j] == r@[j]@);
            }
        }
        r
    }

    /// One probe for the lock of `pipeline_id` on behalf of `worker_id` at
    /// `now`, `elapsed_ms` into a wait of at most `timeout_ms`.
    ///
    /// A lock that is absent or has lapsed is taken, to lapse `timeout_ms`
    /// after `now`. A lock held by anyone is left alone: the probe asks for
    /// another after a pause, or reports `LockTimeout` once the wait has
    /// used up `timeout_ms`.
    pub fn acquire_lock_attempt(
        &mut self,
        pipeline_id: &str,
        worker_id: &str,
        timeout_ms: u64,
        now: Timestamp,
        elapsed_ms: u64,
    ) -> (r: LockAttempt)
        requires
            old(self).wf(),
        ensures
            final(self).wf(),
            final(self).states() == old(self).states(),
            lock_held(old(self).locks(), pipeline_id@, now) ==> final(self).locks() == old(self).locks(),
            attempt_times_out(old(self).locks(), pipeline_id@, now, timeout_ms, elapsed_ms) ==> (r
                matches LockAttempt::Failed(StateError::LockTimeout { timeout_ms: t }) && t == timeout_ms),
            lock_held(old(self).locks(), pipeline_id@, now) && elapsed_ms < timeout_ms ==> r
                == (LockAttempt::Retry { delay_ms: LOCK_RETRY_DELAY_MS }),
            !lock_held(old(self).locks(), pipeline_id@, now) ==> (r matches LockAttempt::Acquired(l)
                && new_lock(pipeline_id@, worker_id@, now, timeout_ms, l) && final(self).locks()
                == old(self).locks().insert(pipeline_id@, l)),
    {
        let found = self.find_lock(pipeline_id);
        if let Some(i) = found {
            proof {
                lemma_lock_map_at(self.locks@, i as int);
            }
            let lapsed = match self.locks[i].expires_at {
                Some(t) => t < now,
                None => false,
            };
            if !lapsed {
                if elapsed_ms >= timeout_ms {
                    return LockAttempt::Failed(StateError::LockTimeout { timeout_ms });
                }
                return LockAttempt::Retry { delay_ms: LOCK_RETRY_DELAY_MS };
            }
        }
        let sum: i128 = now as i128 + timeout_ms as i128;
        let expires: i64 = if sum > i64::MAX as i128 { i64::MAX } else { sum as i64 };
        let lock = LockInfo {
            pipeline_id: String::from_str(pipeline_id),
            worker_id: String::from_str(worker_id),
            locked_at: now,
            expires_at: Some(expires),
            lock_version: 1,
        };
        let out = lock.duplicate();
        match found {
            Some(i) => {
                proof {
                    lemma_lock_map_update(self.locks@, i as int, lock);
                }
                self.locks.set(i, lock);
            },
            None => {
                proof {
                    lemma_lock_map_push(self.locks@, lock);
                }
                self.locks.push(lock);
            },
        }
        LockAttempt::Acquired(out)
    }

    /// Gives up the lock of `pipeline_id` held by `worker_id`. A lock held by
    /// another worker stays, and `LockAlreadyHeld` names its holder; no lock
    /// at all is no error.
    pub fn release_lock(&mut self, pipeline_id: &str, worker_id: &str) -> (r: Result<(), StateError>)
        requires
            old(self).wf(),
        ensures
            final(self).wf(),
            final(self).states() == old(self).states(),
            r is Ok <==> !release_refused(old(self).locks(), pipeline_id@, worker_id@),
            final(self).locks() == released_locks(old(self).locks(), pipeline_id@, worker_id@),
            r matches Err(e) ==> e matches StateError::LockAlreadyHeld { worker_id: w } && w@
                == old(self).locks()[pipeline_id@].worker_id@,
    {
        match self.find_lock(pipeline_id) {
            Some(i) => {
                proof {
                    lemma_lock_map_at(self.locks@, i as int);
                }
                let key = String::from_str(worker_id);
                if !same_text(&self.locks[i].worker_id, &key) {
                    return Err(StateError::LockAlreadyHeld { worker_id: copy_string(&self.locks[i].worker_id) });
                }
                proof {
                    lemma_lock_map_remove(self.locks@, i as int);
                }
                self.locks.remove(i);
                Ok(())
            },
            None => {
                assert(self.locks() =~= self.locks().remove(pipeline_id@));
                Ok(())
            },
        }
    }

    /// The lock of `pipeline_id` as it stands at `now`. A lapsed lock is
    /// removed and reported as absent.
    pub fn is_locked(&mut self, pipeline_id: &str, now: Timestamp) -> (r: Option<LockInfo>)
        requires
            old(self).wf(),
        ensures
            final(self).wf(),
            final(self).states() == old(self).states(),
            r == reported_lock(old(self).locks(), pipeline_id@, now),
            final(self).locks() == probed_locks(old(self).locks(), pipeline_id@, now),
    {
        match self.find_lock(pipeline_id) {
            Some(i) => {
                proof {
                    lemma_lock_map_at(self.locks@, i as int);
                }
                let lapsed = match self.locks[i].expires_at {
                    Some(t) => t < now,
                    None => false,
                };
                if lapsed {
                    proof {
                        lemma_lock_map_remove(self.locks@, i as int);
                    }
                    self.locks.remove(i);
                    None
                } else {
                    Some(self.locks[i].duplicate())
                }
            },
            None => None,
        }
    }

    /// Removes the lock of `pipeline_id` whoever holds it.
    pub fn force_release_lock(&mut self, pipeline_id: &str) -> (r: Result<(), StateError>)
        requires
            old(self).wf(),
        ensures
            final(self).wf(),
            r is Ok,
            final(self).states() == old(self).states(),
            final(self).locks() == old(self).locks().remove(pipeline_id@),
    {
        match self.find_lock(pipeline_id) {
            Some(i) => {
                proof {
                    lemma_lock_map_remove(self.locks@, i as int);
                }
                self.locks.remove(i);
            },
            None => {
                assert(self.locks() =~= self.locks().remove(pipeline_id@));
            },
        }
        Ok(())
    }
}

/// The states of `m` updated at or after `cutoff`.
pub open spec fn recent(m: Map<Seq<char>, PipelineState>, cutoff: Timestamp) -> Map<Seq<char>, PipelineState> {
    Map::new(|k: Seq<char>| m.contains_key(k) && m[k].metadata.updated_at >= cutoff, |k: Seq<char>| m[k])
}

proof fn lemma_unique_state_prefix(s: Seq<PipelineState>, i: int)
    requires
        keys_unique(state_keys(s)),
        0 <= i <= s.len(),
    ensures
        keys_unique(state_keys(s.subrange(0, i))),
{
    assert(state_keys(s.subrange(0, i)) =~= state_keys(s).subrange(0, i));
}

impl MemoryBackend {
    fn drop_states_before(&mut self, cutoff: Timestamp) -> (removed: u64)
        requires
            old(self).wf(),
        ensures
            final(self).wf(),
            final(self).locks() == old(self).locks(),
            final(self).states() == recent(old(self).states(), cutoff),
            removed as int == old(self).states().len() - final(self).states().len(),
    {
        let ghost orig = self.states@;
        let mut rest: Vec<PipelineState> = Vec::new();
        std::mem::swap(&mut rest, &mut self.states);
        let total = rest.len();
        let mut kept: Vec<PipelineState> = Vec::new();
        let mut i: usize = 0;
        proof {
            assert(orig.subrange(0, 0) =~= Seq::<PipelineState>::empty());
            assert(state_map(kept@) =~= recent(state_map(orig.subrange(0, 0)), cutoff));
        }
        while rest.len() > 0
            invariant
                i + rest@.len() == orig.len(),
                total == orig.len(),
                rest@ == orig.subrange(i as int, orig.len() as int),
                keys_unique(state_keys(orig)),
                keys_unique(state_keys(kept@)),
                kept@.len() <= i,
                state_map(kept@) == recent(state_map(orig.subrange(0, i as int)), cutoff),
                self.locks@ == old(self).locks@,
            decreases rest@.len(),
        {
            let x = rest.remove(0);
            proof {
                assert(x == orig[i as int]);
                let pre = orig.subrange(0, i as int);
                lemma_unique_state_prefix(orig, i as int);
                assert(orig.subrange(0, i + 1) =~= pre.push(orig[i as int]));
                assert(!state_map(pre).contains_key(x.pipeline_id@)) by {
                    if state_map(pre).contains_key(x.pipeline_id@) {
                        let j = state_index(pre, x.pipeline_id@);
                        assert(state_keys(orig)[j] == state_keys(orig)[i as int]);
                    }
                }
                lemma_state_map_push(pre, x);
                assert(rest@ =~= orig.subrange(i + 1, orig.len() as int));
            }
            if x.metadata.updated_at >= cutoff {
                proof {
                    assert(!state_map(kept@).contains_key(x.pipeline_id@));
                    lemma_state_map_push(kept@, x);
                }
                kept.push(x);
                proof {
                    assert(state_map(kept@) =~= recent(state_map(orig.subrange(0, i + 1)), cutoff));
                }
            } else {
                proof {
                    assert(state_map(kept@) =~= recent(state_map(orig.subrange(0, i + 1)), cutoff));
                }
            }
            i = i + 1;
        }
        proof {
            assert(orig.subrange(0, orig.len() as int) =~= orig);
            lemma_unique_len(orig);
            lemma_unique_len(kept@);
        }
        let removed = (total - kept.len()) as u64;
        self.states = kept;
        removed
    }
}

/// The locks of `m` that have not lapsed at `now`.
pub open spec fn unlapsed(m: Map<Seq<char>, LockInfo>, now: Timestamp) -> Map<Seq<char>, LockInfo> {
    Map::new(|k: Seq<char>| m.contains_key(k) && !lock_expired(m[k], now), |k: Seq<char>| m[k])
}

proof fn lemma_unique_prefix(s: Seq<LockInfo>, i: int)
    requires
        keys_unique(lock_keys(s)),
        0 <= i <= s.len(),
    ensures
        keys_unique(lock_keys(s.subrange(0, i))),
{
    assert(lock_keys(s.subrange(0, i)) =~= lock_keys(s).subrange(0, i));
}

impl MemoryBackend {
    /// Drops every lock that has lapsed at `now`, and every state not
    /// updated within `max_age_hours` of `now`.
    pub fn cleanup(&mut self, max_age_hours: u64, now: Timestamp) -> (r: CleanupResult)
        requires
            old(self).wf(),
        ensures
            final(self).wf(),
            final(self).states() == recent(old(self).states(), crate::cache::cutoff_at(now, max_age_hours)),
            final(self).locks() == unlapsed(old(self).locks(), now),
            r.expired_locks_removed as int == old(self).locks().len() - final(self).locks().len(),
            r.stale_states_removed as int == old(self).states().len() - final(self).states().len(),
            r.total_states_checked == old(self).states().len(),
            r.errors@.len() == 0,
    {
        let ghost orig = self.locks@;
        let mut kept: Vec<LockInfo> = Vec::new();
        let mut i: usize = 0;
        proof {
            assert(orig.subrange(0, 0) =~= Seq::<LockInfo>::empty());
            assert(lock_map(kept@) =~= unlapsed(lock_map(orig.subrange(0, 0)), now));
        }
        while i < self.locks.len()
            invariant
                i <= orig.len(),
                self.locks@ == orig,
                keys_unique(lock_keys(orig)),
                keys_unique(lock_keys(kept@)),
                kept@.len() <= i,
                lock_map(kept@) == unlapsed(lock_map(orig.subrange(0, i as int)), now),
                forall|k: int| 0 <= k < kept@.len() ==> exists|j: int| 0 <= j < i && #[trigger] kept@[k] == orig[j],
            decreases orig.len() - i,
        {
            let x = self.locks[i].duplicate();
            let lapsed = match x.expires_at {
                Some(t) => t < now,
                None => false,
            };
            proof {
                let pre = orig.subrange(0, i as int);
                lemma_unique_prefix(orig, i as int);
                lemma_unique_prefix(orig, i + 1);
                assert(orig.subrange(0, i + 1) =~= pre.push(orig[i as int]));
                assert(!lock_map(pre).contains_key(x.pipeline_id@)) by {
                    if lock_map(pre).contains_key(x.pipeline_id@) {
                        let j = lock_index(pre, x.pipeline_id@);
                        assert(lock_keys(orig)[j] == lock_keys(orig)[i as int]);
                    }
                }
                lemma_lock_map_push(pre, x);
            }
            if !lapsed {
                proof {
                    assert(!lock_map(kept@).contains_key(x.pipeline_id@));
                    lemma_lock_map_push(kept@, x);
                }
                let ghost before = kept@;
                kept.push(x);
                proof {
                    assert(lock_map(kept@) =~= unlapsed(lock_map(orig.subrange(0, i + 1)), now));
                    assert forall|k: int| 0 <= k < kept@.len() implies exists|j: int| 0 <= j < i + 1 && #[trigger] kept@[k] == orig[j] by {
                        if k < before.len() {
                            assert(kept@[k] == before[k]);
                        } else {
                            assert(kept@[k] == orig[i as int]);
                        }
                    }
                }
            } else {
                proof {
                    assert(lock_map(kept@) =~= unlapsed(lock_map(orig.subrange(0, i + 1)), now));
                }
            }
            i = i + 1;
        }
        proof {
            assert(orig.subrange(0, orig.len() as int) =~= orig);
            lemma_lock_unique_len(orig);
            lemma_lock_unique_len(kept@);
            lemma_unique_len(self.states@);
        }
        let removed = (self.locks.len() - kept.len()) as u64;
        self.locks = kept;
        let checked = self.states.len() as u64;
        let cutoff = crate::cache::cleanup_cutoff(now, max_age_hours);
        let stale = self.drop_states_before(cutoff);
        CleanupResult {
            expired_locks_removed: removed,
            stale_states_removed: stale,
            total_states_checked: checked,
            cleanup_duration_ms: 0,
            errors: Vec::new(),
        }
    }
}

impl MemoryBackend {
    /// Validates the state of `pipeline_id` at `now`. A state held in memory
    /// is never corrupt and always checks out; its rules are those of
    /// `validate_at`.
    pub fn validate_state(&self, pipeline_id: &str, now: Timestamp) -> (r: Result<crate::repair::ValidationResult, StateError>)
        requires
            self.wf(),
        ensures
            r is Ok <==> self.states().contains_key(pipeline_id@),
            r matches Ok(v) ==> !v.corruption_detected && v.checksum_match
                && (v.valid <==> crate::state::state_is_valid(self.states()[pipeline_id@], now))
                && (v.valid <==> v.validation_errors@.len() == 0),
            r matches Err(e) ==> (e matches StateError::PipelineNotFound { pipeline_id: p } && p@ == pipeline_id@),
    {
        match self.load_state(pipeline_id) {
            Ok(st) => {
                let errors = match st.validate_at(now) {
                    Ok(()) => Vec::new(),
                    Err(v) => v,
                };
                let valid = errors.len() == 0;
                Ok(crate::repair::ValidationResult {
                    valid,
                    corruption_detected: false,
                    validation_errors: errors,
                    checksum_match: true,
                    file_size_bytes: 0,
                    last_modified: st.metadata.updated_at,
                })
            },
            Err(e) => Err(e),
        }
    }
}

/// What a backend reports about itself.
#[derive(Debug, Clone)]
pub struct BackendDiagnostics {
    pub backend_type: String,
    pub total_states: u64,
    pub total_locks: u64,
    pub total_backups: u64,
    pub storage: crate::cache::StorageSummary,
    pub storage_available_bytes: u64,
    pub performance: crate::cache::BackendMetrics,
    pub health_issues: Vec<String>,
}

impl MemoryBackend {
    /// The (estimated bytes, creation time) of each stored state.
    pub closed spec fn stored_items(&self) -> Seq<(u64, Timestamp)> {
        self.states@.map_values(|st: PipelineState| (
            (if st.memory_estimate() > u64::MAX { u64::MAX as int } else { st.memory_estimate() }) as u64,
            st.metadata.created_at,
        ))
    }

    /// Counts of states and locks, and the summary of the stored states'
    /// estimated sizes and creation times.
    pub fn get_diagnostics(&self) -> (r: BackendDiagnostics)
        requires
            self.wf(),
        ensures
            r.backend_type@ == "memory"@,
            r.total_states == self.states().len(),
            r.total_locks == self.locks().len(),
            r.total_backups == 0,
            r.storage.count == self.states().len(),
            r.storage.total_bytes == crate::cache::bytes_of(self.stored_items(), self.stored_items().len() as int),
            r.storage.average_bytes == crate::cache::average(r.storage.total_bytes, r.storage.count),
            self.states().len() > 0 ==> (r.storage.oldest matches Some(t) && crate::cache::is_earliest(self.stored_items(), t)),
            self.states().len() > 0 ==> (r.storage.newest matches Some(t) && crate::cache::is_latest(self.stored_items(), t)),
            r.storage_available_bytes == u64::MAX,
            r.performance.total_reads == 0 && r.performance.total_writes == 0,
            r.health_issues@.len() == 0,
    {
        let mut items: Vec<(u64, Timestamp)> = Vec::new();
        let mut i: usize = 0;
        while i < self.states.len()
            invariant
                i <= self.states@.len(),
                items@ == self.stored_items().subrange(0, i as int),
            decreases self.states@.len() - i,
        {
            let st = &self.states[i];
            items.push((st.estimated_memory_usage(), st.metadata.created_at));
            i = i + 1;
            assert(items@ =~= self.stored_items().subrange(0, i as int));
        }
        proof {
            assert(items@ =~= self.stored_items());
            lemma_unique_len(self.states@);
            lemma_lock_unique_len(self.locks@);
        }
        let storage = crate::cache::summarize_storage(&items);
        BackendDiagnostics {
            backend_type: String::from_str("memory"),
            total_states: self.states.len() as u64,
            total_locks: self.locks.len() as u64,
            total_backups: 0,
            storage,
            storage_available_bytes: u64::MAX,
            performance: crate::cache::BackendMetrics::new(),
            health_issues: Vec::new(),
        }
    }
}

proof fn lemma_unique_len(s: Seq<PipelineState>)
    requires
        keys_unique(state_keys(s)),
    ensures
        state_map(s).len() == s.len(),
    decreases s.len(),
{
    if s.len() == 0 {
        assert(state_map(s) =~= Map::<Seq<char>, PipelineState>::empty());
    } else {
        let t = s.drop_last();
        let v = s.last();
        assert(state_keys(t) =~= state_keys(s).drop_last());
        lemma_unique_len(t);
        assert(t.push(v) =~= s);
        assert(!state_map(t).contains_key(v.pipeline_id@)) by {
            if state_map(t).contains_key(v.pipeline_id@) {
                let j = state_index(t, v.pipeline_id@);
                assert(state_keys(s)[j] == state_keys(s)[s.len() - 1]);
            }
        }
        lemma_state_map_push(t, v);
        assert(state_map(t).dom().finite()) by {
            lemma_state_map_dom_finite(t);
        }
    }
}

proof fn lemma_state_map_dom_finite(s: Seq<PipelineState>)
    ensures
        state_map(s).dom().finite(),
{
    let f = |i: int| s[i].pipeline_id@;
    let idx = Set::new(|i: int| 0 <= i < s.len());
    assert(idx =~= vstd::set_lib::set_int_range(0, s.len() as int));
    vstd::set_lib::lemma_int_range(0, s.len() as int);
    idx.lemma_map_finite(f);
    assert(state_map(s).dom() =~= idx.map(f)) by {
        assert forall|k: Seq<char>| #![trigger state_map(s).dom().contains(k)] state_map(s).dom().contains(k) implies idx.map(f).contains(k) by {
            let j = state_index(s, k);
            assert(idx.contains(j) && f(j) == k);
        }
    }
}

proof fn lemma_lock_unique_len(s: Seq<LockInfo>)
    requires
        keys_unique(lock_keys(s)),
    ensures
        lock_map(s).len() == s.len(),
    decreases s.len(),
{
    if s.len() == 0 {
        assert(lock_map(s) =~= Map::<Seq<char>, LockInfo>::empty());
    } else {
        let t = s.drop_last();
        let v = s.last();
        assert(lock_keys(t) =~= lock_keys(s).drop_last());
        lemma_lock_unique_len(t);
        assert(t.push(v) =~= s);
        assert(!lock_map(t).contains_key(v.pipeline_id@)) by {
            if lock_map(t).contains_key(v.pipeline_id@) {
                let j = lock_index(t, v.pipeline_id@);
                assert(lock_keys(s)[j] == lock_keys(s)[s.len() - 1]);
            }
        }
        lemma_lock_map_push(t, v);
        assert(lock_map(t).dom().finite()) by {
            lemma_lock_map_dom_finite(t);
        }
    }
}

proof fn lemma_lock_map_dom_finite(s: Seq<LockInfo>)
    ensures
        lock_map(s).dom().finite(),
{
    let f = |i: int| s[i].pipeline_id@;
    let idx = Set::new(|i: int| 0 <= i < s.len());
    assert(idx =~= vstd::set_lib::set_int_range(0, s.len() as int));
    vstd::set_lib::lemma_int_range(0, s.len() as int);
    idx.lemma_map_finite(f);
    assert(lock_map(s).dom() =~= idx.map(f)) by {
        assert forall|k: Seq<char>| #![trigger lock_map(s).dom().contains(k)] lock_map(s).dom().contains(k) implies idx.map(f).contains(k) by {
            let j = lock_index(s, k);
            assert(idx.contains(j) && f(j) == k);
        }
    }
}

/// Every save that a store accepts raises the version held for the pipeline.
pub proof fn saved_version_increases(m: Map<Seq<char>, PipelineState>, s: PipelineState)
    requires
        save_accepted(m, s),
        m.contains_key(s.pipeline_id@),
    ensures
        saved_view(m, s)[s.pipeline_id@].version > m[s.pipeline_id@].version,
{
}

/// Saving the state just loaded for a pipeline leaves the store as it was.
pub proof fn save_of_loaded_is_noop(m: Map<Seq<char>, PipelineState>, id: Seq<char>)
    requires
        m.contains_key(id),
        m[id].pipeline_id@ == id,
    ensures
        !save_accepted(m, m[id]),
        saved_view(m, m[id]) == m,
{
}

/// Once `worker` has taken the lock of `id`, a release by any other worker is
/// refused, names `worker` as the holder, and leaves the lock in place.
pub proof fn release_by_other_worker_is_refused(
    m: Map<Seq<char>, LockInfo>,
    id: Seq<char>,
    worker: Seq<char>,
    other: Seq<char>,
    now: Timestamp,
    timeout_ms: u64,
    l: LockInfo,
)
    requires
        new_lock(id, worker, now, timeout_ms, l),
        other != worker,
    ensures
        release_refused(m.insert(id, l), id, other),
        m.insert(id, l)[id].worker_id@ == worker,
        released_locks(m.insert(id, l), id, other) == m.insert(id, l),
{
}

/// A lock whose expiry lies before `now` is reported absent by the next
/// probe, which also removes it.
pub proof fn lapsed_lock_is_cleared(m: Map<Seq<char>, LockInfo>, id: Seq<char>, now: Timestamp)
    requires
        m.contains_key(id),
        m[id].expires_at matches Some(t) && t < now,
    ensures
        reported_lock(m, id, now) is None,
        !probed_locks(m, id, now).contains_key(id),
{
}

/// With a timeout of zero, the first probe of a held lock gives up.
pub proof fn zero_timeout_gives_up_at_first_probe(m: Map<Seq<char>, LockInfo>, id: Seq<char>, now: Timestamp)
    requires
        lock_held(m, id, now),
    ensures
        attempt_times_out(m, id, now, 0, 0),
{
}

} // verus!
