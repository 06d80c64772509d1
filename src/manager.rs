//! The state manager's policy: its configuration, the retry schedule of
//! saves, and the search for stale runs.
use vstd::prelude::*;
use crate::backend::{BackendConfig, MemoryBackend};
use crate::state::{PipelineState, Timestamp, copy_string};
use crate::state::random_uuid;

verus! {

/// Configuration of a state manager.
#[derive(Debug, Clone)]
pub struct StateManagerConfig {
    pub backend: BackendConfig,
    pub default_lock_timeout_ms: u64,
    pub worker_id: String,
    pub heartbeat_interval_ms: u64,
    pub max_retries: u64,
    pub cleanup_interval_hours: u64,
    pub max_state_age_hours: u64,
}

/// What follows a failed save.
#[derive(Debug, Clone, Copy, PartialEq, Eq, Structural)]
pub enum SaveRetry {
    /// Sleep `delay_ms`, then save again; `retries` failures so far.
    Retry { retries: u64, delay_ms: u64 },
    /// The retries are used up: report the error.
    GiveUp,
}

/// Milliseconds of the first backoff step of a save.
pub const SAVE_BACKOFF_MS: u64 = 100;

/// `2^n`.
pub open spec fn pow2(n: nat) -> nat
    decreases n,
{
    if n == 0 { 1 } else { 2 * pow2((n - 1) as nat) }
}

/// What follows a failed save when `retries` retries have been made, with
/// up to `max_retries` allowed: give up once they are used, else retry
/// (as retry number `retries + 1`) after `100 × 2^retries` ms, at most the
/// largest `u64`.
pub open spec fn save_verdict(retries: u64, max_retries: u64) -> SaveRetry {
    if retries >= max_retries {
        SaveRetry::GiveUp
    } else {
        SaveRetry::Retry {
            retries: (retries + 1) as u64,
            delay_ms: if SAVE_BACKOFF_MS * pow2(retries as nat) > u64::MAX {
                u64::MAX
            } else {
                (SAVE_BACKOFF_MS * pow2(retries as nat)) as u64
            },
        }
    }
}

/// What follows a failed save; see `save_verdict`.
pub fn after_save_failure(retries: u64, max_retries: u64) -> (r: SaveRetry)
    ensures
        r == save_verdict(retries, max_retries),
{
    if retries >= max_retries {
        return SaveRetry::GiveUp;
    }
    let mut delay: u64 = SAVE_BACKOFF_MS;
    let mut k: u64 = 0;
    let mut capped = false;
    while k < retries
        invariant
            k <= retries,
            !capped ==> delay as nat == SAVE_BACKOFF_MS * pow2(k as nat),
            capped ==> SAVE_BACKOFF_MS * pow2(k as nat) > u64::MAX,
        decreases retries - k,
    {
        proof {
            assert(pow2((k + 1) as nat) == 2 * pow2(k as nat));
        }
        if !capped {
            if delay > u64::MAX / 2 {
                capped = true;
            } else {
                delay = delay * 2;
            }
        }
        k = k + 1;
    }
    SaveRetry::Retry { retries: retries + 1, delay_ms: if capped { u64::MAX } else { delay } }
}

/// A save that keeps failing is attempted `max_retries + 1` times: every
/// failure before the last retry is followed by another attempt, and the
/// failure after `max_retries` retries gives up.
pub proof fn save_retries_are_bounded(retries: u64, max_retries: u64)
    requires
        retries <= max_retries,
    ensures
        retries < max_retries ==> save_verdict(retries, max_retries) is Retry,
        retries == max_retries ==> save_verdict(retries, max_retries) == SaveRetry::GiveUp,
{
}

impl StateManagerConfig {
    /// A new pending state of `pipeline_id` at `now`, run by this
    /// configuration's worker, under `run_id` or else a fresh random one.
    pub fn initialize_pipeline(&self, pipeline_id: String, run_id: Option<String>, now: Timestamp) -> (r: PipelineState)
        ensures
            r.pipeline_id@ == pipeline_id@,
            run_id matches Some(id) ==> r.run_id@ == id@,
            run_id is None ==> r.run_id@.len() == 36,
            r.worker_id matches Some(w) && w@ == self.worker_id@,
            r.version == 1,
            r.status == crate::state::PipelineStatus::Pending,
            r.started_at == now,
            r.step_states@.len() == 0,
    {
        let run = match run_id {
            Some(id) => id,
            None => random_uuid(),
        };
        let mut st = PipelineState::new_at(pipeline_id, run, now);
        st.worker_id = Some(copy_string(&self.worker_id));
        st
    }

    /// The default configuration for `worker_id`: in-memory backend, 30 s
    /// lock timeout, 5 s heartbeats, 3 retries, daily cleanup of states older
    /// than a week.
    pub fn with_worker(worker_id: String) -> (r: StateManagerConfig)
        ensures
            r.backend == (BackendConfig::Memory { persistent: false }),
            r.default_lock_timeout_ms == 30000,
            r.worker_id@ == worker_id@,
            r.heartbeat_interval_ms == 5000,
            r.max_retries == 3,
            r.cleanup_interval_hours == 24,
            r.max_state_age_hours == 168,
    {
        StateManagerConfig {
            backend: BackendConfig::Memory { persistent: false },
            default_lock_timeout_ms: 30000,
            worker_id,
            heartbeat_interval_ms: 5000,
            max_retries: 3,
            cleanup_interval_hours: 24,
            max_state_age_hours: 168,
        }
    }

    /// The default configuration under a fresh worker id `worker_<uuid>`.
    pub fn default_config() -> (r: StateManagerConfig)
        ensures
            r.backend == (BackendConfig::Memory { persistent: false }),
            r.default_lock_timeout_ms == 30000,
            r.worker_id@.len() == 43,
            r.heartbeat_interval_ms == 5000,
            r.max_retries == 3,
    {
        proof {
            reveal_strlit("worker_");
        }
        let mut id = String::from_str("worker_");
        let u = random_uuid();
        id.append(u.as_str());
        Self::with_worker(id)
    }
}

/// `k` is among the first `n` ids.
pub open spec fn listed(ids: Seq<String>, n: int, k: Seq<char>) -> bool {
    exists|j: int| 0 <= j < n && #[trigger] ids[j]@ == k
}

impl MemoryBackend {
    /// The run stored under `k` is stale at `now`.
    pub open spec fn stale_key(&self, k: Seq<char>, threshold_ms: u64, now: Timestamp) -> bool {
        self.states().contains_key(k) && self.states()[k].is_stale_at(threshold_ms, now)
    }

    /// The ids of the stored runs that have sent no heartbeat for more than
    /// `threshold_ms` at `now`, each once.
    pub fn find_stale_pipelines(&self, threshold_ms: u64, now: Timestamp) -> (r: Vec<String>)
        requires
            self.wf(),
        ensures
            forall|k: Seq<char>| #[trigger] self.stale_key(k, threshold_ms, now) <==> listed(r@, r@.len() as int, k),
    {
        let ids = self.list_pipelines();
        let mut out: Vec<String> = Vec::new();
        let mut i: usize = 0;
        while i < ids.len()
            invariant
                i <= ids@.len(),
                self.wf(),
                forall|k: Seq<char>| self.states().contains_key(k) <==> #[trigger] listed(ids@, ids@.len() as int, k),
                forall|k: Seq<char>|
                    #![trigger listed(ids@, i as int, k)]
                    #![trigger listed(out@, out@.len() as int, k)]
                    (listed(ids@, i as int, k) && self.stale_key(k, threshold_ms, now)) <==> listed(out@, out@.len() as int, k),
            decreases ids@.len() - i,
        {
            let ghost before = out@;
            match self.load_state(ids[i].as_str()) {
                Ok(st) => {
                    if st.is_stale_now(threshold_ms, now) {
                        out.push(copy_string(&ids[i]));
                    }
                },
                Err(_) => {},
            }
            proof {
                let id = ids@[i as int]@;
                assert(listed(ids@, ids@.len() as int, id));
                assert forall|k: Seq<char>| (#[trigger] listed(ids@, i + 1, k) && self.stale_key(k, threshold_ms, now))
                    implies listed(out@, out@.len() as int, k) by {
                    if listed(ids@, i as int, k) {
                        let m = choose|m: int| 0 <= m < before.len() && #[trigger] before[m]@ == k;
                        assert(out@[m] == before[m]);
                    } else {
                        let j = choose|j: int| 0 <= j < i + 1 && #[trigger] ids@[j]@ == k;
                        assert(j == i);
                        assert(out@[out@.len() - 1]@ == k);
                    }
                }
                assert forall|k: Seq<char>| #[trigger] listed(out@, out@.len() as int, k)
                    implies listed(ids@, i + 1, k) && self.stale_key(k, threshold_ms, now) by {
                    let m = choose|m: int| 0 <= m < out@.len() && #[trigger] out@[m]@ == k;
                    if m < before.len() {
                        assert(before[m]@ == k);
                        assert(listed(before, before.len() as int, k));
                        assert(listed(ids@, i as int, k));
                        let j = choose|j: int| 0 <= j < i && #[trigger] ids@[j]@ == k;
                        assert(0 <= j < i + 1 && ids@[j]@ == k);
                    } else {
                        assert(ids@[i as int]@ == k);
                        assert(0 <= i < i + 1 && ids@[i as int]@ == k);
                    }
                }
            }
            i = i + 1;
        }
        proof {
            assert forall|k: Seq<char>| #[trigger] self.stale_key(k, threshold_ms, now) implies listed(out@, out@.len() as int, k) by {
                assert(listed(ids@, ids@.len() as int, k));
            }
            assert forall|k: Seq<char>| #[trigger] listed(out@, out@.len() as int, k) implies self.stale_key(k, threshold_ms, now) by {
            }
        }
        out
    }
}

} // verus!
