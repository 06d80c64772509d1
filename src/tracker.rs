//! Progress tracking: how executor events change the persistent state of a
//! run (start of a run, start and end of a step, checkpoints, end of the
//! run), and whether a stored run can be resumed.
use vstd::prelude::*;
use crate::pipeline::{Pipeline, PipelineResult, StepResult};
use crate::state::{
    ErrorRecord, ErrorType, PipelineState, PipelineStatus, StateMetadata, StepState, StepStatus,
    Timestamp, copy_opt_string, copy_string, random_uuid, steps_unique, utc_now_millis,
};
use crate::text::{decimal_text, u64_text};

verus! {

/// `a + b`, or the largest `u64` where the sum exceeds it.
pub open spec fn sat_add(a: u64, b: u64) -> u64 {
    if a as int + b as int > u64::MAX as int { u64::MAX } else { (a + b) as u64 }
}

fn add_sat(a: u64, b: u64) -> (r: u64)
    ensures
        r == sat_add(a, b),
{
    if a > u64::MAX - b { u64::MAX } else { a + b }
}

/// The position of the step state for `id`, if there is one.
pub open spec fn step_index(steps: Seq<StepState>, id: Seq<char>) -> Option<int> {
    if exists|i: int| 0 <= i < steps.len() && steps[i].step_id@ == id {
        Some(choose|i: int| 0 <= i < steps.len() && steps[i].step_id@ == id)
    } else {
        None
    }
}

fn find_step(steps: &Vec<StepState>, id: &String) -> (r: Option<usize>)
    requires
        steps_unique(steps@),
    ensures
        r is None <==> step_index(steps@, id@) is None,
        r matches Some(i) ==> step_index(steps@, id@) == Some(i as int) && i < steps@.len(),
{
    let mut i: usize = 0;
    while i < steps.len()
        invariant
            i <= steps@.len(),
            steps_unique(steps@),
            forall|k: int| 0 <= k < i ==> steps@[k].step_id@ != id@,
        decreases steps@.len() - i,
    {
        if steps[i].step_id.eq(id) {
            proof {
                assert(0 <= i < steps@.len() && steps@[i as int].step_id@ == id@);
                let j = choose|j: int| 0 <= j < steps@.len() && steps@[j].step_id@ == id@;
                assert(j == i);
            }
            return Some(i);
        }
        i = i + 1;
    }
    None
}

/// The state with which a run starts: running since `now`, version 1, no
/// steps yet, named after the declaration.
pub open spec fn is_initial_state(s: PipelineState, pipeline_id: Seq<char>, run_id: Seq<char>, now: Timestamp) -> bool {
    &&& s.pipeline_id@ == pipeline_id
    &&& s.run_id@ == run_id
    &&& s.version == 1
    &&& s.status == PipelineStatus::Running { started_at: now }
    &&& s.started_at == now
    &&& s.last_success_timestamp == now
    &&& s.last_heartbeat == now
    &&& s.step_states@.len() == 0
    &&& s.errors@.len() == 0
    &&& s.records_processed == 0
    &&& s.records_failed == 0
    &&& s.data_size_processed == 0
    &&& s.metadata.created_at == now
    &&& s.metadata.updated_at == now
    &&& s.metadata.checkpoint_count == 0
}

/// The initial state of run `run_id` of `pipeline` at `now`, on behalf of
/// `worker_id`; the pipeline id is the declaration's name.
pub fn initial_state(pipeline: &Pipeline, run_id: String, worker_id: Option<String>, now: Timestamp) -> (r: PipelineState)
    ensures
        is_initial_state(r, r.pipeline_id@, run_id@, now),
        (pipeline.metadata matches Some(m) && m.name is Some) ==> r.pipeline_id@ == pipeline.metadata->0.name->0@,
        !(pipeline.metadata matches Some(m) && m.name is Some) ==> r.pipeline_id@ == "Unnamed Pipeline"@,
        r.metadata.pipeline_name matches Some(n) && n@ == r.pipeline_id@,
        r.worker_id == worker_id,
        steps_unique(r.step_states@),
{
    let name = pipeline.name();
    let version = match &pipeline.metadata {
        Some(m) => copy_opt_string(&m.version),
        None => None,
    };
    PipelineState {
        pipeline_id: copy_string(&name),
        run_id,
        version: 1,
        last_processed_id: String::new(),
        batch_number: 0,
        records_processed: 0,
        records_failed: 0,
        data_size_processed: 0,
        current_step: String::new(),
        step_states: Vec::new(),
        status: PipelineStatus::Running { started_at: now },
        started_at: now,
        last_success_timestamp: now,
        estimated_completion: None,
        errors: Vec::new(),
        retry_count: 0,
        worker_id,
        last_heartbeat: now,
        metadata: StateMetadata {
            created_at: now,
            updated_at: now,
            schema_version: String::from_str("1.0"),
            state_backend: String::from_str("file"),
            checkpoint_count: 0,
            last_checkpoint_at: now,
            pipeline_name: Some(name),
            pipeline_version: version,
            environment: None,
            tags: Vec::new(),
        },
    }
}

/// Starts a run of `pipeline` now, under a fresh random run id.
pub fn start_run(pipeline: &Pipeline, worker_id: Option<String>) -> (r: PipelineState)
    ensures
        is_initial_state(r, r.pipeline_id@, r.run_id@, r.started_at),
        (pipeline.metadata matches Some(m) && m.name is Some) ==> r.pipeline_id@ == pipeline.metadata->0.name->0@,
        !(pipeline.metadata matches Some(m) && m.name is Some) ==> r.pipeline_id@ == "Unnamed Pipeline"@,
        r.run_id@.len() == 36,
        r.worker_id == worker_id,
        steps_unique(r.step_states@),
{
    let run_id = random_uuid();
    let now = utc_now_millis();
    initial_state(pipeline, run_id, worker_id, now)
}

/// Records that step `step_id` starts at `now`: it becomes the current step,
/// its state is (re)set to running, the heartbeat is refreshed and the
/// version bumped.
pub fn start_step(state: &mut PipelineState, step_id: &String, now: Timestamp)
    requires
        old(state).version < u64::MAX,
        steps_unique(old(state).step_states@),
    ensures
        steps_unique(final(state).step_states@),
        final(state).version == old(state).version + 1,
        final(state).current_step@ == step_id@,
        final(state).last_heartbeat == now,
        final(state).metadata.updated_at == now,
        step_index(final(state).step_states@, step_id@) matches Some(i) && ({
            let st = final(state).step_states@[i];
            &&& st.status == StepStatus::Running { started_at: now }
            &&& st.step_name@ == step_id@
            &&& st.records_processed == 0
            &&& st.processing_time_ms == 0
            &&& st.last_heartbeat == now
        }),
        final(state).errors == old(state).errors,
        final(state).status == old(state).status,
        final(state).records_processed == old(state).records_processed,
{
    state.current_step = copy_string(step_id);
    state.last_heartbeat = now;
    state.metadata.updated_at = now;
    let mut st = StepState::new_at(copy_string(step_id), copy_string(step_id), now);
    st.status = StepStatus::Running { started_at: now };
    st.worker_id = copy_opt_string(&state.worker_id);
    let ghost new_st = st;
    match find_step(&state.step_states, step_id) {
        Some(i) => {
            let ghost before = state.step_states@;
            state.step_states.set(i, st);
            proof {
                assert forall|a: int, b: int| 0 <= a < state.step_states@.len() && 0 <= b < state.step_states@.len() && a != b
                    implies #[trigger] state.step_states@[a].step_id@ != #[trigger] state.step_states@[b].step_id@ by {
                    if a != i && b != i {
                        assert(before[a] == state.step_states@[a]);
                        assert(before[b] == state.step_states@[b]);
                    }
                }
                assert(0 <= i < state.step_states@.len() && state.step_states@[i as int].step_id@ == step_id@);
                let j = choose|j: int| 0 <= j < state.step_states@.len() && state.step_states@[j].step_id@ == step_id@;
                assert(j == i);
            }
        },
        None => {
            let ghost before = state.step_states@;
            state.step_states.push(st);
            proof {
                let n = before.len() as int;
                assert forall|a: int, b: int| 0 <= a < state.step_states@.len() && 0 <= b < state.step_states@.len() && a != b
                    implies #[trigger] state.step_states@[a].step_id@ != #[trigger] state.step_states@[b].step_id@ by {
                    if a < n && b < n {
                        assert(before[a] == state.step_states@[a]);
                        assert(before[b] == state.step_states@[b]);
                    } else if a < n {
                        assert(before[a] == state.step_states@[a]);
                        assert(!(0 <= a < before.len() && before[a].step_id@ == step_id@));
                    } else {
                        assert(before[b] == state.step_states@[b]);
                        assert(!(0 <= b < before.len() && before[b].step_id@ == step_id@));
                    }
                }
                assert(0 <= n < state.step_states@.len() && state.step_states@[n].step_id@ == step_id@);
                let j = choose|j: int| 0 <= j < state.step_states@.len() && state.step_states@[j].step_id@ == step_id@;
                assert(j == n);
            }
        },
    }
    state.version = state.version + 1;
}

/// Whether the error of a step that ended after `retry_count` retries may be
/// retried: fewer than three retries were spent.
pub open spec fn retryable_after(retry_count: u32) -> bool {
    retry_count < 3
}

/// Records the end of a step: its state moves to completed or failed at
/// `now` with the step's duration and retry count; the run counts one more
/// processed or failed record; a failure with a message appends an error
/// record identified by `error_id`.
pub fn complete_step(state: &mut PipelineState, result: &StepResult, error_id: String, now: Timestamp)
    requires
        old(state).version < u64::MAX,
        steps_unique(old(state).step_states@),
    ensures
        steps_unique(final(state).step_states@),
        final(state).version == old(state).version + 1,
        final(state).last_heartbeat == now,
        final(state).metadata.updated_at == now,
        final(state).step_states@.len() == old(state).step_states@.len(),
        final(state).status == old(state).status,
        result.success ==> final(state).last_success_timestamp == now
            && final(state).records_processed == sat_add(old(state).records_processed, 1)
            && final(state).records_failed == old(state).records_failed
            && final(state).errors@ == old(state).errors@,
        !result.success ==> final(state).last_success_timestamp == old(state).last_success_timestamp
            && final(state).records_processed == old(state).records_processed
            && final(state).records_failed == sat_add(old(state).records_failed, 1)
            && final(state).retry_count == sat_add(old(state).retry_count, result.retry_count as u64),
        !result.success && result.error is None ==> final(state).errors@ == old(state).errors@,
        !result.success && result.error is Some ==> final(state).errors@.len() == old(state).errors@.len() + 1
            && final(state).errors@.drop_last() == old(state).errors@ && ({
            let e = final(state).errors@.last();
            &&& e.error_id@ == error_id@
            &&& e.step_id matches Some(s) && s@ == result.step_id@
            &&& e.error_type == ErrorType::Processing
            &&& e.message@ == result.error->0@
            &&& e.context@ == "Step failed after "@ + decimal_text(result.retry_count as nat) + " retries"@
            &&& e.timestamp == now
            &&& e.retryable == retryable_after(result.retry_count)
            &&& e.stack_trace is None
        }),
        step_index(old(state).step_states@, result.step_id@) matches Some(i) ==> ({
            let st = final(state).step_states@[i];
            let o = old(state).step_states@[i];
            &&& st.step_id == o.step_id
            &&& (result.success ==> st.status == StepStatus::Completed { completed_at: now })
            &&& (!result.success ==> (st.status matches StepStatus::Failed { error, failed_at }
                && failed_at == now && error@ == (if result.error is Some { result.error->0@ } else { "Unknown error"@ })))
            &&& st.processing_time_ms == result.duration_ms
            &&& st.last_heartbeat == now
            &&& st.retry_count == result.retry_count as u64
            &&& st.error_count == if result.success { o.error_count } else { sat_add(o.error_count, 1) }
        }),
        forall|k: int| 0 <= k < old(state).step_states@.len() && Some(k) != step_index(old(state).step_states@, result.step_id@)
            ==> #[trigger] final(state).step_states@[k] == old(state).step_states@[k],
{
    if let Some(i) = find_step(&state.step_states, &result.step_id) {
        let ghost before = state.step_states@;
        let mut st = state.step_states.remove(i);
        st.status = if result.success {
            StepStatus::Completed { completed_at: now }
        } else {
            StepStatus::Failed {
                error: match &result.error {
                    Some(e) => copy_string(e),
                    None => String::from_str("Unknown error"),
                },
                failed_at: now,
            }
        };
        st.processing_time_ms = result.duration_ms;
        st.last_heartbeat = now;
        st.retry_count = result.retry_count as u64;
        if !result.success {
            st.error_count = add_sat(st.error_count, 1);
        }
        state.step_states.insert(i, st);
        proof {
            assert forall|k: int| 0 <= k < before.len() && k != i implies #[trigger] state.step_states@[k] == before[k] by {
                if k < i {
                } else {
                }
            }
            assert forall|a: int, b: int| 0 <= a < state.step_states@.len() && 0 <= b < state.step_states@.len() && a != b
                implies #[trigger] state.step_states@[a].step_id@ != #[trigger] state.step_states@[b].step_id@ by {
                assert(state.step_states@[a].step_id@ == before[a].step_id@);
                assert(state.step_states@[b].step_id@ == before[b].step_id@);
            }
        }
    }
    if result.success {
        state.last_success_timestamp = now;
        state.records_processed = add_sat(state.records_processed, 1);
    } else {
        state.records_failed = add_sat(state.records_failed, 1);
        state.retry_count = add_sat(state.retry_count, result.retry_count as u64);
        if let Some(msg) = &result.error {
            let mut context = String::from_str("Step failed after ");
            let count = u64_text(result.retry_count as u64);
            context.append(count.as_str());
            context.append(" retries");
            let record = ErrorRecord {
                error_id,
                step_id: Some(copy_string(&result.step_id)),
                error_type: ErrorType::Processing,
                message: copy_string(msg),
                context,
                timestamp: now,
                retryable: result.retry_count < 3,
                stack_trace: None,
            };
            let ghost before = state.errors@;
            state.errors.push(record);
            assert(state.errors@.drop_last() =~= before);
        }
    }
    state.last_heartbeat = now;
    state.metadata.updated_at = now;
    state.version = state.version + 1;
}

/// The completion estimate after a checkpoint at `now`: ten more records at
/// the average time per record so far (elapsed time counted from the start,
/// none when the clock reads earlier than the start), up to the latest time
/// representable.
pub open spec fn completion_estimate(started_at: Timestamp, now: Timestamp, records: u64) -> Timestamp {
    let elapsed = if now >= started_at { now - started_at } else { 0 };
    let est = now + elapsed * 10 / records as int;
    if est > i64::MAX { i64::MAX } else { est as Timestamp }
}

/// Records a checkpoint at `now` after `data_size` more bytes: the
/// checkpoint count and time, the bytes processed, and, once records have
/// been processed, a fresh completion estimate.
pub fn create_checkpoint(state: &mut PipelineState, data_size: u64, now: Timestamp)
    requires
        old(state).version < u64::MAX,
    ensures
        final(state).version == old(state).version + 1,
        final(state).data_size_processed == sat_add(old(state).data_size_processed, data_size),
        final(state).metadata.checkpoint_count == sat_add(old(state).metadata.checkpoint_count, 1),
        final(state).metadata.last_checkpoint_at == now,
        final(state).metadata.updated_at == now,
        final(state).last_heartbeat == now,
        old(state).records_processed > 0 ==> final(state).estimated_completion == Some(
            completion_estimate(old(state).started_at, now, old(state).records_processed),
        ),
        old(state).records_processed == 0 ==> final(state).estimated_completion == old(state).estimated_completion,
        final(state).step_states == old(state).step_states,
        final(state).status == old(state).status,
        final(state).records_processed == old(state).records_processed,
{
    state.data_size_processed = add_sat(state.data_size_processed, data_size);
    state.last_heartbeat = now;
    state.metadata.updated_at = now;
    state.metadata.checkpoint_count = add_sat(state.metadata.checkpoint_count, 1);
    state.metadata.last_checkpoint_at = now;
    if state.records_processed > 0 {
        let elapsed: i128 = if now >= state.started_at { now as i128 - state.started_at as i128 } else { 0 };
        let records = state.records_processed as i128;
        proof {
            let e = elapsed as int;
            let n = records as int;
            assert(0 <= (e * 10) / n <= e * 10) by (nonlinear_arith)
                requires
                    e >= 0,
                    n >= 1,
            ;
        }
        let est: i128 = now as i128 + elapsed * 10 / records;
        state.estimated_completion = Some(if est > i64::MAX as i128 { i64::MAX } else { est as i64 });
    }
    state.version = state.version + 1;
}

/// Records the end of the run at `now`: completed when `result` succeeded,
/// else failed with the count of failed steps.
pub fn complete_pipeline(state: &mut PipelineState, result: &PipelineResult, now: Timestamp)
    requires
        old(state).version < u64::MAX,
    ensures
        final(state).version == old(state).version + 1,
        result.success ==> final(state).status == (PipelineStatus::Completed { completed_at: now }),
        !result.success ==> (final(state).status matches PipelineStatus::Failed { failed_at, error }
            && failed_at == now && error@ == "Pipeline failed with "@ + decimal_text(result.steps_failed as nat) + " errors"@),
        final(state).last_heartbeat == now,
        final(state).metadata.updated_at == now,
        result.success ==> final(state).last_success_timestamp == now,
        !result.success ==> final(state).last_success_timestamp == old(state).last_success_timestamp,
        final(state).step_states == old(state).step_states,
        final(state).errors == old(state).errors,
{
    if result.success {
        state.status = PipelineStatus::Completed { completed_at: now };
        state.last_success_timestamp = now;
    } else {
        let mut error = String::from_str("Pipeline failed with ");
        let count = u64_text(result.steps_failed as u64);
        error.append(count.as_str());
        error.append(" errors");
        state.status = PipelineStatus::Failed { failed_at: now, error };
    }
    state.last_heartbeat = now;
    state.metadata.updated_at = now;
    state.version = state.version + 1;
}

/// A stored run can be resumed when it is running or paused.
pub fn can_resume(state: &PipelineState) -> (r: bool)
    ensures
        r == (state.status is Running || state.status is Paused),
{
    match state.status {
        PipelineStatus::Running { .. } | PipelineStatus::Paused { .. } => true,
        _ => false,
    }
}

/// Adds `records` processed records and `bytes` processed bytes (each up to
/// the largest `u64`), moves the last processed id when one is given, and
/// bumps the version at `now`.
pub fn update_progress(state: &mut PipelineState, records: u64, bytes: u64, last_processed_id: Option<String>, now: Timestamp)
    requires
        old(state).version < u64::MAX,
    ensures
        final(state).records_processed == sat_add(old(state).records_processed, records),
        final(state).data_size_processed == sat_add(old(state).data_size_processed, bytes),
        last_processed_id matches Some(id) ==> final(state).last_processed_id == id,
        last_processed_id is None ==> final(state).last_processed_id == old(state).last_processed_id,
        final(state).version == old(state).version + 1,
        final(state).metadata.updated_at == now,
        final(state).step_states == old(state).step_states,
        final(state).status == old(state).status,
{
    state.records_processed = add_sat(state.records_processed, records);
    state.data_size_processed = add_sat(state.data_size_processed, bytes);
    if let Some(id) = last_processed_id {
        state.last_processed_id = id;
    }
    state.metadata.updated_at = now;
    state.version = state.version + 1;
}

/// The state of step `step_id`, if the run has one.
pub fn get_step_state<'a>(state: &'a PipelineState, step_id: &String) -> (r: Option<&'a StepState>)
    requires
        steps_unique(state.step_states@),
    ensures
        r is None <==> step_index(state.step_states@, step_id@) is None,
        r matches Some(st) ==> *st == state.step_states@[step_index(state.step_states@, step_id@)->0],
{
    match find_step(&state.step_states, step_id) {
        Some(i) => Some(&state.step_states[i]),
        None => None,
    }
}

/// Stores `step` as the state of its step, replacing any earlier one, and
/// bumps the version at `now`.
pub fn update_step_state(state: &mut PipelineState, step: StepState, now: Timestamp)
    requires
        old(state).version < u64::MAX,
        steps_unique(old(state).step_states@),
    ensures
        steps_unique(final(state).step_states@),
        step_index(final(state).step_states@, step.step_id@) matches Some(i) && final(state).step_states@[i] == step,
        forall|k: int| 0 <= k < old(state).step_states@.len() && old(state).step_states@[k].step_id@ != step.step_id@
            ==> #[trigger] final(state).step_states@[k] == old(state).step_states@[k],
        final(state).version == old(state).version + 1,
        final(state).metadata.updated_at == now,
{
    let ghost id = step.step_id@;
    let ghost st = step;
    match find_step(&state.step_states, &step.step_id) {
        Some(i) => {
            let ghost before = state.step_states@;
            state.step_states.set(i, step);
            proof {
                assert forall|a: int, b: int| 0 <= a < state.step_states@.len() && 0 <= b < state.step_states@.len() && a != b
                    implies #[trigger] state.step_states@[a].step_id@ != #[trigger] state.step_states@[b].step_id@ by {
                    if a != i && b != i {
                        assert(before[a] == state.step_states@[a]);
                        assert(before[b] == state.step_states@[b]);
                    }
                }
                assert(0 <= i < state.step_states@.len() && state.step_states@[i as int].step_id@ == id);
                let j = choose|j: int| 0 <= j < state.step_states@.len() && state.step_states@[j].step_id@ == id;
                assert(j == i);
            }
        },
        None => {
            let ghost before = state.step_states@;
            state.step_states.push(step);
            proof {
                let n = before.len() as int;
                assert forall|a: int, b: int| 0 <= a < state.step_states@.len() && 0 <= b < state.step_states@.len() && a != b
                    implies #[trigger] state.step_states@[a].step_id@ != #[trigger] state.step_states@[b].step_id@ by {
                    if a < n && b < n {
                        assert(before[a] == state.step_states@[a]);
                        assert(before[b] == state.step_states@[b]);
                    } else if a < n {
                        assert(before[a] == state.step_states@[a]);
                        assert(!(0 <= a < before.len() && before[a].step_id@ == id));
                    } else {
                        assert(before[b] == state.step_states@[b]);
                        assert(!(0 <= b < before.len() && before[b].step_id@ == id));
                    }
                }
                assert(0 <= n < state.step_states@.len() && state.step_states@[n].step_id@ == id);
                let j = choose|j: int| 0 <= j < state.step_states@.len() && state.step_states@[j].step_id@ == id;
                assert(j == n);
            }
        },
    }
    state.metadata.updated_at = now;
    state.version = state.version + 1;
}

} // verus!
