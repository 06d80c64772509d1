//! Persistent pipeline state: the record that the state backends store, its
//! per-step entries, error records, and the self-validation rules.
//!
//! Timestamps are milliseconds since the Unix epoch, in UTC.
use vstd::prelude::*;

verus! {

/// Milliseconds since the Unix epoch, in UTC.
pub type Timestamp = i64;

/// Overall status of a pipeline run.
#[derive(Debug, Clone, PartialEq, Eq)]
pub enum PipelineStatus {
    Pending,
    Running { started_at: Timestamp },
    Completed { completed_at: Timestamp },
    Failed { failed_at: Timestamp, error: String },
    Paused { paused_at: Timestamp },
}

/// Status of one step of a run.
#[derive(Debug, Clone, PartialEq, Eq)]
pub enum StepStatus {
    Pending,
    Running { started_at: Timestamp },
    Completed { completed_at: Timestamp },
    Failed { error: String, failed_at: Timestamp },
    Skipped { reason: String },
}

/// Classification of a recorded error.
#[derive(Debug, Clone, Copy, PartialEq, Eq, Structural)]
pub enum ErrorType {
    Configuration,
    Network,
    Processing,
    Resource,
    Unknown,
}

/// One entry of the append-only error log of a run.
#[derive(Debug, Clone)]
pub struct ErrorRecord {
    pub error_id: String,
    pub step_id: Option<String>,
    pub error_type: ErrorType,
    pub message: String,
    pub context: String,
    pub timestamp: Timestamp,
    pub retryable: bool,
    pub stack_trace: Option<String>,
}

/// State of one step of a run.
#[derive(Debug, Clone)]
pub struct StepState {
    pub step_id: String,
    pub step_name: String,
    pub status: StepStatus,
    pub last_processed_id: String,
    pub records_processed: u64,
    pub processing_time_ms: u64,
    pub worker_id: Option<String>,
    pub last_heartbeat: Timestamp,
    pub retry_count: u64,
    pub error_count: u64,
    pub config_hash: Option<String>,
}

/// Bookkeeping about the state record itself.
#[derive(Debug, Clone)]
pub struct StateMetadata {
    pub created_at: Timestamp,
    pub updated_at: Timestamp,
    pub schema_version: String,
    pub state_backend: String,
    pub checkpoint_count: u64,
    pub last_checkpoint_at: Timestamp,
    pub pipeline_name: Option<String>,
    pub pipeline_version: Option<String>,
    pub environment: Option<String>,
    pub tags: Vec<(String, String)>,
}

/// The durable state of one pipeline run.
///
/// `step_states` holds one entry per step id (see `steps_unique`).
#[derive(Debug, Clone)]
pub struct PipelineState {
    pub pipeline_id: String,
    pub run_id: String,
    pub version: u64,
    pub last_processed_id: String,
    pub batch_number: u64,
    pub records_processed: u64,
    pub records_failed: u64,
    pub data_size_processed: u64,
    pub current_step: String,
    pub step_states: Vec<StepState>,
    pub status: PipelineStatus,
    pub started_at: Timestamp,
    pub last_success_timestamp: Timestamp,
    pub estimated_completion: Option<Timestamp>,
    pub errors: Vec<ErrorRecord>,
    pub retry_count: u64,
    pub worker_id: Option<String>,
    pub last_heartbeat: Timestamp,
    pub metadata: StateMetadata,
}

/// Errors of the state subsystem.
#[derive(Debug, Clone)]
pub enum StateError {
    PipelineNotFound { pipeline_id: String },
    StateFileNotFound { path: String },
    LockAlreadyHeld { worker_id: String },
    LockTimeout { timeout_ms: u64 },
    VersionConflict { expected: u64, actual: u64 },
    SerializationError { details: String },
    IoError { details: String },
    BackendError { details: String },
    InvalidState { details: String },
    WorkerNotFound { worker_id: String },
    StateCorrupted { path: String, reason: String },
    BackupFailed { details: String },
    RecoveryFailed { details: String },
    ValidationFailed { validation_errors: Vec<String> },
    FileSystemError { operation: String, path: String, error: String },
    PermissionDenied { path: String },
    InsufficientDiskSpace { required_bytes: u64, available_bytes: u64 },
    MaxRetriesExceeded { max_retries: u32, operation: String },
}

/// Relies on `chrono::Utc::now` and `timestamp_millis`: the current time in
/// milliseconds since the epoch.
#[verifier::external_body]
pub(crate) fn utc_now_millis() -> (r: Timestamp) {
    chrono::Utc::now().timestamp_millis()
}

/// Relies on `uuid::Uuid::new_v4` and its hyphenated text form, which is
/// 36 characters long.
#[verifier::external_body]
pub(crate) fn random_uuid() -> (r: String)
    ensures
        r@.len() == 36,
{
    uuid::Uuid::new_v4().to_string()
}

/// Copies a string, keeping its contents.
pub fn copy_string(s: &String) -> (r: String)
    ensures
        r@ == s@,
{
    s.clone()
}

/// Copies an optional string, keeping its contents.
pub fn copy_opt_string(s: &Option<String>) -> (r: Option<String>)
    ensures
        r is Some <==> s is Some,
        s is Some ==> r->0@ == s->0@,
{
    match s {
        Some(v) => Some(v.clone()),
        None => None,
    }
}

/// No step id occurs twice among the step states.
pub open spec fn steps_unique(steps: Seq<StepState>) -> bool {
    forall|i: int, j: int|
        0 <= i < steps.len() && 0 <= j < steps.len() && i != j ==> #[trigger] steps[i].step_id@
            != #[trigger] steps[j].step_id@
}

/// One for a broken rule, none for a kept one.
pub open spec fn ind(broken: bool) -> nat {
    if broken { 1 } else { 0 }
}

/// How many rules one step state breaks at `now` within a run started at
/// `started_at`: a completed step needs processing metrics, and the time its
/// status carries lies neither in the future nor before the start.
pub open spec fn step_problems(st: StepState, now: Timestamp, started_at: Timestamp) -> nat {
    match st.status {
        StepStatus::Running { started_at: t } => ind(t > now) + ind(t < started_at),
        StepStatus::Completed { completed_at: t } => ind(st.records_processed == 0 && st.processing_time_ms == 0)
            + ind(t > now) + ind(t < started_at),
        StepStatus::Failed { failed_at: t, .. } => ind(t > now) + ind(t < started_at),
        _ => 0,
    }
}

/// The rules that one step state must meet at time `now`.
pub open spec fn step_is_valid(st: StepState, now: Timestamp, started_at: Timestamp) -> bool {
    step_problems(st, now, started_at) == 0
}

/// How many rules the first `n` step states break.
pub open spec fn steps_problems(steps: Seq<StepState>, n: int, now: Timestamp, started_at: Timestamp) -> nat
    decreases n,
{
    if n <= 0 || n > steps.len() {
        0
    } else {
        steps_problems(steps, n - 1, now, started_at) + step_problems(steps[n - 1], now, started_at)
    }
}

/// How many rules the pipeline status breaks at `now`.
pub open spec fn status_problems(s: PipelineState, now: Timestamp) -> nat {
    match s.status {
        PipelineStatus::Running { started_at } => ind(started_at > now) + ind(s.current_step@.len() == 0),
        PipelineStatus::Completed { completed_at } => ind(completed_at < s.started_at) + ind(completed_at > now),
        PipelineStatus::Failed { failed_at, .. } => ind(failed_at < s.started_at) + ind(failed_at > now),
        _ => 0,
    }
}

/// The rules of the pipeline status at time `now`.
pub open spec fn status_is_valid(s: PipelineState, now: Timestamp) -> bool {
    status_problems(s, now) == 0
}

/// Some step has processed records.
pub open spec fn some_step_has_records(steps: Seq<StepState>) -> bool {
    exists|i: int| 0 <= i < steps.len() && #[trigger] steps[i].records_processed > 0
}

/// How many rules one error record breaks: its time lies before the start,
/// its message is empty.
pub open spec fn error_problems(e: ErrorRecord, started_at: Timestamp) -> nat {
    ind(e.timestamp < started_at) + ind(e.message@.len() == 0)
}

/// The rules one error record must meet within a run started at `started_at`.
pub open spec fn error_is_valid(e: ErrorRecord, started_at: Timestamp) -> bool {
    error_problems(e, started_at) == 0
}

/// How many rules the first `n` error records break.
pub open spec fn errors_problems(errs: Seq<ErrorRecord>, n: int, started_at: Timestamp) -> nat
    decreases n,
{
    if n <= 0 || n > errs.len() {
        0
    } else {
        errors_problems(errs, n - 1, started_at) + error_problems(errs[n - 1], started_at)
    }
}

/// How many rules of `validate` the state breaks at `now`; `validate`
/// reports one message for each.
pub open spec fn problem_count(s: PipelineState, now: Timestamp) -> nat {
    ind(s.pipeline_id@.len() == 0) + ind(s.run_id@.len() == 0) + ind(s.version == 0) + status_problems(s, now)
        + steps_problems(s.step_states@, s.step_states@.len() as int, now, s.started_at)
        + ind(some_step_has_records(s.step_states@) && s.records_processed == 0)
        + ind(s.last_success_timestamp < s.started_at) + ind(s.last_heartbeat < s.started_at)
        + errors_problems(s.errors@, s.errors@.len() as int, s.started_at)
}

/// A state is valid at time `now` when every rule of `validate` holds.
pub open spec fn state_is_valid(s: PipelineState, now: Timestamp) -> bool {
    &&& s.pipeline_id@.len() > 0
    &&& s.run_id@.len() > 0
    &&& s.version > 0
    &&& status_is_valid(s, now)
    &&& forall|i: int| 0 <= i < s.step_states@.len() ==> step_is_valid(#[trigger] s.step_states@[i], now, s.started_at)
    &&& (some_step_has_records(s.step_states@) ==> s.records_processed > 0)
    &&& s.last_success_timestamp >= s.started_at
    &&& s.last_heartbeat >= s.started_at
    &&& forall|i: int| 0 <= i < s.errors@.len() ==> error_is_valid(#[trigger] s.errors@[i], s.started_at)
}

proof fn lemma_steps_zero(steps: Seq<StepState>, n: int, now: Timestamp, started_at: Timestamp)
    requires
        0 <= n <= steps.len(),
    ensures
        steps_problems(steps, n, now, started_at) == 0 <==> forall|k: int| 0 <= k < n ==> step_is_valid(#[trigger] steps[k], now, started_at),
    decreases n,
{
    if n > 0 {
        lemma_steps_zero(steps, n - 1, now, started_at);
    }
}

proof fn lemma_errors_zero(errs: Seq<ErrorRecord>, n: int, started_at: Timestamp)
    requires
        0 <= n <= errs.len(),
    ensures
        errors_problems(errs, n, started_at) == 0 <==> forall|k: int| 0 <= k < n ==> error_is_valid(#[trigger] errs[k], started_at),
    decreases n,
{
    if n > 0 {
        lemma_errors_zero(errs, n - 1, started_at);
    }
}

/// A state is valid exactly when it breaks no rule.
pub proof fn valid_iff_no_problems(s: PipelineState, now: Timestamp)
    ensures
        state_is_valid(s, now) <==> problem_count(s, now) == 0,
{
    lemma_steps_zero(s.step_states@, s.step_states@.len() as int, now, s.started_at);
    lemma_errors_zero(s.errors@, s.errors@.len() as int, s.started_at);
}

/// The rules of `validate` that do not depend on the time: non-empty ids,
/// a positive version, heartbeat and last success not before the start,
/// step records reflected in the run's total, error records in order.
pub open spec fn timeless_rules_hold(s: PipelineState) -> bool {
    &&& s.pipeline_id@.len() > 0
    &&& s.run_id@.len() > 0
    &&& s.version > 0
    &&& (some_step_has_records(s.step_states@) ==> s.records_processed > 0)
    &&& s.last_success_timestamp >= s.started_at
    &&& s.last_heartbeat >= s.started_at
    &&& forall|i: int| 0 <= i < s.errors@.len() ==> error_is_valid(#[trigger] s.errors@[i], s.started_at)
}

/// `b` is step `a` marked running since `now`.
pub open spec fn step_started(a: StepState, b: StepState, now: Timestamp) -> bool {
    b == (StepState { status: StepStatus::Running { started_at: now }, last_heartbeat: now, ..a })
}

/// `b` is step `a` marked completed at `now`.
pub open spec fn step_completed(a: StepState, b: StepState, now: Timestamp) -> bool {
    b == (StepState { status: StepStatus::Completed { completed_at: now }, last_heartbeat: now, ..a })
}

/// `b` is step `a` marked failed with `error` at `now`, one more error counted.
pub open spec fn step_failed_with(a: StepState, b: StepState, error: String, now: Timestamp) -> bool {
    b == (StepState {
        status: StepStatus::Failed { error, failed_at: now },
        error_count: if a.error_count < u64::MAX { (a.error_count + 1) as u64 } else { a.error_count },
        last_heartbeat: now,
        ..a
    })
}

/// `b` is `a` with its version raised by one and its update time set to `now`.
pub open spec fn bumped(a: PipelineState, b: PipelineState, now: Timestamp) -> bool {
    b == (PipelineState {
        version: (a.version + 1) as u64,
        metadata: StateMetadata { updated_at: now, ..a.metadata },
        ..a
    })
}

fn lit(s: &str) -> (r: String)
    ensures
        r@ == s@,
{
    String::from_str(s)
}

fn step_message(prefix: &str, step_id: &String, suffix: &str) -> (r: String) {
    let mut m = String::from_str(prefix);
    m.append(step_id.as_str());
    m.append(suffix);
    m
}

impl StepState {
    /// A fresh, pending step state, stamped now.
    pub fn new(step_id: String, step_name: String) -> (r: StepState)
        ensures
            r.step_id@ == step_id@,
            r.step_name@ == step_name@,
            r.status == StepStatus::Pending,
            r.last_processed_id@.len() == 0,
            r.records_processed == 0,
            r.processing_time_ms == 0,
            r.worker_id is None,
            r.retry_count == 0,
            r.error_count == 0,
            r.config_hash is None,
    {
        Self::new_at(step_id, step_name, utc_now_millis())
    }

    /// A fresh, pending step state, stamped `now`.
    pub fn new_at(step_id: String, step_name: String, now: Timestamp) -> (r: StepState)
        ensures
            r.step_id@ == step_id@,
            r.step_name@ == step_name@,
            r.status == StepStatus::Pending,
            r.last_processed_id@.len() == 0,
            r.records_processed == 0,
            r.processing_time_ms == 0,
            r.worker_id is None,
            r.last_heartbeat == now,
            r.retry_count == 0,
            r.error_count == 0,
            r.config_hash is None,
    {
        StepState {
            step_id,
            step_name,
            status: StepStatus::Pending,
            last_processed_id: String::new(),
            records_processed: 0,
            processing_time_ms: 0,
            worker_id: None,
            last_heartbeat: now,
            retry_count: 0,
            error_count: 0,
            config_hash: None,
        }
    }

    /// Marks the step as running since now.
    pub fn start(&mut self)
        ensures
            exists|now: Timestamp| #[trigger] step_started(*old(self), *final(self), now),
    {
        let now = utc_now_millis();
        self.start_at(now);
        assert(step_started(*old(self), *self, now));
    }

    /// Marks the step as running since `now`.
    pub fn start_at(&mut self, now: Timestamp)
        ensures
            *final(self) == (StepState {
                status: StepStatus::Running { started_at: now },
                last_heartbeat: now,
                ..*old(self)
            }),
    {
        self.status = StepStatus::Running { started_at: now };
        self.last_heartbeat = now;
    }

    /// Marks the step as completed now.
    pub fn complete(&mut self)
        ensures
            exists|now: Timestamp| #[trigger] step_completed(*old(self), *final(self), now),
    {
        let now = utc_now_millis();
        self.complete_at(now);
        assert(step_completed(*old(self), *self, now));
    }

    /// Marks the step as completed at `now`.
    pub fn complete_at(&mut self, now: Timestamp)
        ensures
            *final(self) == (StepState {
                status: StepStatus::Completed { completed_at: now },
                last_heartbeat: now,
                ..*old(self)
            }),
    {
        self.status = StepStatus::Completed { completed_at: now };
        self.last_heartbeat = now;
    }

    /// Marks the step as failed now, counting one more error.
    pub fn fail(&mut self, error: String)
        ensures
            final(self).status matches StepStatus::Failed { error: e, .. } && e == error,
            final(self).error_count == if old(self).error_count < u64::MAX {
                (old(self).error_count + 1) as u64
            } else {
                old(self).error_count
            },
            final(self).step_id == old(self).step_id,
            exists|now: Timestamp| #[trigger] step_failed_with(*old(self), *final(self), error, now),
    {
        let ghost e = error;
        let now = utc_now_millis();
        self.fail_at(error, now);
        assert(step_failed_with(*old(self), *self, e, now));
    }

    /// Marks the step as failed at `now`, counting one more error.
    pub fn fail_at(&mut self, error: String, now: Timestamp)
        ensures
            *final(self) == (StepState {
                status: StepStatus::Failed { error, failed_at: now },
                error_count: if old(self).error_count < u64::MAX {
                    (old(self).error_count + 1) as u64
                } else {
                    old(self).error_count
                },
                last_heartbeat: now,
                ..*old(self)
            }),
    {
        self.status = StepStatus::Failed { error, failed_at: now };
        if self.error_count < u64::MAX {
            self.error_count = self.error_count + 1;
        }
        self.last_heartbeat = now;
    }
}

impl StepState {
    /// The step is running.
    pub fn is_running(&self) -> (r: bool)
        ensures
            r == (self.status is Running),
    {
        matches!(self.status, StepStatus::Running { .. })
    }

    /// The step has completed.
    pub fn is_completed(&self) -> (r: bool)
        ensures
            r == (self.status is Completed),
    {
        matches!(self.status, StepStatus::Completed { .. })
    }

    /// The step has failed.
    pub fn is_failed(&self) -> (r: bool)
        ensures
            r == (self.status is Failed),
    {
        matches!(self.status, StepStatus::Failed { .. })
    }
}

impl ErrorRecord {
    /// A record stamped now, under a fresh random id.
    pub fn new(
        step_id: Option<String>,
        error_type: ErrorType,
        message: String,
        context: String,
        retryable: bool,
    ) -> (r: ErrorRecord)
        ensures
            r.error_id@.len() == 36,
            r.step_id == step_id,
            r.error_type == error_type,
            r.message == message,
            r.context == context,
            r.retryable == retryable,
            r.stack_trace is None,
    {
        ErrorRecord {
            error_id: random_uuid(),
            step_id,
            error_type,
            message,
            context,
            timestamp: utc_now_millis(),
            retryable,
            stack_trace: None,
        }
    }

    /// A configuration error of the whole run; not retryable.
    pub fn config_error(message: String, context: String) -> (r: ErrorRecord)
        ensures
            r.error_id@.len() == 36,
            r.step_id is None,
            r.error_type == ErrorType::Configuration,
            r.message == message,
            r.context == context,
            !r.retryable,
    {
        Self::new(None, ErrorType::Configuration, message, context, false)
    }

    /// A processing error of step `step_id`.
    pub fn processing_error(step_id: String, message: String, context: String, retryable: bool) -> (r: ErrorRecord)
        ensures
            r.error_id@.len() == 36,
            r.step_id == Some(step_id),
            r.error_type == ErrorType::Processing,
            r.message == message,
            r.context == context,
            r.retryable == retryable,
    {
        Self::new(Some(step_id), ErrorType::Processing, message, context, retryable)
    }

    /// A network error of step `step_id`; retryable.
    pub fn network_error(step_id: String, message: String, context: String) -> (r: ErrorRecord)
        ensures
            r.error_id@.len() == 36,
            r.step_id == Some(step_id),
            r.error_type == ErrorType::Network,
            r.message == message,
            r.context == context,
            r.retryable,
    {
        Self::new(Some(step_id), ErrorType::Network, message, context, true)
    }
}

impl PipelineState {
    /// A new pending state for `pipeline_id`, version 1, every timestamp now.
    pub fn new(pipeline_id: String, run_id: String) -> (r: PipelineState)
        ensures
            r.pipeline_id@ == pipeline_id@,
            r.run_id@ == run_id@,
            r.version == 1,
            r.records_processed == 0,
            r.status == PipelineStatus::Pending,
            r.step_states@.len() == 0,
            r.errors@.len() == 0,
            r.last_heartbeat == r.started_at,
            r.last_success_timestamp == r.started_at,
            r.last_processed_id@.len() == 0,
            r.batch_number == 0,
            r.records_failed == 0,
            r.data_size_processed == 0,
            r.current_step@.len() == 0,
            r.estimated_completion is None,
            r.retry_count == 0,
            r.worker_id is None,
            r.metadata.created_at == r.started_at,
            r.metadata.updated_at == r.started_at,
            r.metadata.last_checkpoint_at == r.started_at,
            r.metadata.schema_version@ == "1.0.0"@,
            r.metadata.state_backend@ == "file"@,
            r.metadata.checkpoint_count == 0,
            r.metadata.pipeline_name is None,
            r.metadata.pipeline_version is None,
            r.metadata.environment is None,
            r.metadata.tags@.len() == 0,
    {
        Self::new_at(pipeline_id, run_id, utc_now_millis())
    }

    /// A new pending state for `pipeline_id`, version 1, every timestamp `now`.
    pub fn new_at(pipeline_id: String, run_id: String, now: Timestamp) -> (r: PipelineState)
        ensures
            r.pipeline_id@ == pipeline_id@,
            r.run_id@ == run_id@,
            r.version == 1,
            r.last_processed_id@.len() == 0,
            r.batch_number == 0,
            r.records_processed == 0,
            r.records_failed == 0,
            r.data_size_processed == 0,
            r.current_step@.len() == 0,
            r.step_states@.len() == 0,
            r.status == PipelineStatus::Pending,
            r.started_at == now,
            r.last_success_timestamp == now,
            r.estimated_completion is None,
            r.errors@.len() == 0,
            r.retry_count == 0,
            r.worker_id is None,
            r.last_heartbeat == now,
            r.metadata.created_at == now,
            r.metadata.updated_at == now,
            r.metadata.schema_version@ == "1.0.0"@,
            r.metadata.state_backend@ == "file"@,
            r.metadata.checkpoint_count == 0,
            r.metadata.last_checkpoint_at == now,
            r.metadata.pipeline_name is None,
            r.metadata.pipeline_version is None,
            r.metadata.environment is None,
            r.metadata.tags@.len() == 0,
    {
        PipelineState {
            pipeline_id,
            run_id,
            version: 1,
            last_processed_id: String::new(),
            batch_number: 0,
            records_processed: 0,
            records_failed: 0,
            data_size_processed: 0,
            current_step: String::new(),
            step_states: Vec::new(),
            status: PipelineStatus::Pending,
            started_at: now,
            last_success_timestamp: now,
            estimated_completion: None,
            errors: Vec::new(),
            retry_count: 0,
            worker_id: None,
            last_heartbeat: now,
            metadata: StateMetadata {
                created_at: now,
                updated_at: now,
                schema_version: lit("1.0.0"),
                state_backend: lit("file"),
                checkpoint_count: 0,
                last_checkpoint_at: now,
                pipeline_name: None,
                pipeline_version: None,
                environment: None,
                tags: Vec::new(),
            },
        }
    }

    /// Raises the version by one and stamps the update time now.
    pub fn increment_version(&mut self)
        requires
            old(self).version < u64::MAX,
        ensures
            final(self).version == old(self).version + 1,
            bumped(*old(self), *final(self), final(self).metadata.updated_at),
    {
        self.increment_version_at(utc_now_millis())
    }

    /// Raises the version by one and stamps the update time.
    pub fn increment_version_at(&mut self, now: Timestamp)
        requires
            old(self).version < u64::MAX,
        ensures
            bumped(*old(self), *final(self), now),
    {
        self.version = self.version + 1;
        self.metadata.updated_at = now;
    }

    /// Appends an error record and bumps the version, now.
    pub fn add_error(&mut self, error: ErrorRecord)
        requires
            old(self).version < u64::MAX,
        ensures
            final(self).errors@ == old(self).errors@.push(error),
            final(self).version == old(self).version + 1,
            bumped((PipelineState { errors: final(self).errors, ..*old(self) }), *final(self), final(self).metadata.updated_at),
    {
        self.add_error_at(error, utc_now_millis())
    }

    /// Appends an error record and bumps the version.
    pub fn add_error_at(&mut self, error: ErrorRecord, now: Timestamp)
        requires
            old(self).version < u64::MAX,
        ensures
            final(self).errors@ == old(self).errors@.push(error),
            bumped((PipelineState { errors: final(self).errors, ..*old(self) }), *final(self), now),
    {
        self.errors.push(error);
        self.increment_version_at(now);
    }

    /// Refreshes the heartbeat and bumps the version, now.
    pub fn update_heartbeat(&mut self)
        requires
            old(self).version < u64::MAX,
        ensures
            final(self).version == old(self).version + 1,
            final(self).last_heartbeat == final(self).metadata.updated_at,
            bumped((PipelineState { last_heartbeat: final(self).last_heartbeat, ..*old(self) }), *final(self), final(self).metadata.updated_at),
    {
        self.update_heartbeat_at(utc_now_millis())
    }

    /// Refreshes the heartbeat to `now` and bumps the version.
    pub fn update_heartbeat_at(&mut self, now: Timestamp)
        requires
            old(self).version < u64::MAX,
        ensures
            bumped((PipelineState { last_heartbeat: now, ..*old(self) }), *final(self), now),
    {
        self.last_heartbeat = now;
        self.increment_version_at(now);
    }

    /// The run has sent no heartbeat for more than `stale_threshold_ms` at `now`.
    pub open spec fn is_stale_at(&self, stale_threshold_ms: u64, now: Timestamp) -> bool {
        now as int - self.last_heartbeat as int > stale_threshold_ms as int
    }

    /// The estimated memory of the state: the size of the record itself,
    /// its ids' lengths, 500 bytes per step and 200 per error.
    pub open spec fn memory_estimate(&self) -> int {
        (vstd::layout::size_of::<PipelineState>() + self.pipeline_id@.len() + self.run_id@.len()
            + self.last_processed_id@.len() + self.current_step@.len() + 500 * self.step_states@.len() + 200
            * self.errors@.len()) as int
    }

    /// The estimated memory of the state, up to the largest `u64`; see
    /// `memory_estimate`.
    pub fn estimated_memory_usage(&self) -> (r: u64)
        ensures
            r == if self.memory_estimate() > u64::MAX { u64::MAX as int } else { self.memory_estimate() },
    {
        let base = core::mem::size_of::<PipelineState>();
        let total: u128 = base as u128 + self.pipeline_id.unicode_len() as u128 + self.run_id.unicode_len() as u128
            + self.last_processed_id.unicode_len() as u128 + self.current_step.unicode_len() as u128
            + 500 * (self.step_states.len() as u128) + 200 * (self.errors.len() as u128);
        if total > u64::MAX as u128 { u64::MAX } else { total as u64 }
    }

    /// The run has sent no heartbeat for more than `stale_threshold_ms` now.
    pub fn is_stale(&self, stale_threshold_ms: u64) -> (r: bool)
        ensures
            exists|now: Timestamp| r == self.is_stale_at(stale_threshold_ms, now),
    {
        let now = utc_now_millis();
        let r = self.is_stale_now(stale_threshold_ms, now);
        assert(r == self.is_stale_at(stale_threshold_ms, now));
        r
    }

    /// The run has sent no heartbeat for more than `stale_threshold_ms` at `now`.
    pub fn is_stale_now(&self, stale_threshold_ms: u64, now: Timestamp) -> (r: bool)
        ensures
            r == self.is_stale_at(stale_threshold_ms, now),
    {
        (now as i128) - (self.last_heartbeat as i128) > (stale_threshold_ms as i128)
    }

    /// Checks the state's consistency now; see `validate_at`.
    pub fn validate(&self) -> (r: Result<(), Vec<String>>)
        ensures
            exists|now: Timestamp| (r is Ok <==> state_is_valid(*self, now)) && (r matches Err(v) ==> v@.len()
                == problem_count(*self, now)),
            !timeless_rules_hold(*self) ==> r is Err,
            r matches Err(v) ==> v@.len() > 0,
    {
        let now = utc_now_millis();
        let r = self.validate_at(now);
        assert((r is Ok <==> state_is_valid(*self, now)) && (r matches Err(v) ==> v@.len() == problem_count(*self, now)));
        r
    }

    /// Checks the state's consistency at time `now`: `Ok` exactly when every
    /// rule holds, else the list of the rules broken.
    pub fn validate_at(&self, now: Timestamp) -> (r: Result<(), Vec<String>>)
        ensures
            r is Ok <==> state_is_valid(*self, now),
            r is Ok <==> problem_count(*self, now) == 0,
            r matches Err(v) ==> v@.len() == problem_count(*self, now) && v@.len() > 0,
    {
        let mut errors: Vec<String> = Vec::new();
        if self.pipeline_id.unicode_len() == 0 {
            errors.push(lit("Pipeline ID cannot be empty"));
        }
        if self.run_id.unicode_len() == 0 {
            errors.push(lit("Run ID cannot be empty"));
        }
        if self.version == 0 {
            errors.push(lit("Version must be greater than 0"));
        }
        let ghost before_status = errors@.len();
        match &self.status {
            PipelineStatus::Running { started_at } => {
                if *started_at > now {
                    errors.push(lit("Pipeline start time cannot be in the future"));
                }
                if self.current_step.unicode_len() == 0 {
                    errors.push(lit("Running pipeline must have a current step"));
                }
            },
            PipelineStatus::Completed { completed_at } => {
                if *completed_at < self.started_at {
                    errors.push(lit("Completion time cannot be before start time"));
                }
                if *completed_at > now {
                    errors.push(lit("Completion time cannot be in the future"));
                }
            },
            PipelineStatus::Failed { failed_at, .. } => {
                if *failed_at < self.started_at {
                    errors.push(lit("Failure time cannot be before start time"));
                }
                if *failed_at > now {
                    errors.push(lit("Failure time cannot be in the future"));
                }
            },
            _ => {},
        }
        assert(errors@.len() == before_status + status_problems(*self, now));
        let ghost before_steps = errors@.len();
        let mut any_records = false;
        let mut i: usize = 0;
        while i < self.step_states.len()
            invariant
                i <= self.step_states@.len(),
                errors@.len() == before_steps + steps_problems(self.step_states@, i as int, now, self.started_at),
                any_records <==> exists|k: int| 0 <= k < i && #[trigger] self.step_states@[k].records_processed > 0,
            decreases self.step_states@.len() - i,
        {
            let st = &self.step_states[i];
            let ghost at_start = errors@.len();
            match &st.status {
                StepStatus::Running { started_at: t } => {
                    if *t > now {
                        errors.push(step_message("Step '", &st.step_id, "' start time cannot be in the future"));
                    }
                    if *t < self.started_at {
                        errors.push(step_message("Step '", &st.step_id, "' start time cannot be before pipeline start"));
                    }
                },
                StepStatus::Completed { completed_at } => {
                    if st.records_processed == 0 && st.processing_time_ms == 0 {
                        errors.push(step_message("Completed step '", &st.step_id, "' should have processing metrics"));
                    }
                    if *completed_at > now {
                        errors.push(step_message("Step '", &st.step_id, "' completion time cannot be in the future"));
                    }
                    if *completed_at < self.started_at {
                        errors.push(step_message("Step '", &st.step_id, "' completion time cannot be before pipeline start"));
                    }
                },
                StepStatus::Failed { failed_at, .. } => {
                    if *failed_at > now {
                        errors.push(step_message("Step '", &st.step_id, "' failure time cannot be in the future"));
                    }
                    if *failed_at < self.started_at {
                        errors.push(step_message("Step '", &st.step_id, "' failure time cannot be before pipeline start"));
                    }
                },
                _ => {},
            }
            assert(errors@.len() == at_start + step_problems(self.step_states@[i as int], now, self.started_at));
            if st.records_processed > 0 {
                any_records = true;
            }
            i = i + 1;
        }
        if any_records && self.records_processed == 0 {
            errors.push(lit("Total records processed should reflect step totals"));
        }
        if self.last_success_timestamp < self.started_at {
            errors.push(lit("Last success timestamp cannot be before start time"));
        }
        if self.last_heartbeat < self.started_at {
            errors.push(lit("Last heartbeat cannot be before start time"));
        }
        let ghost before_errors = errors@.len();
        let mut j: usize = 0;
        while j < self.errors.len()
            invariant
                j <= self.errors@.len(),
                errors@.len() == before_errors + errors_problems(self.errors@, j as int, self.started_at),
            decreases self.errors@.len() - j,
        {
            let e = &self.errors[j];
            let ghost at_start = errors@.len();
            if e.timestamp < self.started_at {
                errors.push(lit("Error timestamp cannot be before pipeline start"));
            }
            if e.message.unicode_len() == 0 {
                errors.push(lit("Error message cannot be empty"));
            }
            assert(errors@.len() == at_start + error_problems(self.errors@[j as int], self.started_at));
            j = j + 1;
        }
        proof {
            valid_iff_no_problems(*self, now);
        }
        if errors.len() == 0 {
            Ok(())
        } else {
            Err(errors)
        }
    }
}

} // verus!
