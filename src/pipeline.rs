//! Pipeline declarations and the executor's policy: the per-step retry loop
//! with linear backoff, threading data forward, continue-or-abort on
//! failure, and the aggregated result.
//!
//! The executor awaits stages and sleeps between attempts; what it decides
//! at each point is here, as state machines that a runner drives.
use vstd::prelude::*;
use crate::data::{JsonValue, OxiData};
use crate::state::copy_string;

verus! {

/// Optional descriptive metadata of a declaration.
#[derive(Debug, Clone)]
pub struct PipelineMetadata {
    pub name: Option<String>,
    pub description: Option<String>,
    pub version: Option<String>,
    pub author: Option<String>,
}

/// One step of a declaration.
#[derive(Debug)]
pub struct PipelineStep {
    /// Selects the stage implementation.
    pub name: String,
    /// How later steps refer to this one; the name when absent.
    pub id: Option<String>,
    pub config: Vec<(String, JsonValue)>,
    pub continue_on_error: bool,
    /// Attempts after the first; zero runs the step once.
    pub retry_attempts: u32,
    pub timeout_seconds: Option<u64>,
}

/// A pipeline declaration: its steps in order, and optional metadata.
#[derive(Debug)]
pub struct Pipeline {
    pub pipeline: Vec<PipelineStep>,
    pub metadata: Option<PipelineMetadata>,
}

/// The result of one step.
#[derive(Debug)]
pub struct StepResult {
    pub step_id: String,
    pub success: bool,
    pub data: Option<OxiData>,
    pub error: Option<String>,
    /// The number of the attempt that ended the step, counting from zero.
    pub retry_count: u32,
    pub duration_ms: u64,
}

/// The result of a whole run.
#[derive(Debug)]
pub struct PipelineResult {
    pub success: bool,
    pub steps_executed: u32,
    pub steps_failed: u32,
    pub steps_skipped: u32,
    pub total_duration_ms: u64,
    pub step_results: Vec<StepResult>,
    pub final_data: Option<OxiData>,
}

/// What follows a failed attempt.
#[derive(Debug, Clone, Copy, PartialEq, Eq, Structural)]
pub enum AttemptDecision {
    /// Sleep `delay_ms`, then attempt again.
    Retry { delay_ms: u64 },
    /// The attempts are used up: the step has failed.
    GiveUp,
}

/// Milliseconds of backoff per attempt already made.
pub const BACKOFF_STEP_MS: u64 = 1000;

/// What follows the failure of attempt `attempt` (from zero) of a step
/// allowed `retry_attempts` retries: retry after `1000 × (attempt + 1)` ms
/// while retries remain.
pub open spec fn failure_verdict(attempt: u32, retry_attempts: u32) -> AttemptDecision {
    if attempt < retry_attempts {
        AttemptDecision::Retry { delay_ms: (BACKOFF_STEP_MS * (attempt + 1)) as u64 }
    } else {
        AttemptDecision::GiveUp
    }
}

/// What follows a failed attempt; see `failure_verdict`.
pub fn after_failed_attempt(attempt: u32, retry_attempts: u32) -> (r: AttemptDecision)
    ensures
        r == failure_verdict(attempt, retry_attempts),
{
    if attempt < retry_attempts {
        AttemptDecision::Retry { delay_ms: BACKOFF_STEP_MS * (attempt as u64 + 1) }
    } else {
        AttemptDecision::GiveUp
    }
}

/// A step that fails at every attempt is attempted exactly
/// `retry_attempts + 1` times: every attempt before the last is retried, the
/// last gives up, and the result records the last attempt's number.
pub proof fn failing_step_attempts_all(retry_attempts: u32, attempt: u32)
    requires
        attempt <= retry_attempts,
    ensures
        attempt < retry_attempts ==> failure_verdict(attempt, retry_attempts) is Retry,
        attempt == retry_attempts ==> failure_verdict(attempt, retry_attempts) == AttemptDecision::GiveUp,
{
}

/// The result of a step whose attempt `attempt` succeeded with `data`.
pub fn step_succeeded(step_id: String, data: OxiData, attempt: u32, duration_ms: u64) -> (r: StepResult)
    ensures
        r.step_id@ == step_id@,
        r.success,
        r.data == Some(data),
        r.error is None,
        r.retry_count == attempt,
        r.duration_ms == duration_ms,
{
    StepResult { step_id, success: true, data: Some(data), error: None, retry_count: attempt, duration_ms }
}

/// The result of a step whose last attempt, `attempt`, failed with `error`.
pub fn step_failed(step_id: String, error: String, attempt: u32, duration_ms: u64) -> (r: StepResult)
    ensures
        r.step_id@ == step_id@,
        !r.success,
        r.data is None,
        r.error matches Some(e) && e@ == error@,
        r.retry_count == attempt,
        r.duration_ms == duration_ms,
{
    StepResult { step_id, success: false, data: None, error: Some(error), retry_count: attempt, duration_ms }
}

/// What a step result records besides its data: step id, success, error
/// text, retry count, duration.
pub open spec fn summary(r: StepResult) -> (Seq<char>, bool, Option<Seq<char>>, u32, u64) {
    (r.step_id@, r.success, match r.error {
        Some(e) => Some(e@),
        None => None,
    }, r.retry_count, r.duration_ms)
}

/// The summaries of a sequence of step results.
pub open spec fn summaries(rs: Seq<StepResult>) -> Seq<(Seq<char>, bool, Option<Seq<char>>, u32, u64)> {
    rs.map_values(|r: StepResult| summary(r))
}

/// A run in progress: which step comes next, the counters, the results so
/// far, and the data that the next step receives.
pub struct PipelineRun {
    total_steps: usize,
    next_step: usize,
    steps_executed: u32,
    steps_failed: u32,
    steps_skipped: u32,
    stopped: bool,
    step_results: Vec<StepResult>,
    current: OxiData,
    outcomes: Ghost<Seq<(bool, bool)>>,
}

impl PipelineRun {
    /// The (succeeded, continue_on_error) of each step recorded so far.
    pub closed spec fn history(&self) -> Seq<(bool, bool)> {
        self.outcomes@
    }

    /// (results, executed, failed, skipped, stopped) of the run.
    pub closed spec fn counters(&self) -> (nat, nat, nat, nat, bool) {
        (self.step_results@.len(), self.steps_executed as nat, self.steps_failed as nat, self.steps_skipped as nat, self.stopped)
    }

    /// Steps in the declaration.
    pub closed spec fn total(&self) -> nat {
        self.total_steps as nat
    }

    /// Index of the step that runs next.
    pub closed spec fn next(&self) -> nat {
        self.next_step as nat
    }

    /// Steps that succeeded so far.
    pub closed spec fn executed(&self) -> nat {
        self.steps_executed as nat
    }

    /// Steps that failed so far.
    pub closed spec fn failed(&self) -> nat {
        self.steps_failed as nat
    }

    /// Steps that will never run.
    pub closed spec fn skipped(&self) -> nat {
        self.steps_skipped as nat
    }

    /// The run has stopped on a failure.
    pub closed spec fn is_stopped(&self) -> bool {
        self.stopped
    }

    /// The data that the next step receives.
    pub closed spec fn current_data(&self) -> OxiData {
        self.current
    }

    /// Results recorded so far.
    pub closed spec fn results_len(&self) -> nat {
        self.step_results@.len()
    }

    /// What the results recorded so far say, in order.
    pub closed spec fn recorded(&self) -> Seq<(Seq<char>, bool, Option<Seq<char>>, u32, u64)> {
        summaries(self.step_results@)
    }

    /// The counters agree with one another.
    pub closed spec fn wf(&self) -> bool {
        &&& self.total_steps <= u32::MAX
        &&& self.next_step <= self.total_steps
        &&& self.steps_executed + self.steps_failed == self.step_results@.len()
        &&& self.step_results@.len() == self.next_step
        &&& (self.stopped ==> self.steps_skipped == self.total_steps - self.next_step)
        &&& (!self.stopped ==> self.steps_skipped == 0)
        &&& self.counters() == run_after(self.total_steps as nat, self.outcomes@)
    }

    /// The counters are those that `run_after` gives for the history.
    pub proof fn counters_follow_history(&self)
        requires
            self.wf(),
        ensures
            self.counters() == run_after(self.total(), self.history()),
            self.counters().0 == self.results_len(),
            self.counters().1 == self.executed(),
            self.counters().2 == self.failed(),
            self.counters().3 == self.skipped(),
            self.counters().4 == self.is_stopped(),
    {
    }

    /// A run of `total_steps` steps whose first step receives `initial`.
    pub fn new(total_steps: usize, initial: OxiData) -> (r: PipelineRun)
        requires
            total_steps <= u32::MAX,
        ensures
            r.wf(),
            r.total() == total_steps,
            r.next() == 0,
            r.executed() == 0,
            r.failed() == 0,
            r.skipped() == 0,
            !r.is_stopped(),
            r.current_data() == initial,
            r.recorded() == Seq::<(Seq<char>, bool, Option<Seq<char>>, u32, u64)>::empty(),
            r.history() == Seq::<(bool, bool)>::empty(),
    {
        let r = PipelineRun {
            total_steps,
            next_step: 0,
            steps_executed: 0,
            steps_failed: 0,
            steps_skipped: 0,
            stopped: false,
            step_results: Vec::new(),
            current: initial,
            outcomes: Ghost(Seq::empty()),
        };
        assert(r.recorded() =~= Seq::<(Seq<char>, bool, Option<Seq<char>>, u32, u64)>::empty());
        r
    }

    /// Another step is due.
    pub fn has_next(&self) -> (r: bool)
        requires
            self.wf(),
        ensures
            r == (!self.is_stopped() && self.next() < self.total()),
    {
        !self.stopped && self.next_step < self.total_steps
    }

    /// Index of the step that runs next.
    pub fn next_index(&self) -> (r: usize)
        ensures
            r == self.next(),
    {
        self.next_step
    }

    /// The data that the next step receives.
    pub fn current(&self) -> (r: &OxiData)
        ensures
            *r == self.current_data(),
    {
        &self.current
    }

    /// Records the result of the next step. On success the step's data
    /// becomes the data the next step receives (and leaves the stored result);
    /// on failure the data stays, and unless `continue_on_error` the run stops
    /// with every later step skipped.
    pub fn record(&mut self, result: StepResult, continue_on_error: bool)
        requires
            old(self).wf(),
            !old(self).is_stopped(),
            old(self).next() < old(self).total(),
        ensures
            final(self).wf(),
            final(self).total() == old(self).total(),
            final(self).next() == old(self).next() + 1,
            final(self).results_len() == old(self).results_len() + 1,
            final(self).recorded() == old(self).recorded().push(summary(result)),
            final(self).history() == old(self).history().push((result.success, continue_on_error)),
            result.success ==> final(self).executed() == old(self).executed() + 1
                && final(self).failed() == old(self).failed() && !final(self).is_stopped(),
            result.success && result.data is Some ==> final(self).current_data() == result.data->0,
            result.success && result.data is None ==> final(self).current_data() == old(self).current_data(),
            !result.success ==> final(self).failed() == old(self).failed() + 1
                && final(self).executed() == old(self).executed()
                && final(self).current_data() == old(self).current_data(),
            final(self).is_stopped() == stops_after(result.success, continue_on_error),
            final(self).skipped() == skipped_after(old(self).total(), old(self).next(), result.success, continue_on_error),
    {
        let ghost entry = summary(result);
        let ghost outcome = (result.success, continue_on_error);
        let mut result = result;
        if result.success {
            let data = result.data.take();
            if let Some(d) = data {
                self.current = d;
            }
            self.steps_executed = self.steps_executed + 1;
        } else {
            self.steps_failed = self.steps_failed + 1;
            if !continue_on_error {
                self.stopped = true;
                self.steps_skipped = (self.total_steps - self.next_step - 1) as u32;
            }
        }
        let ghost before = self.step_results@;
        self.step_results.push(result);
        self.next_step = self.next_step + 1;
        proof {
            let h = self.outcomes@;
            self.outcomes = Ghost(h.push(outcome));
            assert(self.outcomes@.drop_last() =~= h);
        }
        assert(summaries(self.step_results@) =~= summaries(before).push(entry));
    }

    /// The aggregated result: successful exactly when no step failed, and then
    /// carrying the data of the last successful step.
    pub fn finish(self, total_duration_ms: u64) -> (r: PipelineResult)
        requires
            self.wf(),
        ensures
            r.success == (self.failed() == 0),
            r.steps_executed == self.executed(),
            r.steps_failed == self.failed(),
            r.steps_skipped == self.skipped(),
            r.total_duration_ms == total_duration_ms,
            r.step_results@.len() == self.results_len(),
            r.step_results@.len() == r.steps_executed + r.steps_failed,
            self.is_stopped() || self.next() == self.total() ==> r.steps_executed + r.steps_failed
                + r.steps_skipped == self.total(),
            summaries(r.step_results@) == self.recorded(),
            r.success ==> r.final_data == Some(self.current_data()),
            !r.success ==> r.final_data is None,
    {
        let success = self.steps_failed == 0;
        PipelineResult {
            success,
            steps_executed: self.steps_executed,
            steps_failed: self.steps_failed,
            steps_skipped: self.steps_skipped,
            total_duration_ms,
            step_results: self.step_results,
            final_data: if success { Some(self.current) } else { None },
        }
    }
}

/// A step with this outcome and policy stops the run.
pub open spec fn stops_after(success: bool, continue_on_error: bool) -> bool {
    !success && !continue_on_error
}

/// Steps skipped once step `next` of `total` ends with this outcome and
/// policy: every later step when the run stops, else none.
pub open spec fn skipped_after(total: nat, next: nat, success: bool, continue_on_error: bool) -> nat {
    if stops_after(success, continue_on_error) {
        (total - next - 1) as nat
    } else {
        0
    }
}

/// When step `next` of `total` fails, a step that allows continuing lets the
/// run go on with nothing skipped, so the later steps execute; a step that
/// does not stops the run with every later step skipped.
pub proof fn failure_policy(total: nat, next: nat)
    requires
        next < total,
    ensures
        !stops_after(false, true),
        skipped_after(total, next, false, true) == 0,
        stops_after(false, false),
        skipped_after(total, next, false, false) == total - next - 1,
{
}

impl PipelineStep {
    /// The step's id: `id` when given, else `name`.
    pub fn get_id(&self) -> (r: &String)
        ensures
            self.id is Some ==> *r == self.id->0,
            self.id is None ==> *r == self.name,
    {
        match &self.id {
            Some(id) => id,
            None => &self.name,
        }
    }
}

impl Pipeline {
    /// The number of steps.
    pub fn step_count(&self) -> (r: usize)
        ensures
            r == self.pipeline@.len(),
    {
        self.pipeline.len()
    }

    /// The name in the metadata, else "Unnamed Pipeline".
    pub fn name(&self) -> (r: String)
        ensures
            (self.metadata matches Some(m) && m.name is Some) ==> r@ == self.metadata->0.name->0@,
            !(self.metadata matches Some(m) && m.name is Some) ==> r@ == "Unnamed Pipeline"@,
    {
        match &self.metadata {
            Some(m) => match &m.name {
                Some(n) => copy_string(n),
                None => String::from_str("Unnamed Pipeline"),
            },
            None => String::from_str("Unnamed Pipeline"),
        }
    }

    /// The description in the metadata, if any.
    pub fn description(&self) -> (r: Option<String>)
        ensures
            (self.metadata matches Some(m) && m.description is Some) ==> (r matches Some(d) && d@
                == self.metadata->0.description->0@),
            !(self.metadata matches Some(m) && m.description is Some) ==> r is None,
    {
        match &self.metadata {
            Some(m) => match &m.description {
                Some(d) => Some(copy_string(d)),
                None => None,
            },
            None => None,
        }
    }
}

/// The attempts a step makes from attempt `k` on when every attempt fails:
/// it retries while `failure_verdict` says so and gives up otherwise.
pub open spec fn attempts_when_failing(retry_attempts: u32, k: int) -> int
    decreases retry_attempts - k,
{
    if 0 <= k < retry_attempts && failure_verdict(k as u32, retry_attempts) is Retry {
        attempts_when_failing(retry_attempts, k + 1)
    } else {
        k + 1
    }
}

/// A step that fails at every attempt makes exactly `retry_attempts + 1`
/// attempts, and the last of them is attempt number `retry_attempts`.
pub proof fn failing_step_makes_all_attempts(retry_attempts: u32)
    ensures
        attempts_when_failing(retry_attempts, 0) == retry_attempts + 1,
        failure_verdict(retry_attempts, retry_attempts) == AttemptDecision::GiveUp,
{
    lemma_attempts_from(retry_attempts, 0);
}

proof fn lemma_attempts_from(retry_attempts: u32, k: int)
    requires
        0 <= k <= retry_attempts,
    ensures
        attempts_when_failing(retry_attempts, k) == retry_attempts + 1,
    decreases retry_attempts - k,
{
    if k < retry_attempts {
        lemma_attempts_from(retry_attempts, k + 1);
    }
}

/// The counters of a run of `total` steps after the outcomes of its first
/// steps, each (succeeded, continue_on_error), as `record` moves them:
/// (results, executed, failed, skipped, stopped).
pub open spec fn run_after(total: nat, outcomes: Seq<(bool, bool)>) -> (nat, nat, nat, nat, bool)
    decreases outcomes.len(),
{
    if outcomes.len() == 0 {
        (0, 0, 0, 0, false)
    } else {
        let (n, e, f, k, st) = run_after(total, outcomes.drop_last());
        let (ok, cont) = outcomes.last();
        (
            n + 1,
            if ok { e + 1 } else { e },
            if ok { f } else { f + 1 },
            skipped_after(total, n, ok, cont),
            stops_after(ok, cont),
        )
    }
}

/// When no failing step stops the run, every one of the `total` steps runs:
/// a result each, nothing skipped, executed and failed adding up to all.
pub proof fn run_without_abort_runs_every_step(total: nat, outcomes: Seq<(bool, bool)>)
    requires
        outcomes.len() == total,
        forall|i: int| 0 <= i < outcomes.len() ==> (#[trigger] outcomes[i]).0 || outcomes[i].1,
    ensures
        run_after(total, outcomes).0 == total,
        run_after(total, outcomes).1 + run_after(total, outcomes).2 == total,
        run_after(total, outcomes).3 == 0,
        !run_after(total, outcomes).4,
{
    lemma_run_prefix(total, outcomes, outcomes.len() as int);
    assert(outcomes.subrange(0, outcomes.len() as int) =~= outcomes);
}

proof fn lemma_run_prefix(total: nat, outcomes: Seq<(bool, bool)>, m: int)
    requires
        0 <= m <= outcomes.len(),
        forall|i: int| 0 <= i < outcomes.len() ==> (#[trigger] outcomes[i]).0 || outcomes[i].1,
    ensures
        run_after(total, outcomes.subrange(0, m)).0 == m,
        run_after(total, outcomes.subrange(0, m)).1 + run_after(total, outcomes.subrange(0, m)).2 == m,
        run_after(total, outcomes.subrange(0, m)).3 == 0,
        !run_after(total, outcomes.subrange(0, m)).4,
    decreases m,
{
    if m > 0 {
        lemma_run_prefix(total, outcomes, m - 1);
        assert(outcomes.subrange(0, m).drop_last() =~= outcomes.subrange(0, m - 1));
        assert(outcomes.subrange(0, m).last() == outcomes[m - 1]);
    }
}

/// When step `i` is the first to fail without continue-on-error, the run
/// stops after it: `i + 1` results, no success overall, and the remaining
/// `total - i - 1` steps skipped.
pub proof fn abort_skips_later_steps(total: nat, outcomes: Seq<(bool, bool)>, i: int)
    requires
        0 <= i < outcomes.len() <= total,
        forall|k: int| 0 <= k < i ==> (#[trigger] outcomes[k]).0 || outcomes[k].1,
        !outcomes[i].0 && !outcomes[i].1,
    ensures
        run_after(total, outcomes.subrange(0, i + 1)).0 == i + 1,
        run_after(total, outcomes.subrange(0, i + 1)).2 >= 1,
        run_after(total, outcomes.subrange(0, i + 1)).3 == total - i - 1,
        run_after(total, outcomes.subrange(0, i + 1)).4,
{
    lemma_run_prefix(total, outcomes.subrange(0, i), i);
    assert(outcomes.subrange(0, i).subrange(0, i) =~= outcomes.subrange(0, i));
    assert(outcomes.subrange(0, i + 1).drop_last() =~= outcomes.subrange(0, i));
    assert(outcomes.subrange(0, i + 1).last() == outcomes[i]);
}

} // verus!
