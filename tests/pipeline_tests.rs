use oxide_flow::config::OxiError;
use oxide_flow::json_text::to_json_text;
use oxide_flow::data::{Data, JsonValue, LimitViolation, OxiData, OxiDataType, ProcessingLimits, BYTES_PER_MB};
use oxide_flow::pipeline::{after_failed_attempt, step_failed, step_succeeded, AttemptDecision, Pipeline, PipelineMetadata, PipelineRun};
use oxide_flow::schema::OxiSchema;
use oxide_flow::stages::{limit_error, resolve_stage, Batch, BatchStrategy, ReadStdIn, StageKind, WriteStdOut};
use oxide_flow::tracker::{
    can_resume, complete_pipeline, complete_step, create_checkpoint, get_step_state, initial_state, start_run, start_step,
    update_progress, update_step_state,
};
use oxide_flow::state::StepState;
use oxide_flow::state::{ErrorType, PipelineStatus, StepStatus};

fn s(x: &str) -> String {
    x.to_string()
}

fn envelope(data: Data) -> OxiData {
    OxiData { data, schema: OxiSchema::empty() }
}

fn records(n: usize) -> Vec<JsonValue> {
    (0..n).map(|i| JsonValue::Number(i.to_string())).collect()
}

#[test]
fn retry_accounting_scenario() {
    // One step, two retries, always failing.
    let retry_attempts = 2;
    let mut attempts = 0u32;
    let mut delays = Vec::new();
    let result = loop {
        let attempt = attempts;
        attempts += 1;
        match after_failed_attempt(attempt, retry_attempts) {
            AttemptDecision::Retry { delay_ms } => delays.push(delay_ms),
            AttemptDecision::GiveUp => break step_failed(s("only"), s("x"), attempt, 5),
        }
    };
    assert_eq!(attempts, 3);
    assert_eq!(delays, vec![1000, 2000]);
    let mut run = PipelineRun::new(1, envelope(Data::Empty));
    run.record(result, false);
    let out = run.finish(7);
    assert_eq!(out.steps_executed, 0);
    assert_eq!(out.steps_failed, 1);
    assert_eq!(out.steps_skipped, 0);
    assert_eq!(out.step_results[0].retry_count, 2);
    assert_eq!(out.step_results[0].error.as_deref(), Some("x"));
    assert!(!out.success);
    assert!(out.final_data.is_none());
}

#[test]
fn continue_on_error_scenario() {
    let mut run = PipelineRun::new(2, envelope(Data::Empty));
    run.record(step_failed(s("first"), s("boom"), 0, 1), true);
    assert!(run.has_next());
    assert_eq!(run.next_index(), 1);
    // Step 2 receives the unchanged Empty input and passes it through.
    assert!(run.current().data.is_empty());
    run.record(step_succeeded(s("second"), envelope(Data::Empty), 0, 1), false);
    let out = run.finish(3);
    assert_eq!(out.steps_executed, 1);
    assert_eq!(out.steps_failed, 1);
    assert_eq!(out.steps_skipped, 0);
    assert!(!out.success);
}

#[test]
fn abort_skips_the_remaining_steps() {
    let mut run = PipelineRun::new(4, envelope(Data::Empty));
    run.record(step_succeeded(s("a"), envelope(Data::Text(s("t"))), 0, 1), false);
    run.record(step_failed(s("b"), s("bad"), 0, 1), false);
    assert!(!run.has_next());
    let out = run.finish(2);
    assert_eq!(out.steps_executed, 1);
    assert_eq!(out.steps_failed, 1);
    assert_eq!(out.steps_skipped, 2);
    assert!(!out.success);
    assert!(out.final_data.is_none());
}

#[test]
fn success_carries_the_last_data() {
    let mut run = PipelineRun::new(2, envelope(Data::Empty));
    run.record(step_succeeded(s("a"), envelope(Data::Text(s("one"))), 0, 1), false);
    assert!(matches!(&run.current().data, Data::Text(t) if t == "one"));
    run.record(step_succeeded(s("b"), envelope(Data::Text(s("two"))), 1, 1), false);
    let out = run.finish(9);
    assert!(out.success);
    assert_eq!(out.total_duration_ms, 9);
    match out.final_data {
        Some(OxiData { data: Data::Text(t), .. }) => assert_eq!(t, "two"),
        other => panic!("unexpected {:?}", other),
    }
}

#[test]
fn array_coercion_and_batch_size() {
    let single = Data::Json(JsonValue::Str(s("x")));
    assert_eq!(single.batch_size(), 1);
    assert!(!single.is_batch());
    let wrapped = single.into_array().unwrap();
    assert_eq!(wrapped.len(), 1);
    assert!(matches!(&wrapped[0], JsonValue::Str(v) if v == "x"));
    let arr = Data::Json(JsonValue::Array(records(5)));
    assert_eq!(arr.batch_size(), 5);
    assert!(arr.is_batch());
    assert_eq!(arr.into_array().unwrap().len(), 5);
    assert!(Data::Text(s("t")).into_array().is_err());
    assert_eq!(Data::Empty.get_data_type(), OxiDataType::Empty);
}

#[test]
fn memory_estimates() {
    assert_eq!(Data::Text(s("hello")).estimated_memory_usage(), 5);
    assert_eq!(Data::Binary(vec![1, 2, 3]).estimated_memory_usage(), 3);
    assert_eq!(Data::Empty.estimated_memory_usage(), 0);
    // {"a":[1,true]} is 14 characters; the estimate doubles it.
    let doc = JsonValue::Object(vec![(s("a"), JsonValue::Array(vec![JsonValue::Number(s("1")), JsonValue::Bool(true)]))]);
    assert_eq!(Data::Json(doc).estimated_memory_usage(), 28);
}

#[test]
fn batch_limit_boundary() {
    let mut limits = ProcessingLimits::default_limits();
    limits.max_batch_size = Some(3);
    assert!(limits.check_input(&Data::Json(JsonValue::Array(records(3)))).is_ok());
    assert_eq!(
        limits.check_input(&Data::Json(JsonValue::Array(records(4)))),
        Err(LimitViolation::BatchSizeExceeded { batch_size: 4, max_batch_size: 3 })
    );
}

#[test]
fn memory_limit_boundary() {
    let mut limits = ProcessingLimits::default_limits();
    limits.max_memory_mb = Some(1);
    let at = "a".repeat(BYTES_PER_MB);
    let over = "a".repeat(BYTES_PER_MB + 1);
    assert!(limits.check_input(&Data::Text(at)).is_ok());
    assert_eq!(
        limits.check_input(&Data::Text(over)),
        Err(LimitViolation::MemoryLimitExceeded { estimated_bytes: (BYTES_PER_MB + 1) as u64, max_memory_mb: 1 })
    );
}

#[test]
fn unsupported_input_type_is_refused() {
    let limits = oxide_flow::stages::ReadStdIn.processing_limits();
    assert_eq!(
        limits.check_input(&Data::Text(s("x"))),
        Err(LimitViolation::UnsupportedInputType { actual: OxiDataType::Text })
    );
    assert!(limits.check_input(&Data::Empty).is_ok());
}

#[test]
fn stages_resolve_by_name() {
    assert_eq!(resolve_stage("read_file").unwrap(), StageKind::ReadFile);
    assert_eq!(resolve_stage("flatten").unwrap(), StageKind::Flatten);
    assert!(matches!(resolve_stage("teleport"), Err(OxiError::UnknownOxi(n)) if n == "teleport"));
    assert_eq!(Batch.name(), "batch");
    assert!(Batch.should_flush(BatchStrategy::Size, 10, 10, 0, 100, 0, None));
    assert!(!Batch.should_flush(BatchStrategy::Time, 10, 10, 0, 100, 50, None));
    assert!(Batch.should_flush(BatchStrategy::Any, 0, 10, 0, 100, 50, Some(50)));
    assert!(!Batch.should_flush(BatchStrategy::SizeOrMemory, 0, 10, 99, 100, 50, Some(50)));
}

fn declaration() -> Pipeline {
    Pipeline {
        pipeline: vec![],
        metadata: Some(PipelineMetadata {
            name: Some(s("test_pipeline")),
            description: Some(s("Test pipeline")),
            version: Some(s("1.0.0")),
            author: Some(s("test")),
        }),
    }
}

#[test]
fn tracker_records_a_run() {
    let p = declaration();
    assert_eq!(p.name(), "test_pipeline");
    let started = start_run(&p, Some(s("w1")));
    assert_eq!(started.run_id.len(), 36);
    assert!(matches!(started.status, PipelineStatus::Running { .. }));
    let mut st = initial_state(&p, s("run-1"), None, 1_000_000);
    assert_eq!(st.pipeline_id, "test_pipeline");
    assert_eq!(st.metadata.pipeline_version.as_deref(), Some("1.0.0"));
    assert!(can_resume(&st));
    start_step(&mut st, &s("reader"), 1_000_100);
    assert_eq!(st.current_step, "reader");
    assert_eq!(st.version, 2);
    assert!(matches!(st.step_states[0].status, StepStatus::Running { started_at: 1_000_100 }));
    let failed = step_failed(s("reader"), s("disk gone"), 1, 40);
    complete_step(&mut st, &failed, s("e-1"), 1_000_200);
    assert_eq!(st.records_failed, 1);
    assert_eq!(st.retry_count, 1);
    assert_eq!(st.step_states[0].error_count, 1);
    assert_eq!(st.step_states[0].processing_time_ms, 40);
    assert_eq!(st.errors[0].context, "Step failed after 1 retries");
    assert_eq!(st.errors[0].error_type, ErrorType::Processing);
    assert!(st.errors[0].retryable);
    let ok = step_succeeded(s("reader"), envelope(Data::Empty), 0, 30);
    complete_step(&mut st, &ok, s("unused"), 1_000_300);
    assert_eq!(st.records_processed, 1);
    assert_eq!(st.last_success_timestamp, 1_000_300);
    assert_eq!(st.errors.len(), 1);
    create_checkpoint(&mut st, 500, 1_010_000);
    assert_eq!(st.data_size_processed, 500);
    assert_eq!(st.metadata.checkpoint_count, 1);
    // 10 s elapsed for one record: ten more records take 100 s.
    assert_eq!(st.estimated_completion, Some(1_010_000 + 100_000));
    let mut run = PipelineRun::new(1, envelope(Data::Empty));
    run.record(step_failed(s("reader"), s("x"), 0, 1), false);
    let result = run.finish(1);
    complete_pipeline(&mut st, &result, 1_020_000);
    match &st.status {
        PipelineStatus::Failed { failed_at, error } => {
            assert_eq!(*failed_at, 1_020_000);
            assert_eq!(error, "Pipeline failed with 1 errors");
        }
        other => panic!("unexpected {:?}", other),
    }
    assert!(!can_resume(&st));
}

#[test]
fn progress_and_step_state_updates() {
    let p = declaration();
    let mut st = initial_state(&p, s("run-2"), None, 0);
    update_progress(&mut st, 10, 2048, Some(s("rec-10")), 5);
    update_progress(&mut st, u64::MAX, 1, None, 6);
    assert_eq!(st.records_processed, u64::MAX);
    assert_eq!(st.data_size_processed, 2049);
    assert_eq!(st.last_processed_id, "rec-10");
    assert_eq!(st.version, 3);
    let mut step = StepState::new_at(s("parse"), s("parse_json"), 7);
    step.records_processed = 4;
    update_step_state(&mut st, step, 8);
    assert_eq!(get_step_state(&st, &s("parse")).unwrap().records_processed, 4);
    let mut again = StepState::new_at(s("parse"), s("parse_json"), 9);
    again.records_processed = 9;
    update_step_state(&mut st, again, 10);
    assert_eq!(st.step_states.len(), 1);
    assert_eq!(get_step_state(&st, &s("parse")).unwrap().records_processed, 9);
    assert!(get_step_state(&st, &s("other")).is_none());
}

#[test]
fn payload_accessors() {
    let t = Data::Text(s("hi"));
    assert_eq!(t.data_type(), "Text");
    assert_eq!(t.as_text().map(|x| x.as_str()), Some("hi"));
    assert!(t.as_json().is_none());
    assert!(t.as_binary().is_none());
    let b = Data::Binary(vec![7]);
    assert_eq!(b.data_type(), "Binary");
    assert_eq!(b.as_binary(), Some(&vec![7u8]));
    assert_eq!(Data::Empty.data_type(), "Empty");
    assert_eq!(Data::Json(JsonValue::Null).data_type(), "JSON");
}

#[test]
fn stage_input_validation() {
    assert!(ReadStdIn.validate_input(&envelope(Data::Empty)).is_ok());
    assert!(matches!(ReadStdIn.validate_input(&envelope(Data::Text(s("x")))), Err(OxiError::TypeMismatch { actual, .. }) if actual == "Text"));
    assert!(WriteStdOut.validate_input(&envelope(Data::Binary(vec![0; 10]))).is_ok());
}

#[test]
fn refused_inputs_become_stage_errors() {
    match limit_error(LimitViolation::BatchSizeExceeded { batch_size: 4, max_batch_size: 3 }, "batch") {
        OxiError::BatchSizeExceeded { actual_size, max_size, oxi_name } => {
            assert_eq!((actual_size, max_size, oxi_name.as_str()), (4, 3, "batch"));
        }
        other => panic!("unexpected {:?}", other),
    }
    match limit_error(LimitViolation::MemoryLimitExceeded { estimated_bytes: 3 * BYTES_PER_MB as u64 + 5, max_memory_mb: 2 }, "x") {
        OxiError::MemoryLimitExceeded { actual_mb, max_mb, .. } => assert_eq!((actual_mb, max_mb), (3, 2)),
        other => panic!("unexpected {:?}", other),
    }
    assert!(matches!(
        limit_error(LimitViolation::UnsupportedInputType { actual: OxiDataType::Text }, "read_stdin"),
        OxiError::UnsupportedInputType { input_type, .. } if input_type == "Text"
    ));
}

#[test]
fn checkpoint_before_the_epoch_and_clock_skew() {
    let p = declaration();
    let mut st = initial_state(&p, s("run-3"), None, -5_000);
    complete_step(&mut st, &step_succeeded(s("a"), envelope(Data::Empty), 0, 1), s("e"), -4_000);
    create_checkpoint(&mut st, 1, -3_000);
    assert_eq!(st.estimated_completion, Some(-3_000 + 20_000));
    create_checkpoint(&mut st, 1, -9_000);
    assert_eq!(st.estimated_completion, Some(-9_000));
}

#[test]
fn payload_conversions() {
    assert_eq!(Data::Binary(b"hi".to_vec()).to_text().unwrap(), "aGk=");
    assert_eq!(Data::Text(s("é")).to_binary(), "é".as_bytes().to_vec());
    assert_eq!(Data::Empty.to_text().unwrap(), "");
    assert!(Data::Empty.to_binary().is_empty());
    let doc = JsonValue::Object(vec![(s("k"), JsonValue::Str(s("a\"\n")))]);
    assert_eq!(Data::Json(doc).to_binary(), b"{\"k\":\"a\\\"\\n\"}".to_vec());
    let arr = Data::Json(JsonValue::Array(vec![JsonValue::Number(s("1"))]));
    assert_eq!(arr.to_text().unwrap(), "[\n  1\n]");
    assert_eq!(Data::Text(s("ééé")).estimated_memory_usage(), 6);
}

#[test]
fn compact_json_text() {
    let doc = JsonValue::Object(vec![
        (s("a"), JsonValue::Array(vec![JsonValue::Number(s("1")), JsonValue::Bool(false), JsonValue::Null])),
        (s("b\u{1}"), JsonValue::Str(s("x\ty\\"))),
    ]);
    assert_eq!(to_json_text(&doc), "{\"a\":[1,false,null],\"b\\u0001\":\"x\\ty\\\\\"}");
}
