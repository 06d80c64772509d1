use oxide_flow::backend::{BackendConfig, SerializationFormat};
use oxide_flow::data::{Data, JsonValue, SchemaStrategy};
use oxide_flow::project::{
    default_file_state_config, default_state_config, parse_duration, PipelineManager, PipelineMetadata, ProjectConfig, ProjectMetadata,
    ProjectSettings, StateConfig,
};
use oxide_flow::schema::{FieldConstraint, FieldSchema, FieldType, OxiSchema};
use oxide_flow::cache::BackendMetrics;

fn s(x: &str) -> String {
    x.to_string()
}

fn project(state: Option<StateConfig>) -> ProjectConfig {
    ProjectConfig {
        project: ProjectMetadata { name: s("demo"), version: s("0.1.0"), description: s("d") },
        oxis: vec![],
        settings: ProjectSettings { output_dir: s("out"), pipeline_dir: s("pipelines"), oxis_dir: s("oxis") },
        environment: vec![],
        state_manager: state,
    }
}

#[test]
fn durations() {
    assert_eq!(parse_duration("30s"), Some(30_000));
    assert_eq!(parse_duration(" 5m "), Some(300_000));
    assert_eq!(parse_duration("1h"), Some(3_600_000));
    assert_eq!(parse_duration("7d"), Some(604_800_000));
    assert_eq!(parse_duration("250ms"), Some(250));
    assert_eq!(parse_duration("12"), Some(12_000));
    assert_eq!(parse_duration(""), None);
    assert_eq!(parse_duration("   "), None);
    assert_eq!(parse_duration("abc"), None);
    assert_eq!(parse_duration("18446744073709551615d"), None);
}

#[test]
fn state_manager_config_from_project() {
    let none = project(None).create_state_manager_config(s("w"));
    assert!(matches!(none.backend, BackendConfig::File { lock_timeout_ms: 30000, atomic_writes: true, format: SerializationFormat::Json, .. }));
    assert_eq!(none.heartbeat_interval_ms, 10_000);
    let mut sc = default_state_config();
    sc.heartbeat_interval = s("2s");
    let mut f = default_file_state_config();
    f.lock_timeout = s("1m");
    f.base_path = s("/var/state");
    sc.file = Some(f);
    let c = project(Some(sc.clone())).create_state_manager_config(s("w"));
    match &c.backend {
        BackendConfig::File { base_path, lock_timeout_ms, .. } => {
            assert_eq!(base_path, "/var/state");
            assert_eq!(*lock_timeout_ms, 60_000);
        }
        other => panic!("unexpected {:?}", other),
    }
    assert_eq!(c.heartbeat_interval_ms, 2_000);
    assert_eq!(c.worker_id, "w");
    sc.backend = s("memory");
    let m = project(Some(sc)).create_state_manager_config(s("w"));
    assert!(matches!(m.backend, BackendConfig::Memory { persistent: false }));
}

#[test]
fn pipeline_manager_basics() {
    let m = PipelineManager::new(project(None));
    assert_eq!(m.get_pipeline_directory(), "pipelines");
    assert_eq!(m.get_available_templates(), vec!["basic", "etl", "validation", "batch", "api", "streaming"]);
}

#[test]
fn schema_inference() {
    let doc = JsonValue::Object(vec![
        (s("id"), JsonValue::Number(s("7"))),
        (s("score"), JsonValue::Number(s("1.5"))),
        (s("tags"), JsonValue::Array(vec![])),
        (s("gone"), JsonValue::Null),
    ]);
    let schema = OxiSchema::infer_from_json_value(&doc);
    let kinds: Vec<(String, FieldType, bool)> =
        schema.fields.iter().map(|(n, f)| (n.clone(), f.field_type, f.nullable)).collect();
    assert_eq!(
        kinds,
        vec![
            (s("id"), FieldType::Integer, false),
            (s("score"), FieldType::Decimal, false),
            (s("tags"), FieldType::Array, false),
            (s("gone"), FieldType::String, true),
        ]
    );
    let arr = JsonValue::Array(vec![JsonValue::Object(vec![(s("a"), JsonValue::Bool(true))])]);
    assert_eq!(OxiSchema::infer_from_json_value(&arr).fields[0].1.field_type, FieldType::Boolean);
    let text = OxiSchema::infer_from_data(&Data::Text(s("x")));
    assert_eq!(text.fields[0].0, "value");
    assert!(OxiSchema::infer_from_data(&Data::Empty).fields.is_empty());
    let input = OxiSchema::infer_from_data(&Data::Binary(vec![1]));
    let kept = OxiSchema::propagate(&SchemaStrategy::Passthrough, input.clone(), &Data::Empty);
    assert_eq!(kept.fields[0].0, "data");
    let fresh = OxiSchema::propagate(&SchemaStrategy::Infer, input, &Data::Text(s("t")));
    assert_eq!(fresh.fields[0].0, "value");
}

fn entry(name: &str, description: Option<&str>, tags: Option<Vec<&str>>) -> PipelineMetadata {
    PipelineMetadata {
        name: s(name),
        description: description.map(s),
        version: Some(s("1.0")),
        author: None,
        tags: tags.map(|t| t.into_iter().map(s).collect()),
        created: None,
        file_path: format!("pipelines/{name}.yaml"),
        step_count: 2,
        step_names: vec![s("read_file"), s("write_file")],
    }
}

#[test]
fn catalogue_filters() {
    let m = PipelineManager::new(project(None));
    let all = vec![
        entry("daily_etl", Some("Loads Orders nightly"), Some(vec!["ETL", "nightly"])),
        entry("api_sync", None, Some(vec!["api"])),
        entry("report", Some("builds the weekly report"), None),
    ];
    let by_keyword = m.filter_by_keyword(&all, "ORDERS");
    assert_eq!(by_keyword.len(), 1);
    assert_eq!(by_keyword[0].name, "daily_etl");
    assert_eq!(by_keyword[0].step_names, vec![s("read_file"), s("write_file")]);
    let by_name = m.filter_by_keyword(&all, "sync");
    assert_eq!(by_name.len(), 1);
    assert_eq!(by_name[0].name, "api_sync");
    let everything = m.filter_by_keyword(&all, "");
    assert_eq!(everything.len(), 3);
    assert_eq!(everything[2].name, "report");
    let by_tags = m.filter_by_tags(&all, " etl , API");
    let names: Vec<String> = by_tags.iter().map(|p| p.name.clone()).collect();
    assert_eq!(names, vec![s("daily_etl"), s("api_sync")]);
    assert!(m.filter_by_tags(&all, "weekly").is_empty());
}

#[test]
fn field_validation() {
    assert!(FieldType::Integer.matches_value(&JsonValue::Number(s("12"))));
    assert!(!FieldType::Integer.matches_value(&JsonValue::Number(s("1.5"))));
    assert!(FieldType::Decimal.matches_value(&JsonValue::Number(s("1.5"))));
    assert!(FieldType::DateTime.matches_value(&JsonValue::Str(s("2024-05-01T10:00:00Z"))));
    assert!(!FieldType::DateTime.matches_value(&JsonValue::Str(s("yesterday"))));
    assert!(FieldType::Mixed.matches_value(&JsonValue::Null));
    let mut f = FieldSchema::new(FieldType::String);
    f.constraints = vec![FieldConstraint::MinLength(2), FieldConstraint::MaxLength(5), FieldConstraint::Pattern(s("a"))];
    assert!(f.validate_value(&JsonValue::Str(s("bar")), "x").is_ok());
    assert!(f.validate_value(&JsonValue::Str(s("b")), "x").is_err());
    assert!(f.validate_value(&JsonValue::Str(s("bbbbbb")), "x").is_err());
    assert!(f.validate_value(&JsonValue::Str(s("bbb")), "x").is_err());
    assert!(f.validate_value(&JsonValue::Null, "x").is_err());
    assert!(f.validate_value(&JsonValue::Bool(true), "x").is_err());
    f.nullable = true;
    assert!(f.validate_value(&JsonValue::Null, "x").is_ok());
}

#[test]
fn backend_metrics_totals() {
    let mut m = BackendMetrics::new();
    assert_eq!(m.average_read_ms(), 0);
    m.record_read(10, 100);
    m.record_read(21, 50);
    m.record_write(7, 3);
    m.record_serialization(2);
    m.record_deserialization(3);
    assert_eq!(m.total_reads, 2);
    assert_eq!(m.bytes_read, 150);
    assert_eq!(m.average_read_ms(), 15);
    assert_eq!(m.average_write_ms(), 7);
    assert_eq!(m.serialize_count, 1);
    assert_eq!(m.deserialize_time_ms, 3);
    m.record_write(u64::MAX, u64::MAX);
    assert_eq!(m.bytes_written, u64::MAX);
}

#[test]
fn schema_validation_of_payloads() {
    let mut name = FieldSchema::new(FieldType::String);
    name.constraints = vec![FieldConstraint::MinLength(1)];
    let mut age = FieldSchema::new(FieldType::Integer);
    age.nullable = true;
    let schema = OxiSchema { fields: vec![(s("name"), name), (s("age"), age)] };
    let ok = JsonValue::Object(vec![(s("name"), JsonValue::Str(s("ann")))]);
    assert!(schema.validate_json_value(&ok).is_ok());
    let bad_type = JsonValue::Object(vec![(s("name"), JsonValue::Str(s("ann"))), (s("age"), JsonValue::Str(s("x")))]);
    assert!(schema.validate_json_value(&bad_type).is_err());
    let missing = JsonValue::Object(vec![(s("age"), JsonValue::Number(s("3")))]);
    assert!(schema.validate_json_value(&missing).is_err());
    let list = JsonValue::Array(vec![ok, missing]);
    assert!(schema.validate_json_value(&list).is_err());
    assert!(schema.validate_data(&Data::Empty).is_ok());
    assert!(schema.validate_data(&Data::Text(s("t"))).is_err());
    let text_schema = OxiSchema::infer_from_data(&Data::Text(s("t")));
    assert!(text_schema.validate_data(&Data::Text(s("u"))).is_ok());
    assert!(text_schema.validate_json_value(&JsonValue::Str(s("v"))).is_ok());
    assert!(text_schema.validate_json_value(&JsonValue::Number(s("1"))).is_err());
}

#[test]
fn one_of_constraint() {
    let mut f = FieldSchema::new(FieldType::Mixed);
    f.constraints = vec![FieldConstraint::OneOf(vec![s("\"red\""), s("3"), s("{\"a\":[true,null]}")])];
    assert!(f.validate_value(&JsonValue::Str(s("red")), "c").is_ok());
    assert!(f.validate_value(&JsonValue::Number(s("3")), "c").is_ok());
    let obj = JsonValue::Object(vec![(s("a"), JsonValue::Array(vec![JsonValue::Bool(true), JsonValue::Null]))]);
    assert!(f.validate_value(&obj, "c").is_ok());
    assert!(f.validate_value(&JsonValue::Str(s("blue")), "c").is_err());
}

#[test]
fn inferred_fields_keep_an_example() {
    let doc = JsonValue::Object(vec![(s("n"), JsonValue::Number(s("7"))), (s("t"), JsonValue::Str(s("x")))]);
    let schema = OxiSchema::infer_from_json_value(&doc);
    assert_eq!(schema.fields[0].1.examples, vec![s("7")]);
    assert_eq!(schema.fields[1].1.examples, vec![s("\"x\"")]);
}

#[test]
fn pipeline_listing() {
    let m = PipelineManager::new(project(None));
    assert_eq!(m.format_pipeline_table(&vec![], false), "No pipelines found.");
    let all = vec![entry("daily_etl", Some("Loads Orders nightly"), Some(vec!["etl", "nightly"]))];
    let table = m.format_pipeline_table(&all, false);
    assert!(table.starts_with("📂 Available pipelines in pipelines (1 total):\n\n┌"));
    assert!(table.contains("│ daily_etl           │ Loads Orders nightly         │ 1.0     │ 2 steps   │\n"));
    assert!(table.ends_with("🚀 Use 'oxide_flow run <name>' to execute a pipeline\n"));
    let verbose = m.format_pipeline_table(&all, true);
    assert_eq!(
        verbose,
        "📂 Available pipelines in pipelines (1 total):\n\n📂 Pipeline: daily_etl\n   📝 Description: Loads Orders nightly\n   🏷️  Tags: etl, nightly\n   📅 Version: 1.0\n   📍 Location: pipelines/daily_etl.yaml\n   ⚙️  Steps: 2 (read_file → write_file)\n"
    );
}
