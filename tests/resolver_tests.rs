use oxide_flow::config::{OxiConfig, OxiError};
use oxide_flow::data::{Data, JsonValue, OxiData};
use oxide_flow::json_path::{parse_json_path, JsonPathError, PathPart};
use oxide_flow::pipeline::PipelineStep;
use oxide_flow::resolver::{ConfigResolver, ResolveFailure};
use oxide_flow::schema::OxiSchema;
use oxide_flow::text::{format_display_name, is_valid_pipeline_name, truncate_string, u64_text};

fn s(x: &str) -> String {
    x.to_string()
}

fn obj(fields: Vec<(&str, JsonValue)>) -> JsonValue {
    JsonValue::Object(fields.into_iter().map(|(k, v)| (k.to_string(), v)).collect())
}

fn envelope(data: Data) -> OxiData {
    OxiData { data, schema: OxiSchema::empty() }
}

fn reader_output() -> OxiData {
    envelope(Data::Json(obj(vec![(
        "metadata",
        obj(vec![
            ("path", JsonValue::Str(s("/some/file.json"))),
            ("size", JsonValue::Number(s("1024"))),
        ]),
    )])))
}

#[test]
fn test_step_reference_substitution() {
    let mut resolver = ConfigResolver::new();
    resolver.add_step_output(s("reader"), reader_output());
    let result = resolver.resolve_string_references("Output: ${reader.metadata.path}").unwrap();
    assert_eq!(result, "Output: /some/file.json");
    let result = resolver.resolve_string_references("Size: ${reader.metadata.size}").unwrap();
    assert_eq!(result, "Size: 1024");
}

#[test]
fn env_substitution_scenario() {
    let mut resolver = ConfigResolver::new();
    resolver.cache_env_var(s("BASE_PATH"), s("/data"));
    assert_eq!(resolver.resolve_string_references("${BASE_PATH}/input.json").unwrap(), "/data/input.json");
}

#[test]
fn env_default_scenario() {
    let resolver = ConfigResolver::new();
    assert_eq!(resolver.resolve_string_references("${MISSING_VAR:-x}/y").unwrap(), "x/y");
}

#[test]
fn env_default_loses_to_a_set_variable() {
    let mut resolver = ConfigResolver::new();
    resolver.cache_env_var(s("MODE"), s("fast"));
    assert_eq!(resolver.resolve_string_references("${MODE:-slow}").unwrap(), "fast");
}

#[test]
fn missing_env_var_is_reported() {
    let resolver = ConfigResolver::new();
    let err = resolver.resolve_string_references("a ${NOPE} b").unwrap_err();
    assert_eq!(err.kind, ResolveFailure::EnvVarNotFound);
    assert_eq!(err.subject, "NOPE");
}

#[test]
fn last_cached_variable_wins() {
    let mut resolver = ConfigResolver::new();
    resolver.cache_env_var(s("X"), s("1"));
    resolver.cache_env_var(s("X"), s("2"));
    assert_eq!(resolver.resolve_string_references("${X}").unwrap(), "2");
}

#[test]
fn stage_reference_scenario_size() {
    let mut resolver = ConfigResolver::new();
    resolver.add_step_output(s("reader"), reader_output());
    assert_eq!(resolver.resolve_string_references("Out: ${reader.metadata.path}").unwrap(), "Out: /some/file.json");
    assert_eq!(resolver.resolve_string_references("Size: ${reader.metadata.size}").unwrap(), "Size: 1024");
}

#[test]
fn numeric_segment_indexes_an_array() {
    let mut resolver = ConfigResolver::new();
    let items = JsonValue::Array(vec![JsonValue::Str(s("a")), obj(vec![("name", JsonValue::Str(s("b")))])]);
    resolver.add_step_output(s("src"), envelope(Data::Json(obj(vec![("items", items)]))));
    assert_eq!(resolver.resolve_string_references("${src.items.1.name}").unwrap(), "b");
    assert_eq!(resolver.resolve_string_references("${src.items.0}").unwrap(), "a");
    let err = resolver.resolve_string_references("${src.items.2}").unwrap_err();
    assert_eq!(err.kind, ResolveFailure::FieldNotFound);
    assert_eq!(err.subject, "2");
}

#[test]
fn scalar_leaves_are_stringified() {
    let mut resolver = ConfigResolver::new();
    resolver.add_step_output(
        s("r"),
        envelope(Data::Json(obj(vec![("ok", JsonValue::Bool(true)), ("none", JsonValue::Null)]))),
    );
    assert_eq!(resolver.resolve_string_references("${r.ok}-${r.none}").unwrap(), "true-null");
}

#[test]
fn missing_step_and_field_are_reported() {
    let mut resolver = ConfigResolver::new();
    resolver.add_step_output(s("reader"), reader_output());
    let err = resolver.resolve_string_references("${writer.path}").unwrap_err();
    assert_eq!(err.kind, ResolveFailure::StepOutputNotFound);
    assert_eq!(err.subject, "writer");
    let err = resolver.resolve_string_references("${reader.metadata.owner}").unwrap_err();
    assert_eq!(err.kind, ResolveFailure::FieldNotFound);
    assert_eq!(err.subject, "owner");
}

#[test]
fn structured_leaves_become_yaml_and_text_output_has_no_path() {
    let mut resolver = ConfigResolver::new();
    resolver.add_step_output(s("reader"), reader_output());
    resolver.add_step_output(s("t"), envelope(Data::Text(s("plain"))));
    assert_eq!(
        resolver.resolve_string_references("[${reader.metadata}]").unwrap(),
        "[path: /some/file.json\nsize: 1024]"
    );
    assert_eq!(
        resolver.resolve_string_references("${reader}").unwrap(),
        "metadata:\n  path: /some/file.json\n  size: 1024"
    );
    let mut lists = ConfigResolver::new();
    let doc = obj(vec![("xs", JsonValue::Array(vec![JsonValue::Number(s("1")), JsonValue::Str(s("a\"b"))]))]);
    lists.add_step_output(s("l"), envelope(Data::Json(doc)));
    assert_eq!(lists.resolve_string_references("${l.xs}").unwrap(), "- 1\n- a\"b");
    assert_eq!(resolver.resolve_string_references("${t.x}").unwrap_err().kind, ResolveFailure::UnsupportedOutput);
    assert_eq!(resolver.resolve_string_references("${t}").unwrap(), "plain");
}

#[test]
fn binary_output_resolves_to_base64() {
    let mut resolver = ConfigResolver::new();
    resolver.add_step_output(s("bin"), envelope(Data::Binary(b"hi".to_vec())));
    assert_eq!(resolver.resolve_string_references("${bin}").unwrap(), "aGk=");
}

#[test]
fn text_without_references_is_unchanged_and_resolution_is_idempotent() {
    let mut resolver = ConfigResolver::new();
    resolver.cache_env_var(s("A"), s("x"));
    let plain = "no refs here: $ { } ${ lower-case";
    assert_eq!(resolver.resolve_string_references(plain).unwrap(), plain);
    let once = resolver.resolve_string_references("${A}-${A}").unwrap();
    assert_eq!(once, "x-x");
    assert_eq!(resolver.resolve_string_references(&once).unwrap(), once);
}

#[test]
fn values_bring_no_new_references() {
    let mut resolver = ConfigResolver::new();
    resolver.cache_env_var(s("A"), s("${B}"));
    resolver.cache_env_var(s("B"), s("b"));
    assert_eq!(resolver.resolve_string_references("${A}|${B}").unwrap(), "${B}|b");
}

#[test]
fn nested_values_resolve_element_by_element() {
    let mut resolver = ConfigResolver::new();
    resolver.cache_env_var(s("BASE_PATH"), s("/data"));
    let value = obj(vec![
        ("input", obj(vec![("path", JsonValue::Str(s("${BASE_PATH}/input.json")))])),
        ("list", JsonValue::Array(vec![JsonValue::Str(s("${BASE_PATH}")), JsonValue::Number(s("3"))])),
    ]);
    let out = resolver.resolve_value(&value).unwrap();
    match out {
        JsonValue::Object(fields) => {
            assert_eq!(fields[0].0, "input");
            match &fields[0].1 {
                JsonValue::Object(inner) => match &inner[0].1 {
                    JsonValue::Str(p) => assert_eq!(p, "/data/input.json"),
                    other => panic!("unexpected {:?}", other),
                },
                other => panic!("unexpected {:?}", other),
            }
            match &fields[1].1 {
                JsonValue::Array(items) => {
                    assert!(matches!(&items[0], JsonValue::Str(p) if p == "/data"));
                    assert!(matches!(&items[1], JsonValue::Number(n) if n == "3"));
                }
                other => panic!("unexpected {:?}", other),
            }
        }
        other => panic!("unexpected {:?}", other),
    }
}

#[test]
fn step_configuration_is_resolved_or_fails_with_config_error() {
    let mut resolver = ConfigResolver::new();
    resolver.cache_env_var(s("DIR"), s("/tmp"));
    let step = PipelineStep {
        name: s("read_file"),
        id: None,
        config: vec![(s("path"), JsonValue::Str(s("${DIR}/in.json")))],
        continue_on_error: false,
        retry_attempts: 0,
        timeout_seconds: None,
    };
    let config = step.to_oxi_config(&resolver).unwrap();
    assert_eq!(config.get_string("path").unwrap(), "/tmp/in.json");
    let bad = PipelineStep {
        name: s("read_file"),
        id: None,
        config: vec![(s("path"), JsonValue::Str(s("${UNSET}")))],
        continue_on_error: false,
        retry_attempts: 0,
        timeout_seconds: None,
    };
    assert!(matches!(bad.to_oxi_config(&resolver), Err(OxiError::ConfigError(_))));
}

#[test]
fn typed_accessors() {
    let mut c = OxiConfig::new();
    c.set(s("flag"), JsonValue::Str(s("YES")));
    c.set(s("off"), JsonValue::Str(s("0")));
    c.set(s("b"), JsonValue::Bool(false));
    c.set(s("n"), JsonValue::Number(s("-42")));
    c.set(s("big"), JsonValue::Number(s("9223372036854775808")));
    c.set(s("name"), JsonValue::Str(s("x")));
    assert_eq!(c.get_bool("flag").unwrap(), true);
    assert_eq!(c.get_bool("off").unwrap(), false);
    assert_eq!(c.get_bool("b").unwrap(), false);
    assert!(matches!(c.get_bool("name"), Err(OxiError::ConfigError(_))));
    assert!(matches!(c.get_bool("absent"), Err(OxiError::MissingConfig(k)) if k == "absent"));
    assert_eq!(c.get_bool_or("absent", true), true);
    assert_eq!(c.get_i64("n").unwrap(), -42);
    assert!(matches!(c.get_i64("big"), Err(OxiError::ConfigError(_))));
    assert_eq!(c.get_i64_or("big", 7), 7);
    assert!(matches!(c.get_string("n"), Err(OxiError::ConfigError(_))));
    assert_eq!(c.get_string_or("n", "d"), "d");
    assert_eq!(c.get_string("name").unwrap(), "x");
    c.set(s("name"), JsonValue::Str(s("y")));
    assert_eq!(c.get_string("name").unwrap(), "y");
    assert_eq!(c.values.len(), 6);
}

#[test]
fn test_json_path_parsing() {
    let parts = parse_json_path("[0].users[1].profile").unwrap();
    assert_eq!(parts.len(), 4);
    match &parts[0] {
        PathPart::Index(i) => assert_eq!(*i, 0),
        _ => panic!("Expected index"),
    }
    match &parts[1] {
        PathPart::Key(k) => assert_eq!(k, "users"),
        _ => panic!("Expected key"),
    }
}

#[test]
fn json_path_keys_without_dots_and_bad_indexes() {
    let parts = parse_json_path("data.items[+2]").unwrap();
    assert_eq!(parts, vec![PathPart::Key(s("data")), PathPart::Key(s("items")), PathPart::Index(2)]);
    assert_eq!(parse_json_path("a[x]").unwrap_err(), JsonPathError::InvalidIndex { text: s("x") });
    assert_eq!(parse_json_path("a..b").unwrap(), vec![PathPart::Key(s("a")), PathPart::Key(s("b"))]);
}

#[test]
fn test_truncate_string() {
    assert_eq!(truncate_string("short", 10), "short     ");
    assert_eq!(truncate_string("this is a very long string", 10), "this is...");
    assert_eq!(truncate_string("exact", 5), "exact");
}

#[test]
fn pipeline_names_and_display_names() {
    assert!(is_valid_pipeline_name("etl_daily_2"));
    assert!(!is_valid_pipeline_name(""));
    assert!(!is_valid_pipeline_name("_x"));
    assert!(!is_valid_pipeline_name("x_"));
    assert!(!is_valid_pipeline_name("a__b"));
    assert!(!is_valid_pipeline_name("Abc"));
    assert_eq!(format_display_name("my_data_pipeline"), "My Data Pipeline");
    assert_eq!(format_display_name("x"), "X");
}

#[test]
fn decimal_numerals() {
    assert_eq!(u64_text(0), "0");
    assert_eq!(u64_text(1024), "1024");
    assert_eq!(u64_text(u64::MAX), "18446744073709551615");
}

#[test]
fn nested_failure_reports_the_first_unresolved_reference() {
    let resolver = ConfigResolver::new();
    let value = obj(vec![
        ("ok", JsonValue::Str(s("plain"))),
        ("list", JsonValue::Array(vec![JsonValue::Str(s("${FIRST_MISSING}")), JsonValue::Str(s("${step.x}"))])),
    ]);
    let err = resolver.resolve_value(&value).unwrap_err();
    assert_eq!(err.kind, ResolveFailure::EnvVarNotFound);
    assert_eq!(err.subject, "FIRST_MISSING");
    let err = resolver.resolve_value(&JsonValue::Str(s("${step.x}"))).unwrap_err();
    assert_eq!(err.kind, ResolveFailure::StepOutputNotFound);
    assert_eq!(err.subject, "step");
}

#[test]
fn test_pipeline_context_missing_references() {
    let resolver = ConfigResolver::new();
    let result = resolver.resolve_string_references("File: ${missing_step.path}");
    assert!(result.is_err());
    let mut resolver = ConfigResolver::new();
    resolver.add_step_output(s("reader"), envelope(Data::Json(obj(vec![("path", JsonValue::Str(s("/tmp/test.csv")))]))));
    let result = resolver.resolve_string_references("Count: ${reader.missing_property}");
    assert!(result.is_err());
}
