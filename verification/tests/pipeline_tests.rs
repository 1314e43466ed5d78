use apirunner::data_pipeline::{
    DataTransformationPipeline, TransformStage, TransformationStage, ValidationRule, ValueSubstitutionTransform,
    ValueValidationTransform,
};
use apirunner::data_source::{
    CsvDataSource, CsvDataSourceConfig, DataRecord, DataTransformation, FieldFilterTransform, FieldMappingTransform,
    FileDataSourceConfig, convert_value_exact, DataType,
};
use apirunner::error::DataSourceError;
use apirunner::json::JsonValue;
use apirunner::strmap::StrMap;

fn s(x: &str) -> String {
    x.to_string()
}

fn text(x: &str) -> JsonValue {
    JsonValue::String(s(x))
}

fn object(members: Vec<(&str, JsonValue)>) -> JsonValue {
    JsonValue::Object(members.into_iter().map(|(k, v)| (s(k), v)).collect())
}

fn params(members: Vec<(&str, JsonValue)>) -> StrMap<JsonValue> {
    let mut m = StrMap::new();
    for (k, v) in members {
        m.insert(s(k), v);
    }
    m
}

fn record(id: &str, fields: Vec<(&str, JsonValue)>) -> DataRecord {
    DataRecord { id: s(id), fields: params(fields), metadata: StrMap::new() }
}

fn config_message(e: DataSourceError) -> String {
    match e {
        DataSourceError::ConfigError(m) => m,
        _ => panic!("expected a configuration error"),
    }
}

fn failure_message(e: DataSourceError) -> String {
    match e {
        DataSourceError::TransformationFailed(m) => m,
        _ => panic!("expected a transformation failure"),
    }
}

#[test]
fn field_mapping_from_config_renames_fields() {
    let p = params(vec![("mappings", object(vec![("old", text("new"))]))]);
    let t = FieldMappingTransform::from_config(&p).ok().unwrap();
    let out = t.transform(vec![record("r", vec![("old", text("v")), ("other", text("w"))])]).ok().unwrap();
    assert_eq!(out[0].fields.get("new").unwrap().to_json_string(), "\"v\"");
    assert!(out[0].fields.get("old").is_none());
    assert!(out[0].fields.get("other").is_some());
}

#[test]
fn field_mapping_config_errors() {
    let missing = FieldMappingTransform::from_config(&params(vec![])).err().unwrap();
    assert_eq!(config_message(missing), "Missing 'mappings' in field mapping config");
    let bad = FieldMappingTransform::from_config(&params(vec![("mappings", text("x"))])).err().unwrap();
    assert_eq!(config_message(bad), "Invalid mappings format: expected an object of strings");
}

#[test]
fn field_filter_from_config_keeps_included_fields() {
    let p = params(vec![("include_fields", JsonValue::Array(vec![text("a")]))]);
    let t = FieldFilterTransform::from_config(&p).ok().unwrap();
    let out = t.transform(vec![record("r", vec![("a", text("1")), ("b", text("2"))])]).ok().unwrap();
    assert!(out[0].fields.get("a").is_some());
    assert!(out[0].fields.get("b").is_none());
    let bad = FieldFilterTransform::from_config(&params(vec![("exclude_fields", text("a"))])).err().unwrap();
    assert_eq!(config_message(bad), "Invalid exclude_fields format: expected an array of strings");
}

#[test]
fn substitution_prefers_exact_values_over_patterns() {
    let p = params(vec![
        ("substitutions", object(vec![("status", object(vec![("A", text("active"))]))])),
        (
            "regex_substitutions",
            object(vec![("status", JsonValue::Array(vec![JsonValue::Array(vec![text("[0-9]+"), text("#")])]))]),
        ),
    ]);
    let t = ValueSubstitutionTransform::from_config(&p).ok().unwrap();
    assert_eq!(t.name(), "value_substitution");
    let out = t
        .transform(vec![
            record("1", vec![("status", text("A"))]),
            record("2", vec![("status", text("code 42 and 7"))]),
            record("3", vec![("status", JsonValue::Number(s("5")))]),
        ])
        .ok()
        .unwrap();
    assert_eq!(out[0].fields.get("status").unwrap().to_json_string(), "\"active\"");
    assert_eq!(out[1].fields.get("status").unwrap().to_json_string(), "\"code # and #\"");
    assert_eq!(out[2].fields.get("status").unwrap().to_json_string(), "5");
}

#[test]
fn substitution_refuses_a_bad_pattern() {
    let p = params(vec![(
        "regex_substitutions",
        object(vec![("f", JsonValue::Array(vec![JsonValue::Array(vec![text("("), text("x")])]))]),
    )]);
    let e = ValueSubstitutionTransform::from_config(&p).err().unwrap();
    assert!(config_message(e).starts_with("Invalid regex pattern '(': "));
    let bad_shape = params(vec![("regex_substitutions", object(vec![("f", text("x"))]))]);
    let e = ValueSubstitutionTransform::from_config(&bad_shape).err().unwrap();
    assert_eq!(
        config_message(e),
        "Invalid regex substitutions format: expected an object of arrays of [pattern, replacement] pairs"
    );
}

fn rules(entries: Vec<(&str, ValidationRule)>) -> ValueValidationTransform {
    let mut m = StrMap::new();
    for (k, r) in entries {
        m.insert(s(k), r);
    }
    ValueValidationTransform::new(m)
}

#[test]
fn validation_rules_report_their_failures() {
    let t = rules(vec![]);
    let e = t.validate_value("name", &JsonValue::Null, &ValidationRule::Required, None).err().unwrap();
    assert_eq!(failure_message(e), "Field 'name' is required but is null");
    let e = t.validate_value("name", &text("ab"), &ValidationRule::MinLength(3), None).err().unwrap();
    assert_eq!(failure_message(e), "Field 'name' length 2 is less than minimum 3");
    let e = t.validate_value("name", &text("abcd"), &ValidationRule::MaxLength(3), None).err().unwrap();
    assert_eq!(failure_message(e), "Field 'name' length 4 exceeds maximum 3");
    let e = t.validate_value("code", &text("x1"), &ValidationRule::Pattern(s("^[0-9]+$")), None).err().unwrap();
    assert_eq!(failure_message(e), "Field 'code' value 'x1' does not match pattern '^[0-9]+$'");
    let e = t
        .validate_value("kind", &text("c"), &ValidationRule::OneOf(vec![s("a"), s("b")]), None)
        .err()
        .unwrap();
    assert_eq!(failure_message(e), "Field 'kind' value 'c' is not one of allowed values: [\"a\", \"b\"]");
    let range = ValidationRule::Range { min: s("0"), max: s("10") };
    let e = t
        .validate_value("age", &JsonValue::Number(s("12")), &range, Some(s("12 is outside range [0, 10]")))
        .err()
        .unwrap();
    assert_eq!(failure_message(e), "Field 'age' value 12 is outside range [0, 10]");
    let e = t.validate_value("code", &text("x"), &ValidationRule::Pattern(s("(")), None).err().unwrap();
    assert!(config_message(e).starts_with("Invalid regex pattern: "));
}

#[test]
fn validation_passes_values_of_other_kinds() {
    let t = rules(vec![]);
    assert!(t.validate_value("n", &JsonValue::Number(s("5")), &ValidationRule::MinLength(3), None).is_ok());
    assert!(t.validate_value("n", &text("abc"), &ValidationRule::MinLength(3), None).is_ok());
    assert!(t.validate_value("n", &text("é"), &ValidationRule::MinLength(2), None).is_ok());
    assert!(t.validate_value("n", &text("7"), &ValidationRule::Range { min: s("0"), max: s("1") }, Some(s("x"))).is_ok());
}

#[test]
fn validation_transform_stops_at_the_first_failure() {
    let t = rules(vec![("name", ValidationRule::Required), ("code", ValidationRule::MinLength(2))]);
    let good = vec![record("1", vec![("name", text("a")), ("code", text("ab"))])];
    assert_eq!(t.transform(good, &vec![]).ok().unwrap().len(), 1);
    let bad = vec![
        record("1", vec![("name", text("a"))]),
        record("2", vec![("name", JsonValue::Null), ("code", text("x"))]),
    ];
    let e = t.transform(bad, &vec![]).err().unwrap();
    assert_eq!(failure_message(e), "Field 'name' is required but is null");
}

#[test]
fn validation_rules_decode_from_config() {
    let p = params(vec![(
        "validations",
        object(vec![
            ("name", text("Required")),
            ("code", object(vec![("MinLength", JsonValue::Number(s("2")))])),
            ("kind", object(vec![("OneOf", JsonValue::Array(vec![text("a")]))])),
            ("age", object(vec![("Range", object(vec![("min", JsonValue::Number(s("0"))), ("max", JsonValue::Number(s("9.5")))]))])),
        ]),
    )]);
    let t = ValueValidationTransform::from_config(&p).ok().unwrap();
    let e = t.transform(vec![record("1", vec![("code", text("x"))])], &vec![]).err().unwrap();
    assert_eq!(failure_message(e), "Field 'code' length 1 is less than minimum 2");
    let missing = ValueValidationTransform::from_config(&params(vec![])).err().unwrap();
    assert_eq!(config_message(missing), "Missing 'validations' in validation config");
    let bad = params(vec![("validations", object(vec![("x", object(vec![("MinLength", text("2"))]))]))]);
    let e = ValueValidationTransform::from_config(&bad).err().unwrap();
    assert_eq!(config_message(e), "Invalid validations format: expected an object of validation rules");
}

fn transformation(kind: &str, p: StrMap<JsonValue>) -> DataTransformation {
    DataTransformation { transformation_type: s(kind), parameters: p }
}

#[test]
fn pipeline_builds_stages_in_order() {
    let ts = vec![
        transformation("field_mapping", params(vec![("mappings", object(vec![("a", text("b"))]))])),
        transformation("field_filter", params(vec![])),
        transformation("type_conversion", params(vec![("conversions", object(vec![("b", text("Integer"))]))])),
    ];
    let p = DataTransformationPipeline::from_transformations(&ts).ok().unwrap();
    assert_eq!(p.len(), 3);
    assert_eq!(p.stage_names(), vec![s("field_mapping"), s("field_filter"), s("type_conversion")]);
    let records = vec![record("1", vec![("a", text("1"))])];
    let out = match p.stage(0) {
        TransformStage::FieldMapping(t) => TransformationStage::transform(t, records).ok().unwrap(),
        _ => panic!("expected the field mapping first"),
    };
    assert!(out[0].fields.get("b").is_some());
}

#[test]
fn pipeline_refuses_unknown_and_broken_stages() {
    let unknown = vec![transformation("shuffle", params(vec![]))];
    let e = DataTransformationPipeline::from_transformations(&unknown).err().unwrap();
    assert_eq!(failure_message(e), "Unknown transformation type: shuffle");
    let broken = vec![
        transformation("field_filter", params(vec![])),
        transformation("type_conversion", params(vec![("conversions", object(vec![("b", text("Decimal"))]))])),
    ];
    let e = DataTransformationPipeline::from_transformations(&broken).err().unwrap();
    assert_eq!(config_message(e), "Invalid conversions format: expected an object of data type names");
    assert_eq!(DataTransformationPipeline::new().add_stage(TransformStage::FieldFilter(FieldFilterTransform::new(None, None))).len(), 1);
}

fn csv(has_headers: bool) -> CsvDataSource {
    CsvDataSource::new(CsvDataSourceConfig {
        file_config: FileDataSourceConfig { file_path: s("data.csv"), streaming: false, batch_size: None, encoding: None },
        delimiter: None,
        has_headers,
        quote_char: None,
        escape_char: None,
    })
}

#[test]
fn csv_lines_become_records() {
    let lines = vec![s("name, age"), s("Ann, 30"), s("Bob")];
    let recs = csv(true).records_from_lines(&lines).ok().unwrap();
    assert_eq!(recs.len(), 2);
    assert_eq!(recs[0].fields.get("name").unwrap().to_json_string(), "\"Ann\"");
    assert_eq!(recs[0].fields.get("age").unwrap().to_json_string(), "\"30\"");
    assert_eq!(recs[1].fields.get("age").unwrap().to_json_string(), "\"\"");
    let recs = csv(false).records_from_lines(&lines).ok().unwrap();
    assert_eq!(recs.len(), 3);
    assert_eq!(recs[1].fields.get("1").unwrap().to_json_string(), "\"30\"");
}

#[test]
fn exact_conversions() {
    let t = |x: &str| apirunner::json::JsonValue::String(x.to_string());
    let r = convert_value_exact(&t("-42"), &DataType::Integer).unwrap().ok().unwrap();
    assert_eq!(r.to_json_string(), "-42");
    let r = convert_value_exact(&t("Yes"), &DataType::Boolean).unwrap().ok().unwrap();
    assert_eq!(r.to_json_string(), "true");
    let e = convert_value_exact(&t("maybe"), &DataType::Boolean).unwrap().err().unwrap();
    assert_eq!(e.message(), "Data transformation failed: Cannot convert 'maybe' to boolean");
    let r = convert_value_exact(&apirunner::json::JsonValue::Number("7".to_string()), &DataType::String).unwrap().ok().unwrap();
    assert_eq!(r.to_json_string(), "\"7\"");
    assert!(convert_value_exact(&t("1.5"), &DataType::Float).is_none());
}
