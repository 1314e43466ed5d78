use apirunner::json::JsonValue;
use apirunner::json_assertions::JsonStructureAssertion;

fn num(n: u64) -> JsonValue {
    JsonValue::Number(n.to_string())
}

fn obj(members: Vec<(&str, JsonValue)>) -> JsonValue {
    JsonValue::Object(members.into_iter().map(|(k, v)| (k.to_string(), v)).collect())
}

#[test]
fn structure_matches_equal_documents() {
    let a = JsonStructureAssertion::new();
    let doc = obj(vec![("id", num(1)), ("tags", JsonValue::Array(vec![num(1), num(2)]))]);
    let copy = obj(vec![("id", num(1)), ("tags", JsonValue::Array(vec![num(1), num(2)]))]);
    assert!(a.deep_compare(&doc, &copy).is_ok());
}

#[test]
fn structure_reports_missing_and_extra_fields() {
    let a = JsonStructureAssertion::new();
    let actual = obj(vec![("id", num(1)), ("x", num(2))]);
    let expected = obj(vec![("id", num(1)), ("name", JsonValue::String("n".to_string()))]);
    assert_eq!(a.deep_compare(&actual, &expected), Err("Missing required field: 'name'".to_string()));
    let expected = obj(vec![("id", num(1))]);
    assert_eq!(a.deep_compare(&actual, &expected), Err("Unexpected field: 'x'".to_string()));
    let lenient = JsonStructureAssertion::new().ignore_extra_fields();
    assert!(lenient.deep_compare(&actual, &expected).is_ok());
}

#[test]
fn structure_reports_nested_mismatch_and_array_order() {
    let a = JsonStructureAssertion::new();
    let actual = obj(vec![("id", num(2))]);
    let expected = obj(vec![("id", num(1))]);
    assert_eq!(
        a.deep_compare(&actual, &expected),
        Err("Field 'id': Value mismatch: expected 1, got 2".to_string())
    );
    let actual = JsonValue::Array(vec![num(2), num(1)]);
    let expected = JsonValue::Array(vec![num(1), num(2)]);
    assert_eq!(
        a.deep_compare(&actual, &expected),
        Err("Array index 0: Value mismatch: expected 1, got 2".to_string())
    );
    let unordered = JsonStructureAssertion::new().ignore_array_order();
    assert!(unordered.deep_compare(&actual, &expected).is_ok());
    let expected = JsonValue::Array(vec![num(1), num(3)]);
    assert_eq!(
        unordered.deep_compare(&actual, &expected),
        Err("Expected array item at index 1 not found".to_string())
    );
    let short = JsonValue::Array(vec![num(1)]);
    assert_eq!(
        unordered.deep_compare(&short, &expected),
        Err("Array length mismatch: expected 2, got 1".to_string())
    );
}

#[test]
fn jsonpath_compare_values_dispatches() {
    use_compare();
}

fn use_compare() {
    let a = apirunner::json_assertions::JsonPathAssertion::new("$.id".to_string());
    let none = (false, String::new());
    let r = a.compare_values(&num(1), &apirunner::plugin::ExpectedValue::Exact(num(1)), none.clone());
    assert_eq!(r, (true, "JSONPath result matches expected value: 1".to_string()));
    let r = a.compare_values(&JsonValue::Null, &apirunner::plugin::ExpectedValue::NotEmpty, none.clone());
    assert_eq!(r, (false, "JSONPath result is empty".to_string()));
    let r = a.compare_values(
        &num(5),
        &apirunner::plugin::ExpectedValue::Range { min_bits: 0, max_bits: 0 },
        (true, "in range".to_string()),
    );
    assert_eq!(r, (true, "in range".to_string()));
}

fn text(x: &str) -> JsonValue {
    JsonValue::String(x.to_string())
}

#[test]
fn schema_validation_reports_type_required_and_nested_failures() {
    let a = apirunner::json_assertions::JsonSchemaAssertion::new();
    let schema = obj(vec![
        ("properties", obj(vec![("id", obj(vec![("type", text("number"))]))])),
        ("required", JsonValue::Array(vec![text("id"), text("name")])),
        ("type", text("object")),
    ]);
    let ok = obj(vec![("id", num(1)), ("name", text("n"))]);
    assert!(a.validate_against_schema(&ok, &schema).is_ok());
    assert_eq!(
        a.validate_against_schema(&num(1), &schema),
        Err("Type mismatch: expected object, got number".to_string())
    );
    let missing = obj(vec![("id", num(1))]);
    assert_eq!(a.validate_against_schema(&missing, &schema), Err("Required field 'name' is missing".to_string()));
    let wrong = obj(vec![("id", text("x")), ("name", text("n"))]);
    assert_eq!(
        a.validate_against_schema(&wrong, &schema),
        Err("Type mismatch: expected number, got string".to_string())
    );
    let list_schema = obj(vec![("items", obj(vec![("type", text("string"))])), ("type", text("array"))]);
    assert_eq!(
        a.validate_against_schema(&JsonValue::Array(vec![text("a"), num(2)]), &list_schema),
        Err("Type mismatch: expected string, got number".to_string())
    );
}

#[test]
fn structure_and_schema_assertions_execute() {
    let a = JsonStructureAssertion::new();
    let expected = apirunner::plugin::ExpectedValue::Exact(obj(vec![("id", num(1))]));
    let r = a.execute(Ok(obj(vec![("id", num(1))])), &expected, JsonValue::Null);
    assert!(r.success);
    assert_eq!(r.message, "JSON structure matches expected structure");
    let r = a.execute(Ok(obj(vec![("id", num(2))])), &expected, JsonValue::Null);
    assert_eq!(r.message, "JSON structure mismatch: Field 'id': Value mismatch: expected 1, got 2");
    let r = a.execute(Err("bad body".to_string()), &expected, JsonValue::Null);
    assert!(!r.success);
    assert_eq!(r.message, "bad body");
    let r = a.execute(Ok(num(1)), &apirunner::plugin::ExpectedValue::NotEmpty, JsonValue::Null);
    assert_eq!(r.message, "JSON structure assertion requires exact JSON value");

    let none = apirunner::json_assertions::JsonSchemaAssertion::new();
    assert_eq!(none.execute(Ok(num(1))).message, "No JSON schema configured");
    let s = apirunner::json_assertions::JsonSchemaAssertion::with_schema(obj(vec![("type", text("number"))]));
    let r = s.execute(Ok(num(1)));
    assert!(r.success);
    assert_eq!(r.message, "JSON response validates against schema");
    let r = s.execute(Ok(text("x")));
    assert_eq!(r.message, "JSON schema validation failed: Type mismatch: expected number, got string");
}
