use apirunner::execution::{
    execute_assertions, extract_json_path, extract_variables, group_by_dependency_levels, resolve_request_variables,
    sort_by_dependencies, DependentCase, ExecutionContext, ExecutionResult, ResponseData, TestResult,
};
use apirunner::cli::{execution_summary_lines, parse_template_variables, report_file_name, ReportFormat};
use apirunner::distributed_execution::{aggregate_results, DistributedTaskResult};
use apirunner::json::JsonValue;
use apirunner::strmap::StrMap;
use apirunner::test_case_manager::{AssertionDefinition, ExtractionSource, RequestDefinition, VariableExtraction};

fn s(x: &str) -> String {
    x.to_string()
}

fn texts(entries: Vec<(&str, &str)>) -> StrMap<String> {
    let mut m = StrMap::new();
    for (k, v) in entries {
        m.insert(s(k), s(v));
    }
    m
}

fn request(url: &str) -> RequestDefinition {
    RequestDefinition {
        protocol: s("http"),
        method: s("GET"),
        url: s(url),
        headers: texts(vec![("Authorization", "Bearer {{token}}")]),
        body: Some(s("{\"id\": \"{{id}}\"}")),
        auth: None,
    }
}

fn result(id: &str, success: bool, duration_ms: u64) -> TestResult {
    TestResult {
        test_case_id: s(id),
        test_case_name: s(id),
        success,
        duration_ms,
        request: request("http://x"),
        response: None,
        assertion_results: vec![],
        extracted_variables: StrMap::new(),
        error_message: None,
    }
}

fn response() -> ResponseData {
    ResponseData {
        status_code: 201,
        headers: texts(vec![("content-type", "application/json")]),
        body: b"{\"message\": \"success\", \"id\": 123}".to_vec(),
        duration_ms: 80,
    }
}

fn case(id: &str, deps: &[&str]) -> DependentCase<u32> {
    DependentCase { id: s(id), dependencies: deps.iter().map(|d| s(d)).collect(), case: 0 }
}

#[test]
fn execution_result_tallies_outcomes() {
    let ctx = ExecutionContext::new(s("suite"), s("dev"), 0);
    let mut r = ExecutionResult::new(ctx);
    assert!(r.is_successful());
    r.add_test_result(result("a", true, 100));
    r.add_test_result(result("b", false, 50));
    assert_eq!(r.success_count, 1);
    assert_eq!(r.failure_count, 1);
    assert_eq!(r.total_duration_ms, 150);
    assert_eq!(r.test_results.len(), 2);
    assert!(!r.is_successful());
}

#[test]
fn request_variables_are_resolved() {
    let ctx = ExecutionContext::new(s("suite"), s("dev"), 0)
        .with_variables(texts(vec![("host", "api.test"), ("token", "t0k"), ("id", "7")]));
    let r = resolve_request_variables(&request("https://{{host}}/users/{{id}}"), &ctx).ok().unwrap();
    assert_eq!(r.url, "https://api.test/users/7");
    assert_eq!(r.headers.get("Authorization").unwrap(), "Bearer t0k");
    assert_eq!(r.body.unwrap(), "{\"id\": \"7\"}");
    assert_eq!(r.method, "GET");
}

#[test]
fn json_members_are_extracted_as_text() {
    let body = JsonValue::Object(vec![
        (s("message"), JsonValue::String(s("success"))),
        (s("id"), JsonValue::Number(s("123"))),
        (s("ok"), JsonValue::Bool(true)),
        (s("list"), JsonValue::Array(vec![])),
    ]);
    assert_eq!(extract_json_path(&body, "message"), Some(s("success")));
    assert_eq!(extract_json_path(&body, "id"), Some(s("123")));
    assert_eq!(extract_json_path(&body, "ok"), Some(s("true")));
    assert_eq!(extract_json_path(&body, "list"), None);
    assert_eq!(extract_json_path(&body, "missing"), None);
    assert_eq!(extract_json_path(&JsonValue::Null, "id"), None);
}

#[test]
fn variables_are_extracted_from_responses() {
    let body = JsonValue::Object(vec![(s("id"), JsonValue::Number(s("123")))]);
    let extractions = Some(vec![
        VariableExtraction { name: s("status"), source: ExtractionSource::StatusCode, path: s(""), default_value: None },
        VariableExtraction {
            name: s("kind"),
            source: ExtractionSource::ResponseHeader,
            path: s("content-type"),
            default_value: None,
        },
        VariableExtraction {
            name: s("trace"),
            source: ExtractionSource::ResponseHeader,
            path: s("x-trace"),
            default_value: Some(s("none")),
        },
        VariableExtraction { name: s("user"), source: ExtractionSource::ResponseBody, path: s("id"), default_value: None },
        VariableExtraction {
            name: s("name"),
            source: ExtractionSource::ResponseBody,
            path: s("name"),
            default_value: Some(s("anon")),
        },
    ]);
    let vars = extract_variables(&extractions, &response(), &Some(body)).ok().unwrap();
    assert_eq!(vars.get("status").unwrap(), "201");
    assert_eq!(vars.get("kind").unwrap(), "application/json");
    assert_eq!(vars.get("trace").unwrap(), "none");
    assert_eq!(vars.get("user").unwrap(), "123");
    assert_eq!(vars.get("name").unwrap(), "anon");
    let none = extract_variables(&None, &response(), &None).ok().unwrap();
    assert_eq!(none.len(), 0);
}

#[test]
fn assertions_run_in_order() {
    let checks = vec![
        AssertionDefinition { assertion_type: s("status_code"), expected: JsonValue::Number(s("201")), message: None },
        AssertionDefinition { assertion_type: s("response_time"), expected: JsonValue::Number(s("50")), message: None },
    ];
    let results = execute_assertions(&checks, &response()).ok().unwrap();
    assert_eq!(results.len(), 2);
    assert!(results[0].success);
    assert!(!results[1].success);
}

#[test]
fn dependency_levels_group_runnable_cases() {
    let levels = group_by_dependency_levels(vec![
        case("c", &["b"]),
        case("a", &[]),
        case("b", &["a"]),
        case("d", &["a"]),
        case("x", &["missing"]),
    ]);
    let ids: Vec<Vec<String>> = levels.iter().map(|l| l.iter().map(|c| c.id.clone()).collect()).collect();
    assert_eq!(ids, vec![vec![s("a"), s("b"), s("d")], vec![s("c")]]);
}

#[test]
fn dependency_order_matches_levels_for_chains() {
    let sorted = sort_by_dependencies(vec![case("b", &["a"]), case("a", &[])]).ok().unwrap();
    assert_eq!(sorted[0].id, "a");
    let levels = group_by_dependency_levels(vec![case("b", &["a"]), case("a", &[])]);
    assert_eq!(levels.len(), 2);
}

#[test]
fn template_variables_split_at_the_first_equals_sign() {
    let vars = parse_template_variables(&vec![s("host=api.test"), s("query=a=b")]).unwrap();
    assert_eq!(vars.get("host").unwrap(), "api.test");
    assert_eq!(vars.get("query").unwrap(), "a=b");
    let e = parse_template_variables(&vec![s("ok=1"), s("broken")]).err().unwrap();
    assert_eq!(e, "Invalid variable format: broken. Use key=value");
}

#[test]
fn report_formats_name_their_files() {
    assert_eq!(report_file_name(ReportFormat::Html), Some(s("report.html")));
    assert_eq!(report_file_name(ReportFormat::Junit), Some(s("junit.xml")));
    assert_eq!(report_file_name(ReportFormat::Markdown), None);
}

#[test]
fn summary_lists_failed_tests() {
    let ctx = ExecutionContext::new(s("suite"), s("dev"), 0);
    let mut r = ExecutionResult::new(ctx);
    r.add_test_result(result("a", true, 1));
    let mut failed = result("b", false, 1);
    failed.error_message = Some(s("timeout"));
    r.add_test_result(failed);
    let lines = execution_summary_lines(&r);
    assert_eq!(lines[2], "  Total Tests: 2");
    assert_eq!(lines[3], "  Passed: 1 ✅");
    assert_eq!(lines[4], "  Failed: 1 ❌");
    assert_eq!(lines[6], "❌ Failed Tests:");
    assert_eq!(lines[7], "  • b");
    assert_eq!(lines[8], "    Error: timeout");
    assert_eq!(lines.len(), 9);
}

fn task(id: &str, results: Vec<TestResult>) -> DistributedTaskResult<TestResult> {
    DistributedTaskResult {
        task_id: s(id),
        node_id: s("node-1"),
        test_results: results,
        execution_duration_ms: 5,
        completed_at: 0,
        success: true,
        error_message: None,
    }
}

#[test]
fn task_results_are_gathered_in_order() {
    let ctx = ExecutionContext::new(s("suite"), s("dev"), 0);
    let r = aggregate_results(
        vec![task("t1", vec![result("a", true, 10), result("b", false, 20)]), task("t2", vec![result("c", true, 30)])],
        ctx,
        42,
    );
    let ids: Vec<String> = r.test_results.iter().map(|t| t.test_case_id.clone()).collect();
    assert_eq!(ids, vec![s("a"), s("b"), s("c")]);
    assert_eq!(r.success_count, 2);
    assert_eq!(r.failure_count, 1);
    assert_eq!(r.total_duration_ms, 42);
}
