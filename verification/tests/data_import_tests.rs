use apirunner::data_source::{
    less_text, FileDataSourceConfig, YamlDataSource, YamlDataSourceConfig, YamlNumber, YamlValue,
};
use apirunner::error::DataSourceError;
use apirunner::import_export::exporter::PostmanExporter;
use apirunner::import_export::postman::{
    PostmanAuth, PostmanBody, PostmanCollection, PostmanEvent, PostmanHeader, PostmanImporter, PostmanInfo,
    PostmanItem, PostmanKeyValue, PostmanQueryParam, PostmanRequest, PostmanScript, PostmanUrl, PostmanVariable,
};
use apirunner::import_export::{ExportFormat, ExportOptions, ImportExportManager, ImportFormat, ImportOptions, ImportSource};
use apirunner::interactive_execution::{calculate_total_steps, create_execution_steps, validate_test_case, StepType};
use apirunner::json::JsonValue;
use apirunner::strmap::StrMap;
use apirunner::test_case_manager::{AuthDefinition, RequestDefinition, TestCase};

fn s(x: &str) -> String {
    x.to_string()
}

fn yaml_source(array_path: Option<&str>) -> YamlDataSource {
    YamlDataSource::new(YamlDataSourceConfig {
        file_config: FileDataSourceConfig { file_path: s("data.yaml"), streaming: false, batch_size: None, encoding: None },
        document_separator: true,
        array_path: array_path.map(s),
    })
}

fn ystr(x: &str) -> YamlValue {
    YamlValue::String(s(x))
}

fn user(name: &str, age: i64) -> YamlValue {
    YamlValue::Mapping(vec![(ystr("name"), ystr(name)), (ystr("age"), YamlValue::Number(YamlNumber::Integer(age)))])
}

fn kv(k: &str, v: &str) -> PostmanKeyValue {
    PostmanKeyValue { key: s(k), value: s(v), disabled: None }
}

fn request(method: &str, url: PostmanUrl) -> PostmanRequest {
    PostmanRequest { method: s(method), header: None, body: None, url, auth: None, description: None }
}

fn item(name: &str, req: Option<PostmanRequest>, sub: Option<Vec<PostmanItem>>) -> PostmanItem {
    PostmanItem { name: s(name), description: None, request: req, item: sub, event: None }
}

fn options() -> ImportOptions {
    ImportOptions::default_options()
}

#[test]
fn yaml_documents_become_records() {
    let docs = vec![YamlValue::Sequence(vec![user("Ann", 30), user("Bob", -4)]), ystr("plain")];
    let records = yaml_source(None).extract_records_from_yaml(&docs).ok().unwrap();
    assert_eq!(records.len(), 3);
    assert_eq!(records[0].fields.get("name").unwrap().to_json_string(), "\"Ann\"");
    assert_eq!(records[1].fields.get("age").unwrap().to_json_string(), "-4");
    assert_eq!(records[1].metadata.get("item_index").map(|v| v.as_str()), Some("1"));
    assert_eq!(records[2].fields.get("value").unwrap().to_json_string(), "\"plain\"");
    assert_eq!(records[2].metadata.get("document_index").map(|v| v.as_str()), Some("1"));
}

#[test]
fn yaml_array_path_is_followed() {
    let doc = YamlValue::Mapping(vec![(
        ystr("data"),
        YamlValue::Tagged(Box::new(YamlValue::Mapping(vec![(ystr("users"), YamlValue::Sequence(vec![user("Cy", 1)]))]))),
    )]);
    let records = yaml_source(Some("data.users")).extract_records_from_yaml(&vec![doc]).ok().unwrap();
    assert_eq!(records.len(), 1);
    assert_eq!(records[0].fields.get("name").unwrap().to_json_string(), "\"Cy\"");

    let missing = yaml_source(Some("data.groups")).extract_records_from_yaml(&vec![user("x", 1)]);
    match missing {
        Err(DataSourceError::ParseError(m)) => assert_eq!(m, "Path not found: data.groups"),
        _ => panic!("expected a missing path"),
    }
}

#[test]
fn yaml_mappings_become_sorted_json_objects() {
    let source = yaml_source(None);
    let v = YamlValue::Mapping(vec![
        (ystr("zeta"), YamlValue::Bool(true)),
        (ystr("alpha"), YamlValue::Number(YamlNumber::Float(Some(s("2.5"))))),
        (YamlValue::Number(YamlNumber::Integer(1)), ystr("ignored")),
        (ystr("mid"), YamlValue::Sequence(vec![YamlValue::Null])),
    ]);
    let j = source.yaml_to_json_value(&v).ok().unwrap();
    assert_eq!(j.to_json_string(), "{\"alpha\":2.5,\"mid\":[null],\"zeta\":true}");

    let bad = YamlValue::Sequence(vec![YamlValue::Number(YamlNumber::Float(None))]);
    match source.yaml_to_json_value(&bad) {
        Err(DataSourceError::ParseError(m)) => assert_eq!(m, "Invalid number in YAML"),
        _ => panic!("expected an invalid number"),
    }
}

#[test]
fn texts_are_ordered_by_character() {
    assert!(less_text("abc", "abd"));
    assert!(less_text("ab", "abc"));
    assert!(!less_text("abc", "abc"));
    assert!(less_text("Zebra", "apple"));
    assert!(!less_text("b", "a"));
}

#[test]
fn postman_urls_are_assembled_from_parts() {
    let importer = PostmanImporter::new();
    let url = PostmanUrl::Object {
        raw: None,
        protocol: None,
        host: Some(vec![s("api"), s("example"), s("com")]),
        port: Some(s("8080")),
        path: Some(vec![s("users"), s("{{userId}}")]),
        query: Some(vec![
            PostmanQueryParam { key: s("a"), value: s("1"), disabled: None },
            PostmanQueryParam { key: s("b"), value: s("2"), disabled: Some(true) },
            PostmanQueryParam { key: s("c"), value: s("3"), disabled: Some(false) },
        ]),
    };
    let mut vars: StrMap<String> = StrMap::new();
    vars.insert(s("userId"), s("42"));
    let out = importer.convert_postman_url(&url, &vars, &options()).ok().unwrap();
    assert_eq!(out, "https://api.example.com:8080/users/${userId}?a=1&c=3");
}

#[test]
fn postman_base_url_override_replaces_scheme_and_host() {
    let importer = PostmanImporter::new();
    let vars: StrMap<String> = StrMap::new();
    let mut opts = options();
    opts.base_url_override = Some(s("http://staging.local/"));
    let abs = PostmanUrl::String(s("https://prod.example.com/v1/items?x=1"));
    assert_eq!(importer.convert_postman_url(&abs, &vars, &opts).ok().unwrap(), "http://staging.local/v1/items?x=1");
    let host_only = PostmanUrl::String(s("https://prod.example.com"));
    assert_eq!(importer.convert_postman_url(&host_only, &vars, &opts).ok().unwrap(), "http://staging.local/");
    let relative = PostmanUrl::String(s("//v2/things"));
    assert_eq!(importer.convert_postman_url(&relative, &vars, &opts).ok().unwrap(), "http://staging.local/v2/things");
}

#[test]
fn postman_headers_bodies_and_auth_are_converted() {
    let importer = PostmanImporter::new();
    let headers = Some(vec![
        PostmanHeader { key: s("Accept"), value: s("json"), disabled: None, description: None },
        PostmanHeader { key: s("X-Off"), value: s("1"), disabled: Some(true), description: None },
    ]);
    let h = importer.convert_postman_headers(&headers);
    assert_eq!(h.len(), 1);
    assert_eq!(h.get("Accept").map(|v| v.as_str()), Some("json"));

    let body = Some(PostmanBody {
        mode: Some(s("urlencoded")),
        raw: Some(s("unused")),
        urlencoded: Some(vec![kv("a", "1"), PostmanKeyValue { key: s("b"), value: s("2"), disabled: Some(true) }, kv("c", "3")]),
        formdata: None,
    });
    assert_eq!(importer.convert_postman_body(&body).ok().unwrap(), Some(s("a=1&c=3")));

    let form = Some(PostmanBody {
        mode: Some(s("formdata")),
        raw: None,
        urlencoded: None,
        formdata: Some(vec![apirunner::import_export::postman::PostmanFormData {
            key: s("name"),
            value: Some(s("Ann")),
            src: None,
            data_type: None,
            disabled: None,
        }]),
    });
    assert_eq!(importer.convert_postman_body(&form).ok().unwrap(), Some(s("{\n  \"name\": \"Ann\"\n}")));

    let auth = Some(PostmanAuth {
        auth_type: s("apikey"),
        bearer: None,
        basic: None,
        oauth2: None,
        apikey: Some(vec![kv("key", "X-Key"), kv("value", "secret")]),
    });
    let a = importer.convert_postman_auth(&auth).unwrap();
    assert_eq!(a.auth_type, "apikey");
    assert_eq!(a.config.get("location").map(|v| v.as_str()), Some("header"));
    assert_eq!(a.config.get("value").map(|v| v.as_str()), Some("secret"));

    let incomplete = Some(PostmanAuth { auth_type: s("basic"), bearer: None, basic: Some(vec![kv("username", "u")]), oauth2: None, apikey: None });
    assert!(importer.convert_postman_auth(&incomplete).is_none());
}

#[test]
fn postman_items_in_folders_become_tagged_test_cases() {
    let importer = PostmanImporter::new();
    let mut get_user = request("get", PostmanUrl::String(s("https://api/users/{{id}}")));
    get_user.auth = Some(PostmanAuth { auth_type: s("bearer"), bearer: Some(vec![kv("token", "t0k")]), basic: None, oauth2: None, apikey: None });
    let mut login = item("Login [Auth] #smoke", Some(request("post", PostmanUrl::String(s("https://api/login")))), None);
    login.event = Some(vec![PostmanEvent {
        listen: s("test"),
        script: PostmanScript {
            script_type: None,
            exec_lines: Some(vec![
                s("pm.environment.set(\"token\", pm.response.json().access_token)"),
                s("console.log(1)"),
                s("pm.globals.set(\"id\", responseJson.id)"),
            ]),
        },
    }]);
    let collection = PostmanCollection {
        info: PostmanInfo { name: s("API"), description: None, schema: None },
        item: vec![
            login,
            item("Users", None, Some(vec![item("Get user", Some(get_user), None), item("Empty", None, None)])),
        ],
        variable: Some(vec![PostmanVariable { key: s("id"), value: s("7"), description: None }]),
        auth: None,
    };
    let vars = importer.collect_variables(&collection);
    let cases = importer.process_items_recursively(&collection.item, &vars, &options(), "").ok().unwrap();
    assert_eq!(cases.len(), 2);
    assert_eq!(cases[0].name, "Login [Auth] #smoke");
    assert_eq!(cases[0].request.method, "POST");
    assert_eq!(cases[0].tags, vec![s("postman"), s("auth"), s("smoke")]);
    let extractions = cases[0].variable_extractions.as_ref().unwrap();
    assert_eq!(extractions.len(), 2);
    assert_eq!(extractions[0].name, "token");
    assert_eq!(extractions[0].path, "$.pm.response.json(");
    assert_eq!(extractions[1].name, "id");
    assert_eq!(extractions[1].path, "responseJson.id");
    assert_eq!(cases[0].assertions.len(), 2);
    assert_eq!(cases[1].request.url, "https://api/users/${id}");
    assert_eq!(cases[1].tags, vec![s("postman"), s("folder:Users")]);
    assert_eq!(cases[1].request.auth.as_ref().unwrap().config.get("token").map(|v| v.as_str()), Some("t0k"));
}

#[test]
fn postman_sources_are_checked() {
    let importer = PostmanImporter::new();
    assert!(importer.validate_source(&ImportSource::File(s("collection.json")), true).is_ok());
    assert!(importer.validate_source(&ImportSource::File(s("collection.json")), false).is_err());
    assert!(importer.validate_source(&ImportSource::File(s("collection.yaml")), true).is_err());
    assert!(importer.validate_source(&ImportSource::Url(s("ftp://x")), false).is_err());
    assert!(importer.validate_source(&ImportSource::Url(s("https://x")), false).is_ok());
    assert!(importer.validate_source(&ImportSource::Content(s("{}")), false).is_ok());
}

fn test_case(name: &str, tags: Vec<String>, auth: Option<AuthDefinition>) -> TestCase {
    let mut headers: StrMap<String> = StrMap::new();
    headers.insert(s("Accept"), s("application/json"));
    headers.insert(s("X-Trace"), s("on"));
    TestCase {
        id: s("id-1"),
        name: s(name),
        description: Some(s("d")),
        tags,
        protocol: s("http"),
        request: RequestDefinition {
            protocol: s("http"),
            method: s("PUT"),
            url: s("https://api/things/1"),
            headers,
            body: Some(s("{\"a\":1}")),
            auth,
        },
        assertions: Vec::new(),
        variable_extractions: None,
        dependencies: Vec::new(),
        timeout_ms: None,
        created_at_ms: 0,
        updated_at_ms: 0,
        version: 1,
    }
}

#[test]
fn postman_export_then_import_gives_the_same_request() {
    let mut config: StrMap<String> = StrMap::new();
    config.insert(s("username"), s("ann"));
    config.insert(s("password"), s("pw"));
    let tc = test_case("Update", vec![], Some(AuthDefinition { auth_type: s("basic"), config }));
    let exported = PostmanExporter::new().convert_test_case_to_postman_item(&tc, &ExportOptions::default_options());
    let importer = PostmanImporter::new();
    let back = importer
        .convert_postman_request(exported.request.as_ref().unwrap(), &StrMap::new(), &options())
        .ok()
        .unwrap();
    assert_eq!(back.method, tc.request.method);
    assert_eq!(back.url, tc.request.url);
    assert_eq!(back.body, tc.request.body);
    assert_eq!(back.headers.len(), 2);
    assert_eq!(back.headers.get("X-Trace").map(|v| v.as_str()), Some("on"));
    let auth = back.auth.unwrap();
    assert_eq!(auth.auth_type, "basic");
    assert_eq!(auth.config.get("username").map(|v| v.as_str()), Some("ann"));
    assert_eq!(auth.config.get("password").map(|v| v.as_str()), Some("pw"));
}

#[test]
fn exported_collections_group_folders() {
    let cases = vec![
        test_case("a", vec![s("folder:Users")], None),
        test_case("b", vec![], None),
        test_case("c", vec![s("x"), s("folder:Admin")], None),
        test_case("d", vec![s("folder:Users")], None),
    ];
    let collection = PostmanExporter::new().convert_test_cases_to_postman(&cases, &ExportOptions::default_options());
    assert_eq!(collection.info.name, "Exported Test Cases");
    assert_eq!(collection.item.len(), 3);
    assert_eq!(collection.item[0].name, "b");
    assert_eq!(collection.item[1].name, "Users");
    let users = collection.item[1].item.as_ref().unwrap();
    assert_eq!(users.len(), 2);
    assert_eq!(users[1].name, "d");
    assert_eq!(collection.item[2].name, "Admin");
}

#[test]
fn manager_lists_and_finds_handlers() {
    let manager = ImportExportManager::new();
    assert_eq!(
        manager.get_supported_import_formats(),
        vec![ImportFormat::PostmanCollection, ImportFormat::OpenApiSpec, ImportFormat::SwaggerSpec]
    );
    assert_eq!(
        manager.get_supported_export_formats(),
        vec![ExportFormat::Json, ExportFormat::Yaml, ExportFormat::PostmanCollection]
    );
    assert!(manager.find_importer(&ImportFormat::SwaggerSpec).is_ok());
    match manager.find_importer(&ImportFormat::InsomniaCollection) {
        Err(e) => assert_eq!(e.message(), "Import error: No importer found for format: InsomniaCollection"),
        Ok(_) => panic!("no importer reads Insomnia collections"),
    }
    match manager.find_exporter(&ExportFormat::OpenApiSpec) {
        Err(e) => assert_eq!(e.message(), "Export error: No exporter found for format: OpenApiSpec"),
        Ok(_) => panic!("no exporter writes OpenAPI"),
    }
}

#[test]
fn interactive_steps_follow_the_test_case() {
    let mut tc = test_case("t", vec![], None);
    assert_eq!(calculate_total_steps(&tc), 1);
    assert_eq!(create_execution_steps(&tc).len(), 1);
    tc.variable_extractions = Some(Vec::new());
    tc.assertions = vec![apirunner::test_case_manager::AssertionDefinition {
        assertion_type: s("status_code"),
        expected: JsonValue::Number(s("200")),
        message: None,
    }];
    assert_eq!(calculate_total_steps(&tc), 3);
    let steps = create_execution_steps(&tc);
    assert_eq!(steps.len(), 3);
    assert_eq!(steps[1].step_type, StepType::AssertionValidation);
    assert_eq!(steps[2].name, "Extract Variables");
    assert!(validate_test_case(&tc).is_empty());
    tc.request.url = s("");
    let errors = validate_test_case(&tc);
    assert_eq!(errors.len(), 1);
    assert_eq!(errors[0].message, "Invalid URL: Test case execution failed: Empty URL");
}

use apirunner::import_export::openapi::{
    generate_example_from_schema, generate_value_from_schema, OpenApiComponents, OpenApiImporter, OpenApiInfo,
    OpenApiMediaType, OpenApiOperation, OpenApiParameter, OpenApiPathItem, OpenApiRequestBody, OpenApiResponse,
    OpenApiSchema, OpenApiSecurityScheme, OpenApiServer, OpenApiSpec,
};

fn schema(t: &str) -> OpenApiSchema {
    OpenApiSchema { schema_type: Some(s(t)), format: None, properties: None, items: None, required: None, example: None }
}

fn operation(id: Option<&str>) -> OpenApiOperation {
    OpenApiOperation {
        summary: Some(s("Get a user")),
        description: None,
        operation_id: id.map(s),
        tags: Some(vec![s("users")]),
        parameters: Some(vec![
            OpenApiParameter { name: s("id"), location: s("path"), required: Some(true), description: None, schema: None, example: Some(JsonValue::Number(s("7"))) },
            OpenApiParameter { name: s("verbose"), location: s("query"), required: None, description: None, schema: None, example: None },
            OpenApiParameter { name: s("X-Req"), location: s("header"), required: None, description: None, schema: None, example: Some(JsonValue::String(s("abc"))) },
            OpenApiParameter { name: s("c"), location: s("cookie"), required: None, description: None, schema: None, example: None },
        ]),
        request_body: None,
        responses: vec![
            (s("404"), OpenApiResponse { description: s("missing"), content: None, headers: None }),
            (s("201"), OpenApiResponse { description: s("created"), content: None, headers: None }),
        ],
        security: None,
    }
}

fn spec_with(paths: Vec<(String, OpenApiPathItem)>) -> OpenApiSpec {
    OpenApiSpec {
        openapi: s("3.0.0"),
        info: OpenApiInfo { title: s("API"), version: s("1"), description: None },
        servers: Some(vec![OpenApiServer { url: s("https://api.example.org"), description: None }]),
        paths,
        components: Some(OpenApiComponents {
            schemas: None,
            security_schemes: Some(vec![(
                s("key"),
                OpenApiSecurityScheme { scheme_type: s("apiKey"), scheme: None, bearer_format: None, name: Some(s("X-Key")), location: Some(s("header")) },
            )]),
        }),
    }
}

fn path_item(get: Option<OpenApiOperation>, post: Option<OpenApiOperation>) -> OpenApiPathItem {
    OpenApiPathItem { get, post, put: None, delete: None, patch: None, head: None, options: None, parameters: None }
}

#[test]
fn openapi_parameters_shape_the_request() {
    let importer = OpenApiImporter::new();
    let req = importer
        .convert_operation_to_request("/users/{id}", "get", &operation(None), "https://h/users/{id}", &ImportOptions::default_options())
        .ok()
        .unwrap();
    assert_eq!(req.method, "GET");
    assert_eq!(req.url, "https://h/users/7?verbose=${verbose}");
    assert_eq!(req.headers.get("X-Req").map(|v| v.as_str()), Some("\"abc\""));
    assert_eq!(req.headers.len(), 1);
    assert!(req.body.is_none());
}

#[test]
fn openapi_bodies_use_pretty_examples() {
    let importer = OpenApiImporter::new();
    let mut op = operation(None);
    let mut body_schema = schema("object");
    body_schema.properties = Some(vec![(s("name"), schema("string")), (s("age"), schema("integer"))]);
    op.request_body = Some(OpenApiRequestBody {
        description: None,
        content: vec![(s("application/json"), OpenApiMediaType { schema: Some(body_schema), example: None, examples: None })],
        required: None,
    });
    let req = importer.convert_operation_to_request("/u", "post", &op, "https://h/u", &ImportOptions::default_options()).ok().unwrap();
    assert_eq!(req.headers.get("Content-Type").map(|v| v.as_str()), Some("application/json"));
    assert_eq!(req.body, Some(s("{\n  \"age\": 42,\n  \"name\": \"string\"\n}")));
}

#[test]
fn openapi_schema_examples() {
    let mut email = schema("string");
    email.format = Some(s("email"));
    assert_eq!(generate_value_from_schema(&email).to_json_string(), "\"user@example.com\"");
    let mut list = schema("array");
    list.items = Some(Box::new(schema("number")));
    assert_eq!(generate_value_from_schema(&list).to_json_string(), "[3.14]");
    assert_eq!(generate_value_from_schema(&schema("mystery")).to_json_string(), "\"example\"");
    assert_eq!(generate_example_from_schema(&schema("boolean")).ok().unwrap(), "true");
}

#[test]
fn openapi_operations_become_test_cases() {
    let importer = OpenApiImporter::new();
    let spec = spec_with(vec![(s("/users/{id}"), path_item(Some(operation(Some("getUser"))), Some(operation(None))))]);
    let cases = importer.test_cases_from_spec(&spec, &ImportOptions::default_options()).ok().unwrap();
    assert_eq!(cases.len(), 2);
    assert_eq!(cases[0].name, "getUser");
    assert_eq!(cases[0].request.url, "https://api.example.org/users/7?verbose=${verbose}");
    assert_eq!(cases[0].tags, vec![s("openapi"), s("users"), s("folder:users"), s("operation:getUser")]);
    assert_eq!(cases[0].assertions.len(), 2);
    assert_eq!(cases[0].assertions[0].expected.to_json_string(), "201");
    assert_eq!(cases[0].assertions[0].message.as_deref(), Some("Expected status code 201"));
    assert_eq!(cases[1].name, "Get a user");
    assert_eq!(cases[1].request.method, "POST");
    let auth = importer.convert_security_to_auth(&Some(vec![vec![(s("key"), vec![])]]), &spec).unwrap();
    assert_eq!(auth.auth_type, "apikey");
    assert_eq!(auth.config.get("value").map(|v| v.as_str()), Some("${X-Key}"));
    assert!(importer.validate_source(&ImportSource::File(s("spec.yml")), true).is_ok());
    assert!(importer.validate_source(&ImportSource::File(s("spec.txt")), true).is_err());
}
