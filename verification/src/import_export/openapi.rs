//! Importing test cases from OpenAPI specifications: one test case per
//! operation, with its URL, parameters, example body and expected status.

use vstd::prelude::*;
use crate::text::{views, owned, concat, concat3, copy_string, uppercase, uppercase_text, new_uuid, path_extension_text, decimal};
use crate::json::{JsonValue, JsonView, json_text, members_view, lemma_members_view, array_view, lemma_array_view};
use crate::json_assertions::{contains_text, text_contains};
use crate::execution::{replace_all, replace_text};
use crate::strmap::StrMap;
use crate::data_source::{text_views, insert_member, put_member};
use crate::configuration::parse_unsigned_text;
use crate::event::has_prefix;
use crate::error::TestCaseError;
use crate::auth_plugin::{now_millis, opt_view};
use crate::test_case_manager::{TestCase, RequestDefinition, AssertionDefinition, AuthDefinition};
use super::{ImportOptions, ImportSource};
use super::postman::is_import_error;

verus! {

/// An OpenAPI specification. Maps are kept as their entries, in order.
pub struct OpenApiSpec {
    pub openapi: String,
    pub info: OpenApiInfo,
    pub servers: Option<Vec<OpenApiServer>>,
    pub paths: Vec<(String, OpenApiPathItem)>,
    pub components: Option<OpenApiComponents>,
}

/// The API's title, version and description.
pub struct OpenApiInfo {
    pub title: String,
    pub version: String,
    pub description: Option<String>,
}

/// A server the API is served from.
pub struct OpenApiServer {
    pub url: String,
    pub description: Option<String>,
}

/// The operations of a path.
pub struct OpenApiPathItem {
    pub get: Option<OpenApiOperation>,
    pub post: Option<OpenApiOperation>,
    pub put: Option<OpenApiOperation>,
    pub delete: Option<OpenApiOperation>,
    pub patch: Option<OpenApiOperation>,
    pub head: Option<OpenApiOperation>,
    pub options: Option<OpenApiOperation>,
    pub parameters: Option<Vec<OpenApiParameter>>,
}

/// An operation on a path.
pub struct OpenApiOperation {
    pub summary: Option<String>,
    pub description: Option<String>,
    pub operation_id: Option<String>,
    pub tags: Option<Vec<String>>,
    pub parameters: Option<Vec<OpenApiParameter>>,
    pub request_body: Option<OpenApiRequestBody>,
    /// Responses by status code.
    pub responses: Vec<(String, OpenApiResponse)>,
    /// Security requirements: scheme names with their scopes.
    pub security: Option<Vec<Vec<(String, Vec<String>)>>>,
}

/// A parameter of an operation.
pub struct OpenApiParameter {
    pub name: String,
    /// Where it goes: query, header, path or cookie.
    pub location: String,
    pub required: Option<bool>,
    pub description: Option<String>,
    pub schema: Option<OpenApiSchema>,
    pub example: Option<JsonValue>,
}

/// The body an operation takes.
pub struct OpenApiRequestBody {
    pub description: Option<String>,
    /// Media types by content type.
    pub content: Vec<(String, OpenApiMediaType)>,
    pub required: Option<bool>,
}

/// A response of an operation.
pub struct OpenApiResponse {
    pub description: String,
    pub content: Option<Vec<(String, OpenApiMediaType)>>,
    pub headers: Option<Vec<(String, OpenApiHeader)>>,
}

/// A media type's schema and examples.
pub struct OpenApiMediaType {
    pub schema: Option<OpenApiSchema>,
    pub example: Option<JsonValue>,
    pub examples: Option<Vec<(String, OpenApiExample)>>,
}

/// A schema.
pub struct OpenApiSchema {
    pub schema_type: Option<String>,
    pub format: Option<String>,
    pub properties: Option<Vec<(String, OpenApiSchema)>>,
    pub items: Option<Box<OpenApiSchema>>,
    pub required: Option<Vec<String>>,
    pub example: Option<JsonValue>,
}

/// A response header.
pub struct OpenApiHeader {
    pub description: Option<String>,
    pub schema: Option<OpenApiSchema>,
}

/// A named example.
pub struct OpenApiExample {
    pub summary: Option<String>,
    pub description: Option<String>,
    pub value: Option<JsonValue>,
}

/// Reusable schemas and security schemes, by name.
pub struct OpenApiComponents {
    pub schemas: Option<Vec<(String, OpenApiSchema)>>,
    pub security_schemes: Option<Vec<(String, OpenApiSecurityScheme)>>,
}

/// A security scheme.
pub struct OpenApiSecurityScheme {
    pub scheme_type: String,
    pub scheme: Option<String>,
    pub bearer_format: Option<String>,
    pub name: Option<String>,
    pub location: Option<String>,
}

/// Reads OpenAPI specifications.
pub struct OpenApiImporter {}

/// JSON text in serde_json's pretty layout (two-space indents), for the
/// compact JSON text given.
pub uninterp spec fn pretty_json_text(compact: Seq<char>) -> Seq<char>;

/// serde_json's pretty printing of a JSON document written compactly.
#[verifier::external_body]
fn pretty_json(compact: &str) -> (r: String)
    ensures
        r@ == pretty_json_text(compact@),
{
    serde_json::from_str::<serde_json::Value>(compact)
        .and_then(|v| serde_json::to_string_pretty(&v))
        .unwrap_or_default()
}

/// The text of an optional text, if any.
pub open spec fn opt_text(s: Option<String>) -> Option<Seq<char>> {
    match s {
        Some(x) => Some(x@),
        None => None,
    }
}

/// The base URL of an imported operation: the override, or the first
/// server's URL, or `https://api.example.com`.
pub open spec fn base_url(spec: OpenApiSpec, options: ImportOptions) -> Seq<char> {
    match options.base_url_override {
        Some(b) => b@,
        None => match spec.servers {
            Some(s) => if s@.len() > 0 { s@[0].url@ } else { "https://api.example.com"@ },
            None => "https://api.example.com"@,
        },
    }
}

/// The folder of an operation: its first tag, after the tag prefix and a slash.
pub open spec fn folder_path(tags: Option<Vec<String>>, prefix: Option<Seq<char>>) -> Option<Seq<char>> {
    match tags {
        Some(t) => if t@.len() > 0 {
            match prefix {
                Some(p) => Some(p + "/"@ + t@[0]@),
                None => Some(t@[0]@),
            }
        } else {
            None
        },
        None => None,
    }
}

/// The tags of an imported operation: `openapi` (or `prefix:openapi`), then
/// the operation's tags.
pub open spec fn operation_tags(op_tags: Option<Vec<String>>, prefix: Option<Seq<char>>) -> Seq<Seq<char>> {
    let first = match prefix { Some(p) => p + ":openapi"@, None => "openapi"@ };
    seq![first] + match op_tags { Some(t) => views(t@), None => Seq::empty() }
}

/// The example value a schema describes: its example, or a value of its type
/// (`user@example.com`, dates and UUIDs for string formats, 42, 3.14, true,
/// a one-item array, an object of its properties in name order), or `"example"`.
pub open spec fn schema_value(s: OpenApiSchema) -> JsonView
    decreases s,
{
    match s.example {
        Some(e) => e.view(),
        None => {
            let t = opt_text(s.schema_type);
            if t == Some("string"@) {
                let f = opt_text(s.format);
                if f == Some("email"@) {
                    JsonView::String("user@example.com"@)
                } else if f == Some("date"@) {
                    JsonView::String("2023-01-01"@)
                } else if f == Some("date-time"@) {
                    JsonView::String("2023-01-01T00:00:00Z"@)
                } else if f == Some("uuid"@) {
                    JsonView::String("123e4567-e89b-12d3-a456-426614174000"@)
                } else {
                    JsonView::String("string"@)
                }
            } else if t == Some("integer"@) {
                JsonView::Number("42"@)
            } else if t == Some("number"@) {
                JsonView::Number("3.14"@)
            } else if t == Some("boolean"@) {
                JsonView::Bool(true)
            } else if t == Some("array"@) {
                match s.items {
                    Some(i) => JsonView::Array(seq![schema_value(*i)]),
                    None => JsonView::Array(Seq::empty()),
                }
            } else if t == Some("object"@) {
                match s.properties {
                    Some(p) => JsonView::Object(property_values(p@)),
                    None => JsonView::Object(Seq::empty()),
                }
            } else {
                JsonView::String("example"@)
            }
        },
    }
}

/// The example values of properties, put in name order.
pub open spec fn property_values(p: Seq<(String, OpenApiSchema)>) -> Seq<(Seq<char>, JsonView)>
    decreases p,
{
    if p.len() == 0 {
        Seq::empty()
    } else {
        insert_member(property_values(p.drop_last()), p.last().0@, schema_value(p.last().1))
    }
}

fn text_is(s: &Option<String>, t: &str) -> (r: bool)
    ensures
        r == (opt_text(*s) == Some(t@)),
{
    match s {
        Some(x) => crate::text::str_equal(x.as_str(), t),
        None => false,
    }
}

fn text_value(t: &str) -> (r: JsonValue)
    ensures
        r.view() == JsonView::String(t@),
{
    JsonValue::String(owned(t))
}

/// The example value of a schema (see `schema_value`).
pub fn generate_value_from_schema(schema: &OpenApiSchema) -> (r: JsonValue)
    ensures
        r.view() == schema_value(*schema),
    decreases schema,
{
    match &schema.example {
        Some(e) => e.duplicate(),
        None => {
            if text_is(&schema.schema_type, "string") {
                if text_is(&schema.format, "email") {
                    text_value("user@example.com")
                } else if text_is(&schema.format, "date") {
                    text_value("2023-01-01")
                } else if text_is(&schema.format, "date-time") {
                    text_value("2023-01-01T00:00:00Z")
                } else if text_is(&schema.format, "uuid") {
                    text_value("123e4567-e89b-12d3-a456-426614174000")
                } else {
                    text_value("string")
                }
            } else if text_is(&schema.schema_type, "integer") {
                JsonValue::Number(owned("42"))
            } else if text_is(&schema.schema_type, "number") {
                JsonValue::Number(owned("3.14"))
            } else if text_is(&schema.schema_type, "boolean") {
                JsonValue::Bool(true)
            } else if text_is(&schema.schema_type, "array") {
                match &schema.items {
                    Some(i) => {
                        let v = generate_value_from_schema(i);
                        let ghost vv = v.view();
                        let items = vec![v];
                        proof { lemma_array_view(items@); }
                        assert(array_view(items@) =~= seq![vv]);
                        JsonValue::Array(items)
                    },
                    None => {
                        let items: Vec<JsonValue> = Vec::new();
                        assert(array_view(items@) =~= Seq::<JsonView>::empty());
                        JsonValue::Array(items)
                    },
                }
            } else if text_is(&schema.schema_type, "object") {
                match &schema.properties {
                    Some(p) => JsonValue::Object(generate_properties(p)),
                    None => {
                        let m: Vec<(String, JsonValue)> = Vec::new();
                        assert(members_view(m@) =~= Seq::<(Seq<char>, JsonView)>::empty());
                        JsonValue::Object(m)
                    },
                }
            } else {
                text_value("example")
            }
        },
    }
}

fn generate_properties(p: &Vec<(String, OpenApiSchema)>) -> (r: Vec<(String, JsonValue)>)
    ensures
        members_view(r@) == property_values(p@),
    decreases p@,
{
    let mut out: Vec<(String, JsonValue)> = Vec::new();
    let mut i: usize = 0;
    assert(p@.take(0) =~= Seq::<(String, OpenApiSchema)>::empty());
    assert(members_view(out@) =~= Seq::<(Seq<char>, JsonView)>::empty());
    while i < p.len()
        invariant
            i <= p@.len(),
            members_view(out@) == property_values(p@.take(i as int)),
        decreases p.len() - i,
    {
        proof {
            assert(decreases_to!(p@ => p@[i as int]));
            assert(decreases_to!(p@[i as int] => p@[i as int].1));
            assert(p@.take(i + 1).drop_last() =~= p@.take(i as int));
            assert(p@.take(i + 1).last() == p@[i as int]);
        }
        let v = generate_value_from_schema(&p[i].1);
        put_member(&mut out, copy_string(&p[i].0), v);
        i = i + 1;
    }
    assert(p@.take(p@.len() as int) =~= p@);
    out
}

/// A pretty-printed example body for a schema (see `schema_value`).
pub fn generate_example_from_schema(schema: &OpenApiSchema) -> (r: Result<String, TestCaseError>)
    ensures
        r matches Ok(t) && t@ == pretty_json_text(json_text(schema_value(*schema))),
{
    let v = generate_value_from_schema(schema);
    let compact = v.to_json_string();
    Ok(pretty_json(compact.as_str()))
}

/// The JSON text of an optional example, or `${name}`.
pub open spec fn example_or_variable(example: Option<JsonValue>, name: Seq<char>) -> Seq<char> {
    match example {
        Some(e) => json_text(e.view()),
        None => "${"@ + name + "}"@,
    }
}

/// The headers and URL after applying the first `n` parameters: header
/// parameters become headers; query parameters are added to the URL; path
/// parameters fill their `{name}` placeholders; others are left out.
pub open spec fn applied_parameters(ps: Seq<OpenApiParameter>, url: Seq<char>, n: nat) -> (Map<Seq<char>, Seq<char>>, Seq<char>)
    decreases n,
{
    if n == 0 {
        (Map::empty(), url)
    } else {
        let (h, u) = applied_parameters(ps, url, (n - 1) as nat);
        let p = ps[n - 1];
        let v = example_or_variable(p.example, p.name@);
        if p.location@ == "header"@ {
            (h.insert(p.name@, v), u)
        } else if p.location@ == "query"@ {
            let sep = if text_contains(u, "?"@) { "&"@ } else { "?"@ };
            (h, u + sep + p.name@ + "="@ + v)
        } else if p.location@ == "path"@ {
            (h, replace_text(u, "{"@ + p.name@ + "}"@, v))
        } else {
            (h, u)
        }
    }
}

/// The request made for an operation: the method in uppercase, the URL and
/// headers from the parameters, and for a body the first content type as
/// `Content-Type` and, when examples are included, its example or schema
/// example, pretty-printed.
pub open spec fn operation_request(d: RequestDefinition, method: Seq<char>, op: OpenApiOperation, full_url: Seq<char>, options: ImportOptions) -> bool {
    let ps = match op.parameters { Some(p) => p@, None => Seq::empty() };
    let (h, u) = applied_parameters(ps, full_url, ps.len());
    &&& d.protocol@ == "http"@
    &&& d.method@ == uppercase_text(method)
    &&& d.url@ == u
    &&& d.auth is None
    &&& match op.request_body {
        Some(b) => if b.content@.len() > 0 {
            let (ct, media) = b.content@[0];
            &&& text_views(d.headers@) == h.insert("Content-Type"@, ct@)
            &&& opt_text(d.body) == if options.include_examples {
                match media.example {
                    Some(e) => Some(pretty_json_text(json_text(e.view()))),
                    None => match media.schema {
                        Some(s) => Some(pretty_json_text(json_text(schema_value(s)))),
                        None => None,
                    },
                }
            } else {
                None
            }
        } else {
            text_views(d.headers@) == h && d.body is None
        },
        None => text_views(d.headers@) == h && d.body is None,
    }
}

fn example_text(example: &Option<JsonValue>, name: &String) -> (r: String)
    ensures
        r@ == example_or_variable(*example, name@),
{
    match example {
        Some(e) => e.to_json_string(),
        None => concat3("${", name.as_str(), "}"),
    }
}

impl OpenApiImporter {
    pub fn new() -> (r: Self) {
        OpenApiImporter {}
    }

    /// The base URL of the operations (see `base_url`).
    pub fn get_base_url(&self, spec: &OpenApiSpec, options: &ImportOptions) -> (r: String)
        ensures
            r@ == base_url(*spec, *options),
    {
        match &options.base_url_override {
            Some(b) => copy_string(b),
            None => match &spec.servers {
                Some(s) => if s.len() > 0 { copy_string(&s[0].url) } else { owned("https://api.example.com") },
                None => owned("https://api.example.com"),
            },
        }
    }

    /// The folder of an operation (see `folder_path`).
    pub fn get_folder_path(&self, tags: &Option<Vec<String>>, options: &ImportOptions) -> (r: Option<String>)
        ensures
            opt_text(r) == folder_path(*tags, opt_text(options.tag_prefix)),
    {
        match tags {
            Some(t) => if t.len() > 0 {
                match &options.tag_prefix {
                    Some(p) => Some(concat3(p.as_str(), "/", t[0].as_str())),
                    None => Some(copy_string(&t[0])),
                }
            } else {
                None
            },
            None => None,
        }
    }

    /// The tags of an imported operation (see `operation_tags`).
    pub fn extract_tags(&self, operation: &OpenApiOperation, options: &ImportOptions) -> (r: Vec<String>)
        ensures
            views(r@) == operation_tags(operation.tags, opt_text(options.tag_prefix)),
    {
        let mut tags: Vec<String> = Vec::new();
        match &options.tag_prefix {
            Some(p) => tags.push(concat(p.as_str(), ":openapi")),
            None => tags.push(owned("openapi")),
        }
        match &operation.tags {
            Some(t) => {
                let mut more = crate::text::copy_strings(t);
                let ghost before = tags@;
                tags.append(&mut more);
                assert(views(tags@) =~= views(before) + views(t@));
            },
            None => {
                assert(views(tags@) =~= views(tags@) + Seq::<Seq<char>>::empty());
            },
        }
        tags
    }

    /// The request for an operation (see `operation_request`).
    pub fn convert_operation_to_request(
        &self,
        path: &str,
        method: &str,
        operation: &OpenApiOperation,
        full_url: &str,
        options: &ImportOptions,
    ) -> (r: Result<RequestDefinition, TestCaseError>)
        ensures
            r matches Ok(d) && operation_request(d, method@, *operation, full_url@, *options),
    {
        let mut headers: StrMap<String> = StrMap::new();
        let mut final_url = owned(full_url);
        let mut body: Option<String> = None;
        let ghost ps = match &operation.parameters { Some(p) => p@, None => Seq::<OpenApiParameter>::empty() };
        assert(text_views(headers@) =~= Map::<Seq<char>, Seq<char>>::empty());
        match &operation.parameters {
            Some(params) => {
                let mut i: usize = 0;
                while i < params.len()
                    invariant
                        i <= params@.len(),
                        ps == params@,
                        (text_views(headers@), final_url@) == applied_parameters(ps, full_url@, i as nat),
                    decreases params.len() - i,
                {
                    let p = &params[i];
                    let v = example_text(&p.example, &p.name);
                    let loc = p.location.as_str();
                    if crate::text::str_equal(loc, "header") {
                        let ghost before = headers@;
                        headers.insert(copy_string(&p.name), v);
                        assert(text_views(headers@) =~= text_views(before).insert(p.name@, example_or_variable(p.example, p.name@)));
                    } else if crate::text::str_equal(loc, "query") {
                        let sep = if contains_text(final_url.as_str(), "?") { "&" } else { "?" };
                        let mut u = concat3(final_url.as_str(), sep, p.name.as_str());
                        u.append("=");
                        u.append(v.as_str());
                        final_url = u;
                    } else if crate::text::str_equal(loc, "path") {
                        let placeholder = concat3("{", p.name.as_str(), "}");
                        final_url = replace_all(final_url.as_str(), placeholder.as_str(), v.as_str());
                    }
                    i = i + 1;
                }
            },
            None => {},
        }
        match &operation.request_body {
            Some(b) => {
                if b.content.len() > 0 {
                    let (content_type, media) = (&b.content[0].0, &b.content[0].1);
                    let ghost before = headers@;
                    headers.insert(owned("Content-Type"), copy_string(content_type));
                    assert(text_views(headers@) =~= text_views(before).insert("Content-Type"@, content_type@));
                    if options.include_examples {
                        match &media.example {
                            Some(e) => {
                                let compact = e.to_json_string();
                                body = Some(pretty_json(compact.as_str()));
                            },
                            None => match &media.schema {
                                Some(s) => {
                                    body = match generate_example_from_schema(s) {
                                        Ok(t) => Some(t),
                                        Err(e) => return Err(e),
                                    };
                                },
                                None => {},
                            },
                        }
                    }
                }
            },
            None => {},
        }
        Ok(RequestDefinition {
            protocol: owned("http"),
            method: uppercase(method),
            url: final_url,
            headers,
            body,
            auth: None,
        })
    }
}

/// The status check of an operation, from its responses in order: the
/// first code that is a number from 200 to 299, or `2XX` (as 200); codes
/// that are neither are passed over.
pub open spec fn expected_status(responses: Seq<(String, OpenApiResponse)>) -> Option<(u64, bool)>
    decreases responses.len(),
{
    if responses.len() == 0 {
        None
    } else {
        let code = responses[0].0@;
        match parse_unsigned_text(code, 65535) {
            Some(c) => if 200 <= c < 300 { Some((c, true)) } else { expected_status(responses.drop_first()) },
            None => if code == "2XX"@ { Some((200, false)) } else { expected_status(responses.drop_first()) },
        }
    }
}

/// The checks of an imported operation: its status (see `expected_status`),
/// then a response within 5 seconds.
pub open spec fn response_assertions(a: Seq<AssertionDefinition>, responses: Seq<(String, OpenApiResponse)>) -> bool {
    let last = a[a.len() - 1];
    &&& last.assertion_type@ == "response_time"@
    &&& last.expected.view() == JsonView::Number("5000"@)
    &&& last.message matches Some(m) && m@ == "Response should be within 5 seconds"@
    &&& match expected_status(responses) {
        Some((c, numeric)) => {
            &&& a.len() == 2
            &&& a[0].assertion_type@ == "status_code"@
            &&& a[0].expected.view() == JsonView::Number(decimal(c as nat))
            &&& a[0].message matches Some(m) && m@ == if numeric {
                "Expected status code "@ + decimal(c as nat)
            } else {
                "Expected successful response"@
            }
        },
        None => a.len() == 1,
    }
}

fn response_time_check() -> (r: AssertionDefinition)
    ensures
        r.assertion_type@ == "response_time"@,
        r.expected.view() == JsonView::Number("5000"@),
        r.message matches Some(m) && m@ == "Response should be within 5 seconds"@,
{
    AssertionDefinition {
        assertion_type: owned("response_time"),
        expected: JsonValue::Number(owned("5000")),
        message: Some(owned("Response should be within 5 seconds")),
    }
}

/// The authentication a security requirement names: a bearer token or
/// basic credentials to fill in for an HTTP scheme, or an API key for an
/// `apiKey` scheme with a name and location.
pub open spec fn security_auth(security: Option<Vec<Vec<(String, Vec<String>)>>>, spec: OpenApiSpec) -> Option<(Seq<char>, Map<Seq<char>, Seq<char>>)> {
    match security {
        Some(reqs) => if reqs@.len() > 0 && reqs@[0]@.len() > 0 {
            let name = reqs@[0]@[0].0@;
            match spec.components {
                Some(c) => match c.security_schemes {
                    Some(schemes) => match scheme_named(schemes@, name) {
                        Some(sch) => if sch.scheme_type@ == "http"@ {
                            if opt_text(sch.scheme) == Some("bearer"@) {
                                Some(("bearer"@, map!["token"@ => "${bearer_token}"@]))
                            } else if opt_text(sch.scheme) == Some("basic"@) {
                                Some(("basic"@, map!["username"@ => "${username}"@, "password"@ => "${password}"@]))
                            } else {
                                None
                            }
                        } else if sch.scheme_type@ == "apiKey"@ {
                            match (sch.name, sch.location) {
                                (Some(n), Some(l)) => Some(("apikey"@, map![
                                    "key"@ => n@,
                                    "value"@ => "${"@ + n@ + "}"@,
                                    "location"@ => l@,
                                ])),
                                _ => None,
                            }
                        } else {
                            None
                        },
                        None => None,
                    },
                    None => None,
                },
                None => None,
            }
        } else {
            None
        },
        None => None,
    }
}

/// The first scheme with the given name.
pub open spec fn scheme_named(schemes: Seq<(String, OpenApiSecurityScheme)>, name: Seq<char>) -> Option<OpenApiSecurityScheme>
    decreases schemes.len(),
{
    if schemes.len() == 0 {
        None
    } else if schemes[0].0@ == name {
        Some(schemes[0].1)
    } else {
        scheme_named(schemes.drop_first(), name)
    }
}

fn find_scheme<'a>(schemes: &'a Vec<(String, OpenApiSecurityScheme)>, name: &str) -> (r: Option<&'a OpenApiSecurityScheme>)
    ensures
        match scheme_named(schemes@, name@) { Some(s) => r matches Some(x) && *x == s, None => r is None },
{
    let mut i: usize = 0;
    assert(schemes@.skip(0) =~= schemes@);
    while i < schemes.len()
        invariant
            i <= schemes@.len(),
            scheme_named(schemes@, name@) == scheme_named(schemes@.skip(i as int), name@),
        decreases schemes.len() - i,
    {
        let ghost rest = schemes@.skip(i as int);
        assert(rest[0] == schemes@[i as int]);
        assert(rest.drop_first() =~= schemes@.skip(i + 1));
        if crate::text::str_equal(schemes[i].0.as_str(), name) {
            return Some(&schemes[i].1);
        }
        i = i + 1;
    }
    None
}

fn auth_of(kind: &str, config: StrMap<String>) -> (r: AuthDefinition)
    ensures
        r.auth_type@ == kind@,
        text_views(r.config@) == text_views(config@),
{
    AuthDefinition { auth_type: owned(kind), config }
}

/// The test case made for an operation.
pub open spec fn imported_operation(
    tc: TestCase,
    path: Seq<char>,
    method: Seq<char>,
    op: OpenApiOperation,
    spec: OpenApiSpec,
    options: ImportOptions,
) -> bool {
    let prefix = opt_text(options.tag_prefix);
    let name = match op.operation_id {
        Some(i) => i@,
        None => match op.summary {
            Some(s) => s@,
            None => uppercase_text(method) + " "@ + path,
        },
    };
    &&& tc.name@ == name
    &&& opt_view(tc.description) == opt_view(op.description)
    &&& views(tc.tags@) == operation_tags(op.tags, prefix)
        + (match folder_path(op.tags, prefix) { Some(f) => seq!["folder:"@ + f], None => Seq::empty() })
        + (match op.operation_id { Some(i) => seq!["operation:"@ + i@], None => Seq::empty() })
    &&& tc.protocol@ == "http"@
    &&& operation_request(tc.request, method, op, base_url(spec, options) + path, options)
    &&& (if options.generate_assertions { response_assertions(tc.assertions@, op.responses@) } else { tc.assertions@.len() == 0 })
    &&& tc.variable_extractions matches Some(x) && x@.len() == 0
    &&& tc.dependencies@.len() == 0
    &&& tc.timeout_ms == Some(30000u64)
    &&& tc.version == 1
}

impl OpenApiImporter {
    /// The checks of an operation (see `response_assertions`).
    pub fn generate_assertions_from_responses(&self, responses: &Vec<(String, OpenApiResponse)>) -> (r: Vec<AssertionDefinition>)
        ensures
            r@.len() > 0,
            response_assertions(r@, responses@),
    {
        let mut assertions: Vec<AssertionDefinition> = Vec::new();
        let mut i: usize = 0;
        assert(responses@.skip(0) =~= responses@);
        while i < responses.len()
            invariant_except_break
                assertions@.len() == 0,
            invariant
                i <= responses@.len(),
                expected_status(responses@) == expected_status(responses@.skip(i as int)),
            ensures
                match expected_status(responses@) {
                    Some((c, numeric)) => {
                        &&& assertions@.len() == 1
                        &&& assertions@[0].assertion_type@ == "status_code"@
                        &&& assertions@[0].expected.view() == JsonView::Number(decimal(c as nat))
                        &&& assertions@[0].message matches Some(m) && m@ == if numeric {
                            "Expected status code "@ + decimal(c as nat)
                        } else {
                            "Expected successful response"@
                        }
                    },
                    None => assertions@.len() == 0,
                },
            decreases responses.len() - i,
        {
            let ghost rest = responses@.skip(i as int);
            assert(rest[0] == responses@[i as int]);
            assert(rest.drop_first() =~= responses@.skip(i + 1));
            let code = responses[i].0.as_str();
            match crate::configuration::parse_unsigned(code, 65535) {
                Some(c) => {
                    if 200 <= c && c < 300 {
                        assertions.push(AssertionDefinition {
                            assertion_type: owned("status_code"),
                            expected: JsonValue::Number(crate::text::decimal_text(c)),
                            message: Some(concat("Expected status code ", crate::text::decimal_text(c).as_str())),
                        });
                        break;
                    }
                },
                None => {
                    if crate::text::str_equal(code, "2XX") {
                        proof {
                            reveal_strlit("200");
                            reveal_with_fuel(decimal, 3);
                            assert(decimal(200) =~= "200"@);
                        }
                        assertions.push(AssertionDefinition {
                            assertion_type: owned("status_code"),
                            expected: JsonValue::Number(owned("200")),
                            message: Some(owned("Expected successful response")),
                        });
                        break;
                    }
                },
            }
            i = i + 1;
        }
        proof {
            if i == responses.len() {
                assert(responses@.skip(i as int) =~= Seq::<(String, OpenApiResponse)>::empty());
            }
        }
        assertions.push(response_time_check());
        assertions
    }

    /// The authentication a security requirement names (see `security_auth`).
    pub fn convert_security_to_auth(&self, security: &Option<Vec<Vec<(String, Vec<String>)>>>, spec: &OpenApiSpec) -> (r: Option<AuthDefinition>)
        ensures
            match r {
                Some(d) => security_auth(*security, *spec) == Some((d.auth_type@, text_views(d.config@))),
                None => security_auth(*security, *spec) is None,
            },
    {
        let reqs = match security { Some(x) => x, None => return None };
        if reqs.len() == 0 || reqs[0].len() == 0 {
            return None;
        }
        let name = &reqs[0][0].0;
        let schemes = match &spec.components {
            Some(c) => match &c.security_schemes { Some(s) => s, None => return None },
            None => return None,
        };
        let sch = match find_scheme(schemes, name.as_str()) { Some(x) => x, None => return None };
        if crate::text::str_equal(sch.scheme_type.as_str(), "http") {
            if text_is(&sch.scheme, "bearer") {
                let mut c: StrMap<String> = StrMap::new();
                c.insert(owned("token"), owned("${bearer_token}"));
                assert(text_views(c@) =~= map!["token"@ => "${bearer_token}"@]);
                Some(auth_of("bearer", c))
            } else if text_is(&sch.scheme, "basic") {
                let mut c: StrMap<String> = StrMap::new();
                c.insert(owned("username"), owned("${username}"));
                c.insert(owned("password"), owned("${password}"));
                assert(text_views(c@) =~= map!["username"@ => "${username}"@, "password"@ => "${password}"@]);
                Some(auth_of("basic", c))
            } else {
                None
            }
        } else if crate::text::str_equal(sch.scheme_type.as_str(), "apiKey") {
            match (&sch.name, &sch.location) {
                (Some(n), Some(l)) => {
                    let mut c: StrMap<String> = StrMap::new();
                    c.insert(owned("key"), copy_string(n));
                    c.insert(owned("value"), concat3("${", n.as_str(), "}"));
                    c.insert(owned("location"), copy_string(l));
                    assert(text_views(c@) =~= map!["key"@ => n@, "value"@ => "${"@ + n@ + "}"@, "location"@ => l@]);
                    Some(auth_of("apikey", c))
                },
                _ => None,
            }
        } else {
            None
        }
    }

    /// The test case for an operation (see `imported_operation`).
    pub fn convert_operation_to_test_case(
        &self,
        path: &str,
        method: &str,
        operation: &OpenApiOperation,
        spec: &OpenApiSpec,
        options: &ImportOptions,
    ) -> (r: Result<TestCase, TestCaseError>)
        ensures
            r matches Ok(tc) && imported_operation(tc, path@, method@, *operation, *spec, *options),
    {
        let name = match &operation.operation_id {
            Some(i) => copy_string(i),
            None => match &operation.summary {
                Some(s) => copy_string(s),
                None => {
                    let m = uppercase(method);
                    concat3(m.as_str(), " ", path)
                },
            },
        };
        let base = self.get_base_url(spec, options);
        let full_url = concat(base.as_str(), path);
        let mut tags = self.extract_tags(operation, options);
        let request = match self.convert_operation_to_request(path, method, operation, full_url.as_str(), options) {
            Ok(d) => d,
            Err(e) => return Err(e),
        };
        let assertions = if options.generate_assertions {
            self.generate_assertions_from_responses(&operation.responses)
        } else {
            Vec::new()
        };
        let ghost t0 = views(tags@);
        match self.get_folder_path(&operation.tags, options) {
            Some(f) => {
                tags.push(concat("folder:", f.as_str()));
                assert(views(tags@) =~= t0 + seq!["folder:"@ + f@]);
            },
            None => {
                assert(views(tags@) =~= t0 + Seq::<Seq<char>>::empty());
            },
        }
        let ghost t1 = views(tags@);
        match &operation.operation_id {
            Some(i) => {
                tags.push(concat("operation:", i.as_str()));
                assert(views(tags@) =~= t1 + seq!["operation:"@ + i@]);
            },
            None => {
                assert(views(tags@) =~= t1 + Seq::<Seq<char>>::empty());
            },
        }
        let description = match &operation.description { Some(d) => Some(copy_string(d)), None => None };
        Ok(TestCase {
            id: new_uuid(),
            name,
            description,
            tags,
            protocol: owned("http"),
            request,
            assertions,
            variable_extractions: Some(Vec::new()),
            dependencies: Vec::new(),
            timeout_ms: Some(30000),
            created_at_ms: now_millis(),
            updated_at_ms: now_millis(),
            version: 1,
        })
    }
}

/// Why an import source cannot be read as an OpenAPI specification, if it
/// cannot: a file that does not exist or is not JSON or YAML, or a URL that
/// is not HTTP(S).
pub open spec fn openapi_source_problem(source: ImportSource, file_exists: bool) -> Option<Seq<char>> {
    match source {
        ImportSource::File(path) => {
            let ext = path_extension_text(path@);
            if !file_exists {
                Some("File does not exist"@)
            } else if !(ext == Some("json"@) || ext == Some("yaml"@) || ext == Some("yml"@)) {
                Some("File must have .json, .yaml, or .yml extension"@)
            } else {
                None
            }
        },
        ImportSource::Url(url) => if !(has_prefix(url@, "http://"@) || has_prefix(url@, "https://"@)) {
            Some("URL must use HTTP or HTTPS protocol"@)
        } else {
            None
        },
        ImportSource::Content(_) => None,
    }
}

impl OpenApiImporter {
    /// Checks that a source can be read, given whether the file it names
    /// exists (see `openapi_source_problem`).
    pub fn validate_source(&self, source: &ImportSource, file_exists: bool) -> (r: Result<(), TestCaseError>)
        ensures
            match openapi_source_problem(*source, file_exists) {
                Some(m) => r matches Err(e) && is_import_error(e, m),
                None => r is Ok,
            },
    {
        match source {
            ImportSource::File(path) => {
                if !file_exists {
                    return Err(TestCaseError::ImportError(owned("File does not exist")));
                }
                let ok = match crate::text::path_extension(path.as_str()) {
                    Some(e) => crate::text::str_equal(e.as_str(), "json") || crate::text::str_equal(e.as_str(), "yaml")
                        || crate::text::str_equal(e.as_str(), "yml"),
                    None => false,
                };
                if !ok {
                    return Err(TestCaseError::ImportError(owned("File must have .json, .yaml, or .yml extension")));
                }
            },
            ImportSource::Url(url) => {
                if !super::postman::is_web_url(url.as_str()) {
                    return Err(TestCaseError::ImportError(owned("URL must use HTTP or HTTPS protocol")));
                }
            },
            ImportSource::Content(_) => {},
        }
        Ok(())
    }
}

/// The operations of a path, with their methods, in the order they are
/// imported: get, post, put, delete, patch, head, options.
pub open spec fn path_operations(p: OpenApiPathItem) -> Seq<(Seq<char>, OpenApiOperation)> {
    let o1: Seq<(Seq<char>, OpenApiOperation)> = match p.get { Some(o) => seq![("get"@, o)], None => Seq::empty() };
    let o2 = match p.post { Some(o) => o1.push(("post"@, o)), None => o1 };
    let o3 = match p.put { Some(o) => o2.push(("put"@, o)), None => o2 };
    let o4 = match p.delete { Some(o) => o3.push(("delete"@, o)), None => o3 };
    let o5 = match p.patch { Some(o) => o4.push(("patch"@, o)), None => o4 };
    let o6 = match p.head { Some(o) => o5.push(("head"@, o)), None => o5 };
    match p.options { Some(o) => o6.push(("options"@, o)), None => o6 }
}

/// The operations of all paths, in order, each with its path and method.
pub open spec fn spec_operations(paths: Seq<(String, OpenApiPathItem)>) -> Seq<(Seq<char>, Seq<char>, OpenApiOperation)>
    decreases paths.len(),
{
    if paths.len() == 0 {
        Seq::empty()
    } else {
        let path = paths.last().0@;
        spec_operations(paths.drop_last()) + path_operations(paths.last().1).map_values(
            |m: (Seq<char>, OpenApiOperation)| (path, m.0, m.1),
        )
    }
}

/// The methods and operations of a list, as texts and values.
pub open spec fn op_view(ops: Seq<(&str, &OpenApiOperation)>) -> Seq<(Seq<char>, OpenApiOperation)> {
    ops.map_values(|p: (&str, &OpenApiOperation)| (p.0@, *p.1))
}

fn push_op<'a>(ops: &mut Vec<(&'a str, &'a OpenApiOperation)>, method: &'a str, op: &'a Option<OpenApiOperation>)
    ensures
        op_view(final(ops)@) == match *op {
            Some(o) => op_view(old(ops)@).push((method@, o)),
            None => op_view(old(ops)@),
        },
{
    match op {
        Some(o) => {
            let ghost before = ops@;
            ops.push((method, o));
            assert(op_view(ops@) =~= op_view(before).push((method@, *o)));
        },
        None => {},
    }
}

fn operations_of<'a>(item: &'a OpenApiPathItem) -> (r: Vec<(&'a str, &'a OpenApiOperation)>)
    ensures
        op_view(r@) == path_operations(*item),
{
    let mut ops: Vec<(&str, &OpenApiOperation)> = Vec::new();
    assert(op_view(ops@) =~= Seq::<(Seq<char>, OpenApiOperation)>::empty());
    push_op(&mut ops, "get", &item.get);
    assert(op_view(ops@) =~= match item.get { Some(o) => seq![("get"@, o)], None => Seq::empty() });
    push_op(&mut ops, "post", &item.post);
    push_op(&mut ops, "put", &item.put);
    push_op(&mut ops, "delete", &item.delete);
    push_op(&mut ops, "patch", &item.patch);
    push_op(&mut ops, "head", &item.head);
    push_op(&mut ops, "options", &item.options);
    ops
}

impl OpenApiImporter {
    /// One test case for each operation of the specification, path by path
    /// (see `spec_operations`): what importing a specification gives once it
    /// is read.
    pub fn test_cases_from_spec(&self, spec: &OpenApiSpec, options: &ImportOptions) -> (r: Result<Vec<TestCase>, TestCaseError>)
        ensures
            r matches Ok(cases) && cases@.len() == spec_operations(spec.paths@).len()
                && forall|i: int| 0 <= i < cases@.len() ==> imported_operation(
                    #[trigger] cases@[i],
                    spec_operations(spec.paths@)[i].0,
                    spec_operations(spec.paths@)[i].1,
                    spec_operations(spec.paths@)[i].2,
                    *spec,
                    *options,
                ),
    {
        let mut cases: Vec<TestCase> = Vec::new();
        let mut i: usize = 0;
        assert(spec.paths@.take(0) =~= Seq::<(String, OpenApiPathItem)>::empty());
        while i < spec.paths.len()
            invariant
                i <= spec.paths@.len(),
                cases@.len() == spec_operations(spec.paths@.take(i as int)).len(),
                forall|j: int| 0 <= j < cases@.len() ==> imported_operation(
                    #[trigger] cases@[j],
                    spec_operations(spec.paths@.take(i as int))[j].0,
                    spec_operations(spec.paths@.take(i as int))[j].1,
                    spec_operations(spec.paths@.take(i as int))[j].2,
                    *spec,
                    *options,
                ),
            decreases spec.paths.len() - i,
        {
            let ghost before = cases@;
            let ghost prev = spec_operations(spec.paths@.take(i as int));
            let path = &spec.paths[i].0;
            let ops = operations_of(&spec.paths[i].1);
            let ghost added = op_view(ops@).map_values(|m: (Seq<char>, OpenApiOperation)| (path@, m.0, m.1));
            proof {
                assert(spec.paths@.take(i + 1).drop_last() =~= spec.paths@.take(i as int));
                assert(spec.paths@.take(i + 1).last() == spec.paths@[i as int]);
                assert(spec_operations(spec.paths@.take(i + 1)) == prev + added);
            }
            let mut k: usize = 0;
            while k < ops.len()
                invariant
                    k <= ops@.len(),
                    before.len() == prev.len(),
                    added.len() == ops@.len(),
                    forall|m: int| 0 <= m < ops@.len() ==> #[trigger] added[m] == (path@, ops@[m].0@, *ops@[m].1),
                    cases@.len() == before.len() + k,
                    forall|j: int| 0 <= j < before.len() ==> #[trigger] cases@[j] == before[j],
                    forall|j: int| 0 <= j < before.len() ==> imported_operation(
                        #[trigger] before[j], prev[j].0, prev[j].1, prev[j].2, *spec, *options),
                    forall|m: int| 0 <= m < k ==> imported_operation(
                        #[trigger] cases@[before.len() + m], added[m].0, added[m].1, added[m].2, *spec, *options),
                decreases ops.len() - k,
            {
                let (method, op) = ops[k];
                match self.convert_operation_to_test_case(path.as_str(), method, op, spec, options) {
                    Ok(tc) => {
                        cases.push(tc);
                    },
                    Err(e) => return Err(e),
                }
                k = k + 1;
            }
            proof {
                assert forall|j: int| 0 <= j < cases@.len() implies imported_operation(
                    #[trigger] cases@[j],
                    (prev + added)[j].0,
                    (prev + added)[j].1,
                    (prev + added)[j].2,
                    *spec,
                    *options,
                ) by {
                    if j < before.len() {
                        assert(cases@[j] == before[j]);
                    } else {
                        assert(cases@[before.len() + (j - before.len())] == cases@[j]);
                    }
                }
            }
            i = i + 1;
        }
        assert(spec.paths@.take(spec.paths@.len() as int) =~= spec.paths@);
        Ok(cases)
    }
}

} // verus!
