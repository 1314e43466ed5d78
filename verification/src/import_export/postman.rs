//! Importing test cases from Postman collections: requests, their URLs,
//! headers, bodies and authentication, and the folders they are kept in.

use vstd::prelude::*;
use crate::text::{views, owned, concat, concat3, copy_string, chars_of, uppercase, uppercase_text,
    trim_end_matches, trim_start_matches, trim_end_char, trim_start_char, path_extension, path_extension_text};
use crate::event::has_prefix;
use crate::event_transaction::{joined, join_with};
use crate::execution::{replace_all, replace_text};
use crate::strmap::StrMap;
use crate::data_source::text_views;
use crate::error::TestCaseError;
use crate::test_case_manager::{AuthDefinition, RequestDefinition, AssertionDefinition, TestCase, VariableExtraction, ExtractionSource};
use crate::text::{lowercase, lowercase_text, new_uuid};
use crate::json::{JsonValue, JsonView};
use crate::json_assertions::{contains_text, text_contains};
use crate::auth_plugin::{now_millis, opt_view};
use super::{ImportOptions, ImportSource};

verus! {

/// A Postman collection.
pub struct PostmanCollection {
    pub info: PostmanInfo,
    pub item: Vec<PostmanItem>,
    pub variable: Option<Vec<PostmanVariable>>,
    pub auth: Option<PostmanAuth>,
}

/// A collection's name and description.
pub struct PostmanInfo {
    pub name: String,
    pub description: Option<String>,
    pub schema: Option<String>,
}

/// A request of a collection, or a folder of items.
pub struct PostmanItem {
    pub name: String,
    pub description: Option<String>,
    pub request: Option<PostmanRequest>,
    /// The items of a folder.
    pub item: Option<Vec<PostmanItem>>,
    pub event: Option<Vec<PostmanEvent>>,
}

/// A request.
pub struct PostmanRequest {
    pub method: String,
    pub header: Option<Vec<PostmanHeader>>,
    pub body: Option<PostmanBody>,
    pub url: PostmanUrl,
    pub auth: Option<PostmanAuth>,
    pub description: Option<String>,
}

/// A URL, as text or in parts.
pub enum PostmanUrl {
    String(String),
    Object {
        raw: Option<String>,
        protocol: Option<String>,
        host: Option<Vec<String>>,
        port: Option<String>,
        path: Option<Vec<String>>,
        query: Option<Vec<PostmanQueryParam>>,
    },
}

/// A request header.
pub struct PostmanHeader {
    pub key: String,
    pub value: String,
    pub disabled: Option<bool>,
    pub description: Option<String>,
}

/// A request body.
pub struct PostmanBody {
    pub mode: Option<String>,
    pub raw: Option<String>,
    pub urlencoded: Option<Vec<PostmanKeyValue>>,
    pub formdata: Option<Vec<PostmanFormData>>,
}

/// A named value.
pub struct PostmanKeyValue {
    pub key: String,
    pub value: String,
    pub disabled: Option<bool>,
}

/// A field of form data.
pub struct PostmanFormData {
    pub key: String,
    pub value: Option<String>,
    pub src: Option<String>,
    pub data_type: Option<String>,
    pub disabled: Option<bool>,
}

/// A query parameter.
pub struct PostmanQueryParam {
    pub key: String,
    pub value: String,
    pub disabled: Option<bool>,
}

/// Authentication settings of a request or collection.
pub struct PostmanAuth {
    pub auth_type: String,
    pub bearer: Option<Vec<PostmanKeyValue>>,
    pub basic: Option<Vec<PostmanKeyValue>>,
    pub oauth2: Option<Vec<PostmanKeyValue>>,
    pub apikey: Option<Vec<PostmanKeyValue>>,
}

/// A collection variable.
pub struct PostmanVariable {
    pub key: String,
    pub value: String,
    pub description: Option<String>,
}

/// A script run on an event of a request.
pub struct PostmanEvent {
    pub listen: String,
    pub script: PostmanScript,
}

/// A script's type and lines.
pub struct PostmanScript {
    pub script_type: Option<String>,
    /// The lines of the script.
    pub exec_lines: Option<Vec<String>>,
}

/// Whether an entry is switched on (it is unless marked disabled).
pub open spec fn enabled(disabled: Option<bool>) -> bool {
    !(disabled == Some(true))
}

/// `key=value` for each enabled query parameter, in order.
pub open spec fn query_pairs(ps: Seq<PostmanQueryParam>) -> Seq<Seq<char>>
    decreases ps.len(),
{
    if ps.len() == 0 {
        Seq::empty()
    } else {
        let rest = query_pairs(ps.drop_last());
        if enabled(ps.last().disabled) { rest.push(ps.last().key@ + "="@ + ps.last().value@) } else { rest }
    }
}

/// `key=value` for each enabled entry, in order.
pub open spec fn key_value_pairs(ps: Seq<PostmanKeyValue>) -> Seq<Seq<char>>
    decreases ps.len(),
{
    if ps.len() == 0 {
        Seq::empty()
    } else {
        let rest = key_value_pairs(ps.drop_last());
        if enabled(ps.last().disabled) { rest.push(ps.last().key@ + "="@ + ps.last().value@) } else { rest }
    }
}

/// The URL a Postman URL stands for: the text, the raw URL, or the URL put
/// together from protocol (https), host parts joined by dots (localhost),
/// port, path parts joined by slashes, and enabled query parameters.
pub open spec fn url_text(url: PostmanUrl) -> Seq<char> {
    match url {
        PostmanUrl::String(s) => s@,
        PostmanUrl::Object { raw, protocol, host, port, path, query } => match raw {
            Some(r) => r@,
            None => {
                let proto = match protocol { Some(p) => p@, None => "https"@ };
                let host_text = match host { Some(h) => joined(views(h@), "."@), None => "localhost"@ };
                let port_text = match port { Some(p) => ":"@ + p@, None => Seq::empty() };
                let path_text = match path { Some(p) => "/"@ + joined(views(p@), "/"@), None => Seq::empty() };
                let query_text = match query {
                    Some(q) => if query_pairs(q@).len() == 0 { Seq::empty() } else { "?"@ + joined(query_pairs(q@), "&"@) },
                    None => Seq::empty(),
                };
                proto + "://"@ + host_text + port_text + path_text + query_text
            },
        },
    }
}

/// The position of slash number `n` (from 0) in `s`.
pub open spec fn nth_slash(s: Seq<char>, n: nat) -> Option<int>
    decreases s.len(),
{
    if s.len() == 0 {
        None
    } else if s[0] == '/' && n == 0 {
        Some(0)
    } else {
        let k: nat = if s[0] == '/' { (n - 1) as nat } else { n };
        match nth_slash(s.drop_first(), k) {
            Some(i) => Some(i + 1),
            None => None,
        }
    }
}

/// The URL with its scheme and host replaced by a base URL: for an absolute
/// URL, what follows its third slash is put after the base (the base alone
/// when there is none); a relative URL is put after the base and a slash.
pub open spec fn rebased(u: Seq<char>, base: Seq<char>) -> Seq<char> {
    if has_prefix(u, "http://"@) || has_prefix(u, "https://"@) {
        match nth_slash(u, 2) {
            Some(i) => trim_end_char(base, '/') + u.skip(i),
            None => base,
        }
    } else {
        trim_end_char(base, '/') + "/"@ + trim_start_char(u, '/')
    }
}

/// The URL with each collection variable's `{{name}}` written `${name}`,
/// one variable after another.
pub open spec fn variables_marked(u: Seq<char>, order: Seq<Seq<char>>, n: nat) -> Seq<char>
    decreases n,
{
    if n == 0 {
        u
    } else {
        let k = order[n - 1];
        replace_text(variables_marked(u, order, (n - 1) as nat), "{{"@ + k + "}}"@, "${"@ + k + "}"@)
    }
}

/// The URL of an imported request.
pub open spec fn converted_url(url: PostmanUrl, order: Seq<Seq<char>>, base: Option<Seq<char>>) -> Seq<char> {
    let u = url_text(url);
    let v = match base { Some(b) => rebased(u, b), None => u };
    variables_marked(v, order, order.len())
}

fn has_text_prefix(s: &str, p: &str) -> (r: bool)
    ensures
        r == has_prefix(s@, p@),
{
    crate::event::starts_with(&owned(s), &owned(p))
}

fn enabled_query_pairs(ps: &Vec<PostmanQueryParam>) -> (r: Vec<String>)
    ensures
        views(r@) == query_pairs(ps@),
{
    let mut out: Vec<String> = Vec::new();
    let mut i: usize = 0;
    assert(ps@.take(0) =~= Seq::<PostmanQueryParam>::empty());
    while i < ps.len()
        invariant
            i <= ps@.len(),
            views(out@) == query_pairs(ps@.take(i as int)),
        decreases ps.len() - i,
    {
        assert(ps@.take(i + 1).drop_last() =~= ps@.take(i as int));
        let p = &ps[i];
        if !(p.disabled == Some(true)) {
            let ghost before = out@;
            out.push(concat3(p.key.as_str(), "=", p.value.as_str()));
            assert(views(out@) =~= views(before).push(p.key@ + "="@ + p.value@));
        }
        i = i + 1;
    }
    assert(ps@.take(ps@.len() as int) =~= ps@);
    out
}

fn enabled_pairs(ps: &Vec<PostmanKeyValue>) -> (r: Vec<String>)
    ensures
        views(r@) == key_value_pairs(ps@),
{
    let mut out: Vec<String> = Vec::new();
    let mut i: usize = 0;
    assert(ps@.take(0) =~= Seq::<PostmanKeyValue>::empty());
    while i < ps.len()
        invariant
            i <= ps@.len(),
            views(out@) == key_value_pairs(ps@.take(i as int)),
        decreases ps.len() - i,
    {
        assert(ps@.take(i + 1).drop_last() =~= ps@.take(i as int));
        let p = &ps[i];
        if !(p.disabled == Some(true)) {
            let ghost before = out@;
            out.push(concat3(p.key.as_str(), "=", p.value.as_str()));
            assert(views(out@) =~= views(before).push(p.key@ + "="@ + p.value@));
        }
        i = i + 1;
    }
    assert(ps@.take(ps@.len() as int) =~= ps@);
    out
}

fn plain_url(url: &PostmanUrl) -> (r: String)
    ensures
        r@ == url_text(*url),
{
    match url {
        PostmanUrl::String(s) => copy_string(s),
        PostmanUrl::Object { raw, protocol, host, port, path, query } => match raw {
            Some(r) => copy_string(r),
            None => {
                let proto = match protocol { Some(p) => copy_string(p), None => owned("https") };
                let host_text = match host { Some(h) => join_with(h, "."), None => owned("localhost") };
                let port_text = match port { Some(p) => concat(":", p.as_str()), None => owned("") };
                let path_text = match path {
                    Some(p) => {
                        let j = join_with(p, "/");
                        concat("/", j.as_str())
                    },
                    None => owned(""),
                };
                let query_text = match query {
                    Some(q) => {
                        let pairs = enabled_query_pairs(q);
                        if pairs.len() == 0 {
                            owned("")
                        } else {
                            let j = join_with(&pairs, "&");
                            concat("?", j.as_str())
                        }
                    },
                    None => owned(""),
                };
                proof { reveal_strlit(""); }
                let mut out = concat3(proto.as_str(), "://", host_text.as_str());
                out.append(port_text.as_str());
                out.append(path_text.as_str());
                out.append(query_text.as_str());
                out
            },
        },
    }
}

/// The position of slash number 2 (from 0) in `s`, if any.
fn third_slash(s: &str) -> (r: Option<usize>)
    ensures
        match r {
            Some(i) => nth_slash(s@, 2) == Some(i as int) && i < s@.len(),
            None => nth_slash(s@, 2) is None,
        },
{
    let cs = chars_of(s);
    let mut i: usize = 0;
    let mut seen: usize = 0;
    assert(cs@.skip(0) =~= cs@);
    while i < cs.len()
        invariant
            i <= cs@.len(),
            cs@ == s@,
            seen <= 2,
            nth_slash(s@, 2) == match nth_slash(cs@.skip(i as int), (2 - seen) as nat) {
                Some(j) => Some(j + i),
                None => None::<int>,
            },
        decreases cs.len() - i,
    {
        let ghost rest = cs@.skip(i as int);
        assert(rest[0] == cs@[i as int]);
        assert(rest.drop_first() =~= cs@.skip(i + 1));
        if cs[i] == '/' {
            if seen == 2 {
                return Some(i);
            }
            seen = seen + 1;
        }
        i = i + 1;
    }
    None
}

/// The URL with a base URL in place of its scheme and host (see `rebased`).
fn rebase(u: &String, base: &String) -> (r: String)
    ensures
        r@ == rebased(u@, base@),
{
    let absolute = has_text_prefix(u.as_str(), "http://") || has_text_prefix(u.as_str(), "https://");
    assert(absolute == (has_prefix(u@, "http://"@) || has_prefix(u@, "https://"@)));
    if absolute {
        match third_slash(u.as_str()) {
            Some(start) => {
                let cs = chars_of(u.as_str());
                let tail = crate::text::chars_between(&cs, start, cs.len());
                assert(tail@ =~= u@.skip(start as int));
                let b = trim_end_matches(base.as_str(), '/');
                let r = concat(b.as_str(), tail.as_str());
                assert(r@ == rebased(u@, base@));
                r
            },
            None => {
                let r = copy_string(base);
                assert(r@ == rebased(u@, base@));
                r
            },
        }
    } else {
        let b = trim_end_matches(base.as_str(), '/');
        let t = trim_start_matches(u.as_str(), '/');
        let r = concat3(b.as_str(), "/", t.as_str());
        assert(r@ == rebased(u@, base@));
        r
    }
}

/// The headers of an imported request: the enabled headers, a later one
/// winning on a shared name.
pub open spec fn header_map(hs: Seq<PostmanHeader>) -> Map<Seq<char>, Seq<char>>
    decreases hs.len(),
{
    if hs.len() == 0 {
        Map::empty()
    } else {
        let rest = header_map(hs.drop_last());
        if enabled(hs.last().disabled) { rest.insert(hs.last().key@, hs.last().value@) } else { rest }
    }
}

/// The value of the last entry named `k`, if any.
pub open spec fn last_value(ps: Seq<PostmanKeyValue>, k: Seq<char>) -> Option<Seq<char>>
    decreases ps.len(),
{
    if ps.len() == 0 {
        None
    } else if ps.last().key@ == k {
        Some(ps.last().value@)
    } else {
        last_value(ps.drop_last(), k)
    }
}

/// The value of the first entry named `k`, if any.
pub open spec fn first_value(ps: Seq<PostmanKeyValue>, k: Seq<char>) -> Option<Seq<char>>
    decreases ps.len(),
{
    if ps.len() == 0 {
        None
    } else if ps[0].key@ == k {
        Some(ps[0].value@)
    } else {
        first_value(ps.drop_first(), k)
    }
}

/// The authentication of an imported request, as its kind and settings: a
/// bearer token (the first entry named `token`), basic credentials (the last
/// `username` and `password`), or an API key (the last `key` and `value`,
/// and the last `in`, by default `header`).
pub open spec fn auth_settings(auth: Option<PostmanAuth>) -> Option<(Seq<char>, Map<Seq<char>, Seq<char>>)> {
    match auth {
        Some(a) => if a.auth_type@ == "bearer"@ {
            match a.bearer {
                Some(b) => match first_value(b@, "token"@) {
                    Some(t) => Some(("bearer"@, map!["token"@ => t])),
                    None => None,
                },
                None => None,
            }
        } else if a.auth_type@ == "basic"@ {
            match a.basic {
                Some(b) => match (last_value(b@, "username"@), last_value(b@, "password"@)) {
                    (Some(u), Some(p)) => Some(("basic"@, map!["username"@ => u, "password"@ => p])),
                    _ => None,
                },
                None => None,
            }
        } else if a.auth_type@ == "apikey"@ {
            match a.apikey {
                Some(b) => match (last_value(b@, "key"@), last_value(b@, "value"@)) {
                    (Some(k), Some(v)) => Some(("apikey"@, map![
                        "key"@ => k,
                        "value"@ => v,
                        "location"@ => match last_value(b@, "in"@) { Some(l) => l, None => "header"@ },
                    ])),
                    _ => None,
                },
                None => None,
            }
        } else {
            None
        },
        None => None,
    }
}

/// The view of an optional authentication definition.
pub open spec fn auth_view(a: Option<AuthDefinition>) -> Option<(Seq<char>, Map<Seq<char>, Seq<char>>)> {
    match a {
        Some(d) => Some((d.auth_type@, text_views(d.config@))),
        None => None,
    }
}

/// The form fields of a body as JSON text, pretty-printed: the enabled
/// fields that have a value (serde_json's `to_string_pretty` on a map of strings).
pub uninterp spec fn pretty_form_text(fields: Seq<(Seq<char>, Seq<char>)>) -> Seq<char>;

/// Enabled form fields with a value, in order.
pub open spec fn form_fields(fs: Seq<PostmanFormData>) -> Seq<(Seq<char>, Seq<char>)>
    decreases fs.len(),
{
    if fs.len() == 0 {
        Seq::empty()
    } else {
        let rest = form_fields(fs.drop_last());
        match fs.last().value {
            Some(v) => if enabled(fs.last().disabled) { rest.push((fs.last().key@, v@)) } else { rest },
            None => rest,
        }
    }
}

/// The body of an imported request: raw text, `key=value` pairs joined by
/// `&`, or form fields as pretty JSON, by the body's mode.
pub open spec fn body_text(body: Option<PostmanBody>) -> Option<Seq<char>> {
    match body {
        Some(b) => {
            let raw = match b.raw { Some(r) => Some(r@), None => None };
            match b.mode {
                Some(m) => if m@ == "raw"@ {
                    raw
                } else if m@ == "urlencoded"@ {
                    match b.urlencoded {
                        Some(d) => Some(joined(key_value_pairs(d@), "&"@)),
                        None => None,
                    }
                } else if m@ == "formdata"@ {
                    match b.formdata {
                        Some(d) => Some(pretty_form_text(form_fields(d@))),
                        None => None,
                    }
                } else {
                    raw
                },
                None => raw,
            }
        },
        None => None,
    }
}

/// serde_json's pretty printing of a map of strings.
#[verifier::external_body]
fn pretty_form(fields: &Vec<(String, String)>) -> (r: String)
    ensures
        r@ == pretty_form_text(fields@.map_values(|f: (String, String)| (f.0@, f.1@))),
{
    let map: serde_json::Map<String, serde_json::Value> =
        fields.iter().map(|(k, v)| (k.clone(), serde_json::Value::String(v.clone()))).collect();
    serde_json::to_string_pretty(&map).unwrap_or_default()
}

fn opt_copy(s: &Option<String>) -> (r: Option<String>)
    ensures
        match *s { Some(x) => r matches Some(y) && y@ == x@, None => r is None },
{
    match s {
        Some(x) => Some(copy_string(x)),
        None => None,
    }
}

fn key_is(kv: &PostmanKeyValue, k: &str) -> (r: bool)
    ensures
        r == (kv.key@ == k@),
{
    crate::text::str_equal(kv.key.as_str(), k)
}

fn find_last(ps: &Vec<PostmanKeyValue>, k: &str) -> (r: Option<String>)
    ensures
        match last_value(ps@, k@) { Some(v) => r matches Some(x) && x@ == v, None => r is None },
{
    let mut found: Option<String> = None;
    let mut i: usize = 0;
    assert(ps@.take(0) =~= Seq::<PostmanKeyValue>::empty());
    while i < ps.len()
        invariant
            i <= ps@.len(),
            match last_value(ps@.take(i as int), k@) { Some(v) => found matches Some(x) && x@ == v, None => found is None },
        decreases ps.len() - i,
    {
        assert(ps@.take(i + 1).drop_last() =~= ps@.take(i as int));
        if key_is(&ps[i], k) {
            found = Some(copy_string(&ps[i].value));
        }
        i = i + 1;
    }
    assert(ps@.take(ps@.len() as int) =~= ps@);
    found
}

fn find_first(ps: &Vec<PostmanKeyValue>, k: &str) -> (r: Option<String>)
    ensures
        match first_value(ps@, k@) { Some(v) => r matches Some(x) && x@ == v, None => r is None },
{
    let mut i: usize = 0;
    assert(ps@.skip(0) =~= ps@);
    while i < ps.len()
        invariant
            i <= ps@.len(),
            first_value(ps@, k@) == first_value(ps@.skip(i as int), k@),
        decreases ps.len() - i,
    {
        let ghost rest = ps@.skip(i as int);
        assert(rest[0] == ps@[i as int]);
        assert(rest.drop_first() =~= ps@.skip(i + 1));
        if key_is(&ps[i], k) {
            return Some(copy_string(&ps[i].value));
        }
        i = i + 1;
    }
    None
}

fn settings1(k: &str, v: String) -> (m: StrMap<String>)
    ensures
        text_views(m@) == map![k@ => v@],
{
    let mut m: StrMap<String> = StrMap::new();
    let ghost vv = v@;
    m.insert(owned(k), v);
    assert(text_views(m@) =~= map![k@ => vv]);
    m
}

/// The variables of a collection, a later one winning on a shared name.
pub open spec fn variable_map(vs: Seq<PostmanVariable>) -> Map<Seq<char>, Seq<char>>
    decreases vs.len(),
{
    if vs.len() == 0 {
        Map::empty()
    } else {
        variable_map(vs.drop_last()).insert(vs.last().key@, vs.last().value@)
    }
}

/// Reads Postman collections.
pub struct PostmanImporter {}

impl PostmanImporter {
    pub fn new() -> (r: Self) {
        PostmanImporter {}
    }

    /// The URL of a request (see `converted_url`): the collection's variables
    /// written as `${name}`, after the base URL override if one is set.
    pub fn convert_postman_url(&self, url: &PostmanUrl, variables: &StrMap<String>, options: &ImportOptions) -> (r: Result<String, TestCaseError>)
        ensures
            r matches Ok(u) && u@ == converted_url(*url, variables.key_order(), match options.base_url_override {
                Some(b) => Some(b@),
                None => None,
            }),
    {
        let url_string = plain_url(url);
        let final_url = match &options.base_url_override {
            Some(base) => rebase(&url_string, base),
            None => url_string,
        };
        let n = variables.len();
        let mut result = final_url;
        let ghost start = result@;
        let mut i: usize = 0;
        while i < n
            invariant
                i <= n,
                n == variables.key_order().len(),
                result@ == variables_marked(start, variables.key_order(), i as nat),
            decreases n - i,
        {
            let (k, _v) = variables.entry_at(i);
            let pat = concat3("{{", k.as_str(), "}}");
            let rep = concat3("${", k.as_str(), "}");
            result = replace_all(result.as_str(), pat.as_str(), rep.as_str());
            i = i + 1;
        }
        Ok(result)
    }

    /// The enabled headers of a request (see `header_map`).
    pub fn convert_postman_headers(&self, headers: &Option<Vec<PostmanHeader>>) -> (r: StrMap<String>)
        ensures
            text_views(r@) == match *headers { Some(hs) => header_map(hs@), None => Map::empty() },
    {
        let mut result: StrMap<String> = StrMap::new();
        assert(text_views(result@) =~= Map::<Seq<char>, Seq<char>>::empty());
        match headers {
            Some(hs) => {
                let mut i: usize = 0;
                assert(hs@.take(0) =~= Seq::<PostmanHeader>::empty());
                while i < hs.len()
                    invariant
                        i <= hs@.len(),
                        text_views(result@) == header_map(hs@.take(i as int)),
                    decreases hs.len() - i,
                {
                    assert(hs@.take(i + 1).drop_last() =~= hs@.take(i as int));
                    let h = &hs[i];
                    if !(h.disabled == Some(true)) {
                        let ghost before = result@;
                        result.insert(copy_string(&h.key), copy_string(&h.value));
                        assert(text_views(result@) =~= text_views(before).insert(h.key@, h.value@));
                    }
                    i = i + 1;
                }
                assert(hs@.take(hs@.len() as int) =~= hs@);
            },
            None => {},
        }
        result
    }

    /// The body of a request (see `body_text`).
    pub fn convert_postman_body(&self, body: &Option<PostmanBody>) -> (r: Result<Option<String>, TestCaseError>)
        ensures
            r matches Ok(b) && match b { Some(x) => body_text(*body) == Some(x@), None => body_text(*body) is None },
    {
        match body {
            Some(b) => {
                let raw = opt_copy(&b.raw);
                match &b.mode {
                    Some(m) => {
                        if crate::text::str_equal(m.as_str(), "raw") {
                            Ok(raw)
                        } else if crate::text::str_equal(m.as_str(), "urlencoded") {
                            match &b.urlencoded {
                                Some(d) => {
                                    let pairs = enabled_pairs(d);
                                    Ok(Some(join_with(&pairs, "&")))
                                },
                                None => Ok(None),
                            }
                        } else if crate::text::str_equal(m.as_str(), "formdata") {
                            match &b.formdata {
                                Some(d) => Ok(Some(pretty_form(&enabled_form_fields(d)))),
                                None => Ok(None),
                            }
                        } else {
                            Ok(raw)
                        }
                    },
                    None => Ok(raw),
                }
            },
            None => Ok(None),
        }
    }

    /// The authentication of a request (see `auth_settings`).
    pub fn convert_postman_auth(&self, auth: &Option<PostmanAuth>) -> (r: Option<AuthDefinition>)
        ensures
            auth_view(r) == auth_settings(*auth),
    {
        match auth {
            Some(a) => {
                let t = a.auth_type.as_str();
                if crate::text::str_equal(t, "bearer") {
                    match &a.bearer {
                        Some(b) => match find_first(b, "token") {
                            Some(token) => Some(AuthDefinition { auth_type: owned("bearer"), config: settings1("token", token) }),
                            None => None,
                        },
                        None => None,
                    }
                } else if crate::text::str_equal(t, "basic") {
                    match &a.basic {
                        Some(b) => match (find_last(b, "username"), find_last(b, "password")) {
                            (Some(u), Some(p)) => {
                                let mut config: StrMap<String> = StrMap::new();
                                let ghost (uv, pv) = (u@, p@);
                                config.insert(owned("username"), u);
                                config.insert(owned("password"), p);
                                assert(text_views(config@) =~= map!["username"@ => uv, "password"@ => pv]);
                                Some(AuthDefinition { auth_type: owned("basic"), config })
                            },
                            _ => None,
                        },
                        None => None,
                    }
                } else if crate::text::str_equal(t, "apikey") {
                    match &a.apikey {
                        Some(b) => match (find_last(b, "key"), find_last(b, "value")) {
                            (Some(k), Some(v)) => {
                                let location = match find_last(b, "in") {
                                    Some(l) => l,
                                    None => owned("header"),
                                };
                                let mut config: StrMap<String> = StrMap::new();
                                let ghost (kv, vv, lv) = (k@, v@, location@);
                                config.insert(owned("key"), k);
                                config.insert(owned("value"), v);
                                config.insert(owned("location"), location);
                                assert(text_views(config@) =~= map!["key"@ => kv, "value"@ => vv, "location"@ => lv]);
                                Some(AuthDefinition { auth_type: owned("apikey"), config })
                            },
                            _ => None,
                        },
                        None => None,
                    }
                } else {
                    None
                }
            },
            None => None,
        }
    }

    /// The request of an imported test case: the method in uppercase, the
    /// URL, enabled headers, body and authentication.
    pub fn convert_postman_request(&self, request: &PostmanRequest, variables: &StrMap<String>, options: &ImportOptions) -> (r: Result<RequestDefinition, TestCaseError>)
        ensures
            r matches Ok(d) && d.protocol@ == "http"@ && d.method@ == uppercase_text(request.method@)
                && d.url@ == converted_url(request.url, variables.key_order(), match options.base_url_override {
                    Some(b) => Some(b@),
                    None => None,
                })
                && text_views(d.headers@) == (match request.header { Some(hs) => header_map(hs@), None => Map::empty() })
                && (match d.body { Some(x) => body_text(request.body) == Some(x@), None => body_text(request.body) is None })
                && auth_view(d.auth) == auth_settings(request.auth),
    {
        let url = match self.convert_postman_url(&request.url, variables, options) {
            Ok(u) => u,
            Err(e) => return Err(e),
        };
        let headers = self.convert_postman_headers(&request.header);
        let body = match self.convert_postman_body(&request.body) {
            Ok(b) => b,
            Err(e) => return Err(e),
        };
        Ok(RequestDefinition {
            protocol: owned("http"),
            method: uppercase(request.method.as_str()),
            url,
            headers,
            body,
            auth: self.convert_postman_auth(&request.auth),
        })
    }

    /// The collection's variables, a later one winning on a shared name.
    pub fn collect_variables(&self, collection: &PostmanCollection) -> (r: StrMap<String>)
        ensures
            text_views(r@) == match collection.variable { Some(vs) => variable_map(vs@), None => Map::empty() },
    {
        let mut variables: StrMap<String> = StrMap::new();
        assert(text_views(variables@) =~= Map::<Seq<char>, Seq<char>>::empty());
        match &collection.variable {
            Some(vs) => {
                let mut i: usize = 0;
                assert(vs@.take(0) =~= Seq::<PostmanVariable>::empty());
                while i < vs.len()
                    invariant
                        i <= vs@.len(),
                        text_views(variables@) == variable_map(vs@.take(i as int)),
                    decreases vs.len() - i,
                {
                    assert(vs@.take(i + 1).drop_last() =~= vs@.take(i as int));
                    let ghost before = variables@;
                    variables.insert(copy_string(&vs[i].key), copy_string(&vs[i].value));
                    assert(text_views(variables@) =~= text_views(before).insert(vs@[i as int].key@, vs@[i as int].value@));
                    i = i + 1;
                }
                assert(vs@.take(vs@.len() as int) =~= vs@);
            },
            None => {},
        }
        variables
    }
}

fn enabled_form_fields(d: &Vec<PostmanFormData>) -> (r: Vec<(String, String)>)
    ensures
        r@.map_values(|f: (String, String)| (f.0@, f.1@)) == form_fields(d@),
{
    let mut fields: Vec<(String, String)> = Vec::new();
    let mut i: usize = 0;
    assert(d@.take(0) =~= Seq::<PostmanFormData>::empty());
    assert(fields@.map_values(|f: (String, String)| (f.0@, f.1@)) =~= Seq::<(Seq<char>, Seq<char>)>::empty());
    while i < d.len()
        invariant
            i <= d@.len(),
            fields@.map_values(|f: (String, String)| (f.0@, f.1@)) == form_fields(d@.take(i as int)),
        decreases d.len() - i,
    {
        assert(d@.take(i + 1).drop_last() =~= d@.take(i as int));
        let f = &d[i];
        if !(f.disabled == Some(true)) {
            match &f.value {
                Some(v) => {
                    let ghost before = fields@;
                    fields.push((copy_string(&f.key), copy_string(v)));
                    assert(fields@.map_values(|f: (String, String)| (f.0@, f.1@))
                        =~= before.map_values(|f: (String, String)| (f.0@, f.1@)).push((f.key@, v@)));
                },
                None => {},
            }
        }
        i = i + 1;
    }
    assert(d@.take(d@.len() as int) =~= d@);
    fields
}

/// Texts captured by the first group of each match of a regular expression
/// in a text, in order (the regex crate's `captures_iter`).
pub uninterp spec fn first_groups(pattern: Seq<char>, text: Seq<char>) -> Seq<Seq<char>>;

/// The first group of each match of one of the tag patterns.
#[verifier::external_body]
fn capture_first_groups(pattern: &str, text: &str) -> (r: Vec<String>)
    requires
        pattern@ == "\\[([^\\]]+)\\]"@ || pattern@ == "#(\\w+)"@,
    ensures
        views(r@) == first_groups(pattern@, text@),
{
    regex::Regex::new(pattern).unwrap().captures_iter(text).filter_map(|c| c.get(1)).map(|m| m.as_str().to_string()).collect()
}

/// The variable name and source of the first `pm.environment.set("name", source)`
/// or `pm.globals.set("name", source)` call in a script line (the regex
/// crate's `captures`).
pub uninterp spec fn set_call_groups(line: Seq<char>) -> Option<(Seq<char>, Seq<char>)>;

#[verifier::external_body]
fn set_call(line: &str) -> (r: Option<(String, String)>)
    ensures
        match r {
            Some((a, b)) => set_call_groups(line@) == Some((a@, b@)),
            None => set_call_groups(line@) is None,
        },
{
    let re = regex::Regex::new(r#"pm\.(environment|globals)\.set\("([^"]+)",\s*([^)]+)\)"#).unwrap();
    re.captures(line).and_then(|c| match (c.get(2), c.get(3)) {
        (Some(a), Some(b)) => Some((a.as_str().to_string(), b.as_str().to_string())),
        _ => None,
    })
}

/// The texts in lowercase.
pub open spec fn lowercased(ts: Seq<Seq<char>>) -> Seq<Seq<char>> {
    ts.map_values(|t: Seq<char>| lowercase_text(t))
}

/// The tags of an imported request named `name`: `postman` (or
/// `prefix:postman`), then the lowercased words in brackets and after `#`.
pub open spec fn name_tags(name: Seq<char>, prefix: Option<Seq<char>>) -> Seq<Seq<char>> {
    let first = match prefix { Some(p) => p + ":postman"@, None => "postman"@ };
    seq![first] + lowercased(first_groups("\\[([^\\]]+)\\]"@, name)) + lowercased(first_groups("#(\\w+)"@, name))
}

/// The JSON path a script's source expression reads: `pm.response.json()`
/// becomes `$` when the source mentions `responseJson`, else the source is
/// put after `$.`.
pub open spec fn extraction_path(source: Seq<char>) -> Seq<char> {
    if text_contains(source, "responseJson"@) {
        replace_text(replace_text(source, "pm.response.json()."@, "$."@), "pm.response.json()"@, "$"@)
    } else {
        "$."@ + source
    }
}

/// The variables set by the lines of a script, as (name, path) pairs.
pub open spec fn line_extractions(lines: Seq<Seq<char>>) -> Seq<(Seq<char>, Seq<char>)>
    decreases lines.len(),
{
    if lines.len() == 0 {
        Seq::empty()
    } else {
        let rest = line_extractions(lines.drop_last());
        match set_call_groups(lines.last()) {
            Some((name, source)) => rest.push((name, extraction_path(source))),
            None => rest,
        }
    }
}

/// The variables set by the test scripts of a request's events.
pub open spec fn event_extractions(events: Seq<PostmanEvent>) -> Seq<(Seq<char>, Seq<char>)>
    decreases events.len(),
{
    if events.len() == 0 {
        Seq::empty()
    } else {
        let rest = event_extractions(events.drop_last());
        let e = events.last();
        if e.listen@ == "test"@ {
            match e.script.exec_lines {
                Some(lines) => rest + line_extractions(views(lines@)),
                None => rest,
            }
        } else {
            rest
        }
    }
}

/// The views of extracted variables, as (name, path) pairs read from the response body.
pub open spec fn extraction_views(xs: Seq<VariableExtraction>) -> Seq<(Seq<char>, Seq<char>)> {
    xs.map_values(|x: VariableExtraction| (x.name@, x.path@))
}

/// Whether every extracted variable is read from the response body, with no default.
pub open spec fn from_body(xs: Seq<VariableExtraction>) -> bool {
    forall|i: int| 0 <= i < xs.len() ==> (#[trigger] xs[i]).source == ExtractionSource::ResponseBody && xs[i].default_value is None
}

/// The request an imported test case sends (see `convert_postman_request`).
pub open spec fn imported_request(d: RequestDefinition, request: PostmanRequest, order: Seq<Seq<char>>, options: ImportOptions) -> bool {
    &&& d.protocol@ == "http"@
    &&& d.method@ == uppercase_text(request.method@)
    &&& d.url@ == converted_url(request.url, order, match options.base_url_override {
        Some(b) => Some(b@),
        None => None,
    })
    &&& text_views(d.headers@) == (match request.header { Some(hs) => header_map(hs@), None => Map::empty() })
    &&& (match d.body { Some(x) => body_text(request.body) == Some(x@), None => body_text(request.body) is None })
    &&& auth_view(d.auth) == auth_settings(request.auth)
}

/// The default checks of an imported test case: status 200 and a response
/// within 5 seconds.
pub open spec fn default_assertions(a: Seq<AssertionDefinition>) -> bool {
    &&& a.len() == 2
    &&& a[0].assertion_type@ == "status_code"@
    &&& a[0].expected.view() == JsonView::Number("200"@)
    &&& a[0].message matches Some(m) && m@ == "Expected successful response"@
    &&& a[1].assertion_type@ == "response_time"@
    &&& a[1].expected.view() == JsonView::Number("5000"@)
    &&& a[1].message matches Some(m) && m@ == "Response should be within 5 seconds"@
}

/// The test case imported from a request item kept in folder `folder`.
pub open spec fn imported_case(tc: TestCase, item: PostmanItem, order: Seq<Seq<char>>, options: ImportOptions, folder: Seq<char>) -> bool {
    &&& item.request matches Some(request) && imported_request(tc.request, request, order, options)
    &&& tc.name@ == item.name@
    &&& opt_view(tc.description) == opt_view(item.description)
    &&& views(tc.tags@) == name_tags(item.name@, match options.tag_prefix { Some(p) => Some(p@), None => None })
        + (if folder.len() > 0 { seq!["folder:"@ + folder] } else { Seq::empty() })
    &&& tc.protocol@ == "http"@
    &&& (if options.generate_assertions { default_assertions(tc.assertions@) } else { tc.assertions@.len() == 0 })
    &&& tc.variable_extractions matches Some(xs) && from_body(xs@) && extraction_views(xs@) == match item.event {
        Some(es) => event_extractions(es@),
        None => Seq::empty(),
    }
    &&& tc.dependencies@.len() == 0
    &&& tc.timeout_ms == Some(30000u64)
    &&& tc.version == 1
}

/// The request items of a list, each with the folder path it is kept in;
/// folders are entered, their path extended by their name.
pub open spec fn flat_requests(items: Seq<PostmanItem>, folder: Seq<char>) -> Seq<(PostmanItem, Seq<char>)>
    decreases items,
{
    if items.len() == 0 {
        Seq::empty()
    } else {
        let rest = flat_requests(items.drop_last(), folder);
        let it = items.last();
        match it.item {
            Some(sub) => rest + flat_requests(sub@, if folder.len() == 0 { it.name@ } else { folder + "/"@ + it.name@ }),
            None => match it.request {
                Some(_) => rest.push((it, folder)),
                None => rest,
            },
        }
    }
}

fn lowercase_all(ts: Vec<String>) -> (r: Vec<String>)
    ensures
        views(r@) == lowercased(views(ts@)),
{
    let mut out: Vec<String> = Vec::new();
    let mut i: usize = 0;
    while i < ts.len()
        invariant
            i <= ts@.len(),
            out@.len() == i,
            views(out@) == lowercased(views(ts@)).take(i as int),
        decreases ts.len() - i,
    {
        let ghost before = out@;
        out.push(lowercase(ts[i].as_str()));
        assert forall|k: int| 0 <= k < i + 1 implies #[trigger] views(out@)[k] == lowercased(views(ts@))[k] by {
            if k < i {
                assert(out@[k] == before[k]);
                assert(views(before)[k] == lowercased(views(ts@)).take(i as int)[k]);
            }
        }
        assert(views(out@) =~= lowercased(views(ts@)).take(i + 1));
        i = i + 1;
    }
    assert(lowercased(views(ts@)).take(ts@.len() as int) =~= lowercased(views(ts@)));
    out
}

fn append_all(out: &mut Vec<String>, more: Vec<String>)
    ensures
        views(final(out)@) == views(old(out)@) + views(more@),
{
    let ghost before = out@;
    let mut m = more;
    out.append(&mut m);
    assert(views(out@) =~= views(before) + views(more@));
}

fn extraction_path_of(source: &str) -> (r: String)
    ensures
        r@ == extraction_path(source@),
{
    if contains_text(source, "responseJson") {
        let a = replace_all(source, "pm.response.json().", "$.");
        replace_all(a.as_str(), "pm.response.json()", "$")
    } else {
        concat("$.", source)
    }
}

fn default_assertion_list() -> (r: Vec<AssertionDefinition>)
    ensures
        default_assertions(r@),
{
    vec![
        AssertionDefinition {
            assertion_type: owned("status_code"),
            expected: JsonValue::Number(owned("200")),
            message: Some(owned("Expected successful response")),
        },
        AssertionDefinition {
            assertion_type: owned("response_time"),
            expected: JsonValue::Number(owned("5000")),
            message: Some(owned("Response should be within 5 seconds")),
        },
    ]
}

impl PostmanImporter {
    /// The tags of an imported request (see `name_tags`).
    pub fn extract_tags(&self, name: &str, options: &ImportOptions) -> (r: Vec<String>)
        ensures
            views(r@) == name_tags(name@, match options.tag_prefix { Some(p) => Some(p@), None => None }),
    {
        let mut tags: Vec<String> = Vec::new();
        match &options.tag_prefix {
            Some(prefix) => tags.push(concat(prefix.as_str(), ":postman")),
            None => tags.push(owned("postman")),
        }
        let brackets = lowercase_all(capture_first_groups("\\[([^\\]]+)\\]", name));
        append_all(&mut tags, brackets);
        let hashes = lowercase_all(capture_first_groups("#(\\w+)", name));
        append_all(&mut tags, hashes);
        tags
    }

    /// The variables set by a request's test scripts, read from the
    /// response body at the path their source names.
    pub fn extract_variables_from_tests(&self, events: &Option<Vec<PostmanEvent>>) -> (r: Vec<VariableExtraction>)
        ensures
            from_body(r@),
            extraction_views(r@) == match *events { Some(es) => event_extractions(es@), None => Seq::empty() },
    {
        let mut extractions: Vec<VariableExtraction> = Vec::new();
        match events {
            Some(es) => {
                let mut i: usize = 0;
                assert(es@.take(0) =~= Seq::<PostmanEvent>::empty());
                while i < es.len()
                    invariant
                        i <= es@.len(),
                        from_body(extractions@),
                        extraction_views(extractions@) == event_extractions(es@.take(i as int)),
                    decreases es.len() - i,
                {
                    assert(es@.take(i + 1).drop_last() =~= es@.take(i as int));
                    let e = &es[i];
                    if crate::text::str_equal(e.listen.as_str(), "test") {
                        match &e.script.exec_lines {
                            Some(lines) => {
                                let ghost base = extraction_views(extractions@);
                                let mut j: usize = 0;
                                assert(views(lines@).take(0) =~= Seq::<Seq<char>>::empty());
                                assert(base + line_extractions(views(lines@).take(0)) =~= base);
                                while j < lines.len()
                                    invariant
                                        j <= lines@.len(),
                                        from_body(extractions@),
                                        extraction_views(extractions@) == base + line_extractions(views(lines@).take(j as int)),
                                    decreases lines.len() - j,
                                {
                                    assert(views(lines@).take(j + 1).drop_last() =~= views(lines@).take(j as int));
                                    match set_call(lines[j].as_str()) {
                                        Some((name, source)) => {
                                            let path = extraction_path_of(source.as_str());
                                            let ghost before = extractions@;
                                            let ghost pv = (name@, path@);
                                            extractions.push(VariableExtraction {
                                                name,
                                                source: ExtractionSource::ResponseBody,
                                                path,
                                                default_value: None,
                                            });
                                            assert(extraction_views(extractions@) =~= extraction_views(before).push(pv));
                                        },
                                        None => {},
                                    }
                                    j = j + 1;
                                }
                                assert(views(lines@).take(lines@.len() as int) =~= views(lines@));
                            },
                            None => {},
                        }
                    }
                    i = i + 1;
                }
                assert(es@.take(es@.len() as int) =~= es@);
            },
            None => {
                assert(extraction_views(extractions@) =~= Seq::<(Seq<char>, Seq<char>)>::empty());
            },
        }
        extractions
    }

    /// The test case for a request item kept in folder `folder_path` (see
    /// `imported_case`); none for an item without a request.
    pub fn convert_postman_item_to_test_case(
        &self,
        item: &PostmanItem,
        collection_variables: &StrMap<String>,
        options: &ImportOptions,
        folder_path: &str,
    ) -> (r: Result<Option<TestCase>, TestCaseError>)
        ensures
            r matches Ok(o) && (o is Some <==> item.request is Some)
                && (o matches Some(tc) ==> imported_case(tc, *item, collection_variables.key_order(), *options, folder_path@)),
    {
        match &item.request {
            Some(request) => {
                let mut tags = self.extract_tags(item.name.as_str(), options);
                let req = match self.convert_postman_request(request, collection_variables, options) {
                    Ok(d) => d,
                    Err(e) => return Err(e),
                };
                let assertions = if options.generate_assertions { default_assertion_list() } else { Vec::new() };
                let extractions = self.extract_variables_from_tests(&item.event);
                if !folder_path.is_empty() {
                    let ghost before = tags@;
                    tags.push(concat("folder:", folder_path));
                    assert(views(tags@) =~= views(before) + seq!["folder:"@ + folder_path@]);
                } else {
                    assert(views(tags@) =~= views(tags@) + Seq::<Seq<char>>::empty());
                }
                let test_case = TestCase {
                    id: new_uuid(),
                    name: copy_string(&item.name),
                    description: opt_copy(&item.description),
                    tags,
                    protocol: owned("http"),
                    request: req,
                    assertions,
                    variable_extractions: Some(extractions),
                    dependencies: Vec::new(),
                    timeout_ms: Some(30000),
                    created_at_ms: now_millis(),
                    updated_at_ms: now_millis(),
                    version: 1,
                };
                Ok(Some(test_case))
            },
            None => Ok(None),
        }
    }

    /// The test cases of a list of items kept in folder `folder_path`: one
    /// for each request item, folders entered in turn (see `flat_requests`).
    pub fn process_items_recursively(
        &self,
        items: &Vec<PostmanItem>,
        collection_variables: &StrMap<String>,
        options: &ImportOptions,
        folder_path: &str,
    ) -> (r: Result<Vec<TestCase>, TestCaseError>)
        ensures
            r matches Ok(cases) && cases@.len() == flat_requests(items@, folder_path@).len()
                && forall|i: int| 0 <= i < cases@.len() ==> imported_case(
                    #[trigger] cases@[i],
                    flat_requests(items@, folder_path@)[i].0,
                    collection_variables.key_order(),
                    *options,
                    flat_requests(items@, folder_path@)[i].1,
                ),
        decreases items@,
    {
        let mut test_cases: Vec<TestCase> = Vec::new();
        let mut i: usize = 0;
        assert(items@.take(0) =~= Seq::<PostmanItem>::empty());
        while i < items.len()
            invariant
                i <= items@.len(),
                test_cases@.len() == flat_requests(items@.take(i as int), folder_path@).len(),
                forall|j: int| 0 <= j < test_cases@.len() ==> imported_case(
                    #[trigger] test_cases@[j],
                    flat_requests(items@.take(i as int), folder_path@)[j].0,
                    collection_variables.key_order(),
                    *options,
                    flat_requests(items@.take(i as int), folder_path@)[j].1,
                ),
            decreases items.len() - i,
        {
            let item = &items[i];
            let ghost prefix = items@.take(i as int);
            let ghost next = items@.take(i + 1);
            assert(next.drop_last() =~= prefix);
            assert(next.last() == *item);
            let ghost before = test_cases@;
            let ghost fb = flat_requests(prefix, folder_path@);
            match &item.item {
                Some(sub_items) => {
                    let new_folder = if folder_path.is_empty() {
                        copy_string(&item.name)
                    } else {
                        concat3(folder_path, "/", item.name.as_str())
                    };
                    proof {
                        assert(decreases_to!(items@ => items@[i as int]));
                        assert(decreases_to!(items@[i as int] => items@[i as int].item));
                    }
                    let sub_cases = match self.process_items_recursively(sub_items, collection_variables, options, new_folder.as_str()) {
                        Ok(c) => c,
                        Err(e) => return Err(e),
                    };
                    let ghost fs = flat_requests(sub_items@, new_folder@);
                    let mut more = sub_cases;
                    let ghost added = more@;
                    test_cases.append(&mut more);
                    assert(flat_requests(next, folder_path@) == fb + fs);
                    assert forall|j: int| 0 <= j < test_cases@.len() implies imported_case(
                        #[trigger] test_cases@[j],
                        flat_requests(next, folder_path@)[j].0,
                        collection_variables.key_order(),
                        *options,
                        flat_requests(next, folder_path@)[j].1,
                    ) by {
                        if j < before.len() {
                            assert(test_cases@[j] == before[j]);
                        } else {
                            assert(test_cases@[j] == added[j - before.len()]);
                        }
                    }
                },
                None => {
                    match self.convert_postman_item_to_test_case(item, collection_variables, options, folder_path) {
                        Ok(Some(tc)) => {
                            test_cases.push(tc);
                            assert(flat_requests(next, folder_path@) == fb.push((*item, folder_path@)));
                            assert forall|j: int| 0 <= j < test_cases@.len() implies imported_case(
                                #[trigger] test_cases@[j],
                                flat_requests(next, folder_path@)[j].0,
                                collection_variables.key_order(),
                                *options,
                                flat_requests(next, folder_path@)[j].1,
                            ) by {
                                if j < before.len() {
                                    assert(test_cases@[j] == before[j]);
                                }
                            }
                        },
                        Ok(None) => {
                            assert(flat_requests(next, folder_path@) == fb);
                        },
                        Err(e) => return Err(e),
                    }
                },
            }
            i = i + 1;
        }
        assert(items@.take(items@.len() as int) =~= items@);
        Ok(test_cases)
    }
}

/// Why an import source cannot be read as a Postman collection, if it
/// cannot: a file that does not exist or is not `.json`, or a URL that is
/// not HTTP(S).
pub open spec fn postman_source_problem(source: ImportSource, file_exists: bool) -> Option<Seq<char>> {
    match source {
        ImportSource::File(path) => if !file_exists {
            Some("File does not exist"@)
        } else if path_extension_text(path@) != Some("json"@) {
            Some("File must have .json extension"@)
        } else {
            None
        },
        ImportSource::Url(url) => if !(has_prefix(url@, "http://"@) || has_prefix(url@, "https://"@)) {
            Some("URL must use HTTP or HTTPS protocol"@)
        } else {
            None
        },
        ImportSource::Content(_) => None,
    }
}

/// Whether `e` is an import error with message `m`.
pub open spec fn is_import_error(e: TestCaseError, m: Seq<char>) -> bool {
    e matches TestCaseError::ImportError(t) && t@ == m
}

fn is_extension(path: &str, ext: &str) -> (r: bool)
    ensures
        r == (path_extension_text(path@) == Some(ext@)),
{
    match path_extension(path) {
        Some(e) => crate::text::str_equal(e.as_str(), ext),
        None => false,
    }
}

pub(crate) fn is_web_url(url: &str) -> (r: bool)
    ensures
        r == (has_prefix(url@, "http://"@) || has_prefix(url@, "https://"@)),
{
    has_text_prefix(url, "http://") || has_text_prefix(url, "https://")
}

impl PostmanImporter {
    /// Checks that a source can be read, given whether the file it names
    /// exists (see `postman_source_problem`).
    pub fn validate_source(&self, source: &ImportSource, file_exists: bool) -> (r: Result<(), TestCaseError>)
        ensures
            match postman_source_problem(*source, file_exists) {
                Some(m) => r matches Err(e) && is_import_error(e, m),
                None => r is Ok,
            },
    {
        match source {
            ImportSource::File(path) => {
                if !file_exists {
                    return Err(TestCaseError::ImportError(owned("File does not exist")));
                }
                if !is_extension(path.as_str(), "json") {
                    return Err(TestCaseError::ImportError(owned("File must have .json extension")));
                }
            },
            ImportSource::Url(url) => {
                if !is_web_url(url.as_str()) {
                    return Err(TestCaseError::ImportError(owned("URL must use HTTP or HTTPS protocol")));
                }
            },
            ImportSource::Content(_) => {},
        }
        Ok(())
    }
}

} // verus!
