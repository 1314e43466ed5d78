//! Exporting test cases: to JSON, YAML and Postman collections.

use vstd::prelude::*;
use crate::text::{views, owned, copy_string};
use crate::strmap::StrMap;
use crate::data_source::text_views;
use crate::test_case_manager::{TestCase, RequestDefinition, AuthDefinition};
use crate::auth_plugin::opt_view;
use crate::event::has_prefix;
use super::{ExportOptions, ImportOptions};
use super::postman::{PostmanCollection, PostmanInfo, PostmanItem, PostmanRequest, PostmanUrl, PostmanHeader,
    PostmanBody, PostmanKeyValue, PostmanAuth, PostmanVariable, header_map, last_value, auth_view, imported_request};
use crate::text::uppercase_text;

verus! {

/// Writes test cases as JSON.
pub struct JsonExporter;

impl JsonExporter {
    pub fn new() -> (r: Self) {
        JsonExporter
    }
}

/// Writes test cases as YAML.
pub struct YamlExporter;

impl YamlExporter {
    pub fn new() -> (r: Self) {
        YamlExporter
    }
}

/// Writes test cases as a Postman collection.
pub struct PostmanExporter;

/// A setting, or the empty text when it is missing.
pub open spec fn setting_or_empty(config: Map<Seq<char>, Seq<char>>, k: Seq<char>) -> Seq<char> {
    if config.dom().contains(k) { config[k] } else { Seq::empty() }
}

/// Whether `kv` is the enabled entry `k` with value `v`.
pub open spec fn entry_is(kv: PostmanKeyValue, k: Seq<char>, v: Seq<char>) -> bool {
    kv.key@ == k && kv.value@ == v && kv.disabled == Some(false)
}

/// The Postman authentication written for a test's authentication: the
/// bearer token, the basic credentials or the API key and value (missing
/// settings as empty texts); `noauth` for other kinds.
pub open spec fn exported_auth(a: PostmanAuth, d: AuthDefinition) -> bool {
    let c = text_views(d.config@);
    if d.auth_type@ == "bearer"@ {
        &&& a.auth_type@ == "bearer"@
        &&& a.bearer matches Some(b) && b@.len() == 1 && entry_is(b@[0], "token"@, setting_or_empty(c, "token"@))
        &&& a.basic is None && a.oauth2 is None && a.apikey is None
    } else if d.auth_type@ == "basic"@ {
        &&& a.auth_type@ == "basic"@
        &&& a.basic matches Some(b) && b@.len() == 2
            && entry_is(b@[0], "username"@, setting_or_empty(c, "username"@))
            && entry_is(b@[1], "password"@, setting_or_empty(c, "password"@))
        &&& a.bearer is None && a.oauth2 is None && a.apikey is None
    } else if d.auth_type@ == "apikey"@ {
        &&& a.auth_type@ == "apikey"@
        &&& a.apikey matches Some(b) && b@.len() == 2
            && entry_is(b@[0], "key"@, setting_or_empty(c, "key"@))
            && entry_is(b@[1], "value"@, setting_or_empty(c, "value"@))
        &&& a.bearer is None && a.basic is None && a.oauth2 is None
    } else {
        &&& a.auth_type@ == "noauth"@
        &&& a.bearer is None && a.basic is None && a.oauth2 is None && a.apikey is None
    }
}

/// Whether a Postman body is the raw text `t`.
pub open spec fn raw_body(pb: PostmanBody, t: Seq<char>) -> bool {
    &&& (match pb.mode { Some(m) => m@ == "raw"@, None => false })
    &&& (match pb.raw { Some(x) => x@ == t, None => false })
    &&& pb.urlencoded is None
    &&& pb.formdata is None
}

/// The Postman request written for a test's request: same method, the URL as
/// text, every header enabled in the map's order, a raw body, and the
/// authentication (see `exported_auth`).
pub open spec fn exported_request(p: PostmanRequest, r: RequestDefinition, description: Option<String>) -> bool {
    &&& p.method@ == r.method@
    &&& p.url matches PostmanUrl::String(u) && u@ == r.url@
    &&& p.header matches Some(hs) && hs@.len() == r.headers.key_order().len() && forall|i: int| 0 <= i < hs@.len() ==> {
        &&& (#[trigger] hs@[i]).key@ == r.headers.key_order()[i]
        &&& hs@[i].value@ == r.headers@[r.headers.key_order()[i]]@
        &&& hs@[i].disabled == Some(false)
        &&& hs@[i].description is None
    }
    &&& match r.body {
        Some(b) => match p.body {
            Some(pb) => raw_body(pb, b@),
            None => false,
        },
        None => p.body is None,
    }
    &&& match r.auth {
        Some(d) => p.auth matches Some(a) && exported_auth(a, d),
        None => p.auth is None,
    }
    &&& opt_view(p.description) == opt_view(description)
}

/// The Postman item written for a test case: its name and description, and
/// its request (see `exported_request`).
pub open spec fn exported_item(it: PostmanItem, tc: TestCase) -> bool {
    &&& it.name@ == tc.name@
    &&& opt_view(it.description) == opt_view(tc.description)
    &&& it.request matches Some(p) && exported_request(p, tc.request, tc.description)
    &&& it.item is None
    &&& it.event is None
}

/// The folder a test case is kept in: what follows `folder:` in its first
/// tag that starts so.
pub open spec fn folder_of(tags: Seq<Seq<char>>) -> Option<Seq<char>>
    decreases tags.len(),
{
    if tags.len() == 0 {
        None
    } else if has_prefix(tags[0], "folder:"@) {
        Some(tags[0].skip(7))
    } else {
        folder_of(tags.drop_first())
    }
}

fn entry(k: &str, v: String) -> (r: PostmanKeyValue)
    ensures
        entry_is(r, k@, v@),
{
    PostmanKeyValue { key: owned(k), value: v, disabled: Some(false) }
}

fn setting(config: &StrMap<String>, k: &str) -> (r: String)
    ensures
        r@ == setting_or_empty(text_views(config@), k@),
{
    proof { reveal_strlit(""); }
    match config.get(k) {
        Some(v) => copy_string(v),
        None => owned(""),
    }
}

fn export_auth(d: &AuthDefinition) -> (r: PostmanAuth)
    ensures
        exported_auth(r, *d),
{
    let t = d.auth_type.as_str();
    if crate::text::str_equal(t, "bearer") {
        let b = vec![entry("token", setting(&d.config, "token"))];
        PostmanAuth { auth_type: owned("bearer"), bearer: Some(b), basic: None, oauth2: None, apikey: None }
    } else if crate::text::str_equal(t, "basic") {
        let b = vec![entry("username", setting(&d.config, "username")), entry("password", setting(&d.config, "password"))];
        PostmanAuth { auth_type: owned("basic"), bearer: None, basic: Some(b), oauth2: None, apikey: None }
    } else if crate::text::str_equal(t, "apikey") {
        let b = vec![entry("key", setting(&d.config, "key")), entry("value", setting(&d.config, "value"))];
        PostmanAuth { auth_type: owned("apikey"), bearer: None, basic: None, oauth2: None, apikey: Some(b) }
    } else {
        PostmanAuth { auth_type: owned("noauth"), bearer: None, basic: None, oauth2: None, apikey: None }
    }
}

fn export_headers(headers: &StrMap<String>) -> (r: Vec<PostmanHeader>)
    ensures
        r@.len() == headers.key_order().len(),
        forall|i: int| 0 <= i < r@.len() ==> {
            &&& (#[trigger] r@[i]).key@ == headers.key_order()[i]
            &&& r@[i].value@ == headers@[headers.key_order()[i]]@
            &&& r@[i].disabled == Some(false)
            &&& r@[i].description is None
        },
{
    let n = headers.len();
    let mut out: Vec<PostmanHeader> = Vec::new();
    let mut i: usize = 0;
    while i < n
        invariant
            i <= n,
            n == headers.key_order().len(),
            out@.len() == i,
            forall|j: int| 0 <= j < i ==> {
                &&& (#[trigger] out@[j]).key@ == headers.key_order()[j]
                &&& out@[j].value@ == headers@[headers.key_order()[j]]@
                &&& out@[j].disabled == Some(false)
                &&& out@[j].description is None
            },
        decreases n - i,
    {
        let (k, v) = headers.entry_at(i);
        out.push(PostmanHeader { key: copy_string(k), value: copy_string(v), disabled: Some(false), description: None });
        i = i + 1;
    }
    out
}

fn opt_copy(s: &Option<String>) -> (r: Option<String>)
    ensures
        opt_view(r) == opt_view(*s),
{
    match s {
        Some(x) => Some(copy_string(x)),
        None => None,
    }
}

fn folder_tag(tags: &Vec<String>) -> (r: Option<String>)
    ensures
        match folder_of(views(tags@)) { Some(f) => r matches Some(x) && x@ == f, None => r is None },
{
    let mut i: usize = 0;
    assert(views(tags@).skip(0) =~= views(tags@));
    while i < tags.len()
        invariant
            i <= tags@.len(),
            folder_of(views(tags@)) == folder_of(views(tags@).skip(i as int)),
        decreases tags.len() - i,
    {
        let ghost rest = views(tags@).skip(i as int);
        assert(rest[0] == tags@[i as int]@);
        assert(rest.drop_first() =~= views(tags@).skip(i + 1));
        if crate::event::starts_with(&tags[i], &owned("folder:")) {
            let cs = crate::text::chars_of(tags[i].as_str());
            proof { reveal_strlit("folder:"); }
            let rest_text = crate::text::chars_between(&cs, 7, cs.len());
            assert(rest_text@ =~= rest[0].skip(7));
            return Some(rest_text);
        }
        i = i + 1;
    }
    None
}

impl PostmanExporter {
    pub fn new() -> (r: Self) {
        PostmanExporter
    }

    /// The Postman item for a test case (see `exported_item`).
    pub fn convert_test_case_to_postman_item(&self, test_case: &TestCase, _options: &ExportOptions) -> (r: PostmanItem)
        ensures
            exported_item(r, *test_case),
    {
        let url = PostmanUrl::String(copy_string(&test_case.request.url));
        let headers = export_headers(&test_case.request.headers);
        let body = match &test_case.request.body {
            Some(b) => Some(PostmanBody { mode: Some(owned("raw")), raw: Some(copy_string(b)), urlencoded: None, formdata: None }),
            None => None,
        };
        let auth = match &test_case.request.auth {
            Some(d) => Some(export_auth(d)),
            None => None,
        };
        let request = PostmanRequest {
            method: copy_string(&test_case.request.method),
            header: Some(headers),
            body,
            url,
            auth,
            description: opt_copy(&test_case.description),
        };
        PostmanItem {
            name: copy_string(&test_case.name),
            description: opt_copy(&test_case.description),
            request: Some(request),
            item: None,
            event: None,
        }
    }

    /// A Postman collection of test cases: those outside folders first, in
    /// order, then one folder item per folder (in the order folders are first
    /// met) holding its test cases in order.
    pub fn convert_test_cases_to_postman(&self, test_cases: &Vec<TestCase>, options: &ExportOptions) -> (r: PostmanCollection)
        ensures
            r.info.name@ == "Exported Test Cases"@,
            r.variable matches Some(v) && v@.len() == 0,
            r.auth is None,
            r.item@.len() == root_count(test_cases@) + folder_names(test_cases@).len(),
            forall|i: int| 0 <= i < root_count(test_cases@) ==> exported_item(
                #[trigger] r.item@[i], test_cases@[root_positions(test_cases@)[i]]),
            forall|i: int| 0 <= i < folder_names(test_cases@).len() ==> {
                let f = #[trigger] r.item@[root_count(test_cases@) + i];
                &&& f.name@ == folder_names(test_cases@)[i]
                &&& f.request is None
                &&& f.item matches Some(sub) && sub@.len() == folder_positions(test_cases@, folder_names(test_cases@)[i]).len()
                    && forall|j: int| 0 <= j < sub@.len() ==> exported_item(#[trigger] sub@[j],
                        test_cases@[folder_positions(test_cases@, folder_names(test_cases@)[i])[j]])
            },
    {
        let n = test_cases.len();
        let mut items: Vec<PostmanItem> = Vec::new();
        let mut i: usize = 0;
        let mut folders: Vec<String> = Vec::new();
        while i < n
            invariant
                i <= n,
                n == test_cases@.len(),
                items@.len() == root_count(test_cases@.take(i as int)),
                forall|j: int| 0 <= j < items@.len() ==> exported_item(
                    #[trigger] items@[j], test_cases@[root_positions(test_cases@.take(i as int))[j]]),
                views(folders@) == folder_names(test_cases@.take(i as int)),
            decreases n - i,
        {
            proof { lemma_take_step(test_cases@, i as int); }
            match folder_tag(&test_cases[i].tags) {
                Some(f) => {
                    if !crate::text::contains_string(&folders, &f) {
                        let ghost before = folders@;
                        folders.push(f);
                        assert(views(folders@) =~= views(before).push(folders@.last()@));
                    }
                },
                None => {
                    items.push(self.convert_test_case_to_postman_item(&test_cases[i], options));
                },
            }
            i = i + 1;
        }
        proof { assert(test_cases@.take(n as int) =~= test_cases@); }
        let nf = folders.len();
        let mut k: usize = 0;
        while k < nf
            invariant
                k <= nf,
                nf == folders@.len(),
                n == test_cases@.len(),
                views(folders@) == folder_names(test_cases@),
                items@.len() == root_count(test_cases@) + k,
                forall|j: int| 0 <= j < root_count(test_cases@) ==> exported_item(
                    #[trigger] items@[j], test_cases@[root_positions(test_cases@)[j]]),
                forall|j: int| 0 <= j < k ==> {
                    let f = #[trigger] items@[root_count(test_cases@) + j];
                    &&& f.name@ == folder_names(test_cases@)[j]
                    &&& f.request is None
                    &&& f.item matches Some(sub) && sub@.len() == folder_positions(test_cases@, folder_names(test_cases@)[j]).len()
                        && forall|m: int| 0 <= m < sub@.len() ==> exported_item(#[trigger] sub@[m],
                            test_cases@[folder_positions(test_cases@, folder_names(test_cases@)[j])[m]])
                },
            decreases nf - k,
        {
            let name = &folders[k];
            let ghost fname = name@;
            let mut sub: Vec<PostmanItem> = Vec::new();
            let mut t: usize = 0;
            while t < n
                invariant
                    t <= n,
                    n == test_cases@.len(),
                    fname == name@,
                    sub@.len() == folder_positions(test_cases@.take(t as int), fname).len(),
                    forall|m: int| 0 <= m < sub@.len() ==> exported_item(#[trigger] sub@[m],
                        test_cases@[folder_positions(test_cases@.take(t as int), fname)[m]]),
                decreases n - t,
            {
                proof { lemma_take_step(test_cases@, t as int); }
                let ghost fp = folder_positions(test_cases@.take(t as int), fname);
                let ghost old_sub = sub@;
                match folder_tag(&test_cases[t].tags) {
                    Some(f) => {
                        if crate::text::str_equal(f.as_str(), name.as_str()) {
                            sub.push(self.convert_test_case_to_postman_item(&test_cases[t], options));
                            proof {
                                let tcs = test_cases@.take(t + 1);
                                assert(tcs.last() == test_cases@[t as int]);
                                assert(folder_of(views(test_cases@[t as int].tags@)) == Some(f@));
                                assert(f@ == fname);
                                assert(folder_of(views(tcs.last().tags@)) == Some(fname));
                                assert(tcs.drop_last() == test_cases@.take(t as int));
                                assert(folder_positions(tcs, fname) == folder_positions(tcs.drop_last(), fname).push(tcs.len() - 1));
                                assert(folder_positions(test_cases@.take(t + 1), fname) == fp.push(t as int));
                                assert forall|m: int| 0 <= m < sub@.len() implies exported_item(#[trigger] sub@[m],
                                    test_cases@[fp.push(t as int)[m]]) by {
                                    if m < old_sub.len() {
                                        assert(sub@[m] == old_sub[m]);
                                    }
                                }
                            }
                        } else {
                            assert(folder_positions(test_cases@.take(t + 1), fname) == fp);
                        }
                    },
                    None => {
                        assert(folder_positions(test_cases@.take(t + 1), fname) == fp);
                    },
                }
                t = t + 1;
            }
            proof { assert(test_cases@.take(n as int) =~= test_cases@); }
            let ghost before = items@;
            items.push(PostmanItem { name: copy_string(name), description: None, request: None, item: Some(sub), event: None });
            proof {
                assert forall|j: int| 0 <= j < root_count(test_cases@) implies exported_item(
                    #[trigger] items@[j], test_cases@[root_positions(test_cases@)[j]]) by {
                    assert(items@[j] == before[j]);
                }
                assert forall|j: int| 0 <= j < k + 1 implies {
                    let f = #[trigger] items@[root_count(test_cases@) + j];
                    &&& f.name@ == folder_names(test_cases@)[j]
                    &&& f.request is None
                    &&& f.item matches Some(sub) && sub@.len() == folder_positions(test_cases@, folder_names(test_cases@)[j]).len()
                        && forall|m: int| 0 <= m < sub@.len() ==> exported_item(#[trigger] sub@[m],
                            test_cases@[folder_positions(test_cases@, folder_names(test_cases@)[j])[m]])
                } by {
                    if j < k {
                        assert(items@[root_count(test_cases@) + j] == before[root_count(test_cases@) + j]);
                    }
                }
            }
            k = k + 1;
        }
        PostmanCollection {
            info: PostmanInfo {
                name: owned("Exported Test Cases"),
                description: Some(owned("Test cases exported from API Test Runner")),
                schema: Some(owned("https://schema.getpostman.com/json/collection/v2.1.0/collection.json")),
            },
            item: items,
            variable: Some(Vec::new()),
            auth: None,
        }
    }
}

/// The positions of the test cases kept outside folders, in order.
pub open spec fn root_positions(tcs: Seq<TestCase>) -> Seq<int>
    decreases tcs.len(),
{
    if tcs.len() == 0 {
        Seq::empty()
    } else {
        let rest = root_positions(tcs.drop_last());
        if folder_of(views(tcs.last().tags@)) is None { rest.push(tcs.len() - 1) } else { rest }
    }
}

/// How many test cases are kept outside folders.
pub open spec fn root_count(tcs: Seq<TestCase>) -> int {
    root_positions(tcs).len() as int
}

/// The folders of the test cases, each once, in the order first met.
pub open spec fn folder_names(tcs: Seq<TestCase>) -> Seq<Seq<char>>
    decreases tcs.len(),
{
    if tcs.len() == 0 {
        Seq::empty()
    } else {
        let rest = folder_names(tcs.drop_last());
        match folder_of(views(tcs.last().tags@)) {
            Some(f) => if rest.contains(f) { rest } else { rest.push(f) },
            None => rest,
        }
    }
}

/// The positions of the test cases kept in folder `name`, in order.
pub open spec fn folder_positions(tcs: Seq<TestCase>, name: Seq<char>) -> Seq<int>
    decreases tcs.len(),
{
    if tcs.len() == 0 {
        Seq::empty()
    } else {
        let rest = folder_positions(tcs.drop_last(), name);
        if folder_of(views(tcs.last().tags@)) == Some(name) { rest.push(tcs.len() - 1) } else { rest }
    }
}

proof fn lemma_take_step(s: Seq<TestCase>, i: int)
    requires
        0 <= i < s.len(),
    ensures
        s.take(i + 1).drop_last() == s.take(i),
        s.take(i + 1).last() == s[i],
        s.take(i + 1).len() == i + 1,
{
    assert(s.take(i + 1).drop_last() =~= s.take(i));
}

/// Whether a test's authentication survives a trip through Postman: none, a
/// bearer token, basic credentials, or an API key sent in a header, each with
/// exactly the settings Postman carries.
pub open spec fn postman_carries_auth(a: Option<AuthDefinition>) -> bool {
    match a {
        None => true,
        Some(d) => {
            let c = text_views(d.config@);
            ||| d.auth_type@ == "bearer"@ && c.dom() =~= set!["token"@]
            ||| d.auth_type@ == "basic"@ && c.dom() =~= set!["username"@, "password"@]
            ||| d.auth_type@ == "apikey"@ && c.dom() =~= set!["key"@, "value"@, "location"@] && c["location"@] == "header"@
        }
    }
}

proof fn lemma_header_map_prefix(hs: Seq<PostmanHeader>, ko: Seq<Seq<char>>, m: Map<Seq<char>, Seq<char>>, j: int)
    requires
        0 <= j <= hs.len(),
        hs.len() == ko.len(),
        forall|i: int| 0 <= i < hs.len() ==> (#[trigger] hs[i]).key@ == ko[i] && hs[i].value@ == m[ko[i]]
            && hs[i].disabled == Some(false),
    ensures
        header_map(hs.take(j)) == Map::new(|k: Seq<char>| ko.take(j).contains(k), |k: Seq<char>| m[k]),
    decreases j,
{
    if j == 0 {
        assert(header_map(hs.take(0)) =~= Map::new(|k: Seq<char>| ko.take(0).contains(k), |k: Seq<char>| m[k]));
    } else {
        lemma_header_map_prefix(hs, ko, m, j - 1);
        assert(hs.take(j).drop_last() =~= hs.take(j - 1));
        assert(hs.take(j).last() == hs[j - 1]);
        assert forall|k: Seq<char>| ko.take(j).contains(k) <==> (ko.take(j - 1).contains(k) || k == ko[j - 1]) by {
            if ko.take(j).contains(k) {
                let x = choose|x: int| 0 <= x < j && #[trigger] ko.take(j)[x] == k;
                if x < j - 1 {
                    assert(ko.take(j - 1)[x] == k);
                }
            }
            if ko.take(j - 1).contains(k) {
                let x = choose|x: int| 0 <= x < j - 1 && #[trigger] ko.take(j - 1)[x] == k;
                assert(ko.take(j)[x] == k);
            }
            if k == ko[j - 1] {
                assert(ko.take(j)[j - 1] == k);
            }
        }
        assert(header_map(hs.take(j)) =~= Map::new(|k: Seq<char>| ko.take(j).contains(k), |k: Seq<char>| m[k]));
    }
}

/// Exporting a request to Postman and importing it back, with no base URL
/// override and no collection variables, gives the same method, URL,
/// headers, body and authentication, when the method is written in uppercase
/// and Postman carries the authentication (see `postman_carries_auth`).
pub proof fn lemma_postman_round_trip(
    r: RequestDefinition,
    description: Option<String>,
    p: PostmanRequest,
    d: RequestDefinition,
    options: ImportOptions,
)
    requires
        exported_request(p, r, description),
        imported_request(d, p, Seq::empty(), options),
        options.base_url_override is None,
        uppercase_text(r.method@) == r.method@,
        postman_carries_auth(r.auth),
    ensures
        d.method@ == r.method@,
        d.url@ == r.url@,
        text_views(d.headers@) == text_views(r.headers@),
        opt_view(d.body) == opt_view(r.body),
        auth_view(d.auth) == auth_view(r.auth),
{
    reveal_strlit("bearer");
    reveal_strlit("basic");
    reveal_strlit("apikey");
    reveal_strlit("token");
    reveal_strlit("username");
    reveal_strlit("password");
    reveal_strlit("key");
    reveal_strlit("value");
    reveal_strlit("in");
    reveal_strlit("location");
    reveal_strlit("raw");
    reveal_strlit("urlencoded");
    reveal_strlit("formdata");
    assert("bearer"@.len() == 6 && "basic"@.len() == 5 && "apikey"@.len() == 6 && "bearer"@[0] != "apikey"@[0]);
    assert("token"@.len() == 5 && "key"@.len() == 3 && "value"@.len() == 5 && "in"@.len() == 2);
    assert("username"@[0] == 'u' && "password"@[0] == 'p' && "key"@[0] == 'k' && "value"@[0] == 'v');
    assert("location"@.len() == 8);
    reveal_with_fuel(last_value, 3);
    let hs = match p.header { Some(h) => h@, None => Seq::empty() };
    let ko = r.headers.key_order();
    let m = text_views(r.headers@);
    r.headers.lemma_key_order();
    assert forall|i: int| 0 <= i < hs.len() implies (#[trigger] hs[i]).key@ == ko[i] && hs[i].value@ == m[ko[i]]
        && hs[i].disabled == Some(false) by {
        assert(ko.contains(ko[i]));
    }
    lemma_header_map_prefix(hs, ko, m, hs.len() as int);
    assert(hs.take(hs.len() as int) =~= hs);
    assert(ko.take(ko.len() as int) =~= ko);
    r.headers.lemma_key_order();
    assert(header_map(hs) =~= m);
    match (r.auth, p.auth) {
        (Some(a), Some(pa)) => {
            let c = text_views(a.config@);
            assert(r.auth == Some(a));
            assert(postman_carries_auth(Some(a)));
            if a.auth_type@ == "bearer"@ {
                assert(c.dom() =~= set!["token"@]);
                assert(c.dom().contains("token"@));
                assert(map!["token"@ => c["token"@]] =~= c);
            } else if a.auth_type@ == "basic"@ {
                assert(c.dom().contains("username"@) && c.dom().contains("password"@));
                assert(map!["username"@ => c["username"@], "password"@ => c["password"@]] =~= c);
                let b = match pa.basic { Some(x) => x@, None => Seq::empty() };
                assert(b.drop_last() =~= seq![b[0]]);
                assert(last_value(b, "username"@) == Some(c["username"@]));
                assert(last_value(b, "password"@) == Some(c["password"@]));
            } else {
                assert(c.dom().contains("key"@) && c.dom().contains("value"@) && c.dom().contains("location"@));
                let b = match pa.apikey { Some(x) => x@, None => Seq::empty() };
                assert(b.drop_last() =~= seq![b[0]]);
                assert(seq![b[0]].drop_last() =~= Seq::<PostmanKeyValue>::empty());
                assert(last_value(b, "key"@) == Some(c["key"@]));
                assert(last_value(b, "value"@) == Some(c["value"@]));
                assert(last_value(b, "in"@) is None);
                assert(map!["key"@ => c["key"@], "value"@ => c["value"@], "location"@ => "header"@] =~= c);
            }
        },
        _ => {},
    }
}

} // verus!
