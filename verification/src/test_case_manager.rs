//! Test cases: what a test sends, what it checks and what it extracts from
//! the response.

use vstd::prelude::*;
use crate::json::JsonValue;
use crate::strmap::StrMap;
use crate::text::copy_string;
use crate::data_source::text_views;
use crate::auth_plugin::opt_view;

verus! {

/// Where an extracted variable is read from.
#[derive(Clone, Copy, Debug, PartialEq, Eq, Structural)]
pub enum ExtractionSource {
    StatusCode,
    ResponseHeader,
    ResponseBody,
}

/// A variable taken from a response.
pub struct VariableExtraction {
    pub name: String,
    pub source: ExtractionSource,
    /// A header name or a JSON path, by source.
    pub path: String,
    pub default_value: Option<String>,
}

/// Authentication of a request: its kind and settings.
pub struct AuthDefinition {
    pub auth_type: String,
    pub config: StrMap<String>,
}

/// A request to send.
pub struct RequestDefinition {
    pub protocol: String,
    pub method: String,
    pub url: String,
    pub headers: StrMap<String>,
    pub body: Option<String>,
    pub auth: Option<AuthDefinition>,
}

/// A check on the response.
pub struct AssertionDefinition {
    pub assertion_type: String,
    pub expected: JsonValue,
    pub message: Option<String>,
}

/// A test case.
pub struct TestCase {
    pub id: String,
    pub name: String,
    pub description: Option<String>,
    pub tags: Vec<String>,
    pub protocol: String,
    pub request: RequestDefinition,
    pub assertions: Vec<AssertionDefinition>,
    pub variable_extractions: Option<Vec<VariableExtraction>>,
    /// Identifiers of the test cases to run first.
    pub dependencies: Vec<String>,
    pub timeout_ms: Option<u64>,
    /// Creation and update times, in milliseconds since the Unix epoch.
    pub created_at_ms: u64,
    pub updated_at_ms: u64,
    pub version: u32,
}

/// A copy of a map of texts, with the same keys in the same order.
pub fn copy_text_map(m: &StrMap<String>) -> (r: StrMap<String>)
    ensures
        text_views(r@) == text_views(m@),
        r.key_order() == m.key_order(),
{
    let n = m.len();
    let mut out: StrMap<String> = StrMap::new();
    let mut i: usize = 0;
    while i < n
        invariant
            i <= n,
            n == m.key_order().len(),
            m.key_order().no_duplicates(),
            out.key_order() == m.key_order().take(i as int),
            forall|k: Seq<char>| #[trigger] out@.dom().contains(k) <==> m.key_order().take(i as int).contains(k),
            forall|k: Seq<char>| #[trigger] out@.dom().contains(k) ==> out@[k]@ == m@[k]@,
        decreases n - i,
    {
        let (k, v) = m.entry_at(i);
        proof {
            let ko = m.key_order();
            assert(ko.take(i + 1) =~= ko.take(i as int).push(ko[i as int]));
            if ko.take(i as int).contains(k@) {
                let x = choose|x: int| 0 <= x < i && #[trigger] ko.take(i as int)[x] == k@;
                assert(ko[x] == ko[i as int]);
            }
        }
        out.insert(copy_string(k), copy_string(v));
        proof {
            let ko = m.key_order();
            assert forall|x: Seq<char>| ko.take(i + 1).contains(x) <==> (ko.take(i as int).contains(x) || x == ko[i as int]) by {
                if ko.take(i + 1).contains(x) {
                    let y = choose|y: int| 0 <= y < i + 1 && #[trigger] ko.take(i + 1)[y] == x;
                    if y < i {
                        assert(ko.take(i as int)[y] == x);
                    }
                }
                if ko.take(i as int).contains(x) {
                    let y = choose|y: int| 0 <= y < i && #[trigger] ko.take(i as int)[y] == x;
                    assert(ko.take(i + 1)[y] == x);
                }
                if x == ko[i as int] {
                    assert(ko.take(i + 1)[i as int] == x);
                }
            }
        }
        i = i + 1;
    }
    proof {
        m.lemma_key_order();
        assert(m.key_order().take(n as int) =~= m.key_order());
        assert(text_views(out@) =~= text_views(m@));
    }
    out
}

impl AuthDefinition {
    /// A copy of this definition.
    pub fn duplicate(&self) -> (r: Self)
        ensures
            r.auth_type@ == self.auth_type@,
            text_views(r.config@) == text_views(self.config@),
    {
        AuthDefinition { auth_type: copy_string(&self.auth_type), config: copy_text_map(&self.config) }
    }
}

/// Whether two requests have the same contents.
pub open spec fn same_request(a: RequestDefinition, b: RequestDefinition) -> bool {
    &&& a.protocol@ == b.protocol@
    &&& a.method@ == b.method@
    &&& a.url@ == b.url@
    &&& text_views(a.headers@) == text_views(b.headers@)
    &&& opt_view(a.body) == opt_view(b.body)
    &&& match (a.auth, b.auth) {
        (Some(x), Some(y)) => x.auth_type@ == y.auth_type@ && text_views(x.config@) == text_views(y.config@),
        (None, None) => true,
        _ => false,
    }
}

impl RequestDefinition {
    /// A copy of this request.
    pub fn duplicate(&self) -> (r: Self)
        ensures
            same_request(r, *self),
    {
        RequestDefinition {
            protocol: copy_string(&self.protocol),
            method: copy_string(&self.method),
            url: copy_string(&self.url),
            headers: copy_text_map(&self.headers),
            body: match &self.body { Some(b) => Some(copy_string(b)), None => None },
            auth: match &self.auth { Some(a) => Some(a.duplicate()), None => None },
        }
    }
}

impl AssertionDefinition {
    /// A copy of this check.
    pub fn duplicate(&self) -> (r: Self)
        ensures
            r.assertion_type@ == self.assertion_type@,
            r.expected.view() == self.expected.view(),
            opt_view(r.message) == opt_view(self.message),
    {
        AssertionDefinition {
            assertion_type: copy_string(&self.assertion_type),
            expected: self.expected.duplicate(),
            message: match &self.message { Some(m) => Some(copy_string(m)), None => None },
        }
    }
}

impl VariableExtraction {
    /// A copy of this extraction.
    pub fn duplicate(&self) -> (r: Self)
        ensures
            r.name@ == self.name@,
            r.source == self.source,
            r.path@ == self.path@,
            opt_view(r.default_value) == opt_view(self.default_value),
    {
        VariableExtraction {
            name: copy_string(&self.name),
            source: self.source,
            path: copy_string(&self.path),
            default_value: match &self.default_value { Some(d) => Some(copy_string(d)), None => None },
        }
    }
}

} // verus!
