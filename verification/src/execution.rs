//! Serial execution: the context that carries variables from test to test,
//! variable substitution in requests, the built-in status code and response
//! time assertions, variable extraction, and the dependency order of test
//! cases. Times are milliseconds.

use vstd::prelude::*;
use crate::text::{views, owned, concat, concat4, chars_of, string_of, copy_string, contains_string, decimal, decimal_text};
use crate::strmap::StrMap;
use crate::json::{JsonValue, JsonView};
use crate::event_persistence::{all_digits, digits_value};
use crate::error::ExecutionError;
use crate::test_case_manager::{RequestDefinition, VariableExtraction, ExtractionSource, AssertionDefinition};
use crate::data_source::{text_views, value_get, get_member};

verus! {

/// An authentication token held by an execution context; `expires_at` is
/// milliseconds since the Unix epoch.
pub struct AuthToken {
    pub token: String,
    pub token_type: String,
    pub expires_at: Option<i64>,
}

/// State carried across the tests of a run.
pub struct ExecutionContext {
    pub test_suite_id: String,
    pub environment: String,
    pub variables: StrMap<String>,
    pub auth_tokens: StrMap<AuthToken>,
    pub start_time: i64,
}

/// Views of a map's strings.
pub open spec fn string_views(m: Map<Seq<char>, String>) -> Map<Seq<char>, Seq<char>> {
    Map::new(|k: Seq<char>| m.dom().contains(k), |k: Seq<char>| m[k]@)
}

impl ExecutionContext {
    /// A context for a suite in an environment, started at `start_time`, with no variables or tokens.
    pub fn new(test_suite_id: String, environment: String, start_time: i64) -> (r: Self)
        ensures
            r.test_suite_id == test_suite_id,
            r.environment == environment,
            r.variables@ == Map::<Seq<char>, String>::empty(),
            r.auth_tokens@ == Map::<Seq<char>, AuthToken>::empty(),
            r.start_time == start_time,
    {
        ExecutionContext {
            test_suite_id,
            environment,
            variables: StrMap::new(),
            auth_tokens: StrMap::new(),
            start_time,
        }
    }

    /// The context with its variables replaced.
    pub fn with_variables(self, variables: StrMap<String>) -> (r: Self)
        ensures
            r.variables == variables,
            r.test_suite_id == self.test_suite_id,
            r.environment == self.environment,
            r.start_time == self.start_time,
    {
        ExecutionContext { variables, ..self }
    }

    /// Sets a variable.
    pub fn set_variable(&mut self, key: String, value: String)
        ensures
            final(self).variables@ == old(self).variables@.insert(key@, value),
            final(self).test_suite_id == old(self).test_suite_id,
            final(self).environment == old(self).environment,
    {
        self.variables.insert(key, value);
    }

    /// The value of a variable, if set.
    pub fn get_variable(&self, key: &str) -> (r: Option<&String>)
        ensures
            r is Some == self.variables@.dom().contains(key@),
            r matches Some(v) ==> *v == self.variables@[key@],
    {
        self.variables.get(key)
    }
}

/// Response data from executing a request.
pub struct ResponseData {
    pub status_code: u16,
    pub headers: StrMap<String>,
    pub body: Vec<u8>,
    pub duration_ms: u64,
}

/// Result of an assertion.
pub struct AssertionResult {
    pub assertion_type: String,
    pub success: bool,
    pub message: String,
    pub expected_value: Option<JsonValue>,
    pub actual_value: Option<JsonValue>,
}

// ------------------------------------------------------------ substitution

/// `s` with every occurrence of `pat` replaced by `rep`, scanning from the
/// left (std's `str::replace`, for a nonempty pattern).
pub open spec fn replace_text(s: Seq<char>, pat: Seq<char>, rep: Seq<char>) -> Seq<char>
    decreases s.len(),
{
    if pat.len() == 0 || s.len() < pat.len() {
        s
    } else if s.take(pat.len() as int) == pat {
        rep + replace_text(s.skip(pat.len() as int), pat, rep)
    } else {
        seq![s[0]] + replace_text(s.skip(1), pat, rep)
    }
}

/// Whether `pat` occurs in `s` at some position.
pub open spec fn occurs_in(s: Seq<char>, pat: Seq<char>) -> bool {
    exists|i: int| 0 <= i && i + pat.len() <= s.len() && #[trigger] s.subrange(i, i + pat.len()) == pat
}

/// Replacement laws: replacing a pattern by itself changes nothing; a text
/// in which the pattern does not occur is left as it is; and the pattern
/// alone becomes the replacement.
pub proof fn lemma_replace_text_laws(s: Seq<char>, pat: Seq<char>, rep: Seq<char>)
    ensures
        replace_text(s, pat, pat) == s,
        !occurs_in(s, pat) ==> replace_text(s, pat, rep) == s,
        pat.len() > 0 ==> replace_text(pat, pat, rep) == rep,
    decreases s.len(),
{
    if pat.len() > 0 {
        assert(pat.take(pat.len() as int) =~= pat);
        assert(pat.skip(pat.len() as int) =~= Seq::<char>::empty());
        assert(replace_text(Seq::<char>::empty(), pat, rep) == Seq::<char>::empty());
        assert(rep + Seq::<char>::empty() =~= rep);
    }
    if pat.len() == 0 || s.len() < pat.len() {
    } else {
        if s.take(pat.len() as int) == pat {
            lemma_replace_text_laws(s.skip(pat.len() as int), pat, rep);
            assert(pat + s.skip(pat.len() as int) =~= s);
            assert(s.subrange(0, pat.len() as int) == pat);
        } else {
            let t = s.skip(1);
            lemma_replace_text_laws(t, pat, rep);
            assert(seq![s[0]] + t =~= s);
            if !occurs_in(s, pat) {
                assert(!occurs_in(t, pat)) by {
                    if occurs_in(t, pat) {
                        let i = choose|i: int| 0 <= i && i + pat.len() <= t.len() && #[trigger] t.subrange(i, i + pat.len()) == pat;
                        assert(s.subrange(i + 1, i + 1 + pat.len()) =~= t.subrange(i, i + pat.len()));
                    }
                }
            }
        }
    }
}

/// The placeholder for variable `k`: `{{k}}`.
pub open spec fn placeholder(k: Seq<char>) -> Seq<char> {
    "{{"@ + k + "}}"@
}

/// The template with the placeholders of the first `n` variables (in
/// `order`) replaced by their values, one variable after another.
pub open spec fn substituted(template: Seq<char>, order: Seq<Seq<char>>, vars: Map<Seq<char>, Seq<char>>, n: nat) -> Seq<char>
    decreases n,
{
    if n == 0 {
        template
    } else {
        let k = order[n - 1];
        replace_text(substituted(template, order, vars, (n - 1) as nat), placeholder(k), vars[k])
    }
}

/// `s` with every occurrence of `pat` replaced by `rep`.
pub fn replace_all(s: &str, pat: &str, rep: &str) -> (r: String)
    ensures
        r@ == replace_text(s@, pat@, rep@),
{
    let sc = chars_of(s);
    let pc = chars_of(pat);
    let rc = chars_of(rep);
    if pc.len() == 0 {
        return string_of(sc.as_slice());
    }
    let mut out: Vec<char> = Vec::new();
    let mut i: usize = 0;
    let n = sc.len();
    assert(sc@.skip(0) =~= sc@);
    while i < n
        invariant
            i <= n,
            n == sc@.len(),
            sc@ == s@,
            pc@ == pat@,
            rc@ == rep@,
            pc@.len() > 0,
            out@ + replace_text(sc@.skip(i as int), pc@, rc@) == replace_text(s@, pat@, rep@),
        decreases n - i,
    {
        let ghost rest = sc@.skip(i as int);
        let mut matched = pc.len() <= n - i;
        if matched {
            let mut j: usize = 0;
            while j < pc.len()
                invariant
                    j <= pc@.len(),
                    i + pc@.len() <= n,
                    n == sc@.len(),
                    matched == forall|q: int| 0 <= q < j ==> sc@[i + q] == pc@[q],
                decreases pc.len() - j,
            {
                if sc[i + j] != pc[j] {
                    matched = false;
                }
                j = j + 1;
            }
        }
        let ghost before = out@;
        if matched {
            proof {
                assert(rest.take(pc@.len() as int) =~= pc@);
                assert(rest.skip(pc@.len() as int) =~= sc@.skip(i + pc@.len()));
            }
            let mut k: usize = 0;
            while k < rc.len()
                invariant
                    k <= rc@.len(),
                    out@ == before + rc@.take(k as int),
                decreases rc.len() - k,
            {
                out.push(rc[k]);
                assert(out@ =~= before + rc@.take(k + 1));
                k = k + 1;
            }
            assert(rc@.take(rc@.len() as int) =~= rc@);
            assert(out@ + replace_text(sc@.skip(i + pc@.len()), pc@, rc@) =~= before + replace_text(rest, pc@, rc@));
            i = i + pc.len();
        } else {
            proof {
                if rest.len() >= pc@.len() {
                    let w = choose|q: int| 0 <= q < pc@.len() && sc@[i + q] != pc@[q];
                    assert(rest.take(pc@.len() as int)[w] != pc@[w]);
                }
                assert(rest.skip(1) =~= sc@.skip(i + 1));
                assert(rest[0] == sc@[i as int]);
            }
            out.push(sc[i]);
            assert(out@ + replace_text(sc@.skip(i + 1), pc@, rc@) =~= before + replace_text(rest, pc@, rc@));
            i = i + 1;
        }
    }
    proof {
        assert(sc@.skip(n as int) =~= Seq::<char>::empty());
        assert(out@ =~= out@ + replace_text(sc@.skip(n as int), pc@, rc@));
    }
    string_of(out.as_slice())
}

/// The template with each variable's placeholder `{{name}}` replaced by its
/// value, the variables taken one after another in the map's order.
pub fn substitute_variables(template: &str, variables: &StrMap<String>) -> (r: String)
    ensures
        r@ == substituted(template@, variables.key_order(), string_views(variables@), variables.key_order().len()),
{
    let n = variables.len();
    let mut result = owned(template);
    let mut i: usize = 0;
    while i < n
        invariant
            i <= n,
            n == variables.key_order().len(),
            result@ == substituted(template@, variables.key_order(), string_views(variables@), i as nat),
        decreases n - i,
    {
        let (k, v) = variables.entry_at(i);
        let mut ph = owned("{{");
        ph.append(k.as_str());
        ph.append("}}");
        proof {
            variables.lemma_key_order();
            assert(variables.key_order().contains(k@));
            assert(string_views(variables@)[k@] == v@);
        }
        result = replace_all(result.as_str(), ph.as_str(), v.as_str());
        i = i + 1;
    }
    result
}

// ------------------------------------------------------------ assertions

/// The value of a JSON number that is a nonnegative integer fitting 64 bits
/// (serde_json's `as_u64` on numbers it parsed): its text is all digits.
pub open spec fn json_as_u64(v: JsonView) -> Option<u64> {
    match v {
        JsonView::Number(t) => if all_digits(t) && digits_value(t) <= u64::MAX {
            Some(digits_value(t) as u64)
        } else {
            None
        },
        _ => None,
    }
}

pub(crate) fn as_u64_value(v: &JsonValue) -> (r: Option<u64>)
    ensures
        r == json_as_u64(v.view()),
{
    match v {
        JsonValue::Number(t) => {
            let cs = chars_of(t.as_str());
            if cs.len() == 0 {
                return None;
            }
            let mut acc: u64 = 0;
            let mut i: usize = 0;
            proof {
                assert(cs@.take(0) =~= Seq::<char>::empty());
            }
            while i < cs.len()
                invariant
                    i <= cs@.len(),
                    cs@ == t@,
                    v.view() == JsonView::Number(t@),
                    cs@.len() > 0,
                    forall|q: int| 0 <= q < i ==> crate::event_persistence::is_digit(#[trigger] cs@[q]),
                    acc == digits_value(cs@.take(i as int)),
                decreases cs.len() - i,
            {
                let c = cs[i];
                if !('0' <= c && c <= '9') {
                    assert(!crate::event_persistence::is_digit(t@[i as int]));
                    return None;
                }
                let d: u64 = (c as u64) - ('0' as u64);
                assert(d <= 9);
                proof {
                    assert(cs@.take(i + 1).drop_last() =~= cs@.take(i as int));
                    assert(cs@.take(i + 1).last() == c);
                    assert(digits_value(cs@.take(i + 1)) == acc * 10 + d);
                }
                if acc > (u64::MAX - d) / 10 {
                    proof {
                        assert(acc * 10 + d > u64::MAX) by (nonlinear_arith)
                            requires acc > (u64::MAX - d) / 10, d <= 9;
                        assert forall|q: int| 0 <= q < cs@.len() implies crate::event_persistence::is_digit(#[trigger] cs@[q]) || !all_digits(t@) by {}
                        if all_digits(t@) {
                            crate::event_persistence::lemma_digits_prefix_mono(t@, i + 1);
                        }
                    }
                    return None;
                }
                proof {
                    assert(acc * 10 + d <= u64::MAX) by (nonlinear_arith)
                        requires acc <= (u64::MAX - d) / 10, d <= 9;
                }
                acc = acc * 10 + d;
                i = i + 1;
            }
            assert(cs@.take(cs@.len() as int) =~= cs@);
            Some(acc)
        },
        _ => None,
    }
}

/// The result of a built-in assertion on a response: `status_code` checks
/// the status (200 unless the expectation is an integer, taken modulo 2^16),
/// `response_time` checks the duration against a maximum in milliseconds
/// (1000 unless given); other types pass. A given message replaces the
/// default one.
pub open spec fn assertion_outcome(
    assertion_type: Seq<char>,
    expected: JsonView,
    message: Option<Seq<char>>,
    status: u16,
    duration_ms: u64,
) -> (bool, Seq<char>, Option<JsonView>) {
    if assertion_type == "status_code"@ {
        let e: u16 = match json_as_u64(expected) { Some(x) => x as u16, None => 200u16 };
        let ok = status == e;
        (ok, match message {
            Some(m) => m,
            None => "Status code assertion: expected "@ + decimal(e as nat) + ", got "@ + decimal(status as nat),
        }, Some(JsonView::Number(decimal(status as nat))))
    } else if assertion_type == "response_time"@ {
        let max: u64 = match json_as_u64(expected) { Some(x) => x, None => 1000u64 };
        let ok = duration_ms <= max;
        (ok, match message {
            Some(m) => m,
            None => "Response time assertion: expected <= "@ + decimal(max as nat) + "ms, got "@ + decimal(
                duration_ms as nat,
            ) + "ms"@,
        }, Some(JsonView::Number(decimal(duration_ms as nat))))
    } else {
        (true, "Unknown assertion type: "@ + assertion_type, None)
    }
}

/// The view of an optional JSON value.
pub open spec fn opt_json_view(v: Option<JsonValue>) -> Option<JsonView> {
    match v {
        Some(x) => Some(x.view()),
        None => None,
    }
}

/// Runs a built-in assertion against a response.
pub fn execute_single_assertion(
    assertion_type: &String,
    expected: &JsonValue,
    message: &Option<String>,
    response: &ResponseData,
) -> (r: AssertionResult)
    ensures
        ({
            let msg = match message { Some(m) => Some(m@), None => None };
            let o = assertion_outcome(assertion_type@, expected.view(), msg, response.status_code, response.duration_ms);
            &&& r.success == o.0
            &&& r.message@ == o.1
            &&& opt_json_view(r.actual_value) == o.2
            &&& opt_json_view(r.expected_value) == Some(expected.view())
            &&& r.assertion_type@ == assertion_type@
        }),
{
    if crate::text::str_equal(assertion_type.as_str(), "status_code") {
        let e: u16 = match as_u64_value(expected) {
            Some(x) => #[verifier::truncate] (x as u16),
            None => 200,
        };
        let ok = response.status_code == e;
        let msg = match message {
            Some(m) => copy_string(m),
            None => concat4(
                "Status code assertion: expected ",
                decimal_text(e as u64).as_str(),
                ", got ",
                decimal_text(response.status_code as u64).as_str(),
            ),
        };
        AssertionResult {
            assertion_type: copy_string(assertion_type),
            success: ok,
            message: msg,
            expected_value: Some(expected.duplicate()),
            actual_value: Some(JsonValue::Number(decimal_text(response.status_code as u64))),
        }
    } else if crate::text::str_equal(assertion_type.as_str(), "response_time") {
        let max: u64 = match as_u64_value(expected) {
            Some(x) => x,
            None => 1000,
        };
        let ok = response.duration_ms <= max;
        let msg = match message {
            Some(m) => copy_string(m),
            None => {
                let mut s = concat4(
                    "Response time assertion: expected <= ",
                    decimal_text(max).as_str(),
                    "ms, got ",
                    decimal_text(response.duration_ms).as_str(),
                );
                s.append("ms");
                s
            },
        };
        AssertionResult {
            assertion_type: copy_string(assertion_type),
            success: ok,
            message: msg,
            expected_value: Some(expected.duplicate()),
            actual_value: Some(JsonValue::Number(decimal_text(response.duration_ms))),
        }
    } else {
        AssertionResult {
            assertion_type: copy_string(assertion_type),
            success: true,
            message: concat("Unknown assertion type: ", assertion_type.as_str()),
            expected_value: Some(expected.duplicate()),
            actual_value: None,
        }
    }
}

// ------------------------------------------------------------ dependencies

/// A test case with its identifier and the identifiers it depends on.
pub struct DependentCase<T> {
    pub id: String,
    pub dependencies: Vec<String>,
    pub case: T,
}

/// A case's identifier and dependencies, as text.
pub open spec fn case_shape<T>(c: DependentCase<T>) -> (Seq<char>, Seq<Seq<char>>) {
    (c.id@, views(c.dependencies@))
}

/// The shapes of a sequence of cases.
pub open spec fn case_shapes<T>(cs: Seq<DependentCase<T>>) -> Seq<(Seq<char>, Seq<Seq<char>>)> {
    cs.map_values(|c: DependentCase<T>| case_shape(c))
}

/// Whether every dependency is among `done`.
pub open spec fn ready(deps: Seq<Seq<char>>, done: Seq<Seq<char>>) -> bool {
    forall|j: int| 0 <= j < deps.len() ==> done.contains(#[trigger] deps[j])
}

/// Whether `i` is the first case whose dependencies are all done.
pub open spec fn first_ready(items: Seq<(Seq<char>, Seq<Seq<char>>)>, done: Seq<Seq<char>>, i: int) -> bool {
    &&& 0 <= i < items.len()
    &&& ready(items[i].1, done)
    &&& forall|j: int| 0 <= j < i ==> !ready(#[trigger] items[j].1, done)
}

/// Whether some case has all its dependencies done.
pub open spec fn has_ready(items: Seq<(Seq<char>, Seq<Seq<char>>)>, done: Seq<Seq<char>>) -> bool {
    exists|i: int| 0 <= i < items.len() && ready(#[trigger] items[i].1, done)
}

/// The first case whose dependencies are all done.
pub open spec fn ready_position(items: Seq<(Seq<char>, Seq<Seq<char>>)>, done: Seq<Seq<char>>) -> int {
    choose|i: int| first_ready(items, done, i)
}

/// The order in which cases run: repeatedly the first case whose
/// dependencies have all run; none when, at some point, no case is ready.
pub open spec fn dependency_order(items: Seq<(Seq<char>, Seq<Seq<char>>)>, done: Seq<Seq<char>>) -> Option<Seq<(Seq<char>, Seq<Seq<char>>)>>
    decreases items.len(),
{
    if items.len() == 0 {
        Some(Seq::empty())
    } else if !has_ready(items, done) {
        None
    } else {
        let i = ready_position(items, done);
        if 0 <= i < items.len() {
            match dependency_order(items.remove(i), done.push(items[i].0)) {
                Some(rest) => Some(seq![items[i]] + rest),
                None => None,
            }
        } else {
            None
        }
    }
}

proof fn lemma_first_ready_exists(items: Seq<(Seq<char>, Seq<Seq<char>>)>, done: Seq<Seq<char>>, k: int)
    requires
        0 <= k < items.len(),
        ready(items[k].1, done),
    ensures
        first_ready(items, done, ready_position(items, done)),
    decreases k,
{
    if exists|j: int| 0 <= j < k && ready(#[trigger] items[j].1, done) {
        let j = choose|j: int| 0 <= j < k && ready(#[trigger] items[j].1, done);
        lemma_first_ready_exists(items, done, j);
    } else {
        assert(first_ready(items, done, k));
    }
}

proof fn lemma_first_ready_unique(items: Seq<(Seq<char>, Seq<Seq<char>>)>, done: Seq<Seq<char>>, a: int, b: int)
    requires
        first_ready(items, done, a),
        first_ready(items, done, b),
    ensures
        a == b,
{
    if a < b {
        assert(!ready(items[a].1, done));
    }
    if b < a {
        assert(!ready(items[b].1, done));
    }
}

fn deps_ready(deps: &Vec<String>, done: &Vec<String>) -> (r: bool)
    ensures
        r == ready(views(deps@), views(done@)),
{
    let mut j: usize = 0;
    while j < deps.len()
        invariant
            j <= deps@.len(),
            forall|q: int| 0 <= q < j ==> views(done@).contains(#[trigger] views(deps@)[q]),
        decreases deps.len() - j,
    {
        if !contains_string(done, &deps[j]) {
            assert(!views(done@).contains(views(deps@)[j as int]));
            return false;
        }
        j = j + 1;
    }
    true
}

/// The cases in the order they run: repeatedly the first case whose
/// dependencies have all run. Fails when the dependencies cannot all be met.
pub fn sort_by_dependencies<T>(test_cases: Vec<DependentCase<T>>) -> (r: Result<Vec<DependentCase<T>>, ExecutionError>)
    ensures
        match dependency_order(case_shapes(test_cases@), Seq::empty()) {
            Some(s) => r matches Ok(v) && case_shapes(v@) == s,
            None => r matches Err(ExecutionError::TestCaseFailed(m)) && m@ == "Circular dependency detected in test cases"@,
        },
{
    let ghost goal = dependency_order(case_shapes(test_cases@), Seq::empty());
    let mut remaining = test_cases;
    let mut sorted: Vec<DependentCase<T>> = Vec::new();
    let mut completed: Vec<String> = Vec::new();
    proof {
        assert(case_shapes(sorted@) =~= Seq::<(Seq<char>, Seq<Seq<char>>)>::empty());
        assert(views(completed@) =~= Seq::<Seq<char>>::empty());
    }
    while remaining.len() > 0
        invariant
            goal == match dependency_order(case_shapes(remaining@), views(completed@)) {
                Some(rest) => Some(case_shapes(sorted@) + rest),
                None => None::<Seq<(Seq<char>, Seq<Seq<char>>)>>,
            },
            goal == dependency_order(case_shapes(test_cases@), Seq::empty()),
        decreases remaining@.len(),
    {
        let ghost items = case_shapes(remaining@);
        let ghost done = views(completed@);
        let mut found: Option<usize> = None;
        let mut i: usize = 0;
        while i < remaining.len()
            invariant_except_break
                found is None,
                forall|j: int| 0 <= j < i ==> !ready(#[trigger] items[j].1, done),
            invariant
                i <= remaining@.len(),
                items == case_shapes(remaining@),
                done == views(completed@),
            ensures
                found is None ==> forall|j: int| 0 <= j < items.len() ==> !ready(#[trigger] items[j].1, done),
                found matches Some(f) ==> first_ready(items, done, f as int),
            decreases remaining.len() - i,
        {
            assert(items[i as int] == case_shape(remaining@[i as int]));
            if deps_ready(&remaining[i].dependencies, &completed) {
                found = Some(i);
                assert(first_ready(items, done, i as int));
                break;
            }
            i = i + 1;
        }
        match found {
            None => {
                proof {
                    assert(!has_ready(items, done));
                }
                return Err(ExecutionError::TestCaseFailed(owned("Circular dependency detected in test cases")));
            },
            Some(f) => {
                proof {
                    lemma_first_ready_exists(items, done, f as int);
                    lemma_first_ready_unique(items, done, f as int, ready_position(items, done));
                }
                let c = remaining.remove(f);
                let ghost before_sorted = sorted@;
                let ghost before_done = completed@;
                completed.push(copy_string(&c.id));
                sorted.push(c);
                proof {
                    assert(case_shapes(remaining@) =~= items.remove(f as int));
                    assert(views(completed@) =~= done.push(items[f as int].0));
                    assert(case_shapes(sorted@) =~= case_shapes(before_sorted).push(items[f as int]));
                    match dependency_order(items.remove(f as int), done.push(items[f as int].0)) {
                        Some(rest) => {
                            assert(case_shapes(before_sorted) + (seq![items[f as int]] + rest)
                                =~= case_shapes(sorted@) + rest);
                        },
                        None => {},
                    }
                }
            },
        }
    }
    proof {
        assert(case_shapes(remaining@) =~= Seq::<(Seq<char>, Seq<Seq<char>>)>::empty());
        assert(case_shapes(sorted@) + Seq::<(Seq<char>, Seq<Seq<char>>)>::empty() =~= case_shapes(sorted@));
    }
    Ok(sorted)
}

/// In the dependency order, every dependency of a case was done before it
/// started or is a case that runs before it.
pub proof fn lemma_order_runs_dependencies_first(
    items: Seq<(Seq<char>, Seq<Seq<char>>)>,
    done: Seq<Seq<char>>,
)
    requires
        dependency_order(items, done) is Some,
    ensures
        ({
            let s = dependency_order(items, done)->0;
            &&& s.len() == items.len()
            &&& forall|j: int, d: int| 0 <= j < s.len() && 0 <= d < s[j].1.len() ==> done.contains(#[trigger] s[j].1[d])
                || exists|k: int| 0 <= k < j && s[k].0 == s[j].1[d]
        }),
    decreases items.len(),
{
    if items.len() > 0 {
        let i = ready_position(items, done);
        let done2 = done.push(items[i].0);
        let rest_items = items.remove(i);
        lemma_order_runs_dependencies_first(rest_items, done2);
        let rest = dependency_order(rest_items, done2)->0;
        let s = dependency_order(items, done)->0;
        assert(s == seq![items[i]] + rest);
        assert forall|j: int, d: int| 0 <= j < s.len() && 0 <= d < s[j].1.len() implies done.contains(#[trigger] s[j].1[d])
            || exists|k: int| 0 <= k < j && s[k].0 == s[j].1[d] by {
            if j == 0 {
                assert(s[0] == items[i]);
                assert(has_ready(items, done));
                let k0 = choose|k0: int| 0 <= k0 < items.len() && ready(#[trigger] items[k0].1, done);
                lemma_first_ready_exists(items, done, k0);
                assert(ready(items[i].1, done));
                assert(done.contains(items[i].1[d]));
            } else {
                assert(s[j] == rest[j - 1]);
                let dep = rest[j - 1].1[d];
                if done2.contains(dep) {
                    if dep == items[i].0 {
                        assert(s[0].0 == dep);
                    } else {
                        let q = choose|q: int| 0 <= q < done2.len() && done2[q] == dep;
                        assert(q < done.len());
                        assert(done[q] == dep);
                    }
                } else {
                    let k = choose|k: int| 0 <= k < j - 1 && rest[k].0 == rest[j - 1].1[d];
                    assert(s[k + 1] == rest[k]);
                }
            }
        }
    }
}


// ------------------------------------------------------------ results

/// The result of running one test case; `duration_ms` is how long it took.
pub struct TestResult {
    pub test_case_id: String,
    pub test_case_name: String,
    pub success: bool,
    pub duration_ms: u64,
    pub request: RequestDefinition,
    pub response: Option<ResponseData>,
    pub assertion_results: Vec<AssertionResult>,
    pub extracted_variables: StrMap<String>,
    pub error_message: Option<String>,
}

/// The results of a run, with their tallies and total duration.
pub struct ExecutionResult {
    pub test_results: Vec<TestResult>,
    pub total_duration_ms: u64,
    pub success_count: usize,
    pub failure_count: usize,
    pub context: ExecutionContext,
}

/// How many of the results succeeded.
pub open spec fn successes(rs: Seq<TestResult>) -> nat
    decreases rs.len(),
{
    if rs.len() == 0 {
        0
    } else {
        successes(rs.drop_last()) + if rs.last().success { 1nat } else { 0nat }
    }
}

/// The total duration of the results.
pub open spec fn total_duration(rs: Seq<TestResult>) -> nat
    decreases rs.len(),
{
    if rs.len() == 0 {
        0
    } else {
        total_duration(rs.drop_last()) + rs.last().duration_ms as nat
    }
}

proof fn lemma_successes_bounded(rs: Seq<TestResult>)
    ensures
        successes(rs) <= rs.len(),
        successes(rs) == rs.len() <==> forall|i: int| 0 <= i < rs.len() ==> (#[trigger] rs[i]).success,
    decreases rs.len(),
{
    if rs.len() > 0 {
        lemma_successes_bounded(rs.drop_last());
        if forall|i: int| 0 <= i < rs.len() ==> (#[trigger] rs[i]).success {
            assert forall|i: int| 0 <= i < rs.drop_last().len() implies (#[trigger] rs.drop_last()[i]).success by {
                assert(rs.drop_last()[i] == rs[i]);
            }
        }
        if successes(rs) == rs.len() {
            assert forall|i: int| 0 <= i < rs.len() implies (#[trigger] rs[i]).success by {
                if i < rs.len() - 1 {
                    assert(rs.drop_last()[i] == rs[i]);
                }
            }
        }
    }
}

impl ExecutionResult {
    /// Whether the tallies and the total duration agree with the results.
    pub open spec fn tallied(&self) -> bool {
        &&& self.success_count == successes(self.test_results@)
        &&& self.failure_count + self.success_count == self.test_results@.len()
        &&& self.total_duration_ms == total_duration(self.test_results@)
    }

    /// An empty result for a run in `context`.
    pub fn new(context: ExecutionContext) -> (r: Self)
        ensures
            r.test_results@.len() == 0,
            r.success_count == 0,
            r.failure_count == 0,
            r.total_duration_ms == 0,
            r.context == context,
            r.tallied(),
    {
        ExecutionResult { test_results: Vec::new(), total_duration_ms: 0, success_count: 0, failure_count: 0, context }
    }

    /// Adds a test's result, counting it as a success or a failure and
    /// adding its duration.
    pub fn add_test_result(&mut self, result: TestResult)
        requires
            result.success ==> old(self).success_count < usize::MAX,
            !result.success ==> old(self).failure_count < usize::MAX,
            old(self).total_duration_ms + result.duration_ms <= u64::MAX,
        ensures
            final(self).test_results@ == old(self).test_results@.push(result),
            final(self).success_count == old(self).success_count + if result.success { 1int } else { 0int },
            final(self).failure_count == old(self).failure_count + if result.success { 0int } else { 1int },
            final(self).total_duration_ms == old(self).total_duration_ms + result.duration_ms,
            final(self).context == old(self).context,
            old(self).tallied() ==> final(self).tallied(),
    {
        let ghost before = self.test_results@;
        if result.success {
            self.success_count = self.success_count + 1;
        } else {
            self.failure_count = self.failure_count + 1;
        }
        self.total_duration_ms = self.total_duration_ms + result.duration_ms;
        self.test_results.push(result);
        assert(self.test_results@.drop_last() =~= before);
    }

    /// Whether no test failed.
    pub fn is_successful(&self) -> (r: bool)
        ensures
            r == (self.failure_count == 0),
    {
        self.failure_count == 0
    }
}

/// A run whose tallies agree with its results is successful exactly when
/// every one of its tests succeeded.
pub proof fn lemma_successful_iff_all_passed(r: &ExecutionResult)
    requires
        r.tallied(),
    ensures
        (r.failure_count == 0) <==> forall|i: int| 0 <= i < r.test_results@.len() ==> (#[trigger] r.test_results@[i]).success,
{
    lemma_successes_bounded(r.test_results@);
}

// ------------------------------------------------------------ requests and responses

/// Whether `r` is `request` with its URL, header values and body substituted
/// with `vars` (in `order`), everything else kept.
pub open spec fn resolved_request(r: RequestDefinition, request: RequestDefinition, order: Seq<Seq<char>>, vars: Map<Seq<char>, Seq<char>>) -> bool {
    &&& r.protocol@ == request.protocol@
    &&& r.method@ == request.method@
    &&& r.url@ == substituted(request.url@, order, vars, order.len())
    &&& text_views(r.headers@) == Map::new(
        |k: Seq<char>| request.headers@.dom().contains(k),
        |k: Seq<char>| substituted(request.headers@[k]@, order, vars, order.len()),
    )
    &&& r.headers.key_order() == request.headers.key_order()
    &&& match (r.body, request.body) {
        (Some(a), Some(b)) => a@ == substituted(b@, order, vars, order.len()),
        (None, None) => true,
        _ => false,
    }
    &&& match (r.auth, request.auth) {
        (Some(x), Some(y)) => x.auth_type@ == y.auth_type@ && text_views(x.config@) == text_views(y.config@),
        (None, None) => true,
        _ => false,
    }
}

/// The request with the context's variables substituted into its URL,
/// header values and body.
pub fn resolve_request_variables(request: &RequestDefinition, context: &ExecutionContext) -> (r: Result<RequestDefinition, ExecutionError>)
    ensures
        r matches Ok(x) && resolved_request(x, *request, context.variables.key_order(), string_views(context.variables@)),
{
    let vars = &context.variables;
    let ghost order = vars.key_order();
    let ghost sv = string_views(vars@);
    let url = substitute_variables(request.url.as_str(), vars);
    let ghost ko = request.headers.key_order();
    let n = request.headers.len();
    let mut headers: StrMap<String> = StrMap::new();
    let mut i: usize = 0;
    proof {
        request.headers.lemma_key_order();
        assert(ko.take(0) =~= Seq::<Seq<char>>::empty());
        assert(text_views(headers@) =~= Map::new(
            |k: Seq<char>| request.headers@.dom().contains(k) && ko.take(0).contains(k),
            |k: Seq<char>| substituted(request.headers@[k]@, order, sv, order.len()),
        ));
    }
    while i < n
        invariant
            i <= n,
            n == ko.len(),
            ko == request.headers.key_order(),
            ko.no_duplicates(),
            order == vars.key_order(),
            sv == string_views(vars@),
            vars == &context.variables,
            forall|k: Seq<char>| #[trigger] request.headers@.dom().contains(k) <==> ko.contains(k),
            headers.key_order() == ko.take(i as int),
            text_views(headers@) == Map::new(
                |k: Seq<char>| request.headers@.dom().contains(k) && ko.take(i as int).contains(k),
                |k: Seq<char>| substituted(request.headers@[k]@, order, sv, order.len()),
            ),
        decreases n - i,
    {
        let (k, v) = request.headers.entry_at(i);
        let ghost kv = k@;
        let ghost ta = ko.take(i as int);
        let ghost tb = ko.take(i + 1);
        proof {
            assert(ko[i as int] == kv);
            assert(ko.contains(kv));
            assert(!ta.contains(kv));
            assert(!headers@.dom().contains(kv)) by {
                headers.lemma_key_order();
            }
            assert(tb =~= ta.push(kv));
            assert forall|q: Seq<char>| tb.contains(q) <==> (ta.contains(q) || q == kv) by {
                if tb.contains(q) {
                    let j = choose|j: int| 0 <= j < tb.len() && tb[j] == q;
                    if j < i {
                        assert(ta[j] == q);
                    }
                }
                if ta.contains(q) {
                    let j = choose|j: int| 0 <= j < ta.len() && ta[j] == q;
                    assert(tb[j] == q);
                }
                if q == kv {
                    assert(tb[i as int] == q);
                }
            }
        }
        let val = substitute_variables(v.as_str(), vars);
        let ghost before = headers@;
        headers.insert(copy_string(k), val);
        proof {
            assert(val@ == substituted(request.headers@[kv]@, order, sv, order.len()));
            assert(text_views(headers@) =~= text_views(before).insert(kv, val@));
            assert(text_views(headers@) =~= Map::new(
                |q: Seq<char>| request.headers@.dom().contains(q) && tb.contains(q),
                |q: Seq<char>| substituted(request.headers@[q]@, order, sv, order.len()),
            ));
        }
        i = i + 1;
    }
    proof {
        assert(ko.take(n as int) =~= ko);
        assert(text_views(headers@) =~= Map::new(
            |k: Seq<char>| request.headers@.dom().contains(k),
            |k: Seq<char>| substituted(request.headers@[k]@, order, sv, order.len()),
        ));
    }
    let body = match &request.body {
        Some(b) => Some(substitute_variables(b.as_str(), vars)),
        None => None,
    };
    Ok(RequestDefinition {
        protocol: copy_string(&request.protocol),
        method: copy_string(&request.method),
        url,
        headers,
        body,
        auth: match &request.auth {
            Some(a) => Some(a.duplicate()),
            None => None,
        },
    })
}

/// The text of a string, number or boolean.
pub open spec fn scalar_text(v: JsonView) -> Option<Seq<char>> {
    match v {
        JsonView::String(s) => Some(s),
        JsonView::Number(n) => Some(n),
        JsonView::Bool(b) => Some(if b { "true"@ } else { "false"@ }),
        _ => None,
    }
}

/// The text of the member `path` of an object, when it is a string, number or boolean.
pub open spec fn json_path_text(json: JsonView, path: Seq<char>) -> Option<Seq<char>> {
    match value_get(json, path) {
        Some(v) => scalar_text(v),
        None => None,
    }
}

/// The text of the member `path` of an object value, when it is a string,
/// number or boolean.
pub fn extract_json_path(json: &JsonValue, path: &str) -> (r: Option<String>)
    ensures
        match json_path_text(json.view(), path@) {
            Some(t) => r matches Some(x) && x@ == t,
            None => r is None,
        },
{
    let key = owned(path);
    match get_member(json, &key) {
        Some(JsonValue::String(s)) => Some(copy_string(s)),
        Some(JsonValue::Number(n)) => Some(copy_string(n)),
        Some(JsonValue::Bool(b)) => Some(if *b { owned("true") } else { owned("false") }),
        _ => None,
    }
}

/// The value an extraction takes from a response, whose body, when it is
/// JSON text, is `body`: the status code, a header, or a member of the body;
/// the extraction's default (or empty text) when the header or member is missing.
pub open spec fn extracted_value(
    e: VariableExtraction,
    status: u16,
    headers: Map<Seq<char>, Seq<char>>,
    body: Option<JsonView>,
) -> Seq<char> {
    let default = match e.default_value {
        Some(d) => d@,
        None => Seq::<char>::empty(),
    };
    match e.source {
        ExtractionSource::StatusCode => decimal(status as nat),
        ExtractionSource::ResponseHeader => if headers.dom().contains(e.path@) {
            headers[e.path@]
        } else {
            default
        },
        ExtractionSource::ResponseBody => match body {
            Some(j) => match json_path_text(j, e.path@) {
                Some(t) => t,
                None => default,
            },
            None => default,
        },
    }
}

/// The variables extractions take, by name; a later extraction of a name wins.
pub open spec fn extracted_map(
    es: Seq<VariableExtraction>,
    status: u16,
    headers: Map<Seq<char>, Seq<char>>,
    body: Option<JsonView>,
) -> Map<Seq<char>, Seq<char>>
    decreases es.len(),
{
    if es.len() == 0 {
        Map::empty()
    } else {
        extracted_map(es.drop_last(), status, headers, body).insert(es.last().name@, extracted_value(es.last(), status, headers, body))
    }
}

/// The variables the extractions take from a response. `body_json` is the
/// response body read as JSON, or nothing when it is not JSON text.
pub fn extract_variables(
    extractions: &Option<Vec<VariableExtraction>>,
    response: &ResponseData,
    body_json: &Option<JsonValue>,
) -> (r: Result<StrMap<String>, ExecutionError>)
    ensures
        r matches Ok(m) && text_views(m@) == match extractions {
            Some(es) => extracted_map(es@, response.status_code, text_views(response.headers@), opt_json_view(*body_json)),
            None => Map::<Seq<char>, Seq<char>>::empty(),
        },
{
    let mut out: StrMap<String> = StrMap::new();
    assert(text_views(out@) =~= Map::<Seq<char>, Seq<char>>::empty());
    match extractions {
        None => Ok(out),
        Some(es) => {
            let ghost hv = text_views(response.headers@);
            let ghost bv = opt_json_view(*body_json);
            let mut i: usize = 0;
            assert(es@.take(0) =~= Seq::<VariableExtraction>::empty());
            while i < es.len()
                invariant
                    i <= es@.len(),
                    hv == text_views(response.headers@),
                    bv == opt_json_view(*body_json),
                    text_views(out@) == extracted_map(es@.take(i as int), response.status_code, hv, bv),
                decreases es.len() - i,
            {
                let e = &es[i];
                proof {
                    assert(es@.take(i + 1).drop_last() =~= es@.take(i as int));
                    assert(es@.take(i + 1).last() == es@[i as int]);
                }
                let default = match &e.default_value {
                    Some(d) => copy_string(d),
                    None => String::new(),
                };
                let value = match e.source {
                    ExtractionSource::StatusCode => decimal_text(response.status_code as u64),
                    ExtractionSource::ResponseHeader => match response.headers.get(e.path.as_str()) {
                        Some(h) => copy_string(h),
                        None => default,
                    },
                    ExtractionSource::ResponseBody => match body_json {
                        Some(j) => match extract_json_path(j, e.path.as_str()) {
                            Some(t) => t,
                            None => default,
                        },
                        None => default,
                    },
                };
                assert(value@ == extracted_value(*e, response.status_code, hv, bv));
                let ghost before = out@;
                out.insert(copy_string(&e.name), value);
                assert(text_views(out@) =~= text_views(before).insert(e.name@, value@));
                i = i + 1;
            }
            assert(es@.take(es@.len() as int) =~= es@);
            Ok(out)
        },
    }
}

/// Runs every assertion against a response, in order.
pub fn execute_assertions(assertions: &Vec<AssertionDefinition>, response: &ResponseData) -> (r: Result<Vec<AssertionResult>, ExecutionError>)
    ensures
        r matches Ok(v) && v@.len() == assertions@.len() && forall|i: int| 0 <= i < v@.len() ==> {
            let a = #[trigger] assertions@[i];
            let msg = match a.message { Some(m) => Some(m@), None => None };
            let o = assertion_outcome(a.assertion_type@, a.expected.view(), msg, response.status_code, response.duration_ms);
            &&& v@[i].success == o.0
            &&& v@[i].message@ == o.1
            &&& opt_json_view(v@[i].actual_value) == o.2
            &&& v@[i].assertion_type@ == a.assertion_type@
        },
{
    let mut out: Vec<AssertionResult> = Vec::new();
    let mut i: usize = 0;
    while i < assertions.len()
        invariant
            i <= assertions@.len(),
            out@.len() == i,
            forall|j: int| 0 <= j < i ==> {
                let a = #[trigger] assertions@[j];
                let msg = match a.message { Some(m) => Some(m@), None => None };
                let o = assertion_outcome(a.assertion_type@, a.expected.view(), msg, response.status_code, response.duration_ms);
                &&& out@[j].success == o.0
                &&& out@[j].message@ == o.1
                &&& opt_json_view(out@[j].actual_value) == o.2
                &&& out@[j].assertion_type@ == a.assertion_type@
            },
        decreases assertions.len() - i,
    {
        let a = &assertions[i];
        let res = execute_single_assertion(&a.assertion_type, &a.expected, &a.message, response);
        out.push(res);
        i = i + 1;
    }
    Ok(out)
}


// ------------------------------------------------------------ dependency levels

/// One pass over the cases: in order, a case whose dependencies are all
/// among `done` (which grows by each case taken) joins the level, the others
/// stay. Gives the level, the cases that stay, and what is then done.
pub open spec fn level_pass(items: Seq<(Seq<char>, Seq<Seq<char>>)>, done: Seq<Seq<char>>) -> (
    Seq<(Seq<char>, Seq<Seq<char>>)>,
    Seq<(Seq<char>, Seq<Seq<char>>)>,
    Seq<Seq<char>>,
)
    decreases items.len(),
{
    if items.len() == 0 {
        (Seq::empty(), Seq::empty(), done)
    } else {
        let p = level_pass(items.drop_last(), done);
        let it = items.last();
        if ready(it.1, p.2) {
            (p.0.push(it), p.1, p.2.push(it.0))
        } else {
            (p.0, p.1.push(it), p.2)
        }
    }
}

/// A pass puts each case either in the level or among those that stay.
pub proof fn lemma_level_pass_len(items: Seq<(Seq<char>, Seq<Seq<char>>)>, done: Seq<Seq<char>>)
    ensures
        level_pass(items, done).0.len() + level_pass(items, done).1.len() == items.len(),
    decreases items.len(),
{
    if items.len() > 0 {
        lemma_level_pass_len(items.drop_last(), done);
    }
}

/// The levels of cases: passes over the cases until none is left or a pass
/// takes none (the cases left then cannot run and are dropped).
pub open spec fn dependency_levels(items: Seq<(Seq<char>, Seq<Seq<char>>)>, done: Seq<Seq<char>>) -> Seq<Seq<(Seq<char>, Seq<Seq<char>>)>>
    decreases items.len(),
{
    if items.len() == 0 {
        Seq::empty()
    } else {
        let p = level_pass(items, done);
        if p.0.len() == 0 {
            Seq::empty()
        } else {
            proof {
                lemma_level_pass_len(items, done);
            }
            seq![p.0] + dependency_levels(p.1, p.2)
        }
    }
}

/// The shapes of each level's cases.
pub open spec fn level_shapes<T>(ls: Seq<Vec<DependentCase<T>>>) -> Seq<Seq<(Seq<char>, Seq<Seq<char>>)>> {
    ls.map_values(|l: Vec<DependentCase<T>>| case_shapes(l@))
}

/// Groups cases into levels that can each run together: a case joins the
/// first pass in which all its dependencies are in an earlier level or
/// earlier in its own. Cases whose dependencies can never be met are left out.
pub fn group_by_dependency_levels<T>(test_cases: Vec<DependentCase<T>>) -> (r: Vec<Vec<DependentCase<T>>>)
    ensures
        level_shapes(r@) == dependency_levels(case_shapes(test_cases@), Seq::empty()),
{
    let ghost goal = dependency_levels(case_shapes(test_cases@), Seq::empty());
    let mut levels: Vec<Vec<DependentCase<T>>> = Vec::new();
    let mut remaining = test_cases;
    let mut completed: Vec<String> = Vec::new();
    proof {
        assert(level_shapes(levels@) =~= Seq::<Seq<(Seq<char>, Seq<Seq<char>>)>>::empty());
        assert(views(completed@) =~= Seq::<Seq<char>>::empty());
        assert(goal =~= level_shapes(levels@) + dependency_levels(case_shapes(remaining@), views(completed@)));
    }
    loop
        invariant_except_break
            goal == level_shapes(levels@) + dependency_levels(case_shapes(remaining@), views(completed@)),
        ensures
            goal == level_shapes(levels@),
        decreases remaining@.len(),
    {
        if remaining.len() == 0 {
            proof {
                assert(case_shapes(remaining@) =~= Seq::<(Seq<char>, Seq<Seq<char>>)>::empty());
                assert(goal =~= level_shapes(levels@));
            }
            break;
        }
        let ghost items = case_shapes(remaining@);
        let ghost orig = remaining@;
        let ghost done0 = views(completed@);
        let ghost n = orig.len() as int;
        let mut rest = remaining;
        let mut current: Vec<DependentCase<T>> = Vec::new();
        let mut next: Vec<DependentCase<T>> = Vec::new();
        proof {
            assert(items.take(0) =~= Seq::<(Seq<char>, Seq<Seq<char>>)>::empty());
            assert(case_shapes(current@) =~= Seq::<(Seq<char>, Seq<Seq<char>>)>::empty());
            assert(case_shapes(next@) =~= Seq::<(Seq<char>, Seq<Seq<char>>)>::empty());
            assert(rest@ =~= orig.subrange(0, n));
        }
        while rest.len() > 0
            invariant
                n == orig.len(),
                items == case_shapes(orig),
                items.len() == n,
                rest@.len() <= n,
                rest@ == orig.subrange(n - rest@.len(), n),
                level_pass(items.take(n - rest@.len()), done0) == (case_shapes(current@), case_shapes(next@), views(completed@)),
            decreases rest@.len(),
        {
            let ghost k = n - rest@.len();
            let c = rest.remove(0);
            proof {
                assert(c == orig[k]);
                assert(items[k] == case_shape(c));
                assert(items.take(k + 1).drop_last() =~= items.take(k));
                assert(items.take(k + 1).last() == items[k]);
                assert(rest@ =~= orig.subrange(k + 1, n));
            }
            let ghost before_cur = current@;
            let ghost before_next = next@;
            let ghost before_done = completed@;
            if deps_ready(&c.dependencies, &completed) {
                completed.push(copy_string(&c.id));
                current.push(c);
                proof {
                    assert(case_shapes(current@) =~= case_shapes(before_cur).push(items[k]));
                    assert(views(completed@) =~= views(before_done).push(items[k].0));
                }
            } else {
                next.push(c);
                proof {
                    assert(case_shapes(next@) =~= case_shapes(before_next).push(items[k]));
                }
            }
        }
        proof {
            assert(items.take(n) =~= items);
        }
        if current.len() == 0 {
            proof {
                assert(dependency_levels(items, done0) =~= Seq::<Seq<(Seq<char>, Seq<Seq<char>>)>>::empty());
                assert(goal =~= level_shapes(levels@));
            }
            break;
        }
        proof {
            lemma_level_pass_len(items, done0);
        }
        let ghost before_levels = levels@;
        let ghost cur_shape = case_shapes(current@);
        levels.push(current);
        remaining = next;
        proof {
            assert(level_shapes(levels@) =~= level_shapes(before_levels).push(cur_shape));
            assert(dependency_levels(items, done0) == seq![cur_shape] + dependency_levels(case_shapes(remaining@), views(completed@)));
            assert(level_shapes(before_levels) + (seq![cur_shape] + dependency_levels(case_shapes(remaining@), views(completed@)))
                =~= level_shapes(levels@) + dependency_levels(case_shapes(remaining@), views(completed@)));
        }
    }
    levels
}


/// The identifiers of cases.
pub open spec fn case_ids(s: Seq<(Seq<char>, Seq<Seq<char>>)>) -> Seq<Seq<char>> {
    s.map_values(|c: (Seq<char>, Seq<Seq<char>>)| c.0)
}

/// Whether each case's dependencies are done or run earlier in `s`.
pub open spec fn runs_dependencies_first(s: Seq<(Seq<char>, Seq<Seq<char>>)>, done: Seq<Seq<char>>) -> bool {
    forall|j: int, d: int| 0 <= j < s.len() && 0 <= d < s[j].1.len() ==> done.contains(#[trigger] s[j].1[d])
        || exists|k: int| 0 <= k < j && s[k].0 == s[j].1[d]
}

proof fn lemma_level_pass_facts(items: Seq<(Seq<char>, Seq<Seq<char>>)>, done: Seq<Seq<char>>)
    ensures
        level_pass(items, done).2 == done + case_ids(level_pass(items, done).0),
        runs_dependencies_first(level_pass(items, done).0, done),
    decreases items.len(),
{
    if items.len() > 0 {
        lemma_level_pass_facts(items.drop_last(), done);
        let p = level_pass(items.drop_last(), done);
        let it = items.last();
        if ready(it.1, p.2) {
            let l = p.0.push(it);
            assert(case_ids(l) =~= case_ids(p.0).push(it.0));
            assert(p.2.push(it.0) =~= done + case_ids(l));
            assert forall|j: int, d: int| 0 <= j < l.len() && 0 <= d < l[j].1.len() implies done.contains(#[trigger] l[j].1[d])
                || exists|k: int| 0 <= k < j && l[k].0 == l[j].1[d] by {
                if j < p.0.len() {
                    assert(l[j] == p.0[j]);
                    if !done.contains(l[j].1[d]) {
                        let k = choose|k: int| 0 <= k < j && p.0[k].0 == p.0[j].1[d];
                        assert(l[k] == p.0[k]);
                    }
                } else {
                    let dep = it.1[d];
                    assert(p.2.contains(dep));
                    let q = choose|q: int| 0 <= q < p.2.len() && p.2[q] == dep;
                    if q >= done.len() {
                        let k = q - done.len();
                        assert(case_ids(p.0)[k] == p.0[k].0);
                        assert(l[k] == p.0[k]);
                    } else {
                        assert(done[q] == dep);
                    }
                }
            }
        }
    }
}

/// In the levels, read one after another, every dependency of a case was
/// done before the first level or belongs to a case that comes earlier.
pub proof fn lemma_levels_run_dependencies_first(items: Seq<(Seq<char>, Seq<Seq<char>>)>, done: Seq<Seq<char>>)
    ensures
        runs_dependencies_first(dependency_levels(items, done).flatten(), done),
    decreases items.len(),
{
    let ls = dependency_levels(items, done);
    if items.len() > 0 {
        let p = level_pass(items, done);
        if p.0.len() > 0 {
            lemma_level_pass_len(items, done);
            lemma_level_pass_facts(items, done);
            lemma_levels_run_dependencies_first(p.1, p.2);
            let rest = dependency_levels(p.1, p.2).flatten();
            assert(ls.first() == p.0);
            assert(ls.drop_first() =~= dependency_levels(p.1, p.2));
            let f = ls.flatten();
            assert(f == p.0 + rest);
            assert forall|j: int, d: int| 0 <= j < f.len() && 0 <= d < f[j].1.len() implies done.contains(#[trigger] f[j].1[d])
                || exists|k: int| 0 <= k < j && f[k].0 == f[j].1[d] by {
                if j < p.0.len() {
                    assert(f[j] == p.0[j]);
                    if !done.contains(f[j].1[d]) {
                        let k = choose|k: int| 0 <= k < j && p.0[k].0 == p.0[j].1[d];
                        assert(f[k] == p.0[k]);
                    }
                } else {
                    let jj = j - p.0.len();
                    assert(f[j] == rest[jj]);
                    let dep = rest[jj].1[d];
                    if p.2.contains(dep) {
                        let q = choose|q: int| 0 <= q < p.2.len() && p.2[q] == dep;
                        if q >= done.len() {
                            let k = q - done.len();
                            assert(case_ids(p.0)[k] == p.0[k].0);
                            assert(f[k] == p.0[k]);
                        } else {
                            assert(done[q] == dep);
                        }
                    } else {
                        let k = choose|k: int| 0 <= k < jj && rest[k].0 == rest[jj].1[d];
                        assert(f[k + p.0.len()] == rest[k]);
                    }
                }
            }
        } else {
            assert(ls =~= Seq::<Seq<(Seq<char>, Seq<Seq<char>>)>>::empty());
            assert(ls.flatten() =~= Seq::<(Seq<char>, Seq<Seq<char>>)>::empty());
        }
    } else {
        assert(ls.flatten() =~= Seq::<(Seq<char>, Seq<Seq<char>>)>::empty());
    }
}

} // verus!
