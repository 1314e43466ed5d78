//! Assertions on JSON responses: comparing a selected value with an
//! expectation, checking a document against a simple schema, and comparing
//! two documents structurally.

use vstd::prelude::*;
use crate::text::{owned, concat, concat3, concat4, chars_of, decimal, decimal_text};
use crate::json::{JsonValue, JsonView, json_equal, json_text, view_is_empty, members_view, array_view, lemma_members_view, lemma_array_view};

use crate::pattern::{regex_error_text, regex_finds, check_pattern, pattern_matches};
use crate::plugin::{ExpectedValue, AssertionResult};

verus! {

/// Whether `t` occurs in `s` at position `i`.
pub open spec fn occurs_at(s: Seq<char>, t: Seq<char>, i: int) -> bool {
    s.subrange(i, i + t.len()) == t
}

/// The text of `s` contains `t`.
pub open spec fn text_contains(s: Seq<char>, t: Seq<char>) -> bool {
    exists|i: int| 0 <= i <= s.len() - t.len() && #[trigger] occurs_at(s, t, i)
}

/// Whether `s` contains `t` (std's `str::contains`).
pub fn contains_text(s: &str, t: &str) -> (r: bool)
    ensures
        r == text_contains(s@, t@),
{
    let sc = chars_of(s);
    let tc = chars_of(t);
    if tc.len() > sc.len() {
        return false;
    }
    let n = sc.len();
    let mut i: usize = 0;
    while i <= sc.len() - tc.len()
        invariant
            n == sc@.len(),
            tc@.len() <= sc@.len(),
            i <= sc@.len() - tc@.len() + 1,
            sc@ == s@,
            tc@ == t@,
            forall|q: int| 0 <= q < i ==> !#[trigger] occurs_at(sc@, tc@, q),
        decreases sc.len() - tc.len() + 1 - i,
    {
        let mut j: usize = 0;
        let mut ok = true;
        while j < tc.len()
            invariant
                j <= tc@.len(),
                n == sc@.len(),
                i + tc@.len() <= sc@.len(),
                ok == forall|q: int| 0 <= q < j ==> sc@[i + q] == tc@[q],
            decreases tc.len() - j,
        {
            if sc[i + j] != tc[j] {
                ok = false;
            }
            j = j + 1;
        }
        if ok {
            assert(sc@.subrange(i as int, i + tc@.len()) =~= tc@);
            assert(occurs_at(s@, t@, i as int));
            return true;
        } else {
            let ghost w = choose|q: int| 0 <= q < tc@.len() && sc@[i + q] != tc@[q];
            assert(sc@.subrange(i as int, i + tc@.len())[w] != tc@[w]);
            assert(!occurs_at(sc@, tc@, i as int));
        }
        i = i + 1;
    }
    assert forall|q: int| 0 <= q <= s@.len() - t@.len() implies !#[trigger] occurs_at(s@, t@, q) by {
        assert(!occurs_at(sc@, tc@, q));
    }
    false
}

/// Selects a value with a JSONPath expression and compares it with an expectation.
pub struct JsonPathAssertion {
    json_path: String,
}

/// The verdict and message of comparing `actual` with an exact expectation.
pub open spec fn exact_outcome(actual: JsonView, expected: JsonView, ok: bool, m: Seq<char>) -> bool {
    &&& ok == (actual == expected)
    &&& ok ==> m == "JSONPath result matches expected value: "@ + json_text(expected)
    &&& !ok ==> m == "JSONPath result mismatch: expected "@ + json_text(expected) + ", got "@ + json_text(actual)
}

/// The verdict and message of checking that `actual` is a string containing `sub`.
pub open spec fn contains_outcome(actual: JsonView, sub: Seq<char>, ok: bool, m: Seq<char>) -> bool {
    match actual {
        JsonView::String(s) => {
            &&& ok == text_contains(s, sub)
            &&& ok ==> m == "JSONPath result '"@ + s + "' contains '"@ + sub + "'"@
            &&& !ok ==> m == "JSONPath result '"@ + s + "' does not contain '"@ + sub + "'"@
        },
        _ => !ok && m == "JSONPath result is not a string, cannot check contains: "@ + json_text(actual),
    }
}

/// The verdict and message of checking that `actual` is a string `pattern` matches.
pub open spec fn pattern_outcome(actual: JsonView, pattern: Seq<char>, ok: bool, m: Seq<char>) -> bool {
    match actual {
        JsonView::String(s) => match regex_error_text(pattern) {
            Some(e) => !ok && m == "Invalid regex pattern '"@ + pattern + "': "@ + e,
            None => {
                &&& ok == regex_finds(pattern, s)
                &&& ok ==> m == "JSONPath result '"@ + s + "' matches pattern '"@ + pattern + "'"@
                &&& !ok ==> m == "JSONPath result '"@ + s + "' does not match pattern '"@ + pattern + "'"@
            },
        },
        _ => !ok && m == "JSONPath result is not a string, cannot match pattern: "@ + json_text(actual),
    }
}

/// The verdict and message of checking that `actual` is not empty.
pub open spec fn not_empty_outcome(actual: JsonView, ok: bool, m: Seq<char>) -> bool {
    &&& ok == !view_is_empty(actual)
    &&& ok ==> m == "JSONPath result is not empty"@
    &&& !ok ==> m == "JSONPath result is empty"@
}

impl JsonPathAssertion {
    /// An assertion on the value at `json_path`.
    pub fn new(json_path: String) -> (r: Self)
        ensures
            r.path()@ == json_path@,
    {
        JsonPathAssertion { json_path }
    }

    /// The JSONPath expression.
    pub closed spec fn path(&self) -> String {
        self.json_path
    }

    /// The JSONPath expression.
    pub fn json_path(&self) -> (r: &String)
        ensures
            r@ == self.path()@,
    {
        &self.json_path
    }

    /// The assertion's name.
    pub fn name(&self) -> (r: String)
        ensures
            r@ == "jsonpath-assertion"@,
    {
        owned("jsonpath-assertion")
    }

    /// Compares the selected value with an exact expectation.
    pub fn compare_exact(&self, actual: &JsonValue, expected: &JsonValue) -> (r: (bool, String))
        ensures
            exact_outcome(actual.view(), expected.view(), r.0, r.1@),
    {
        let e = expected.to_json_string();
        if json_equal(actual, expected) {
            (true, concat("JSONPath result matches expected value: ", e.as_str()))
        } else {
            let a = actual.to_json_string();
            (false, concat4("JSONPath result mismatch: expected ", e.as_str(), ", got ", a.as_str()))
        }
    }

    /// Checks that the selected value is a string containing `substring`.
    pub fn compare_contains(&self, actual: &JsonValue, substring: &String) -> (r: (bool, String))
        ensures
            contains_outcome(actual.view(), substring@, r.0, r.1@),
    {
        match actual {
            JsonValue::String(s) => {
                if contains_text(s.as_str(), substring.as_str()) {
                    let mut m = concat3("JSONPath result '", s.as_str(), "' contains '");
                    m.append(substring.as_str());
                    m.append("'");
                    (true, m)
                } else {
                    let mut m = concat3("JSONPath result '", s.as_str(), "' does not contain '");
                    m.append(substring.as_str());
                    m.append("'");
                    (false, m)
                }
            },
            _ => {
                let a = actual.to_json_string();
                (false, concat("JSONPath result is not a string, cannot check contains: ", a.as_str()))
            },
        }
    }

    /// Checks that the selected value is a string the pattern matches.
    pub fn compare_pattern(&self, actual: &JsonValue, pattern: &String) -> (r: (bool, String))
        ensures
            pattern_outcome(actual.view(), pattern@, r.0, r.1@),
    {
        match actual {
            JsonValue::String(s) => match check_pattern(pattern.as_str()) {
                Err(e) => {
                    let mut m = concat3("Invalid regex pattern '", pattern.as_str(), "': ");
                    m.append(e.as_str());
                    (false, m)
                },
                Ok(()) => {
                    if pattern_matches(pattern.as_str(), s.as_str()) {
                        let mut m = concat3("JSONPath result '", s.as_str(), "' matches pattern '");
                        m.append(pattern.as_str());
                        m.append("'");
                        (true, m)
                    } else {
                        let mut m = concat3("JSONPath result '", s.as_str(), "' does not match pattern '");
                        m.append(pattern.as_str());
                        m.append("'");
                        (false, m)
                    }
                },
            },
            _ => {
                let a = actual.to_json_string();
                (false, concat("JSONPath result is not a string, cannot match pattern: ", a.as_str()))
            },
        }
    }

    /// Compares the selected value with what is expected. A range check
    /// compares floating-point numbers, so its verdict and message,
    /// `range_outcome`, come from the caller.
    pub fn compare_values(&self, actual: &JsonValue, expected: &ExpectedValue, range_outcome: (bool, String)) -> (r: (bool, String))
        ensures
            match *expected {
                ExpectedValue::Exact(e) => exact_outcome(actual.view(), e.view(), r.0, r.1@),
                ExpectedValue::Contains(sub) => contains_outcome(actual.view(), sub@, r.0, r.1@),
                ExpectedValue::Pattern(p) => pattern_outcome(actual.view(), p@, r.0, r.1@),
                ExpectedValue::NotEmpty => not_empty_outcome(actual.view(), r.0, r.1@),
                ExpectedValue::Range { .. } => r == range_outcome,
            },
    {
        match expected {
            ExpectedValue::Exact(e) => self.compare_exact(actual, e),
            ExpectedValue::Contains(sub) => self.compare_contains(actual, sub),
            ExpectedValue::Pattern(p) => self.compare_pattern(actual, p),
            ExpectedValue::NotEmpty => self.compare_not_empty(actual),
            ExpectedValue::Range { .. } => range_outcome,
        }
    }

    /// Checks that the selected value is not empty.
    pub fn compare_not_empty(&self, actual: &JsonValue) -> (r: (bool, String))
        ensures
            not_empty_outcome(actual.view(), r.0, r.1@),
    {
        if actual.is_not_empty() {
            (true, owned("JSONPath result is not empty"))
        } else {
            (false, owned("JSONPath result is empty"))
        }
    }
}

/// Checks JSON documents against a schema.
pub struct JsonSchemaAssertion {
    schema: Option<JsonValue>,
}

impl JsonSchemaAssertion {
    /// An assertion with no schema yet.
    pub fn new() -> (r: Self)
        ensures
            r.schema_view() is None,
    {
        JsonSchemaAssertion { schema: None }
    }

    /// An assertion with the given schema.
    pub fn with_schema(schema: JsonValue) -> (r: Self)
        ensures
            r.schema_view() == Some(schema.view()),
    {
        JsonSchemaAssertion { schema: Some(schema) }
    }

    /// The schema, if any.
    pub closed spec fn schema_view(&self) -> Option<JsonView> {
        match self.schema {
            Some(s) => Some(s.view()),
            None => None,
        }
    }
}

/// The value of the first member of `m` named `k`, if there is one.
pub open spec fn member_value(m: Seq<(Seq<char>, JsonView)>, k: Seq<char>) -> Option<JsonView>
    decreases m.len(),
{
    if m.len() == 0 {
        None
    } else if m[0].0 == k {
        Some(m[0].1)
    } else {
        member_value(m.drop_first(), k)
    }
}

/// A member's value is smaller than the members it comes from.
pub proof fn lemma_member_value_decreases(m: Seq<(Seq<char>, JsonView)>, k: Seq<char>)
    ensures
        member_value(m, k) matches Some(v) ==> decreases_to!(m => v),
    decreases m.len(),
{
    if m.len() > 0 {
        if m[0].0 == k {
            assert(decreases_to!(m => m[0]));
            assert(decreases_to!(m[0] => m[0].1));
        } else {
            lemma_member_value_decreases(m.drop_first(), k);
            assert(decreases_to!(m => m.drop_first()));
        }
    }
}

/// The JSON type name of a value.
pub open spec fn json_type_name(v: JsonView) -> Seq<char> {
    match v {
        JsonView::Null => "null"@,
        JsonView::Bool(_) => "boolean"@,
        JsonView::Number(_) => "number"@,
        JsonView::String(_) => "string"@,
        JsonView::Array(_) => "array"@,
        JsonView::Object(_) => "object"@,
    }
}

/// Why `data` does not satisfy `schema`, or `None` when it does: a `type`
/// that names another type; then, for an object, its first `required` field
/// that is missing, or the first failure of a property it has against the
/// property's schema; for an array, the first item failing the `items`
/// schema.
pub open spec fn schema_error(data: JsonView, schema: JsonView) -> Option<Seq<char>>
    decreases schema, 0nat,
{
    match schema {
        JsonView::Object(sm) => {
            let type_error = match member_value(sm, "type"@) {
                Some(JsonView::String(t)) => if json_type_name(data) != t {
                    Some("Type mismatch: expected "@ + t + ", got "@ + json_type_name(data))
                } else {
                    None
                },
                _ => None,
            };
            if type_error is Some {
                type_error
            } else {
                proof {
                    lemma_member_value_decreases(sm, "properties"@);
                    lemma_member_value_decreases(sm, "items"@);
                }
                match data {
                    JsonView::Object(dm) => match required_error(dm, member_value(sm, "required"@)) {
                        Some(e) => Some(e),
                        None => match member_value(sm, "properties"@) {
                            Some(JsonView::Object(props)) => properties_error(dm, props),
                            _ => None,
                        },
                    },
                    JsonView::Array(da) => match member_value(sm, "items"@) {
                        Some(items) => items_error(da, items),
                        None => None,
                    },
                    _ => None,
                }
            }
        },
        _ => None,
    }
}

/// The first required field, of those `required` names as strings, that
/// `dm` lacks.
pub open spec fn required_error(dm: Seq<(Seq<char>, JsonView)>, required: Option<JsonView>) -> Option<Seq<char>> {
    match required {
        Some(JsonView::Array(rs)) => first_missing(dm, rs),
        _ => None,
    }
}

/// The first of the names in `rs` (strings only) that `dm` lacks.
pub open spec fn first_missing(dm: Seq<(Seq<char>, JsonView)>, rs: Seq<JsonView>) -> Option<Seq<char>>
    decreases rs.len(),
{
    if rs.len() == 0 {
        None
    } else {
        match rs[0] {
            JsonView::String(f) => if member_value(dm, f) is None {
                Some("Required field '"@ + f + "' is missing"@)
            } else {
                first_missing(dm, rs.drop_first())
            },
            _ => first_missing(dm, rs.drop_first()),
        }
    }
}

/// The first failure of a property of `dm` against its schema in `props`.
pub open spec fn properties_error(dm: Seq<(Seq<char>, JsonView)>, props: Seq<(Seq<char>, JsonView)>) -> Option<Seq<char>>
    decreases props, 0nat,
{
    if props.len() == 0 {
        None
    } else {
        let first = match member_value(dm, props[0].0) {
            Some(v) => schema_error(v, props[0].1),
            None => None,
        };
        if first is Some {
            first
        } else {
            properties_error(dm, props.drop_first())
        }
    }
}

/// The first failure of an item of `da` against `items`.
pub open spec fn items_error(da: Seq<JsonView>, items: JsonView) -> Option<Seq<char>>
    decreases items, da.len() + 1,
{
    if da.len() == 0 {
        None
    } else if schema_error(da[0], items) is Some {
        schema_error(da[0], items)
    } else {
        items_error(da.drop_first(), items)
    }
}

proof fn lemma_fields_pass(
    am: Seq<(Seq<char>, JsonView)>,
    em: Seq<(Seq<char>, JsonView)>,
    io: bool,
    ie: bool,
)
    requires
        fields_error(am, em, io, ie) is None,
    ensures
        forall|j: int| 0 <= j < em.len() ==> ((#[trigger] member_value(am, em[j].0)) matches Some(av)
            && structure_error(av, em[j].1, io, ie) is None),
    decreases em.len(),
{
    if em.len() > 0 {
        lemma_fields_pass(am, em.drop_first(), io, ie);
        assert forall|j: int| 0 <= j < em.len() implies ((#[trigger] member_value(am, em[j].0)) matches Some(av)
            && structure_error(av, em[j].1, io, ie) is None) by {
            if j > 0 {
                assert(em.drop_first()[j - 1] == em[j]);
            }
        }
    }
}

proof fn lemma_no_extra_fields(am: Seq<(Seq<char>, JsonView)>, em: Seq<(Seq<char>, JsonView)>)
    requires
        extra_field_error(am, em) is None,
    ensures
        forall|j: int| 0 <= j < am.len() ==> (#[trigger] member_value(em, am[j].0)) is Some,
    decreases am.len(),
{
    if am.len() > 0 {
        lemma_no_extra_fields(am.drop_first(), em);
        assert forall|j: int| 0 <= j < am.len() implies (#[trigger] member_value(em, am[j].0)) is Some by {
            if j > 0 {
                assert(am.drop_first()[j - 1] == am[j]);
            }
        }
    }
}

proof fn lemma_member_value_at(m: Seq<(Seq<char>, JsonView)>, k: Seq<char>)
    requires
        member_value(m, k) is Some,
    ensures
        exists|j: int| 0 <= j < m.len() && m[j].0 == k && m[j].1 == member_value(m, k)->0,
    decreases m.len(),
{
    if m[0].0 != k {
        lemma_member_value_at(m.drop_first(), k);
        let j = choose|j: int| 0 <= j < m.len() - 1 && m.drop_first()[j].0 == k
            && m.drop_first()[j].1 == member_value(m.drop_first(), k)->0;
        assert(m[j + 1] == m.drop_first()[j]);
    } else {
        assert(m[0].0 == k && m[0].1 == member_value(m, k)->0);
    }
}

proof fn lemma_ordered_pass(aa: Seq<JsonView>, ea: Seq<JsonView>, io: bool, ie: bool, base: nat)
    requires
        aa.len() == ea.len(),
        ordered_error(aa, ea, io, ie, base) is None,
    ensures
        forall|i: int| 0 <= i < ea.len() ==> #[trigger] structure_error(aa[i], ea[i], io, ie) is None,
    decreases ea.len(),
{
    if ea.len() > 0 {
        lemma_ordered_pass(aa.drop_first(), ea.drop_first(), io, ie, base + 1);
        assert forall|i: int| 0 <= i < ea.len() implies #[trigger] structure_error(aa[i], ea[i], io, ie) is None by {
            if i > 0 {
                assert(aa.drop_first()[i - 1] == aa[i]);
                assert(ea.drop_first()[i - 1] == ea[i]);
            }
        }
    }
}

/// Whether some item of `aa` has the structure of `e`.
pub open spec fn matched_by(aa: Seq<JsonView>, e: JsonView, io: bool, ie: bool) -> bool {
    exists|j: int| 0 <= j < aa.len() && #[trigger] structure_error(aa[j], e, io, ie) is None
}

proof fn lemma_any_match_found(aa: Seq<JsonView>, e: JsonView, io: bool, ie: bool)
    requires
        any_match(aa, e, io, ie),
    ensures
        matched_by(aa, e, io, ie),
    decreases aa.len(),
{
    if structure_error(aa[0], e, io, ie) is None {
        assert(0 <= 0 < aa.len());
    } else {
        lemma_any_match_found(aa.drop_first(), e, io, ie);
        let j = choose|j: int| 0 <= j < aa.len() - 1 && #[trigger] structure_error(aa.drop_first()[j], e, io, ie) is None;
        assert(aa.drop_first()[j] == aa[j + 1]);
    }
}

proof fn lemma_unordered_pass(aa: Seq<JsonView>, ea: Seq<JsonView>, io: bool, ie: bool, base: nat)
    requires
        unordered_error(aa, ea, io, ie, base) is None,
    ensures
        forall|i: int| 0 <= i < ea.len() ==> #[trigger] matched_by(aa, ea[i], io, ie),
    decreases ea.len(),
{
    if ea.len() > 0 {
        lemma_unordered_pass(aa, ea.drop_first(), io, ie, base + 1);
        lemma_any_match_found(aa, ea[0], io, ie);
        assert forall|i: int| 0 <= i < ea.len() implies #[trigger] matched_by(aa, ea[i], io, ie) by {
            if i > 0 {
                assert(ea.drop_first()[i - 1] == ea[i]);
            }
        }
    }
}

/// Array law: an array has the structure of an expected array only when
/// both have the same length and, position by position, each item has the
/// structure of the expected item; when order is ignored, each expected
/// item is instead matched by some item (`matched_by`). The settings are the same at every
/// depth.
pub proof fn lemma_structure_arrays(aa: Seq<JsonView>, ea: Seq<JsonView>, io: bool, ie: bool)
    requires
        structure_error(JsonView::Array(aa), JsonView::Array(ea), io, ie) is None,
    ensures
        aa.len() == ea.len(),
        !io ==> forall|i: int| 0 <= i < ea.len() ==> #[trigger] structure_error(aa[i], ea[i], io, ie) is None,
        io ==> forall|i: int| 0 <= i < ea.len() ==> #[trigger] matched_by(aa, ea[i], io, ie),
{
    if io {
        lemma_unordered_pass(aa, ea, io, ie, 0);
    } else {
        lemma_ordered_pass(aa, ea, io, ie, 0);
    }
}

/// Value law: values other than objects and arrays have the structure of an
/// expected value exactly when they are equal to it.
pub proof fn lemma_structure_scalars(actual: JsonView, expected: JsonView, io: bool, ie: bool)
    requires
        !(expected is Object),
        !(expected is Array),
    ensures
        structure_error(actual, expected, io, ie) is None <==> actual == expected,
{
}

proof fn lemma_fields_pass_converse(
    am: Seq<(Seq<char>, JsonView)>,
    em: Seq<(Seq<char>, JsonView)>,
    io: bool,
    ie: bool,
)
    requires
        forall|j: int| 0 <= j < em.len() ==> ((#[trigger] member_value(am, em[j].0)) matches Some(av)
            && structure_error(av, em[j].1, io, ie) is None),
    ensures
        fields_error(am, em, io, ie) is None,
    decreases em.len(),
{
    if em.len() > 0 {
        assert forall|j: int| 0 <= j < em.drop_first().len() implies ((#[trigger] member_value(am, em.drop_first()[j].0)) matches Some(av)
            && structure_error(av, em.drop_first()[j].1, io, ie) is None) by {
            assert(em.drop_first()[j] == em[j + 1]);
        }
        lemma_fields_pass_converse(am, em.drop_first(), io, ie);
        assert(member_value(am, em[0].0) is Some);
    }
}

/// Lenient objects law: when extra fields are ignored, an object has the
/// structure of an expected object exactly when every expected field is
/// present with a value of the expected structure, whatever other fields it has.
pub proof fn lemma_structure_ignoring_extra_fields(
    am: Seq<(Seq<char>, JsonView)>,
    em: Seq<(Seq<char>, JsonView)>,
    io: bool,
)
    ensures
        structure_error(JsonView::Object(am), JsonView::Object(em), io, true) is None
            <==> forall|j: int| 0 <= j < em.len() ==> ((#[trigger] member_value(am, em[j].0)) matches Some(av)
                && structure_error(av, em[j].1, io, true) is None),
{
    if structure_error(JsonView::Object(am), JsonView::Object(em), io, true) is None {
        lemma_fields_pass(am, em, io, true);
    }
    if forall|j: int| 0 <= j < em.len() ==> ((#[trigger] member_value(am, em[j].0)) matches Some(av)
        && structure_error(av, em[j].1, io, true) is None) {
        lemma_fields_pass_converse(am, em, io, true);
    }
}

/// Strictness law: when an object has the structure of an expected object,
/// every expected field is present and its value has the structure of the
/// expected value under the same settings (so the settings apply at every
/// depth), and, unless extra fields are ignored, the object has no field
/// the expectation lacks. `deep_compare` succeeds exactly when
/// `structure_error` is `None`.
pub proof fn lemma_structure_fields(
    am: Seq<(Seq<char>, JsonView)>,
    em: Seq<(Seq<char>, JsonView)>,
    io: bool,
    ie: bool,
)
    requires
        structure_error(JsonView::Object(am), JsonView::Object(em), io, ie) is None,
    ensures
        forall|j: int| 0 <= j < em.len() ==> ((#[trigger] member_value(am, em[j].0)) matches Some(av)
            && structure_error(av, em[j].1, io, ie) is None),
        !ie ==> forall|j: int| 0 <= j < am.len() ==> (#[trigger] member_value(em, am[j].0)) is Some,
{
    lemma_fields_pass(am, em, io, ie);
    if !ie {
        lemma_no_extra_fields(am, em);
    }
}

/// Nested strictness: with extra fields not ignored, an object whose field
/// `k` holds an object with a key `k2` that the expected object under `k`
/// lacks does not have the expected structure.
pub proof fn lemma_nested_extra_field_refused(
    am: Seq<(Seq<char>, JsonView)>,
    em: Seq<(Seq<char>, JsonView)>,
    k: Seq<char>,
    inner_a: Seq<(Seq<char>, JsonView)>,
    inner_e: Seq<(Seq<char>, JsonView)>,
    k2: Seq<char>,
    io: bool,
)
    requires
        member_value(am, k) == Some(JsonView::Object(inner_a)),
        member_value(em, k) == Some(JsonView::Object(inner_e)),
        member_value(inner_a, k2) is Some,
        member_value(inner_e, k2) is None,
    ensures
        structure_error(JsonView::Object(am), JsonView::Object(em), io, false) is Some,
{
    if structure_error(JsonView::Object(am), JsonView::Object(em), io, false) is None {
        lemma_structure_fields(am, em, io, false);
        lemma_member_value_at(em, k);
        let j = choose|j: int| 0 <= j < em.len() && em[j].0 == k && em[j].1 == member_value(em, k)->0;
        assert(member_value(am, em[j].0) == Some(JsonView::Object(inner_a)));
        assert(structure_error(JsonView::Object(inner_a), JsonView::Object(inner_e), io, false) is None);
        lemma_structure_fields(inner_a, inner_e, io, false);
        lemma_member_value_at(inner_a, k2);
        let j2 = choose|j2: int| 0 <= j2 < inner_a.len() && inner_a[j2].0 == k2
            && inner_a[j2].1 == member_value(inner_a, k2)->0;
        assert(member_value(inner_e, inner_a[j2].0) is Some);
    }
}

/// Why `actual` does not have the structure of `expected`, or `None` when it
/// does. Objects need every expected field, with a matching value, and no
/// other field unless extra fields are ignored; arrays need the same length
/// and, item by item, matching items, or when order is ignored each expected
/// item matched by some actual item; other values must be equal.
pub open spec fn structure_error(actual: JsonView, expected: JsonView, io: bool, ie: bool) -> Option<Seq<char>>
    decreases expected, 0nat,
{
    match expected {
        JsonView::Object(em) => match actual {
            JsonView::Object(am) => match fields_error(am, em, io, ie) {
                Some(e) => Some(e),
                None => if ie { None } else { extra_field_error(am, em) },
            },
            _ => value_error(actual, expected),
        },
        JsonView::Array(ea) => match actual {
            JsonView::Array(aa) => if aa.len() != ea.len() {
                Some("Array length mismatch: expected "@ + decimal(ea.len()) + ", got "@ + decimal(aa.len()))
            } else if io {
                unordered_error(aa, ea, io, ie, 0)
            } else {
                ordered_error(aa, ea, io, ie, 0)
            },
            _ => value_error(actual, expected),
        },
        _ => value_error(actual, expected),
    }
}

/// Why two values that are compared as wholes differ, or `None` when they are equal.
pub open spec fn value_error(actual: JsonView, expected: JsonView) -> Option<Seq<char>> {
    if actual == expected {
        None
    } else {
        Some("Value mismatch: expected "@ + json_text(expected) + ", got "@ + json_text(actual))
    }
}

/// The first expected field, in order, that is missing from `am` or whose
/// value does not match.
pub open spec fn fields_error(
    am: Seq<(Seq<char>, JsonView)>,
    em: Seq<(Seq<char>, JsonView)>,
    io: bool,
    ie: bool,
) -> Option<Seq<char>>
    decreases em, 0nat,
{
    if em.len() == 0 {
        None
    } else {
        match member_value(am, em[0].0) {
            Some(av) => match structure_error(av, em[0].1, io, ie) {
                Some(e) => Some("Field '"@ + em[0].0 + "': "@ + e),
                None => fields_error(am, em.drop_first(), io, ie),
            },
            None => Some("Missing required field: '"@ + em[0].0 + "'"@),
        }
    }
}

/// The first field of `am`, in order, that `em` does not have.
pub open spec fn extra_field_error(am: Seq<(Seq<char>, JsonView)>, em: Seq<(Seq<char>, JsonView)>) -> Option<Seq<char>>
    decreases am.len(),
{
    if am.len() == 0 {
        None
    } else if member_value(em, am[0].0) is None {
        Some("Unexpected field: '"@ + am[0].0 + "'"@)
    } else {
        extra_field_error(am.drop_first(), em)
    }
}

/// Whether some item of `aa` has the structure of `e`.
pub open spec fn any_match(aa: Seq<JsonView>, e: JsonView, io: bool, ie: bool) -> bool
    decreases e, aa.len() + 1,
{
    if aa.len() == 0 {
        false
    } else {
        structure_error(aa[0], e, io, ie) is None || any_match(aa.drop_first(), e, io, ie)
    }
}

/// The first expected item, counting indices from `base`, that no actual
/// item matches.
pub open spec fn unordered_error(aa: Seq<JsonView>, ea: Seq<JsonView>, io: bool, ie: bool, base: nat) -> Option<Seq<char>>
    decreases ea, 0nat,
{
    if ea.len() == 0 {
        None
    } else if !any_match(aa, ea[0], io, ie) {
        Some("Expected array item at index "@ + decimal(base) + " not found"@)
    } else {
        unordered_error(aa, ea.drop_first(), io, ie, base + 1)
    }
}

/// The first position, counting from `base`, whose actual item does not
/// match the expected one.
pub open spec fn ordered_error(aa: Seq<JsonView>, ea: Seq<JsonView>, io: bool, ie: bool, base: nat) -> Option<Seq<char>>
    decreases ea, 0nat,
{
    if ea.len() == 0 || aa.len() == 0 {
        None
    } else {
        match structure_error(aa[0], ea[0], io, ie) {
            Some(e) => Some("Array index "@ + decimal(base) + ": "@ + e),
            None => ordered_error(aa.drop_first(), ea.drop_first(), io, ie, base + 1),
        }
    }
}

/// Position of the first member of `m` named `k`, if there is one.
fn find_member(m: &Vec<(String, JsonValue)>, k: &str) -> (r: Option<usize>)
    ensures
        match r {
            None => member_value(members_view(m@), k@) is None,
            Some(j) => j < m@.len() && member_value(members_view(m@), k@) == Some(m@[j as int].1.view()),
        },
{
    proof { lemma_members_view(m@); }
    let ghost mv = members_view(m@);
    let mut i: usize = 0;
    assert(mv.subrange(0, mv.len() as int) =~= mv);
    while i < m.len()
        invariant
            i <= m@.len(),
            mv == members_view(m@),
            mv.len() == m@.len(),
            forall|q: int| 0 <= q < m@.len() ==> #[trigger] mv[q] == (m@[q].0@, m@[q].1.view()),
            member_value(mv, k@) == member_value(mv.subrange(i as int, mv.len() as int), k@),
        decreases m.len() - i,
    {
        let ghost rest = mv.subrange(i as int, mv.len() as int);
        assert(rest.drop_first() =~= mv.subrange(i + 1, mv.len() as int));
        assert(rest[0] == mv[i as int]);
        if crate::text::str_equal(m[i].0.as_str(), k) {
            return Some(i);
        }
        i = i + 1;
    }
    assert(mv.subrange(i as int, mv.len() as int).len() == 0);
    None
}

/// Compares JSON documents structurally.
pub struct JsonStructureAssertion {
    ignore_order: bool,
    ignore_extra_fields: bool,
}

impl JsonStructureAssertion {
    /// A strict comparison: array order and extra fields count.
    pub fn new() -> (r: Self)
        ensures
            !r.ignores_order(),
            !r.ignores_extra_fields(),
    {
        JsonStructureAssertion { ignore_order: false, ignore_extra_fields: false }
    }

    /// Whether array order is ignored.
    pub closed spec fn ignores_order(&self) -> bool {
        self.ignore_order
    }

    /// Whether fields the expectation lacks are allowed.
    pub closed spec fn ignores_extra_fields(&self) -> bool {
        self.ignore_extra_fields
    }

    /// The same comparison, ignoring array order.
    pub fn ignore_array_order(self) -> (r: Self)
        ensures
            r.ignores_order(),
            r.ignores_extra_fields() == self.ignores_extra_fields(),
    {
        JsonStructureAssertion { ignore_order: true, ..self }
    }

    /// The same comparison, allowing extra fields.
    pub fn ignore_extra_fields(self) -> (r: Self)
        ensures
            r.ignores_extra_fields(),
            r.ignores_order() == self.ignores_order(),
    {
        JsonStructureAssertion { ignore_extra_fields: true, ..self }
    }
    /// Runs the assertion on a response body, parsed (or the parse error's
    /// message), against an exact expected document; `expected_json` is the
    /// expectation in JSON form.
    pub fn execute(&self, parsed: Result<JsonValue, String>, expected: &ExpectedValue, expected_json: JsonValue) -> (r: AssertionResult)
        ensures
            match parsed {
                Err(m) => !r.success && r.message == m && r.actual_value is None && r.expected_value == Some(expected_json),
                Ok(a) => r.actual_value == Some(a) && match *expected {
                    ExpectedValue::Exact(e) => (r.expected_value matches Some(x) && x.view() == e.view())
                        && match structure_error(a.view(), e.view(), self.ignores_order(), self.ignores_extra_fields()) {
                            None => r.success && r.message@ == "JSON structure matches expected structure"@,
                            Some(err) => !r.success && r.message@ == "JSON structure mismatch: "@ + err,
                        },
                    _ => !r.success && r.message@ == "JSON structure assertion requires exact JSON value"@
                        && r.expected_value == Some(expected_json),
                },
            },
    {
        let a = match parsed {
            Err(m) => {
                return AssertionResult { success: false, message: m, actual_value: None, expected_value: Some(expected_json) };
            },
            Ok(a) => a,
        };
        let e = match expected {
            ExpectedValue::Exact(e) => e,
            _ => {
                return AssertionResult {
                    success: false,
                    message: owned("JSON structure assertion requires exact JSON value"),
                    actual_value: Some(a),
                    expected_value: Some(expected_json),
                };
            },
        };
        match self.deep_compare(&a, e) {
            Ok(_) => AssertionResult {
                success: true,
                message: owned("JSON structure matches expected structure"),
                actual_value: Some(a),
                expected_value: Some(e.duplicate()),
            },
            Err(err) => AssertionResult {
                success: false,
                message: concat("JSON structure mismatch: ", err.as_str()),
                actual_value: Some(a),
                expected_value: Some(e.duplicate()),
            },
        }
    }

    /// Checks that `actual` has the structure of `expected`, reporting the
    /// first difference found.
    pub fn deep_compare(&self, actual: &JsonValue, expected: &JsonValue) -> (r: Result<(), String>)
        ensures
            match structure_error(actual.view(), expected.view(), self.ignores_order(), self.ignores_extra_fields()) {
                None => r is Ok,
                Some(e) => r matches Err(m) && m@ == e,
            },
        decreases expected,
    {
        let io = self.ignore_order;
        let ie = self.ignore_extra_fields;
        match (actual, expected) {
            (JsonValue::Object(am), JsonValue::Object(em)) => {
                proof {
                    lemma_members_view(am@);
                    lemma_members_view(em@);
                }
                let ghost amv = members_view(am@);
                let ghost emv = members_view(em@);
                let mut i: usize = 0;
                assert(emv.subrange(0, emv.len() as int) =~= emv);
                while i < em.len()
                    invariant
                        i <= em@.len(),
                        *expected == JsonValue::Object(*em),
                        *actual == JsonValue::Object(*am),
                        io == self.ignores_order(),
                        ie == self.ignores_extra_fields(),
                        amv == members_view(am@),
                        emv == members_view(em@),
                        emv.len() == em@.len(),
                        forall|q: int| 0 <= q < em@.len() ==> #[trigger] emv[q] == (em@[q].0@, em@[q].1.view()),
                        fields_error(amv, emv, io, ie) == fields_error(amv, emv.subrange(i as int, emv.len() as int), io, ie),
                    decreases em@.len() - i,
                {
                    let ghost rest = emv.subrange(i as int, emv.len() as int);
                    assert(rest.drop_first() =~= emv.subrange(i + 1, emv.len() as int));
                    assert(rest[0] == emv[i as int]);
                    let k = &em[i].0;
                    match find_member(am, k.as_str()) {
                        None => {
                            return Err(concat3("Missing required field: '", k.as_str(), "'"));
                        },
                        Some(j) => {
                            proof {
                                assert(decreases_to!(*expected => (*expected)->Object_0));
                                assert(decreases_to!(*em => em@));
                                assert(decreases_to!(em@ => em@[i as int]));
                                assert(decreases_to!(em@[i as int] => em@[i as int].1));
                                assert(decreases_to!(*expected => em@[i as int].1));
                            }
                            match self.deep_compare(&am[j].1, &em[i].1) {
                                Err(e) => {
                                    let mut m = concat3("Field '", k.as_str(), "': ");
                                    m.append(e.as_str());
                                    return Err(m);
                                },
                                Ok(_) => {},
                            }
                        },
                    }
                    i = i + 1;
                }
                assert(emv.subrange(i as int, emv.len() as int).len() == 0);
                if !ie {
                    let mut a: usize = 0;
                    proof { assert(amv.subrange(0, amv.len() as int) =~= amv); }
                    while a < am.len()
                        invariant
                            a <= am@.len(),
                            !ie,
                            ie == self.ignores_extra_fields(),
                            io == self.ignores_order(),
                            *expected == JsonValue::Object(*em),
                            *actual == JsonValue::Object(*am),
                            fields_error(amv, emv, io, ie) is None,
                            amv == members_view(am@),
                            emv == members_view(em@),
                            amv.len() == am@.len(),
                            forall|q: int| 0 <= q < am@.len() ==> #[trigger] amv[q] == (am@[q].0@, am@[q].1.view()),
                            extra_field_error(amv, emv) == extra_field_error(amv.subrange(a as int, amv.len() as int), emv),
                        decreases am@.len() - a,
                    {
                        let ghost rest = amv.subrange(a as int, amv.len() as int);
                        assert(rest.drop_first() =~= amv.subrange(a + 1, amv.len() as int));
                        assert(rest[0] == amv[a as int]);
                        let k = &am[a].0;
                        if find_member(em, k.as_str()).is_none() {
                            return Err(concat3("Unexpected field: '", k.as_str(), "'"));
                        }
                        a = a + 1;
                    }
                    assert(amv.subrange(a as int, amv.len() as int).len() == 0);
                }
                Ok(())
            },
            (JsonValue::Array(aa), JsonValue::Array(ea)) => {
                proof {
                    lemma_array_view(aa@);
                    lemma_array_view(ea@);
                }
                let ghost aav = array_view(aa@);
                let ghost eav = array_view(ea@);
                if aa.len() != ea.len() {
                    let mut m = owned("Array length mismatch: expected ");
                    m.append(decimal_text(ea.len() as u64).as_str());
                    m.append(", got ");
                    m.append(decimal_text(aa.len() as u64).as_str());
                    return Err(m);
                }
                let n = ea.len();
                let mut i: usize = 0;
                assert(eav.subrange(0, n as int) =~= eav);
                assert(aav.subrange(0, n as int) =~= aav);
                if io {
                    while i < n
                        invariant
                            i <= n,
                            n == ea@.len(),
                            n == aa@.len(),
                            *expected == JsonValue::Array(*ea),
                            *actual == JsonValue::Array(*aa),
                            io == self.ignores_order(),
                            ie == self.ignores_extra_fields(),
                            io,
                            aav == array_view(aa@),
                            eav == array_view(ea@),
                            aav.len() == n,
                            eav.len() == n,
                            forall|q: int| 0 <= q < n ==> #[trigger] aav[q] == aa@[q].view(),
                            forall|q: int| 0 <= q < n ==> #[trigger] eav[q] == ea@[q].view(),
                            unordered_error(aav, eav, io, ie, 0) == unordered_error(aav, eav.subrange(i as int, n as int), io, ie, i as nat),
                        decreases n - i,
                    {
                        let ghost rest = eav.subrange(i as int, n as int);
                        assert(rest.drop_first() =~= eav.subrange(i + 1, n as int));
                        assert(rest[0] == eav[i as int]);
                        proof {
                            assert(decreases_to!(*expected => (*expected)->Array_0));
                            assert(decreases_to!(*ea => ea@));
                            assert(decreases_to!(ea@ => ea@[i as int]));
                            assert(decreases_to!(*expected => ea@[i as int]));
                        }
                        let mut found = false;
                        let mut j: usize = 0;
                        assert(aav.subrange(0, n as int) =~= aav);
                        while j < n
                            invariant_except_break
                                j <= n,
                                !found,
                                any_match(aav, eav[i as int], io, ie) == any_match(aav.subrange(j as int, n as int), eav[i as int], io, ie),
                            invariant
                                i < n,
                                n == aa@.len(),
                                n == ea@.len(),
                                aav.len() == n,
                                forall|q: int| 0 <= q < n ==> #[trigger] aav[q] == aa@[q].view(),
                                eav[i as int] == ea@[i as int].view(),
                                io == self.ignores_order(),
                                ie == self.ignores_extra_fields(),
                                decreases_to!(*expected => ea@[i as int]),
                            ensures
                                found == any_match(aav, eav[i as int], io, ie),
                            decreases n - j,
                        {
                            let ghost sub = aav.subrange(j as int, n as int);
                            assert(sub.drop_first() =~= aav.subrange(j + 1, n as int));
                            assert(sub[0] == aav[j as int]);
                            if self.deep_compare(&aa[j], &ea[i]).is_ok() {
                                found = true;
                                break;
                            }
                            j = j + 1;
                        }
                        proof {
                            assert(rest[0] == eav[i as int]);
                            assert(rest.drop_first() =~= eav.subrange(i + 1, n as int));
                        }
                        if !found {
                            let mut m = owned("Expected array item at index ");
                            m.append(decimal_text(i as u64).as_str());
                            m.append(" not found");
                            return Err(m);
                        }
                        i = i + 1;
                    }
                } else {
                    while i < n
                        invariant
                            i <= n,
                            n == ea@.len(),
                            n == aa@.len(),
                            *expected == JsonValue::Array(*ea),
                            *actual == JsonValue::Array(*aa),
                            io == self.ignores_order(),
                            ie == self.ignores_extra_fields(),
                            !io,
                            aav == array_view(aa@),
                            eav == array_view(ea@),
                            aav.len() == n,
                            eav.len() == n,
                            forall|q: int| 0 <= q < n ==> #[trigger] aav[q] == aa@[q].view(),
                            forall|q: int| 0 <= q < n ==> #[trigger] eav[q] == ea@[q].view(),
                            ordered_error(aav, eav, io, ie, 0) == ordered_error(
                                aav.subrange(i as int, n as int),
                                eav.subrange(i as int, n as int),
                                io,
                                ie,
                                i as nat,
                            ),
                        decreases n - i,
                    {
                        let ghost ra = aav.subrange(i as int, n as int);
                        let ghost re = eav.subrange(i as int, n as int);
                        assert(ra.drop_first() =~= aav.subrange(i + 1, n as int));
                        assert(re.drop_first() =~= eav.subrange(i + 1, n as int));
                        assert(ra[0] == aav[i as int] && re[0] == eav[i as int]);
                        proof {
                            assert(decreases_to!(*expected => (*expected)->Array_0));
                            assert(decreases_to!(*ea => ea@));
                            assert(decreases_to!(ea@ => ea@[i as int]));
                            assert(decreases_to!(*expected => ea@[i as int]));
                        }
                        match self.deep_compare(&aa[i], &ea[i]) {
                            Err(e) => {
                                let mut m = owned("Array index ");
                                m.append(decimal_text(i as u64).as_str());
                                m.append(": ");
                                m.append(e.as_str());
                                return Err(m);
                            },
                            Ok(_) => {},
                        }
                        i = i + 1;
                    }
                }
                Ok(())
            },
            _ => {
                if json_equal(actual, expected) {
                    Ok(())
                } else {
                    let mut m = owned("Value mismatch: expected ");
                    m.append(expected.to_json_string().as_str());
                    m.append(", got ");
                    m.append(actual.to_json_string().as_str());
                    Err(m)
                }
            },
        }
    }
}

/// Whether `data` has the type the schema members `sm` name, if they name one.
pub open spec fn type_passes(data: JsonView, sm: Seq<(Seq<char>, JsonView)>) -> bool {
    match member_value(sm, "type"@) {
        Some(JsonView::String(t)) => json_type_name(data) == t,
        _ => true,
    }
}

/// The JSON type name of a value.
fn type_name_of(v: &JsonValue) -> (r: &'static str)
    ensures
        r@ == json_type_name(v.view()),
{
    match v {
        JsonValue::Null => "null",
        JsonValue::Bool(_) => "boolean",
        JsonValue::Number(_) => "number",
        JsonValue::String(_) => "string",
        JsonValue::Array(_) => "array",
        JsonValue::Object(_) => "object",
    }
}

impl JsonSchemaAssertion {
    /// Runs the assertion on a response body, parsed (or the parse error's
    /// message): with no schema it fails; otherwise the body is checked
    /// against the schema.
    pub fn execute(&self, parsed: Result<JsonValue, String>) -> (r: AssertionResult)
        ensures
            match self.schema_view() {
                None => !r.success && r.message@ == "No JSON schema configured"@ && r.actual_value is None
                    && r.expected_value is None,
                Some(sv) => (r.expected_value matches Some(x) && x.view() == sv) && match parsed {
                    Err(m) => !r.success && r.message == m && r.actual_value is None,
                    Ok(d) => r.actual_value == Some(d) && match schema_error(d.view(), sv) {
                        None => r.success && r.message@ == "JSON response validates against schema"@,
                        Some(e) => !r.success && r.message@ == "JSON schema validation failed: "@ + e,
                    },
                },
            },
    {
        let schema = match &self.schema {
            Some(s) => s,
            None => {
                return AssertionResult {
                    success: false,
                    message: owned("No JSON schema configured"),
                    actual_value: None,
                    expected_value: None,
                };
            },
        };
        match parsed {
            Err(m) => AssertionResult { success: false, message: m, actual_value: None, expected_value: Some(schema.duplicate()) },
            Ok(d) => match self.validate_against_schema(&d, schema) {
                Ok(_) => AssertionResult {
                    success: true,
                    message: owned("JSON response validates against schema"),
                    actual_value: Some(d),
                    expected_value: Some(schema.duplicate()),
                },
                Err(e) => AssertionResult {
                    success: false,
                    message: concat("JSON schema validation failed: ", e.as_str()),
                    actual_value: Some(d),
                    expected_value: Some(schema.duplicate()),
                },
            },
        }
    }

    /// Checks `data` against `schema`, reporting the first failure found.
    pub fn validate_against_schema(&self, data: &JsonValue, schema: &JsonValue) -> (r: Result<(), String>)
        ensures
            match schema_error(data.view(), schema.view()) {
                None => r is Ok,
                Some(e) => r matches Err(m) && m@ == e,
            },
        decreases schema,
    {
        let sm = match schema {
            JsonValue::Object(sm) => sm,
            _ => { return Ok(()); },
        };
        proof { lemma_members_view(sm@); }
        let ghost smv = members_view(sm@);
        match find_member(sm, "type") {
            Some(ti) => match &sm[ti].1 {
                JsonValue::String(t) => {
                    let an = type_name_of(data);
                    if !crate::text::str_equal(an, t.as_str()) {
                        let mut m = concat("Type mismatch: expected ", t.as_str());
                        m.append(", got ");
                        m.append(an);
                        return Err(m);
                    }
                },
                _ => {},
            },
            None => {},
        }
        assert(type_passes(data.view(), smv));
        assert(schema.view() == JsonView::Object(smv));
        match data {
            JsonValue::Object(dm) => {
                proof { lemma_members_view(dm@); }
                let ghost dmv = members_view(dm@);
                match find_member(sm, "required") {
                    Some(ri) => match &sm[ri].1 {
                        JsonValue::Array(rs) => {
                            proof {
                                lemma_array_view(rs@);
                                assert(member_value(smv, "required"@) == Some(sm@[ri as int].1.view()));
                            }
                            let ghost rsv = array_view(rs@);
                            let mut i: usize = 0;
                            assert(rsv.subrange(0, rsv.len() as int) =~= rsv);
                            while i < rs.len()
                                invariant
                                    i <= rs@.len(),
                                    rsv == array_view(rs@),
                                    rsv.len() == rs@.len(),
                                    forall|q: int| 0 <= q < rs@.len() ==> #[trigger] rsv[q] == rs@[q].view(),
                                    dmv == members_view(dm@),
                                    data.view() == JsonView::Object(dmv),
                                    schema.view() == JsonView::Object(smv),
                                    type_passes(data.view(), smv),
                                    member_value(smv, "required"@) == Some(JsonView::Array(rsv)),
                                    first_missing(dmv, rsv) == first_missing(dmv, rsv.subrange(i as int, rsv.len() as int)),
                                decreases rs@.len() - i,
                            {
                                let ghost rest = rsv.subrange(i as int, rsv.len() as int);
                                assert(rest.drop_first() =~= rsv.subrange(i + 1, rsv.len() as int));
                                assert(rest[0] == rsv[i as int]);
                                match &rs[i] {
                                    JsonValue::String(f) => {
                                        if find_member(dm, f.as_str()).is_none() {
                                            return Err(concat3("Required field '", f.as_str(), "' is missing"));
                                        }
                                    },
                                    _ => {},
                                }
                                i = i + 1;
                            }
                        },
                        _ => {},
                    },
                    None => {},
                }
                match find_member(sm, "properties") {
                    Some(pi) => match &sm[pi].1 {
                        JsonValue::Object(props) => {
                            proof {
                                lemma_members_view(props@);
                                assert(member_value(smv, "properties"@) == Some(sm@[pi as int].1.view()));
                            }
                            let ghost pv = members_view(props@);
                            let mut j: usize = 0;
                            assert(pv.subrange(0, pv.len() as int) =~= pv);
                            while j < props.len()
                                invariant
                                    j <= props@.len(),
                                    *schema == JsonValue::Object(*sm),
                                    pi < sm@.len(),
                                    sm@[pi as int].1 == JsonValue::Object(*props),
                                    pv == members_view(props@),
                                    pv.len() == props@.len(),
                                    forall|q: int| 0 <= q < props@.len() ==> #[trigger] pv[q] == (props@[q].0@, props@[q].1.view()),
                                    dmv == members_view(dm@),
                                    dmv.len() == dm@.len(),
                                    forall|q: int| 0 <= q < dm@.len() ==> #[trigger] dmv[q] == (dm@[q].0@, dm@[q].1.view()),
                                    data.view() == JsonView::Object(dmv),
                                    schema.view() == JsonView::Object(smv),
                                    type_passes(data.view(), smv),
                                    required_error(dmv, member_value(smv, "required"@)) is None,
                                    member_value(smv, "properties"@) == Some(JsonView::Object(pv)),
                                    properties_error(dmv, pv) == properties_error(dmv, pv.subrange(j as int, pv.len() as int)),
                                decreases props@.len() - j,
                            {
                                let ghost rest = pv.subrange(j as int, pv.len() as int);
                                assert(rest.drop_first() =~= pv.subrange(j + 1, pv.len() as int));
                                assert(rest[0] == pv[j as int]);
                                match find_member(dm, props[j].0.as_str()) {
                                    Some(di) => {
                                        proof {
                                            assert(decreases_to!(*schema => (*schema)->Object_0));
                                            assert(decreases_to!(*sm => sm@));
                                            assert(decreases_to!(sm@ => sm@[pi as int]));
                                            assert(decreases_to!(sm@[pi as int] => sm@[pi as int].1));
                                            assert(decreases_to!(sm@[pi as int].1 => (sm@[pi as int].1)->Object_0));
                                            assert(decreases_to!(*props => props@));
                                            assert(decreases_to!(props@ => props@[j as int]));
                                            assert(decreases_to!(props@[j as int] => props@[j as int].1));
                                            assert(decreases_to!(*schema => props@[j as int].1));
                                        }
                                        match self.validate_against_schema(&dm[di].1, &props[j].1) {
                                            Err(e) => { return Err(e); },
                                            Ok(_) => {},
                                        }
                                    },
                                    None => {},
                                }
                                j = j + 1;
                            }
                        },
                        _ => {},
                    },
                    None => {},
                }
                Ok(())
            },
            JsonValue::Array(da) => {
                match find_member(sm, "items") {
                    Some(ii) => {
                        proof { lemma_array_view(da@); }
                        let ghost dav = array_view(da@);
                        let items = &sm[ii].1;
                        let mut k: usize = 0;
                        assert(dav.subrange(0, dav.len() as int) =~= dav);
                        while k < da.len()
                            invariant
                                k <= da@.len(),
                                *schema == JsonValue::Object(*sm),
                                ii < sm@.len(),
                                *items == sm@[ii as int].1,
                                dav == array_view(da@),
                                dav.len() == da@.len(),
                                forall|q: int| 0 <= q < da@.len() ==> #[trigger] dav[q] == da@[q].view(),
                                data.view() == JsonView::Array(dav),
                                schema.view() == JsonView::Object(smv),
                                type_passes(data.view(), smv),
                                member_value(smv, "items"@) == Some(items.view()),
                                items_error(dav, items.view()) == items_error(dav.subrange(k as int, dav.len() as int), items.view()),
                            decreases da@.len() - k,
                        {
                            let ghost rest = dav.subrange(k as int, dav.len() as int);
                            assert(rest.drop_first() =~= dav.subrange(k + 1, dav.len() as int));
                            assert(rest[0] == dav[k as int]);
                            proof {
                                assert(decreases_to!(*schema => (*schema)->Object_0));
                                assert(decreases_to!(*sm => sm@));
                                assert(decreases_to!(sm@ => sm@[ii as int]));
                                assert(decreases_to!(sm@[ii as int] => sm@[ii as int].1));
                                assert(decreases_to!(*schema => *items));
                            }
                            match self.validate_against_schema(&da[k], items) {
                                Err(e) => { return Err(e); },
                                Ok(_) => {},
                            }
                            k = k + 1;
                        }
                        Ok(())
                    },
                    None => Ok(()),
                }
            },
            _ => Ok(()),
        }
    }
}

} // verus!
