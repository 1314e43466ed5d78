//! Transformation stages built from their JSON parameters, value
//! substitution and validation, and the pipeline that holds stages in order.

use vstd::prelude::*;
use crate::text::{owned, concat, concat3, copy_string, str_equal, views, contains_string, decimal, decimal_text};
use crate::configuration::{parse_unsigned, parse_unsigned_text, debug_list, debug_strings};
use crate::data_source::opt_text;
use vstd::utf8::encode_utf8;
use crate::strmap::StrMap;
use crate::json::{JsonValue, JsonView, param_views, members_view, lemma_members_view, array_view, lemma_array_view};
use crate::error::DataSourceError;
use crate::pattern::{regex_error_text, regex_replaced, regex_finds, check_pattern, pattern_matches, replace_pattern};
use crate::json::lemma_param_views_insert;
use crate::data_source::{DataRecord, DataTransformation, FieldMappingTransform, FieldFilterTransform, TypeConversionTransform, DataType, text_views, opt_views};

verus! {

// ---------------------------------------------------------------- decoding

/// The members of an object decoded by `f`, keyed by name (a later member
/// wins), or nothing when some member does not decode.
pub open spec fn decode_members<T>(m: Seq<(Seq<char>, JsonView)>, f: spec_fn(JsonView) -> Option<T>) -> Option<Map<Seq<char>, T>>
    decreases m.len(),
{
    if m.len() == 0 {
        Some(Map::empty())
    } else {
        match decode_members(m.drop_last(), f) {
            Some(acc) => match f(m.last().1) {
                Some(x) => Some(acc.insert(m.last().0, x)),
                None => None,
            },
            None => None,
        }
    }
}

/// The items of an array decoded by `f`, in order, or nothing when some item
/// does not decode.
pub open spec fn decode_items<T>(a: Seq<JsonView>, f: spec_fn(JsonView) -> Option<T>) -> Option<Seq<T>>
    decreases a.len(),
{
    if a.len() == 0 {
        Some(Seq::empty())
    } else {
        match decode_items(a.drop_last(), f) {
            Some(acc) => match f(a.last()) {
                Some(x) => Some(acc.push(x)),
                None => None,
            },
            None => None,
        }
    }
}

/// Once a prefix of the members fails to decode, all of them fail.
proof fn lemma_members_fail<T>(m: Seq<(Seq<char>, JsonView)>, f: spec_fn(JsonView) -> Option<T>, j: int)
    requires
        0 <= j <= m.len(),
        decode_members(m.take(j), f) is None,
    ensures
        decode_members(m, f) is None,
    decreases m.len() - j,
{
    if j < m.len() {
        assert(m.take(j + 1).drop_last() =~= m.take(j));
        lemma_members_fail(m, f, j + 1);
    } else {
        assert(m.take(j) =~= m);
    }
}

/// Once a prefix of the items fails to decode, all of them fail.
proof fn lemma_items_fail<T>(a: Seq<JsonView>, f: spec_fn(JsonView) -> Option<T>, j: int)
    requires
        0 <= j <= a.len(),
        decode_items(a.take(j), f) is None,
    ensures
        decode_items(a, f) is None,
    decreases a.len() - j,
{
    if j < a.len() {
        assert(a.take(j + 1).drop_last() =~= a.take(j));
        lemma_items_fail(a, f, j + 1);
    } else {
        assert(a.take(j) =~= a);
    }
}

/// The text of a JSON string.
pub open spec fn text_of(v: JsonView) -> Option<Seq<char>> {
    match v {
        JsonView::String(s) => Some(s),
        _ => None,
    }
}

/// Decodes a JSON string.
pub open spec fn text_decoder() -> spec_fn(JsonView) -> Option<Seq<char>> {
    |x: JsonView| text_of(x)
}

/// Decodes a JSON string naming a data type.
pub open spec fn type_decoder() -> spec_fn(JsonView) -> Option<DataType> {
    |x: JsonView| data_type_of(x)
}

/// An object whose member values are all strings, as a map of texts.
pub open spec fn text_map_of(v: JsonView) -> Option<Map<Seq<char>, Seq<char>>> {
    match v {
        JsonView::Object(m) => decode_members(m, text_decoder()),
        _ => None,
    }
}

/// An array whose items are all strings, as a sequence of texts.
pub open spec fn text_list_of(v: JsonView) -> Option<Seq<Seq<char>>> {
    match v {
        JsonView::Array(a) => decode_items(a, text_decoder()),
        _ => None,
    }
}

/// The data type a JSON string names.
pub open spec fn data_type_of(v: JsonView) -> Option<DataType> {
    match v {
        JsonView::String(s) => if s == "String"@ {
            Some(DataType::String)
        } else if s == "Integer"@ {
            Some(DataType::Integer)
        } else if s == "Float"@ {
            Some(DataType::Float)
        } else if s == "Boolean"@ {
            Some(DataType::Boolean)
        } else if s == "Array"@ {
            Some(DataType::Array)
        } else if s == "Object"@ {
            Some(DataType::Object)
        } else {
            None
        },
        _ => None,
    }
}

/// An object whose member values all name data types.
pub open spec fn type_map_of(v: JsonView) -> Option<Map<Seq<char>, DataType>> {
    match v {
        JsonView::Object(m) => decode_members(m, type_decoder()),
        _ => None,
    }
}

fn text_value(v: &JsonValue) -> (r: Option<String>)
    ensures
        match text_of(v.view()) {
            Some(s) => r matches Some(x) && x@ == s,
            None => r is None,
        },
{
    match v {
        JsonValue::String(s) => Some(copy_string(s)),
        _ => None,
    }
}

/// Decodes an object of strings.
fn decode_text_map(v: &JsonValue) -> (r: Option<StrMap<String>>)
    ensures
        match text_map_of(v.view()) {
            Some(m) => r matches Some(x) && text_views(x@) == m,
            None => r is None,
        },
{
    match v {
        JsonValue::Object(members) => {
            let ghost f = text_decoder();
            let ghost mv = members_view(members@);
            proof {
                lemma_members_view(members@);
                assert(mv.take(0) =~= Seq::<(Seq<char>, JsonView)>::empty());
            }
            let mut out: StrMap<String> = StrMap::new();
            assert(text_views(out@) =~= Map::<Seq<char>, Seq<char>>::empty());
            let mut i: usize = 0;
            while i < members.len()
                invariant
                    i <= members@.len(),
                    f == text_decoder(),
                    mv == members_view(members@),
                    v.view() == JsonView::Object(mv),
                    mv.len() == members@.len(),
                    forall|j: int| 0 <= j < members@.len() ==> #[trigger] mv[j] == (members@[j].0@, members@[j].1.view()),
                    decode_members(mv.take(i as int), f) == Some(text_views(out@)),
                decreases members.len() - i,
            {
                let pair = &members[i];
                proof {
                    assert(mv.take(i + 1).drop_last() =~= mv.take(i as int));
                    assert(mv.take(i + 1).last() == mv[i as int]);
                }
                match text_value(&pair.1) {
                    Some(s) => {
                        let ghost before = out@;
                        out.insert(copy_string(&pair.0), s);
                        assert(text_views(out@) =~= text_views(before).insert(pair.0@, s@));
                    },
                    None => {
                        proof {
                            lemma_members_fail(mv, f, i + 1);
                        }
                        return None;
                    },
                }
                i = i + 1;
            }
            assert(mv.take(members@.len() as int) =~= mv);
            Some(out)
        },
        _ => None,
    }
}

/// Decodes an array of strings.
fn decode_text_list(v: &JsonValue) -> (r: Option<Vec<String>>)
    ensures
        match text_list_of(v.view()) {
            Some(l) => r matches Some(x) && views(x@) == l,
            None => r is None,
        },
{
    match v {
        JsonValue::Array(items) => {
            let ghost f = text_decoder();
            let ghost av = array_view(items@);
            proof {
                lemma_array_view(items@);
                assert(av.take(0) =~= Seq::<JsonView>::empty());
            }
            let mut out: Vec<String> = Vec::new();
            assert(views(out@) =~= Seq::<Seq<char>>::empty());
            let mut i: usize = 0;
            while i < items.len()
                invariant
                    i <= items@.len(),
                    f == text_decoder(),
                    av == array_view(items@),
                    v.view() == JsonView::Array(av),
                    av.len() == items@.len(),
                    forall|j: int| 0 <= j < items@.len() ==> #[trigger] av[j] == items@[j].view(),
                    decode_items(av.take(i as int), f) == Some(views(out@)),
                decreases items.len() - i,
            {
                proof {
                    assert(av.take(i + 1).drop_last() =~= av.take(i as int));
                    assert(av.take(i + 1).last() == av[i as int]);
                }
                match text_value(&items[i]) {
                    Some(s) => {
                        let ghost before = out@;
                        out.push(s);
                        assert(views(out@) =~= views(before).push(s@));
                    },
                    None => {
                        proof { lemma_items_fail(av, f, i + 1); }
                        return None;
                    },
                }
                i = i + 1;
            }
            assert(av.take(items@.len() as int) =~= av);
            Some(out)
        },
        _ => None,
    }
}

fn data_type_value(v: &JsonValue) -> (r: Option<DataType>)
    ensures
        r == data_type_of(v.view()),
{
    match v {
        JsonValue::String(s) => {
            if str_equal(s.as_str(), "String") {
                Some(DataType::String)
            } else if str_equal(s.as_str(), "Integer") {
                Some(DataType::Integer)
            } else if str_equal(s.as_str(), "Float") {
                Some(DataType::Float)
            } else if str_equal(s.as_str(), "Boolean") {
                Some(DataType::Boolean)
            } else if str_equal(s.as_str(), "Array") {
                Some(DataType::Array)
            } else if str_equal(s.as_str(), "Object") {
                Some(DataType::Object)
            } else {
                None
            }
        },
        _ => None,
    }
}

/// Decodes an object of data type names.
fn decode_type_map(v: &JsonValue) -> (r: Option<StrMap<DataType>>)
    ensures
        match type_map_of(v.view()) {
            Some(m) => r matches Some(x) && x@ == m,
            None => r is None,
        },
{
    match v {
        JsonValue::Object(members) => {
            let ghost f = type_decoder();
            let ghost mv = members_view(members@);
            proof {
                lemma_members_view(members@);
                assert(mv.take(0) =~= Seq::<(Seq<char>, JsonView)>::empty());
            }
            let mut out: StrMap<DataType> = StrMap::new();
            let mut i: usize = 0;
            while i < members.len()
                invariant
                    i <= members@.len(),
                    f == type_decoder(),
                    mv == members_view(members@),
                    v.view() == JsonView::Object(mv),
                    mv.len() == members@.len(),
                    forall|j: int| 0 <= j < members@.len() ==> #[trigger] mv[j] == (members@[j].0@, members@[j].1.view()),
                    decode_members(mv.take(i as int), f) == Some(out@),
                decreases members.len() - i,
            {
                let pair = &members[i];
                proof {
                    assert(mv.take(i + 1).drop_last() =~= mv.take(i as int));
                    assert(mv.take(i + 1).last() == mv[i as int]);
                }
                match data_type_value(&pair.1) {
                    Some(t) => {
                        out.insert(copy_string(&pair.0), t);
                    },
                    None => {
                        proof { lemma_members_fail(mv, f, i + 1); }
                        return None;
                    },
                }
                i = i + 1;
            }
            assert(mv.take(members@.len() as int) =~= mv);
            Some(out)
        },
        _ => None,
    }
}

// ---------------------------------------------------------------- stage views

/// A failure while building or running a stage, as text.
pub enum StageErrorView {
    Config(Seq<char>),
    Transformation(Seq<char>),
}

/// The failure an error stands for.
pub open spec fn stage_error(e: DataSourceError) -> Option<StageErrorView> {
    match e {
        DataSourceError::ConfigError(m) => Some(StageErrorView::Config(m@)),
        DataSourceError::TransformationFailed(m) => Some(StageErrorView::Transformation(m@)),
        _ => None,
    }
}

/// Whether `r` failed with the error `e`.
pub open spec fn failed_with<T>(r: Result<T, DataSourceError>, e: StageErrorView) -> bool {
    r matches Err(x) && stage_error(x) == Some(e)
}

/// A validation rule as plain values.
pub enum RuleView {
    Required,
    MinLength(usize),
    MaxLength(usize),
    Pattern(Seq<char>),
    Range(Seq<char>, Seq<char>),
    OneOf(Seq<Seq<char>>),
}

/// What a stage does, as plain values.
pub enum StageView {
    FieldMapping(Map<Seq<char>, Seq<char>>),
    ValueSubstitution(Map<Seq<char>, Map<Seq<char>, Seq<char>>>, Map<Seq<char>, Seq<(Seq<char>, Seq<char>)>>),
    TypeConversion(Map<Seq<char>, DataType>),
    FieldFilter(Option<Seq<Seq<char>>>, Option<Seq<Seq<char>>>),
    ValueValidation(Map<Seq<char>, RuleView>),
}

/// The field mapping stage its parameters describe.
pub open spec fn mapping_stage(params: Map<Seq<char>, JsonView>) -> Result<StageView, StageErrorView> {
    if !params.dom().contains("mappings"@) {
        Err(StageErrorView::Config("Missing 'mappings' in field mapping config"@))
    } else {
        match text_map_of(params["mappings"@]) {
            Some(m) => Ok(StageView::FieldMapping(m)),
            None => Err(StageErrorView::Config("Invalid mappings format: expected an object of strings"@)),
        }
    }
}

/// The field filter stage its parameters describe.
pub open spec fn filter_stage(params: Map<Seq<char>, JsonView>) -> Result<StageView, StageErrorView> {
    let inc = if params.dom().contains("include_fields"@) { Some(text_list_of(params["include_fields"@])) } else { None };
    let exc = if params.dom().contains("exclude_fields"@) { Some(text_list_of(params["exclude_fields"@])) } else { None };
    if inc == Some(None::<Seq<Seq<char>>>) {
        Err(StageErrorView::Config("Invalid include_fields format: expected an array of strings"@))
    } else if exc == Some(None::<Seq<Seq<char>>>) {
        Err(StageErrorView::Config("Invalid exclude_fields format: expected an array of strings"@))
    } else {
        Ok(StageView::FieldFilter(
            match inc { Some(x) => x, None => None },
            match exc { Some(x) => x, None => None },
        ))
    }
}

/// The type conversion stage its parameters describe.
pub open spec fn conversion_stage(params: Map<Seq<char>, JsonView>) -> Result<StageView, StageErrorView> {
    if !params.dom().contains("conversions"@) {
        Err(StageErrorView::Config("Missing 'conversions' in type conversion config"@))
    } else {
        match type_map_of(params["conversions"@]) {
            Some(m) => Ok(StageView::TypeConversion(m)),
            None => Err(StageErrorView::Config("Invalid conversions format: expected an object of data type names"@)),
        }
    }
}

impl FieldMappingTransform {
    /// A field mapping from its parameters: `mappings`, an object from old
    /// field names to new ones.
    pub fn from_config(config: &StrMap<JsonValue>) -> (r: Result<FieldMappingTransform, DataSourceError>)
        ensures
            match mapping_stage(param_views(config@)) {
                Ok(v) => r matches Ok(t) && v == StageView::FieldMapping(t.mapping()),
                Err(e) => failed_with(r, e),
            },
    {
        match config.get("mappings") {
            None => Err(DataSourceError::ConfigError(owned("Missing 'mappings' in field mapping config"))),
            Some(v) => match decode_text_map(v) {
                Some(m) => Ok(FieldMappingTransform::new(m)),
                None => Err(DataSourceError::ConfigError(owned("Invalid mappings format: expected an object of strings"))),
            },
        }
    }
}

impl FieldFilterTransform {
    /// A field filter from its parameters: optional `include_fields` and
    /// `exclude_fields`, each an array of field names.
    pub fn from_config(config: &StrMap<JsonValue>) -> (r: Result<FieldFilterTransform, DataSourceError>)
        ensures
            match filter_stage(param_views(config@)) {
                Ok(v) => r matches Ok(t) && v == StageView::FieldFilter(t.includes(), t.excludes()),
                Err(e) => failed_with(r, e),
            },
    {
        let include_fields = match config.get("include_fields") {
            Some(v) => match decode_text_list(v) {
                Some(l) => Some(l),
                None => {
                    return Err(DataSourceError::ConfigError(owned("Invalid include_fields format: expected an array of strings")));
                },
            },
            None => None,
        };
        let exclude_fields = match config.get("exclude_fields") {
            Some(v) => match decode_text_list(v) {
                Some(l) => Some(l),
                None => {
                    return Err(DataSourceError::ConfigError(owned("Invalid exclude_fields format: expected an array of strings")));
                },
            },
            None => None,
        };
        Ok(FieldFilterTransform::new(include_fields, exclude_fields))
    }
}

impl TypeConversionTransform {
    /// A type conversion from its parameters: `conversions`, an object from
    /// field names to data type names.
    pub fn from_config(config: &StrMap<JsonValue>) -> (r: Result<TypeConversionTransform, DataSourceError>)
        ensures
            match conversion_stage(param_views(config@)) {
                Ok(v) => r matches Ok(t) && v == StageView::TypeConversion(t.conversion_map()),
                Err(e) => failed_with(r, e),
            },
    {
        match config.get("conversions") {
            None => Err(DataSourceError::ConfigError(owned("Missing 'conversions' in type conversion config"))),
            Some(v) => match decode_type_map(v) {
                Some(m) => Ok(TypeConversionTransform::new(m)),
                None => Err(DataSourceError::ConfigError(owned("Invalid conversions format: expected an object of data type names"))),
            },
        }
    }
}


// ---------------------------------------------------------------- value substitution

/// A `[pattern, replacement]` pair of strings.
pub open spec fn pair_of(v: JsonView) -> Option<(Seq<char>, Seq<char>)> {
    match v {
        JsonView::Array(a) => if a.len() == 2 {
            match (a[0], a[1]) {
                (JsonView::String(p), JsonView::String(q)) => Some((p, q)),
                _ => None,
            }
        } else {
            None
        },
        _ => None,
    }
}

/// Decodes a `[pattern, replacement]` pair.
pub open spec fn pair_decoder() -> spec_fn(JsonView) -> Option<(Seq<char>, Seq<char>)> {
    |x: JsonView| pair_of(x)
}

/// An array of `[pattern, replacement]` pairs.
pub open spec fn pair_list_of(v: JsonView) -> Option<Seq<(Seq<char>, Seq<char>)>> {
    match v {
        JsonView::Array(a) => decode_items(a, pair_decoder()),
        _ => None,
    }
}

/// Decodes an array of `[pattern, replacement]` pairs.
pub open spec fn pair_list_decoder() -> spec_fn(JsonView) -> Option<Seq<(Seq<char>, Seq<char>)>> {
    |x: JsonView| pair_list_of(x)
}

/// Decodes an object of strings.
pub open spec fn text_map_decoder() -> spec_fn(JsonView) -> Option<Map<Seq<char>, Seq<char>>> {
    |x: JsonView| text_map_of(x)
}

/// The message for the first pattern of the pairs that does not compile.
pub open spec fn bad_pattern_in(pairs: Seq<(Seq<char>, Seq<char>)>) -> Option<Seq<char>>
    decreases pairs.len(),
{
    if pairs.len() == 0 {
        None
    } else {
        match bad_pattern_in(pairs.drop_last()) {
            Some(m) => Some(m),
            None => match regex_error_text(pairs.last().0) {
                Some(e) => Some("Invalid regex pattern '"@ + pairs.last().0 + "': "@ + e),
                None => None,
            },
        }
    }
}

/// The message for the first pattern, in member order, that does not compile.
pub open spec fn bad_pattern_members(m: Seq<(Seq<char>, JsonView)>) -> Option<Seq<char>>
    decreases m.len(),
{
    if m.len() == 0 {
        None
    } else {
        match bad_pattern_members(m.drop_last()) {
            Some(x) => Some(x),
            None => match pair_list_of(m.last().1) {
                Some(p) => bad_pattern_in(p),
                None => None,
            },
        }
    }
}

/// The value substitution stage its parameters describe: optional
/// `substitutions` (field to old value to new value) and
/// `regex_substitutions` (field to `[pattern, replacement]` pairs), every
/// pattern compiling.
pub open spec fn substitution_stage(params: Map<Seq<char>, JsonView>) -> Result<StageView, StageErrorView> {
    let subs = if params.dom().contains("substitutions"@) {
        match params["substitutions"@] {
            JsonView::Object(m) => decode_members(m, text_map_decoder()),
            _ => None,
        }
    } else {
        Some(Map::empty())
    };
    let pats = if params.dom().contains("regex_substitutions"@) {
        match params["regex_substitutions"@] {
            JsonView::Object(m) => decode_members(m, pair_list_decoder()),
            _ => None,
        }
    } else {
        Some(Map::empty())
    };
    if subs is None {
        Err(StageErrorView::Config("Invalid substitutions format: expected an object of objects of strings"@))
    } else if pats is None {
        Err(StageErrorView::Config("Invalid regex substitutions format: expected an object of arrays of [pattern, replacement] pairs"@))
    } else {
        let bad = if params.dom().contains("regex_substitutions"@) {
            match params["regex_substitutions"@] {
                JsonView::Object(m) => bad_pattern_members(m),
                _ => None,
            }
        } else {
            None
        };
        match bad {
            Some(msg) => Err(StageErrorView::Config(msg)),
            None => Ok(StageView::ValueSubstitution(subs.unwrap(), pats.unwrap())),
        }
    }
}

/// Views of pairs of strings.
pub open spec fn pair_views(v: Seq<(String, String)>) -> Seq<(Seq<char>, Seq<char>)> {
    v.map_values(|p: (String, String)| (p.0@, p.1@))
}

/// Whether every pattern of the pairs compiles.
pub open spec fn patterns_compile(pairs: Seq<(Seq<char>, Seq<char>)>) -> bool {
    forall|i: int| 0 <= i < pairs.len() ==> regex_error_text((#[trigger] pairs[i]).0) is None
}

/// A text with each pair's pattern replaced in turn.
pub open spec fn replaced_in_turn(pairs: Seq<(Seq<char>, Seq<char>)>, s: Seq<char>) -> Seq<char>
    decreases pairs.len(),
{
    if pairs.len() == 0 {
        s
    } else {
        regex_replaced(pairs.last().0, replaced_in_turn(pairs.drop_last(), s), pairs.last().1)
    }
}

/// A field's value after substitution: a text with an exact substitution for
/// its field and value gets it; otherwise a text whose field has patterns
/// gets them replaced in turn; other values stay.
pub open spec fn substituted(
    exact: Map<Seq<char>, Map<Seq<char>, Seq<char>>>,
    patterns: Map<Seq<char>, Seq<(Seq<char>, Seq<char>)>>,
    k: Seq<char>,
    v: JsonView,
) -> JsonView {
    match v {
        JsonView::String(s) => if exact.dom().contains(k) && exact[k].dom().contains(s) {
            JsonView::String(exact[k][s])
        } else if patterns.dom().contains(k) {
            JsonView::String(replaced_in_turn(patterns[k], s))
        } else {
            v
        },
        _ => v,
    }
}

/// Value substitution transformation: replaces text values, exactly or by patterns.
pub struct ValueSubstitutionTransform {
    substitutions: StrMap<StrMap<String>>,
    regex_substitutions: StrMap<Vec<(String, String)>>,
}

/// Views of maps of texts, by field.
pub open spec fn nested_views(m: Map<Seq<char>, StrMap<String>>) -> Map<Seq<char>, Map<Seq<char>, Seq<char>>> {
    Map::new(|k: Seq<char>| m.dom().contains(k), |k: Seq<char>| text_views(m[k]@))
}

/// Views of lists of pairs, by field.
pub open spec fn pair_list_views(m: Map<Seq<char>, Vec<(String, String)>>) -> Map<Seq<char>, Seq<(Seq<char>, Seq<char>)>> {
    Map::new(|k: Seq<char>| m.dom().contains(k), |k: Seq<char>| pair_views(m[k]@))
}

/// Whether every pattern of every field compiles.
pub open spec fn all_patterns_compile(m: Map<Seq<char>, Seq<(Seq<char>, Seq<char>)>>) -> bool {
    forall|k: Seq<char>| #[trigger] m.dom().contains(k) ==> patterns_compile(m[k])
}

impl ValueSubstitutionTransform {
    #[verifier::type_invariant]
    spec fn patterns_valid(&self) -> bool {
        all_patterns_compile(pair_list_views(self.regex_substitutions@))
    }

    /// The exact substitutions, by field and old value.
    pub closed spec fn exact(&self) -> Map<Seq<char>, Map<Seq<char>, Seq<char>>> {
        nested_views(self.substitutions@)
    }

    /// The pattern substitutions, by field.
    pub closed spec fn patterns(&self) -> Map<Seq<char>, Seq<(Seq<char>, Seq<char>)>> {
        pair_list_views(self.regex_substitutions@)
    }

    /// A substitution stage from exact substitutions and patterns, which must compile.
    pub fn new(substitutions: StrMap<StrMap<String>>, regex_substitutions: StrMap<Vec<(String, String)>>) -> (r: Self)
        requires
            all_patterns_compile(pair_list_views(regex_substitutions@)),
        ensures
            r.exact() == nested_views(substitutions@),
            r.patterns() == pair_list_views(regex_substitutions@),
    {
        ValueSubstitutionTransform { substitutions, regex_substitutions }
    }

    /// The transformation's name.
    pub fn name(&self) -> (r: String)
        ensures
            r@ == "value_substitution"@,
    {
        owned("value_substitution")
    }
}


fn decode_pair(v: &JsonValue) -> (r: Option<(String, String)>)
    ensures
        match pair_of(v.view()) {
            Some(p) => r matches Some(x) && (x.0@, x.1@) == p,
            None => r is None,
        },
{
    match v {
        JsonValue::Array(items) => {
            proof { lemma_array_view(items@); }
            if items.len() == 2 {
                match (&items[0], &items[1]) {
                    (JsonValue::String(p), JsonValue::String(q)) => Some((copy_string(p), copy_string(q))),
                    _ => None,
                }
            } else {
                None
            }
        },
        _ => None,
    }
}

/// Decodes an array of `[pattern, replacement]` pairs.
fn decode_pair_list(v: &JsonValue) -> (r: Option<Vec<(String, String)>>)
    ensures
        match pair_list_of(v.view()) {
            Some(l) => r matches Some(x) && pair_views(x@) == l,
            None => r is None,
        },
{
    match v {
        JsonValue::Array(items) => {
            let ghost f = pair_decoder();
            let ghost av = array_view(items@);
            proof {
                lemma_array_view(items@);
                assert(av.take(0) =~= Seq::<JsonView>::empty());
            }
            let mut out: Vec<(String, String)> = Vec::new();
            assert(pair_views(out@) =~= Seq::<(Seq<char>, Seq<char>)>::empty());
            let mut i: usize = 0;
            while i < items.len()
                invariant
                    i <= items@.len(),
                    f == pair_decoder(),
                    av == array_view(items@),
                    v.view() == JsonView::Array(av),
                    av.len() == items@.len(),
                    forall|j: int| 0 <= j < items@.len() ==> #[trigger] av[j] == items@[j].view(),
                    decode_items(av.take(i as int), f) == Some(pair_views(out@)),
                decreases items.len() - i,
            {
                proof {
                    assert(av.take(i + 1).drop_last() =~= av.take(i as int));
                    assert(av.take(i + 1).last() == av[i as int]);
                }
                match decode_pair(&items[i]) {
                    Some(p) => {
                        let ghost before = out@;
                        out.push(p);
                        assert(pair_views(out@) =~= pair_views(before).push((p.0@, p.1@)));
                    },
                    None => {
                        proof { lemma_items_fail(av, f, i + 1); }
                        return None;
                    },
                }
                i = i + 1;
            }
            assert(av.take(items@.len() as int) =~= av);
            Some(out)
        },
        _ => None,
    }
}

/// Decodes an object of arrays of `[pattern, replacement]` pairs.
fn decode_pair_lists(v: &JsonValue) -> (r: Option<StrMap<Vec<(String, String)>>>)
    ensures
        match v.view() {
            JsonView::Object(m) => match decode_members(m, pair_list_decoder()) {
                Some(x) => r matches Some(y) && pair_list_views(y@) == x,
                None => r is None,
            },
            _ => r is None,
        },
{
    match v {
        JsonValue::Object(members) => {
            let ghost f = pair_list_decoder();
            let ghost mv = members_view(members@);
            proof {
                lemma_members_view(members@);
                assert(mv.take(0) =~= Seq::<(Seq<char>, JsonView)>::empty());
            }
            let mut out: StrMap<Vec<(String, String)>> = StrMap::new();
            assert(pair_list_views(out@) =~= Map::<Seq<char>, Seq<(Seq<char>, Seq<char>)>>::empty());
            let mut i: usize = 0;
            while i < members.len()
                invariant
                    i <= members@.len(),
                    f == pair_list_decoder(),
                    mv == members_view(members@),
                    v.view() == JsonView::Object(mv),
                    mv.len() == members@.len(),
                    forall|j: int| 0 <= j < members@.len() ==> #[trigger] mv[j] == (members@[j].0@, members@[j].1.view()),
                    decode_members(mv.take(i as int), f) == Some(pair_list_views(out@)),
                decreases members.len() - i,
            {
                let pair = &members[i];
                proof {
                    assert(mv.take(i + 1).drop_last() =~= mv.take(i as int));
                    assert(mv.take(i + 1).last() == mv[i as int]);
                }
                match decode_pair_list(&pair.1) {
                    Some(l) => {
                        let ghost before = out@;
                        let ghost lv = pair_views(l@);
                        out.insert(copy_string(&pair.0), l);
                        assert(pair_list_views(out@) =~= pair_list_views(before).insert(pair.0@, lv));
                    },
                    None => {
                        proof { lemma_members_fail(mv, f, i + 1); }
                        return None;
                    },
                }
                i = i + 1;
            }
            assert(mv.take(members@.len() as int) =~= mv);
            Some(out)
        },
        _ => None,
    }
}

/// Decodes an object of objects of strings.
fn decode_nested_text_maps(v: &JsonValue) -> (r: Option<StrMap<StrMap<String>>>)
    ensures
        match v.view() {
            JsonView::Object(m) => match decode_members(m, text_map_decoder()) {
                Some(x) => r matches Some(y) && nested_views(y@) == x,
                None => r is None,
            },
            _ => r is None,
        },
{
    match v {
        JsonValue::Object(members) => {
            let ghost f = text_map_decoder();
            let ghost mv = members_view(members@);
            proof {
                lemma_members_view(members@);
                assert(mv.take(0) =~= Seq::<(Seq<char>, JsonView)>::empty());
            }
            let mut out: StrMap<StrMap<String>> = StrMap::new();
            assert(nested_views(out@) =~= Map::<Seq<char>, Map<Seq<char>, Seq<char>>>::empty());
            let mut i: usize = 0;
            while i < members.len()
                invariant
                    i <= members@.len(),
                    f == text_map_decoder(),
                    mv == members_view(members@),
                    v.view() == JsonView::Object(mv),
                    mv.len() == members@.len(),
                    forall|j: int| 0 <= j < members@.len() ==> #[trigger] mv[j] == (members@[j].0@, members@[j].1.view()),
                    decode_members(mv.take(i as int), f) == Some(nested_views(out@)),
                decreases members.len() - i,
            {
                let pair = &members[i];
                proof {
                    assert(mv.take(i + 1).drop_last() =~= mv.take(i as int));
                    assert(mv.take(i + 1).last() == mv[i as int]);
                }
                match decode_text_map(&pair.1) {
                    Some(m) => {
                        let ghost before = out@;
                        let ghost tv = text_views(m@);
                        out.insert(copy_string(&pair.0), m);
                        assert(nested_views(out@) =~= nested_views(before).insert(pair.0@, tv));
                    },
                    None => {
                        proof { lemma_members_fail(mv, f, i + 1); }
                        return None;
                    },
                }
                i = i + 1;
            }
            assert(mv.take(members@.len() as int) =~= mv);
            Some(out)
        },
        _ => None,
    }
}

/// A failing pattern found in a prefix of the pairs is the first failing pattern of all of them.
proof fn lemma_bad_in_prefix(p: Seq<(Seq<char>, Seq<char>)>, j: int)
    requires
        0 <= j <= p.len(),
        bad_pattern_in(p.take(j)) is Some,
    ensures
        bad_pattern_in(p) == bad_pattern_in(p.take(j)),
    decreases p.len() - j,
{
    if j < p.len() {
        assert(p.take(j + 1).drop_last() =~= p.take(j));
        lemma_bad_in_prefix(p, j + 1);
    } else {
        assert(p.take(j) =~= p);
    }
}

/// A failing pattern found in a prefix of the members is the first failing pattern of all of them.
proof fn lemma_bad_members_prefix(m: Seq<(Seq<char>, JsonView)>, j: int)
    requires
        0 <= j <= m.len(),
        bad_pattern_members(m.take(j)) is Some,
    ensures
        bad_pattern_members(m) == bad_pattern_members(m.take(j)),
    decreases m.len() - j,
{
    if j < m.len() {
        assert(m.take(j + 1).drop_last() =~= m.take(j));
        lemma_bad_members_prefix(m, j + 1);
    } else {
        assert(m.take(j) =~= m);
    }
}

/// Pairs without a failing pattern all compile.
proof fn lemma_no_bad_in(p: Seq<(Seq<char>, Seq<char>)>)
    requires
        bad_pattern_in(p) is None,
    ensures
        patterns_compile(p),
    decreases p.len(),
{
    if p.len() > 0 {
        lemma_no_bad_in(p.drop_last());
        assert forall|i: int| 0 <= i < p.len() implies regex_error_text((#[trigger] p[i]).0) is None by {
            if i < p.len() - 1 {
                assert(p.drop_last()[i] == p[i]);
            }
        }
    }
}

/// Decoded members without a failing pattern all compile.
proof fn lemma_no_bad_members(m: Seq<(Seq<char>, JsonView)>)
    requires
        decode_members(m, pair_list_decoder()) is Some,
        bad_pattern_members(m) is None,
    ensures
        all_patterns_compile(decode_members(m, pair_list_decoder()).unwrap()),
    decreases m.len(),
{
    if m.len() > 0 {
        lemma_no_bad_members(m.drop_last());
        let acc = decode_members(m.drop_last(), pair_list_decoder()).unwrap();
        let pl = pair_list_of(m.last().1).unwrap();
        lemma_no_bad_in(pl);
        let all = acc.insert(m.last().0, pl);
        assert forall|k: Seq<char>| #[trigger] all.dom().contains(k) implies patterns_compile(all[k]) by {
            if k != m.last().0 {
                assert(acc.dom().contains(k));
            }
        }
    }
}

/// The message for the first pattern of the pairs that does not compile.
fn first_bad_pattern_in(pairs: &Vec<(String, String)>) -> (r: Option<String>)
    ensures
        match bad_pattern_in(pair_views(pairs@)) {
            Some(m) => r matches Some(x) && x@ == m,
            None => r is None,
        },
{
    let ghost pv = pair_views(pairs@);
    let mut i: usize = 0;
    assert(pv.take(0) =~= Seq::<(Seq<char>, Seq<char>)>::empty());
    while i < pairs.len()
        invariant
            i <= pairs@.len(),
            pv == pair_views(pairs@),
            pv.len() == pairs@.len(),
            bad_pattern_in(pv.take(i as int)) is None,
        decreases pairs.len() - i,
    {
        proof {
            assert(pv.take(i + 1).drop_last() =~= pv.take(i as int));
            assert(pv.take(i + 1).last() == pv[i as int]);
            assert(pv[i as int] == (pairs@[i as int].0@, pairs@[i as int].1@));
        }
        match check_pattern(pairs[i].0.as_str()) {
            Err(e) => {
                let msg = concat(concat(concat("Invalid regex pattern '", pairs[i].0.as_str()).as_str(), "': ").as_str(), e.as_str());
                proof {
                    assert(msg@ =~= "Invalid regex pattern '"@ + pv[i as int].0 + "': "@ + e@);
                    lemma_bad_in_prefix(pv, i + 1);
                }
                return Some(msg);
            },
            Ok(()) => {},
        }
        i = i + 1;
    }
    assert(pv.take(pairs@.len() as int) =~= pv);
    None
}

/// The message for the first pattern, in member order, that does not compile.
fn first_bad_pattern(v: &JsonValue) -> (r: Option<String>)
    ensures
        match v.view() {
            JsonView::Object(m) => match bad_pattern_members(m) {
                Some(x) => r matches Some(y) && y@ == x,
                None => r is None,
            },
            _ => r is None,
        },
{
    match v {
        JsonValue::Object(members) => {
            let ghost mv = members_view(members@);
            proof {
                lemma_members_view(members@);
                assert(mv.take(0) =~= Seq::<(Seq<char>, JsonView)>::empty());
            }
            let mut i: usize = 0;
            while i < members.len()
                invariant
                    i <= members@.len(),
                    mv == members_view(members@),
                    v.view() == JsonView::Object(mv),
                    mv.len() == members@.len(),
                    forall|j: int| 0 <= j < members@.len() ==> #[trigger] mv[j] == (members@[j].0@, members@[j].1.view()),
                    bad_pattern_members(mv.take(i as int)) is None,
                decreases members.len() - i,
            {
                proof {
                    assert(mv.take(i + 1).drop_last() =~= mv.take(i as int));
                    assert(mv.take(i + 1).last() == mv[i as int]);
                }
                match decode_pair_list(&members[i].1) {
                    Some(l) => {
                        match first_bad_pattern_in(&l) {
                            Some(msg) => {
                                proof { lemma_bad_members_prefix(mv, i + 1); }
                                return Some(msg);
                            },
                            None => {},
                        }
                    },
                    None => {},
                }
                i = i + 1;
            }
            assert(mv.take(members@.len() as int) =~= mv);
            None
        },
        _ => None,
    }
}

impl ValueSubstitutionTransform {
    /// A value substitution from its parameters: optional `substitutions`
    /// (an object from field names to objects from old values to new ones)
    /// and `regex_substitutions` (an object from field names to arrays of
    /// `[pattern, replacement]` pairs), every pattern compiling.
    pub fn from_config(config: &StrMap<JsonValue>) -> (r: Result<ValueSubstitutionTransform, DataSourceError>)
        ensures
            match substitution_stage(param_views(config@)) {
                Ok(v) => r matches Ok(t) && v == StageView::ValueSubstitution(t.exact(), t.patterns()),
                Err(e) => failed_with(r, e),
            },
    {
        let substitutions = match config.get("substitutions") {
            Some(v) => match decode_nested_text_maps(v) {
                Some(m) => m,
                None => {
                    return Err(DataSourceError::ConfigError(owned("Invalid substitutions format: expected an object of objects of strings")));
                },
            },
            None => {
                let m: StrMap<StrMap<String>> = StrMap::new();
                assert(nested_views(m@) =~= Map::<Seq<char>, Map<Seq<char>, Seq<char>>>::empty());
                m
            },
        };
        let regex_substitutions = match config.get("regex_substitutions") {
            Some(v) => match decode_pair_lists(v) {
                Some(m) => {
                    match first_bad_pattern(v) {
                        Some(msg) => {
                            return Err(DataSourceError::ConfigError(msg));
                        },
                        None => {},
                    }
                    proof {
                        match v.view() {
                            JsonView::Object(mv) => { lemma_no_bad_members(mv); },
                            _ => {},
                        }
                    }
                    m
                },
                None => {
                    return Err(DataSourceError::ConfigError(
                        owned("Invalid regex substitutions format: expected an object of arrays of [pattern, replacement] pairs"),
                    ));
                },
            },
            None => {
                let m: StrMap<Vec<(String, String)>> = StrMap::new();
                assert(pair_list_views(m@) =~= Map::<Seq<char>, Seq<(Seq<char>, Seq<char>)>>::empty());
                m
            },
        };
        Ok(ValueSubstitutionTransform::new(substitutions, regex_substitutions))
    }

    /// A field's value after substitution.
    fn substitute_value(&self, k: &String, v: &JsonValue) -> (r: JsonValue)
        ensures
            r.view() == substituted(self.exact(), self.patterns(), k@, v.view()),
    {
        proof { use_type_invariant(self); }
        match v {
            JsonValue::String(s) => {
                match self.substitutions.get(k.as_str()) {
                    Some(fs) => match fs.get(s.as_str()) {
                        Some(nv) => {
                            return JsonValue::String(copy_string(nv));
                        },
                        None => {},
                    },
                    None => {},
                }
                match self.regex_substitutions.get(k.as_str()) {
                    Some(pairs) => {
                        let ghost pv = pair_views(pairs@);
                        proof {
                            assert(self.patterns().dom().contains(k@));
                            assert(pv.take(0) =~= Seq::<(Seq<char>, Seq<char>)>::empty());
                        }
                        let mut cur = copy_string(s);
                        let mut i: usize = 0;
                        while i < pairs.len()
                            invariant
                                i <= pairs@.len(),
                                pv == pair_views(pairs@),
                                pv.len() == pairs@.len(),
                                patterns_compile(pv),
                                cur@ == replaced_in_turn(pv.take(i as int), s@),
                            decreases pairs.len() - i,
                        {
                            proof {
                                assert(pv.take(i + 1).drop_last() =~= pv.take(i as int));
                                assert(pv.take(i + 1).last() == pv[i as int]);
                                assert(pv[i as int] == (pairs@[i as int].0@, pairs@[i as int].1@));
                            }
                            cur = replace_pattern(pairs[i].0.as_str(), cur.as_str(), pairs[i].1.as_str());
                            i = i + 1;
                        }
                        assert(pv.take(pairs@.len() as int) =~= pv);
                        JsonValue::String(cur)
                    },
                    None => JsonValue::String(copy_string(s)),
                }
            },
            _ => v.duplicate(),
        }
    }
}


/// A record's fields after substitution.
pub open spec fn substituted_fields(
    exact: Map<Seq<char>, Map<Seq<char>, Seq<char>>>,
    patterns: Map<Seq<char>, Seq<(Seq<char>, Seq<char>)>>,
    fields: Map<Seq<char>, JsonView>,
) -> Map<Seq<char>, JsonView> {
    Map::new(|k: Seq<char>| fields.dom().contains(k), |k: Seq<char>| substituted(exact, patterns, k, fields[k]))
}

impl ValueSubstitutionTransform {
    fn substitute_record(&self, rec: DataRecord) -> (r: DataRecord)
        ensures
            r.id == rec.id,
            r.metadata == rec.metadata,
            param_views(r.fields@) == substituted_fields(self.exact(), self.patterns(), param_views(rec.fields@)),
    {
        let DataRecord { id, fields, metadata } = rec;
        let ghost ko = fields.key_order();
        let ghost fv = param_views(fields@);
        let ghost e = self.exact();
        let ghost p = self.patterns();
        let n = fields.len();
        let mut out: StrMap<JsonValue> = StrMap::new();
        let mut i: usize = 0;
        proof {
            fields.lemma_key_order();
            assert(ko.take(0) =~= Seq::<Seq<char>>::empty());
            assert(param_views(out@) =~= Map::new(
                |k: Seq<char>| fv.dom().contains(k) && ko.take(0).contains(k),
                |k: Seq<char>| substituted(e, p, k, fv[k]),
            ));
        }
        while i < n
            invariant
                i <= n,
                n == ko.len(),
                ko == fields.key_order(),
                fv == param_views(fields@),
                e == self.exact(),
                p == self.patterns(),
                forall|k: Seq<char>| #[trigger] fields@.dom().contains(k) <==> ko.contains(k),
                param_views(out@) == Map::new(
                    |k: Seq<char>| fv.dom().contains(k) && ko.take(i as int).contains(k),
                    |k: Seq<char>| substituted(e, p, k, fv[k]),
                ),
            decreases n - i,
        {
            let (k, v) = fields.entry_at(i);
            let ghost kv = k@;
            let ghost ta = ko.take(i as int);
            let ghost tb = ko.take(i + 1);
            proof {
                assert(ko[i as int] == kv);
                assert(ko.contains(kv));
                assert forall|q: Seq<char>| tb.contains(q) <==> (ta.contains(q) || q == kv) by {
                    if tb.contains(q) {
                        let j = choose|j: int| 0 <= j < tb.len() && tb[j] == q;
                        if j < i {
                            assert(ta[j] == q);
                        }
                    }
                    if ta.contains(q) {
                        let j = choose|j: int| 0 <= j < ta.len() && ta[j] == q;
                        assert(tb[j] == q);
                    }
                    if q == kv {
                        assert(tb[i as int] == q);
                    }
                }
            }
            let key = copy_string(k);
            let val = self.substitute_value(k, v);
            assert(fv[kv] == v.view());
            proof { lemma_param_views_insert(out@, key@, val); }
            out.insert(key, val);
            proof {
                assert(param_views(out@) =~= Map::new(
                    |q: Seq<char>| fv.dom().contains(q) && tb.contains(q),
                    |q: Seq<char>| substituted(e, p, q, fv[q]),
                ));
            }
            i = i + 1;
        }
        proof {
            assert(ko.take(n as int) =~= ko);
            assert(param_views(out@) =~= substituted_fields(e, p, fv));
        }
        DataRecord { id, fields: out, metadata }
    }

    /// Substitutes the values of every record, keeping identifiers and metadata.
    pub fn transform(&self, records: Vec<DataRecord>) -> (r: Result<Vec<DataRecord>, DataSourceError>)
        ensures
            r matches Ok(v) && (v@.len() == records@.len()) && (forall|i: int| 0 <= i < v@.len() ==> {
                &&& (#[trigger] v@[i]).id == records@[i].id
                &&& v@[i].metadata == records@[i].metadata
                &&& param_views(v@[i].fields@) == substituted_fields(self.exact(), self.patterns(), param_views(records@[i].fields@))
            }),
    {
        let ghost orig = records@;
        let mut rest = records;
        let mut out: Vec<DataRecord> = Vec::new();
        while rest.len() > 0
            invariant
                out@.len() + rest@.len() == orig.len(),
                rest@ == orig.subrange(out@.len() as int, orig.len() as int),
                forall|i: int| 0 <= i < out@.len() ==> {
                    &&& (#[trigger] out@[i]).id == orig[i].id
                    &&& out@[i].metadata == orig[i].metadata
                    &&& param_views(out@[i].fields@) == substituted_fields(self.exact(), self.patterns(), param_views(orig[i].fields@))
                },
            decreases rest@.len(),
        {
            let ghost k = out@.len() as int;
            let rec = rest.remove(0);
            assert(rec == orig[k]);
            let m = self.substitute_record(rec);
            out.push(m);
            assert(rest@ =~= orig.subrange(k + 1, orig.len() as int));
        }
        Ok(out)
    }
}


// ---------------------------------------------------------------- value validation

/// A rule a field's value must satisfy. The bounds of a range keep their
/// JSON number texts.
pub enum ValidationRule {
    Required,
    MinLength(usize),
    MaxLength(usize),
    Pattern(String),
    Range { min: String, max: String },
    OneOf(Vec<String>),
}

impl View for ValidationRule {
    type V = RuleView;

    open spec fn view(&self) -> RuleView {
        match self {
            ValidationRule::Required => RuleView::Required,
            ValidationRule::MinLength(n) => RuleView::MinLength(*n),
            ValidationRule::MaxLength(n) => RuleView::MaxLength(*n),
            ValidationRule::Pattern(p) => RuleView::Pattern(p@),
            ValidationRule::Range { min, max } => RuleView::Range(min@, max@),
            ValidationRule::OneOf(l) => RuleView::OneOf(views(l@)),
        }
    }
}

/// A JSON number that is a size (a non-negative integer that fits `usize`).
pub open spec fn size_of(v: JsonView) -> Option<usize> {
    match v {
        JsonView::Number(n) => match parse_unsigned_text(n, usize::MAX as u64) {
            Some(x) => Some(x as usize),
            None => None,
        },
        _ => None,
    }
}

/// The number text of the last member named `name`, when it is a number.
pub open spec fn number_member(m: Seq<(Seq<char>, JsonView)>, name: Seq<char>) -> Option<Seq<char>>
    decreases m.len(),
{
    if m.len() == 0 {
        None
    } else if m.last().0 == name {
        match m.last().1 {
            JsonView::Number(n) => Some(n),
            _ => None,
        }
    } else {
        number_member(m.drop_last(), name)
    }
}

/// The rule a variant name and its content describe.
pub open spec fn variant_rule(name: Seq<char>, body: JsonView) -> Option<RuleView> {
    if name == "Required"@ {
        match body {
            JsonView::Null => Some(RuleView::Required),
            _ => None,
        }
    } else if name == "MinLength"@ {
        match size_of(body) {
            Some(n) => Some(RuleView::MinLength(n)),
            None => None,
        }
    } else if name == "MaxLength"@ {
        match size_of(body) {
            Some(n) => Some(RuleView::MaxLength(n)),
            None => None,
        }
    } else if name == "Pattern"@ {
        match text_of(body) {
            Some(p) => Some(RuleView::Pattern(p)),
            None => None,
        }
    } else if name == "Range"@ {
        match body {
            JsonView::Object(m) => match (number_member(m, "min"@), number_member(m, "max"@)) {
                (Some(a), Some(b)) => Some(RuleView::Range(a, b)),
                _ => None,
            },
            _ => None,
        }
    } else if name == "OneOf"@ {
        match text_list_of(body) {
            Some(l) => Some(RuleView::OneOf(l)),
            None => None,
        }
    } else {
        None
    }
}

/// A validation rule written as JSON: `"Required"`, or an object with one
/// member naming the rule (`{"MinLength": 3}`, `{"Pattern": "^a"}`,
/// `{"Range": {"min": 1, "max": 5}}`, `{"OneOf": ["a", "b"]}`).
pub open spec fn rule_of(v: JsonView) -> Option<RuleView> {
    match v {
        JsonView::String(s) => if s == "Required"@ {
            Some(RuleView::Required)
        } else {
            None
        },
        JsonView::Object(m) => if m.len() == 1 {
            variant_rule(m[0].0, m[0].1)
        } else {
            None
        },
        _ => None,
    }
}

/// Decodes a validation rule.
pub open spec fn rule_decoder() -> spec_fn(JsonView) -> Option<RuleView> {
    |x: JsonView| rule_of(x)
}

/// The value validation stage its parameters describe: `validations`, an
/// object from field names to rules.
pub open spec fn validation_stage(params: Map<Seq<char>, JsonView>) -> Result<StageView, StageErrorView> {
    if !params.dom().contains("validations"@) {
        Err(StageErrorView::Config("Missing 'validations' in validation config"@))
    } else {
        match params["validations"@] {
            JsonView::Object(m) => match decode_members(m, rule_decoder()) {
                Some(x) => Ok(StageView::ValueValidation(x)),
                None => Err(StageErrorView::Config("Invalid validations format: expected an object of validation rules"@)),
            },
            _ => Err(StageErrorView::Config("Invalid validations format: expected an object of validation rules"@)),
        }
    }
}

fn size_value(v: &JsonValue) -> (r: Option<usize>)
    ensures
        r == size_of(v.view()),
{
    match v {
        JsonValue::Number(n) => {
            let bound: u64 = usize::MAX as u64;
            match parse_unsigned(n.as_str(), bound) {
                Some(x) => Some(x as usize),
                None => None,
            }
        },
        _ => None,
    }
}

fn number_member_value(members: &Vec<(String, JsonValue)>, name: &str) -> (r: Option<String>)
    ensures
        match number_member(members_view(members@), name@) {
            Some(n) => r matches Some(x) && x@ == n,
            None => r is None,
        },
{
    let ghost mv = members_view(members@);
    proof { lemma_members_view(members@); }
    let mut j: usize = members.len();
    assert(mv.take(j as int) =~= mv);
    while j > 0
        invariant
            j <= members@.len(),
            mv == members_view(members@),
            mv.len() == members@.len(),
            forall|q: int| 0 <= q < members@.len() ==> #[trigger] mv[q] == (members@[q].0@, members@[q].1.view()),
            number_member(mv, name@) == number_member(mv.take(j as int), name@),
        decreases j,
    {
        proof {
            assert(mv.take(j as int).drop_last() =~= mv.take(j - 1));
            assert(mv.take(j as int).last() == mv[j - 1]);
        }
        if str_equal(members[j - 1].0.as_str(), name) {
            return match &members[j - 1].1 {
                JsonValue::Number(n) => Some(copy_string(n)),
                _ => None,
            };
        }
        j = j - 1;
    }
    None
}

fn decode_rule(v: &JsonValue) -> (r: Option<ValidationRule>)
    ensures
        match rule_of(v.view()) {
            Some(x) => r matches Some(y) && y@ == x,
            None => r is None,
        },
{
    match v {
        JsonValue::String(s) => {
            if str_equal(s.as_str(), "Required") {
                Some(ValidationRule::Required)
            } else {
                None
            }
        },
        JsonValue::Object(members) => {
            proof { lemma_members_view(members@); }
            if members.len() != 1 {
                return None;
            }
            let name = members[0].0.as_str();
            let body = &members[0].1;
            if str_equal(name, "Required") {
                match body {
                    JsonValue::Null => Some(ValidationRule::Required),
                    _ => None,
                }
            } else if str_equal(name, "MinLength") {
                match size_value(body) {
                    Some(n) => Some(ValidationRule::MinLength(n)),
                    None => None,
                }
            } else if str_equal(name, "MaxLength") {
                match size_value(body) {
                    Some(n) => Some(ValidationRule::MaxLength(n)),
                    None => None,
                }
            } else if str_equal(name, "Pattern") {
                match text_value(body) {
                    Some(p) => Some(ValidationRule::Pattern(p)),
                    None => None,
                }
            } else if str_equal(name, "Range") {
                match body {
                    JsonValue::Object(fm) => match (number_member_value(fm, "min"), number_member_value(fm, "max")) {
                        (Some(a), Some(b)) => Some(ValidationRule::Range { min: a, max: b }),
                        _ => None,
                    },
                    _ => None,
                }
            } else if str_equal(name, "OneOf") {
                match decode_text_list(body) {
                    Some(l) => Some(ValidationRule::OneOf(l)),
                    None => None,
                }
            } else {
                None
            }
        },
        _ => None,
    }
}

/// Decodes an object of validation rules.
fn decode_rules(v: &JsonValue) -> (r: Option<StrMap<ValidationRule>>)
    ensures
        match v.view() {
            JsonView::Object(m) => match decode_members(m, rule_decoder()) {
                Some(x) => r matches Some(y) && rule_views(y@) == x,
                None => r is None,
            },
            _ => r is None,
        },
{
    match v {
        JsonValue::Object(members) => {
            let ghost f = rule_decoder();
            let ghost mv = members_view(members@);
            proof {
                lemma_members_view(members@);
                assert(mv.take(0) =~= Seq::<(Seq<char>, JsonView)>::empty());
            }
            let mut out: StrMap<ValidationRule> = StrMap::new();
            assert(rule_views(out@) =~= Map::<Seq<char>, RuleView>::empty());
            let mut i: usize = 0;
            while i < members.len()
                invariant
                    i <= members@.len(),
                    f == rule_decoder(),
                    mv == members_view(members@),
                    v.view() == JsonView::Object(mv),
                    mv.len() == members@.len(),
                    forall|j: int| 0 <= j < members@.len() ==> #[trigger] mv[j] == (members@[j].0@, members@[j].1.view()),
                    decode_members(mv.take(i as int), f) == Some(rule_views(out@)),
                decreases members.len() - i,
            {
                let pair = &members[i];
                proof {
                    assert(mv.take(i + 1).drop_last() =~= mv.take(i as int));
                    assert(mv.take(i + 1).last() == mv[i as int]);
                }
                match decode_rule(&pair.1) {
                    Some(rule) => {
                        let ghost before = out@;
                        let ghost rv = rule@;
                        out.insert(copy_string(&pair.0), rule);
                        assert(rule_views(out@) =~= rule_views(before).insert(pair.0@, rv));
                    },
                    None => {
                        proof { lemma_members_fail(mv, f, i + 1); }
                        return None;
                    },
                }
                i = i + 1;
            }
            assert(mv.take(members@.len() as int) =~= mv);
            Some(out)
        },
        _ => None,
    }
}

/// Views of rules, by field.
pub open spec fn rule_views(m: Map<Seq<char>, ValidationRule>) -> Map<Seq<char>, RuleView> {
    Map::new(|k: Seq<char>| m.dom().contains(k), |k: Seq<char>| m[k]@)
}

/// How a message about a field starts.
pub open spec fn field_head(field: Seq<char>) -> Seq<char> {
    "Field '"@ + field + "'"@
}

/// The outcome of checking a value against a rule.
pub enum RuleCheck {
    Pass,
    /// The value breaks the rule; the message says how.
    Fails(Seq<char>),
    /// The rule's pattern does not compile; the message gives the regex crate's error.
    BadPattern(Seq<char>),
}

/// The outcome of checking the value `v` of `field` against `rule`. Only the
/// kinds of values a rule is about are checked: null for a required field,
/// texts for lengths (in UTF-8 bytes), patterns and allowed values, numbers
/// for ranges. Whether a number lies outside a range is decided on
/// floating-point values, so it comes in as `range_violation`: the text that
/// tells the number and the range it misses (as in `12 is outside range [0, 10]`).
pub open spec fn rule_check(field: Seq<char>, v: JsonView, rule: RuleView, range_violation: Option<Seq<char>>) -> RuleCheck {
    match rule {
        RuleView::Required => match v {
            JsonView::Null => RuleCheck::Fails(field_head(field) + " is required but is null"@),
            _ => RuleCheck::Pass,
        },
        RuleView::MinLength(n) => match v {
            JsonView::String(s) => if encode_utf8(s).len() < n {
                RuleCheck::Fails(
                    field_head(field) + " length "@ + decimal(encode_utf8(s).len()) + " is less than minimum "@ + decimal(n as nat),
                )
            } else {
                RuleCheck::Pass
            },
            _ => RuleCheck::Pass,
        },
        RuleView::MaxLength(n) => match v {
            JsonView::String(s) => if encode_utf8(s).len() > n {
                RuleCheck::Fails(
                    field_head(field) + " length "@ + decimal(encode_utf8(s).len()) + " exceeds maximum "@ + decimal(n as nat),
                )
            } else {
                RuleCheck::Pass
            },
            _ => RuleCheck::Pass,
        },
        RuleView::Pattern(p) => match v {
            JsonView::String(s) => match regex_error_text(p) {
                Some(e) => RuleCheck::BadPattern("Invalid regex pattern: "@ + e),
                None => if regex_finds(p, s) {
                    RuleCheck::Pass
                } else {
                    RuleCheck::Fails(field_head(field) + " value '"@ + s + "' does not match pattern '"@ + p + "'"@)
                },
            },
            _ => RuleCheck::Pass,
        },
        RuleView::Range(_, _) => match v {
            JsonView::Number(_) => match range_violation {
                Some(t) => RuleCheck::Fails(field_head(field) + " value "@ + t),
                None => RuleCheck::Pass,
            },
            _ => RuleCheck::Pass,
        },
        RuleView::OneOf(allowed) => match v {
            JsonView::String(s) => if allowed.contains(s) {
                RuleCheck::Pass
            } else {
                RuleCheck::Fails(field_head(field) + " value '"@ + s + "' is not one of allowed values: "@ + debug_list(allowed))
            },
            _ => RuleCheck::Pass,
        },
    }
}

/// Rule laws: a required field fails exactly when its value is null; a text
/// passes a minimum (maximum) length exactly when its UTF-8 length is at
/// least (at most) the bound; a text passes a valid pattern exactly when the
/// pattern finds a match in it; and a rule only fails on the kinds of values
/// it is about.
pub proof fn lemma_rule_checks(field: Seq<char>, v: JsonView, n: usize, p: Seq<char>, rv: Option<Seq<char>>)
    ensures
        rule_check(field, v, RuleView::Required, rv) is Pass <==> v != JsonView::Null,
        v matches JsonView::String(s) ==> (rule_check(field, v, RuleView::MinLength(n), rv) is Pass
            <==> encode_utf8(s).len() >= n),
        v matches JsonView::String(s) ==> (rule_check(field, v, RuleView::MaxLength(n), rv) is Pass
            <==> encode_utf8(s).len() <= n),
        (v matches JsonView::String(s) && regex_error_text(p) is None) ==> (rule_check(field, v, RuleView::Pattern(p), rv)
            is Pass <==> regex_finds(p, v->String_0)),
        !(v is String) ==> rule_check(field, v, RuleView::MinLength(n), rv) is Pass
            && rule_check(field, v, RuleView::MaxLength(n), rv) is Pass
            && rule_check(field, v, RuleView::Pattern(p), rv) is Pass,
{
}

/// Allowed-values law: a text passes a one-of rule exactly when it equals
/// one of the allowed values, wherever that value stands in the list; a text
/// that equals none of them fails the rule, and the validation reports an
/// error.
pub proof fn lemma_one_of_allows_listed_values(
    field: Seq<char>,
    s: Seq<char>,
    allowed: Seq<Seq<char>>,
    range_violation: Option<Seq<char>>,
    r: Result<(), DataSourceError>,
)
    requires
        checked(r, rule_check(field, JsonView::String(s), RuleView::OneOf(allowed), range_violation)),
    ensures
        r is Ok <==> exists|i: int| 0 <= i < allowed.len() && allowed[i] == s,
        (exists|i: int| 0 <= i < allowed.len() && allowed[i] == s)
            ==> rule_check(field, JsonView::String(s), RuleView::OneOf(allowed), range_violation) is Pass,
        (forall|i: int| 0 <= i < allowed.len() ==> allowed[i] != s)
            ==> rule_check(field, JsonView::String(s), RuleView::OneOf(allowed), range_violation) is Fails,
{
}

/// Whether `r` is what the check's outcome calls for.
pub open spec fn checked(r: Result<(), DataSourceError>, c: RuleCheck) -> bool {
    match c {
        RuleCheck::Pass => r is Ok,
        RuleCheck::Fails(m) => failed_with(r, StageErrorView::Transformation(m)),
        RuleCheck::BadPattern(m) => failed_with(r, StageErrorView::Config(m)),
    }
}

/// Value validation transformation: checks field values against rules.
pub struct ValueValidationTransform {
    validations: StrMap<ValidationRule>,
}

impl ValueValidationTransform {
    /// A validation stage checking each named field against its rule.
    pub fn new(validations: StrMap<ValidationRule>) -> (r: Self)
        ensures
            r.rules() == rule_views(validations@),
            r.rule_order() == validations.key_order(),
    {
        ValueValidationTransform { validations }
    }

    /// The rules, by field.
    pub closed spec fn rules(&self) -> Map<Seq<char>, RuleView> {
        rule_views(self.validations@)
    }

    /// The fields with rules, in the order they are checked.
    pub closed spec fn rule_order(&self) -> Seq<Seq<char>> {
        self.validations.key_order()
    }

    /// The rules, by field, in the order they are checked.
    pub fn validations(&self) -> (r: &StrMap<ValidationRule>)
        ensures
            rule_views(r@) == self.rules(),
            r.key_order() == self.rule_order(),
    {
        &self.validations
    }

    /// A value validation from its parameters: `validations`, an object from
    /// field names to rules.
    pub fn from_config(config: &StrMap<JsonValue>) -> (r: Result<ValueValidationTransform, DataSourceError>)
        ensures
            match validation_stage(param_views(config@)) {
                Ok(v) => r matches Ok(t) && v == StageView::ValueValidation(t.rules()),
                Err(e) => failed_with(r, e),
            },
    {
        match config.get("validations") {
            None => Err(DataSourceError::ConfigError(owned("Missing 'validations' in validation config"))),
            Some(v) => match decode_rules(v) {
                Some(m) => Ok(ValueValidationTransform::new(m)),
                None => Err(DataSourceError::ConfigError(owned("Invalid validations format: expected an object of validation rules"))),
            },
        }
    }

    /// The transformation's name.
    pub fn name(&self) -> (r: String)
        ensures
            r@ == "value_validation"@,
    {
        owned("value_validation")
    }

    /// Checks the value of `field_name` against `rule`; for a range rule,
    /// `range_violation` tells whether and how the number misses the range.
    pub fn validate_value(&self, field_name: &str, value: &JsonValue, rule: &ValidationRule, range_violation: Option<String>) -> (r: Result<(), DataSourceError>)
        ensures
            checked(r, rule_check(field_name@, value.view(), rule@, opt_text(range_violation))),
    {
        let head = concat3("Field '", field_name, "'");
        match rule {
            ValidationRule::Required => match value {
                JsonValue::Null => {
                    let m = concat(head.as_str(), " is required but is null");
                    assert(m@ =~= field_head(field_name@) + " is required but is null"@);
                    Err(DataSourceError::TransformationFailed(m))
                },
                _ => Ok(()),
            },
            ValidationRule::MinLength(n) => match value {
                JsonValue::String(s) => {
                    let len = s.as_str().as_bytes().len();
                    if len < *n {
                        let mut m = concat(head.as_str(), " length ");
                        m.append(decimal_text(len as u64).as_str());
                        m.append(" is less than minimum ");
                        m.append(decimal_text(*n as u64).as_str());
                        assert(m@ =~= field_head(field_name@) + " length "@ + decimal(encode_utf8(s@).len()) + " is less than minimum "@ + decimal(*n as nat));
                        Err(DataSourceError::TransformationFailed(m))
                    } else {
                        Ok(())
                    }
                },
                _ => Ok(()),
            },
            ValidationRule::MaxLength(n) => match value {
                JsonValue::String(s) => {
                    let len = s.as_str().as_bytes().len();
                    if len > *n {
                        let mut m = concat(head.as_str(), " length ");
                        m.append(decimal_text(len as u64).as_str());
                        m.append(" exceeds maximum ");
                        m.append(decimal_text(*n as u64).as_str());
                        assert(m@ =~= field_head(field_name@) + " length "@ + decimal(encode_utf8(s@).len()) + " exceeds maximum "@ + decimal(*n as nat));
                        Err(DataSourceError::TransformationFailed(m))
                    } else {
                        Ok(())
                    }
                },
                _ => Ok(()),
            },
            ValidationRule::Pattern(p) => match value {
                JsonValue::String(s) => match check_pattern(p.as_str()) {
                    Err(e) => Err(DataSourceError::ConfigError(concat("Invalid regex pattern: ", e.as_str()))),
                    Ok(()) => {
                        if pattern_matches(p.as_str(), s.as_str()) {
                            Ok(())
                        } else {
                            let mut m = concat(head.as_str(), " value '");
                            m.append(s.as_str());
                            m.append("' does not match pattern '");
                            m.append(p.as_str());
                            m.append("'");
                            assert(m@ =~= field_head(field_name@) + " value '"@ + s@ + "' does not match pattern '"@ + p@ + "'"@);
                            Err(DataSourceError::TransformationFailed(m))
                        }
                    },
                },
                _ => Ok(()),
            },
            ValidationRule::Range { .. } => match value {
                JsonValue::Number(_) => match range_violation {
                    Some(t) => {
                        let mut m = concat(head.as_str(), " value ");
                        m.append(t.as_str());
                        assert(m@ =~= field_head(field_name@) + " value "@ + t@);
                        Err(DataSourceError::TransformationFailed(m))
                    },
                    None => Ok(()),
                },
                _ => Ok(()),
            },
            ValidationRule::OneOf(allowed) => match value {
                JsonValue::String(s) => {
                    if contains_string(allowed, s) {
                        Ok(())
                    } else {
                        let mut m = concat(head.as_str(), " value '");
                        m.append(s.as_str());
                        m.append("' is not one of allowed values: ");
                        m.append(debug_strings(allowed).as_str());
                        assert(m@ =~= field_head(field_name@) + " value '"@ + s@ + "' is not one of allowed values: "@ + debug_list(views(allowed@)));
                        Err(DataSourceError::TransformationFailed(m))
                    }
                },
                _ => Ok(()),
            },
        }
    }
}


/// The entry for `k`, if any.
pub open spec fn opt_entry(m: Map<Seq<char>, Seq<char>>, k: Seq<char>) -> Option<Seq<char>> {
    if m.dom().contains(k) {
        Some(m[k])
    } else {
        None
    }
}

/// The first failed check of a record's fields against the rules of the
/// fields in `order` (fields the record lacks are not checked), with the
/// range violations given for the record.
pub open spec fn first_violation(
    fields: Map<Seq<char>, JsonView>,
    order: Seq<Seq<char>>,
    rules: Map<Seq<char>, RuleView>,
    ranges: Map<Seq<char>, Seq<char>>,
) -> RuleCheck
    decreases order.len(),
{
    if order.len() == 0 {
        RuleCheck::Pass
    } else {
        match first_violation(fields, order.drop_last(), rules, ranges) {
            RuleCheck::Pass => {
                let k = order.last();
                if fields.dom().contains(k) {
                    rule_check(k, fields[k], rules[k], opt_entry(ranges, k))
                } else {
                    RuleCheck::Pass
                }
            },
            other => other,
        }
    }
}

/// The range violations given for the record at `i`; none when not given.
pub open spec fn range_views(rv: Seq<StrMap<String>>, i: int) -> Map<Seq<char>, Seq<char>> {
    if 0 <= i < rv.len() {
        text_views(rv[i]@)
    } else {
        Map::empty()
    }
}

/// The first failed check over the records in order.
pub open spec fn records_violation(
    recs: Seq<DataRecord>,
    order: Seq<Seq<char>>,
    rules: Map<Seq<char>, RuleView>,
    rv: Seq<StrMap<String>>,
) -> RuleCheck
    decreases recs.len(),
{
    if recs.len() == 0 {
        RuleCheck::Pass
    } else {
        match records_violation(recs.drop_last(), order, rules, rv) {
            RuleCheck::Pass => first_violation(param_views(recs.last().fields@), order, rules, range_views(rv, recs.len() - 1)),
            other => other,
        }
    }
}

proof fn lemma_violation_prefix(
    fields: Map<Seq<char>, JsonView>,
    order: Seq<Seq<char>>,
    rules: Map<Seq<char>, RuleView>,
    ranges: Map<Seq<char>, Seq<char>>,
    j: int,
)
    requires
        0 <= j <= order.len(),
        !(first_violation(fields, order.take(j), rules, ranges) is Pass),
    ensures
        first_violation(fields, order, rules, ranges) == first_violation(fields, order.take(j), rules, ranges),
    decreases order.len() - j,
{
    if j < order.len() {
        assert(order.take(j + 1).drop_last() =~= order.take(j));
        lemma_violation_prefix(fields, order, rules, ranges, j + 1);
    } else {
        assert(order.take(j) =~= order);
    }
}

proof fn lemma_records_violation_prefix(
    recs: Seq<DataRecord>,
    order: Seq<Seq<char>>,
    rules: Map<Seq<char>, RuleView>,
    rv: Seq<StrMap<String>>,
    j: int,
)
    requires
        0 <= j <= recs.len(),
        !(records_violation(recs.take(j), order, rules, rv) is Pass),
    ensures
        records_violation(recs, order, rules, rv) == records_violation(recs.take(j), order, rules, rv),
    decreases recs.len() - j,
{
    if j < recs.len() {
        assert(recs.take(j + 1).drop_last() =~= recs.take(j));
        lemma_records_violation_prefix(recs, order, rules, rv, j + 1);
    } else {
        assert(recs.take(j) =~= recs);
    }
}

/// Whether `r` is what the outcome of checking `records` calls for: the
/// records themselves when every check passes.
pub open spec fn checked_records(r: Result<Vec<DataRecord>, DataSourceError>, records: Seq<DataRecord>, c: RuleCheck) -> bool {
    match c {
        RuleCheck::Pass => r matches Ok(v) && v@ == records,
        RuleCheck::Fails(m) => failed_with(r, StageErrorView::Transformation(m)),
        RuleCheck::BadPattern(m) => failed_with(r, StageErrorView::Config(m)),
    }
}

impl ValueValidationTransform {
    fn validate_record(&self, rec: &DataRecord, ranges: &StrMap<String>) -> (r: Result<(), DataSourceError>)
        ensures
            checked(r, first_violation(param_views(rec.fields@), self.rule_order(), self.rules(), text_views(ranges@))),
    {
        let ghost order = self.rule_order();
        let ghost fv = param_views(rec.fields@);
        let ghost rg = text_views(ranges@);
        let n = self.validations.len();
        let mut i: usize = 0;
        proof {
            self.validations.lemma_key_order();
            assert(order.take(0) =~= Seq::<Seq<char>>::empty());
        }
        while i < n
            invariant
                i <= n,
                n == order.len(),
                order == self.rule_order(),
                order == self.validations.key_order(),
                fv == param_views(rec.fields@),
                rg == text_views(ranges@),
                forall|k: Seq<char>| #[trigger] self.validations@.dom().contains(k) <==> order.contains(k),
                first_violation(fv, order.take(i as int), self.rules(), rg) is Pass,
            decreases n - i,
        {
            let (k, rule) = self.validations.entry_at(i);
            proof {
                assert(order.take(i + 1).drop_last() =~= order.take(i as int));
                assert(order.take(i + 1).last() == order[i as int]);
                assert(order.contains(k@));
                assert(self.rules()[k@] == rule@);
            }
            match rec.fields.get(k.as_str()) {
                Some(v) => {
                    let rv = match ranges.get(k.as_str()) {
                        Some(t) => Some(copy_string(t)),
                        None => None,
                    };
                    assert(opt_text(rv) == opt_entry(rg, k@));
                    let c = self.validate_value(k.as_str(), v, rule, rv);
                    if c.is_err() {
                        proof { lemma_violation_prefix(fv, order, self.rules(), rg, i + 1); }
                        return c;
                    }
                },
                None => {},
            }
            i = i + 1;
        }
        assert(order.take(n as int) =~= order);
        Ok(())
    }

    /// Checks every record against the rules, record after record and, in
    /// each record, field after field in `rule_order`, stopping at the first
    /// failed check; the records come back unchanged when all pass. The
    /// range violations of the record at `i`, keyed by field, are those at
    /// `i` in `range_violations`.
    pub fn transform(&self, records: Vec<DataRecord>, range_violations: &Vec<StrMap<String>>) -> (r: Result<Vec<DataRecord>, DataSourceError>)
        ensures
            checked_records(r, records@, records_violation(records@, self.rule_order(), self.rules(), range_violations@)),
    {
        let ghost order = self.rule_order();
        let empty: StrMap<String> = StrMap::new();
        assert(text_views(empty@) =~= Map::<Seq<char>, Seq<char>>::empty());
        let mut i: usize = 0;
        assert(records@.take(0) =~= Seq::<DataRecord>::empty());
        while i < records.len()
            invariant
                i <= records@.len(),
                order == self.rule_order(),
                text_views(empty@) == Map::<Seq<char>, Seq<char>>::empty(),
                records_violation(records@.take(i as int), order, self.rules(), range_violations@) is Pass,
            decreases records.len() - i,
        {
            proof {
                assert(records@.take(i + 1).drop_last() =~= records@.take(i as int));
                assert(records@.take(i + 1).last() == records@[i as int]);
            }
            let ranges = if i < range_violations.len() {
                &range_violations[i]
            } else {
                &empty
            };
            assert(text_views(ranges@) == range_views(range_violations@, i as int));
            let c = self.validate_record(&records[i], ranges);
            match c {
                Err(e) => {
                    proof { lemma_records_violation_prefix(records@, order, self.rules(), range_violations@, i + 1); }
                    return Err(e);
                },
                Ok(()) => {},
            }
            i = i + 1;
        }
        assert(records@.take(records@.len() as int) =~= records@);
        Ok(records)
    }
}


// ---------------------------------------------------------------- pipeline

/// A configured transformation stage.
pub enum TransformStage {
    FieldMapping(FieldMappingTransform),
    ValueSubstitution(ValueSubstitutionTransform),
    TypeConversion(TypeConversionTransform),
    FieldFilter(FieldFilterTransform),
    ValueValidation(ValueValidationTransform),
}

impl View for TransformStage {
    type V = StageView;

    open spec fn view(&self) -> StageView {
        match self {
            TransformStage::FieldMapping(t) => StageView::FieldMapping(t.mapping()),
            TransformStage::ValueSubstitution(t) => StageView::ValueSubstitution(t.exact(), t.patterns()),
            TransformStage::TypeConversion(t) => StageView::TypeConversion(t.conversion_map()),
            TransformStage::FieldFilter(t) => StageView::FieldFilter(t.includes(), t.excludes()),
            TransformStage::ValueValidation(t) => StageView::ValueValidation(t.rules()),
        }
    }
}

/// The name of a kind of stage, as transformations name it.
pub open spec fn stage_name(v: StageView) -> Seq<char> {
    match v {
        StageView::FieldMapping(_) => "field_mapping"@,
        StageView::ValueSubstitution(_, _) => "value_substitution"@,
        StageView::TypeConversion(_) => "type_conversion"@,
        StageView::FieldFilter(_, _) => "field_filter"@,
        StageView::ValueValidation(_) => "value_validation"@,
    }
}

impl TransformStage {
    /// The stage's name.
    pub fn name(&self) -> (r: String)
        ensures
            r@ == stage_name(self@),
    {
        match self {
            TransformStage::FieldMapping(t) => t.name(),
            TransformStage::ValueSubstitution(t) => t.name(),
            TransformStage::TypeConversion(_) => owned("type_conversion"),
            TransformStage::FieldFilter(t) => t.name(),
            TransformStage::ValueValidation(t) => t.name(),
        }
    }
}

/// The stage a transformation describes: its type names the kind of stage,
/// its parameters configure it.
pub open spec fn stage_of(kind: Seq<char>, params: Map<Seq<char>, JsonView>) -> Result<StageView, StageErrorView> {
    if kind == "field_mapping"@ {
        mapping_stage(params)
    } else if kind == "value_substitution"@ {
        substitution_stage(params)
    } else if kind == "type_conversion"@ {
        conversion_stage(params)
    } else if kind == "field_filter"@ {
        filter_stage(params)
    } else if kind == "value_validation"@ {
        validation_stage(params)
    } else {
        Err(StageErrorView::Transformation("Unknown transformation type: "@ + kind))
    }
}

/// The stages transformations describe, in order, or the first failure.
pub open spec fn stages_of(ts: Seq<DataTransformation>) -> Result<Seq<StageView>, StageErrorView>
    decreases ts.len(),
{
    if ts.len() == 0 {
        Ok(Seq::empty())
    } else {
        match stages_of(ts.drop_last()) {
            Ok(acc) => match stage_of(ts.last().transformation_type@, param_views(ts.last().parameters@)) {
                Ok(v) => Ok(acc.push(v)),
                Err(e) => Err(e),
            },
            Err(e) => Err(e),
        }
    }
}

proof fn lemma_stages_prefix(ts: Seq<DataTransformation>, j: int)
    requires
        0 <= j <= ts.len(),
        stages_of(ts.take(j)) is Err,
    ensures
        stages_of(ts) == stages_of(ts.take(j)),
    decreases ts.len() - j,
{
    if j < ts.len() {
        assert(ts.take(j + 1).drop_last() =~= ts.take(j));
        lemma_stages_prefix(ts, j + 1);
    } else {
        assert(ts.take(j) =~= ts);
    }
}

/// Transformation stages run in order, each on the records the one before gave.
pub struct DataTransformationPipeline {
    stages: Vec<TransformStage>,
}

impl DataTransformationPipeline {
    /// What the stages do, in order.
    pub closed spec fn stage_views(&self) -> Seq<StageView> {
        self.stages@.map_values(|t: TransformStage| t@)
    }

    /// A pipeline without stages.
    pub fn new() -> (r: Self)
        ensures
            r.stage_views() == Seq::<StageView>::empty(),
    {
        let r = DataTransformationPipeline { stages: Vec::new() };
        assert(r.stage_views() =~= Seq::<StageView>::empty());
        r
    }

    /// The pipeline with `stage` run after its stages.
    pub fn add_stage(self, stage: TransformStage) -> (r: Self)
        ensures
            r.stage_views() == self.stage_views().push(stage@),
    {
        let ghost before = self.stage_views();
        let ghost sv = stage@;
        let mut stages = self.stages;
        stages.push(stage);
        let r = DataTransformationPipeline { stages };
        assert(r.stage_views() =~= before.push(sv));
        r
    }

    /// The number of stages.
    pub fn len(&self) -> (r: usize)
        ensures
            r == self.stage_views().len(),
    {
        self.stages.len()
    }

    /// The stage at `i`.
    pub fn stage(&self, i: usize) -> (r: &TransformStage)
        requires
            i < self.stage_views().len(),
        ensures
            r@ == self.stage_views()[i as int],
    {
        &self.stages[i]
    }

    /// The names of the stages, in order.
    pub fn stage_names(&self) -> (r: Vec<String>)
        ensures
            views(r@) == self.stage_views().map_values(|v: StageView| stage_name(v)),
    {
        let mut out: Vec<String> = Vec::new();
        let mut i: usize = 0;
        while i < self.stages.len()
            invariant
                i <= self.stages@.len(),
                out@.len() == i,
                forall|j: int| 0 <= j < i ==> (#[trigger] out@[j])@ == stage_name(self.stages@[j]@),
            decreases self.stages.len() - i,
        {
            out.push(self.stages[i].name());
            i = i + 1;
        }
        assert(views(out@) =~= self.stage_views().map_values(|v: StageView| stage_name(v)));
        out
    }

    /// The pipeline the transformations describe, one stage each, in order:
    /// `field_mapping`, `value_substitution`, `type_conversion`,
    /// `field_filter` or `value_validation`, each built from its parameters.
    /// The first transformation that cannot be built stops it.
    pub fn from_transformations(transformations: &Vec<DataTransformation>) -> (r: Result<DataTransformationPipeline, DataSourceError>)
        ensures
            match stages_of(transformations@) {
                Ok(vs) => r matches Ok(p) && p.stage_views() == vs,
                Err(e) => failed_with(r, e),
            },
    {
        let ghost ts = transformations@;
        let mut pipeline = DataTransformationPipeline::new();
        let mut i: usize = 0;
        assert(ts.take(0) =~= Seq::<DataTransformation>::empty());
        while i < transformations.len()
            invariant
                i <= ts.len(),
                ts == transformations@,
                stages_of(ts.take(i as int)) == Ok::<Seq<StageView>, StageErrorView>(pipeline.stage_views()),
            decreases transformations.len() - i,
        {
            let t = &transformations[i];
            let kind = t.transformation_type.as_str();
            let ghost params = param_views(t.parameters@);
            proof {
                assert(ts.take(i + 1).drop_last() =~= ts.take(i as int));
                assert(ts.take(i + 1).last() == ts[i as int]);
            }
            let stage = if str_equal(kind, "field_mapping") {
                match FieldMappingTransform::from_config(&t.parameters) {
                    Ok(x) => TransformStage::FieldMapping(x),
                    Err(e) => {
                        proof { lemma_stages_prefix(ts, i + 1); }
                        return Err(e);
                    },
                }
            } else if str_equal(kind, "value_substitution") {
                match ValueSubstitutionTransform::from_config(&t.parameters) {
                    Ok(x) => TransformStage::ValueSubstitution(x),
                    Err(e) => {
                        proof { lemma_stages_prefix(ts, i + 1); }
                        return Err(e);
                    },
                }
            } else if str_equal(kind, "type_conversion") {
                match TypeConversionTransform::from_config(&t.parameters) {
                    Ok(x) => TransformStage::TypeConversion(x),
                    Err(e) => {
                        proof { lemma_stages_prefix(ts, i + 1); }
                        return Err(e);
                    },
                }
            } else if str_equal(kind, "field_filter") {
                match FieldFilterTransform::from_config(&t.parameters) {
                    Ok(x) => TransformStage::FieldFilter(x),
                    Err(e) => {
                        proof { lemma_stages_prefix(ts, i + 1); }
                        return Err(e);
                    },
                }
            } else if str_equal(kind, "value_validation") {
                match ValueValidationTransform::from_config(&t.parameters) {
                    Ok(x) => TransformStage::ValueValidation(x),
                    Err(e) => {
                        proof { lemma_stages_prefix(ts, i + 1); }
                        return Err(e);
                    },
                }
            } else {
                proof { lemma_stages_prefix(ts, i + 1); }
                return Err(DataSourceError::TransformationFailed(concat("Unknown transformation type: ", kind)));
            };
            pipeline = pipeline.add_stage(stage);
            i = i + 1;
        }
        assert(ts.take(ts.len() as int) =~= ts);
        Ok(pipeline)
    }
}


/// A stage that reshapes records on its own.
pub trait TransformationStage {
    /// Runs the stage on records.
    fn transform(&self, records: Vec<DataRecord>) -> Result<Vec<DataRecord>, DataSourceError>;

    /// The stage's name.
    fn name(&self) -> String;
}

impl TransformationStage for FieldMappingTransform {
    fn transform(&self, records: Vec<DataRecord>) -> Result<Vec<DataRecord>, DataSourceError> {
        FieldMappingTransform::transform(self, records)
    }

    fn name(&self) -> String {
        FieldMappingTransform::name(self)
    }
}

impl TransformationStage for FieldFilterTransform {
    fn transform(&self, records: Vec<DataRecord>) -> Result<Vec<DataRecord>, DataSourceError> {
        FieldFilterTransform::transform(self, records)
    }

    fn name(&self) -> String {
        FieldFilterTransform::name(self)
    }
}

impl TransformationStage for ValueSubstitutionTransform {
    fn transform(&self, records: Vec<DataRecord>) -> Result<Vec<DataRecord>, DataSourceError> {
        ValueSubstitutionTransform::transform(self, records)
    }

    fn name(&self) -> String {
        ValueSubstitutionTransform::name(self)
    }
}

} // verus!
