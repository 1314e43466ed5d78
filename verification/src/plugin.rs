//! Values shared by plugins: the settings a plugin is configured with, and
//! what an assertion plugin expects to find.

use vstd::prelude::*;
use crate::json::{JsonValue, JsonView};
use crate::strmap::StrMap;

verus! {

/// The configuration handed to a plugin.
pub struct PluginConfig {
    /// Settings by name.
    pub settings: StrMap<JsonValue>,
    pub environment: String,
}

/// What an assertion plugin found: its verdict and message, the value it
/// looked at and what was expected, in JSON form.
pub struct AssertionResult {
    pub success: bool,
    pub message: String,
    pub actual_value: Option<JsonValue>,
    pub expected_value: Option<JsonValue>,
}

/// What an assertion expects of a value.
pub enum ExpectedValue {
    /// Exactly this value.
    Exact(JsonValue),
    /// A number between the bounds, given as bit patterns of doubles.
    Range { min_bits: u64, max_bits: u64 },
    /// A value that is not empty.
    NotEmpty,
    /// A value whose JSON text contains this text.
    Contains(String),
    /// A text a regular expression matches.
    Pattern(String),
}

/// The text stored under `key` in a settings map, if it is a JSON string.
pub open spec fn text_setting(settings: Map<Seq<char>, JsonValue>, key: Seq<char>) -> Option<Seq<char>> {
    if settings.dom().contains(key) {
        match settings[key].view() {
            JsonView::String(s) => Some(s),
            _ => None,
        }
    } else {
        None
    }
}

/// The text stored under `key`, if it is a JSON string (serde_json's `as_str`).
pub fn get_text_setting(settings: &StrMap<JsonValue>, key: &str) -> (r: Option<String>)
    ensures
        match r {
            Some(s) => text_setting(settings@, key@) == Some(s@),
            None => text_setting(settings@, key@) is None,
        },
{
    match settings.get(key) {
        Some(v) => match v {
            JsonValue::String(s) => Some(crate::text::copy_string(s)),
            _ => None,
        },
        None => None,
    }
}

} // verus!
