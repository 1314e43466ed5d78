//! Regular expressions, compiled and applied by the regex crate.

use vstd::prelude::*;

verus! {

/// The text of the error the regex crate gives when it refuses a pattern
/// (`Regex::new`), or nothing when the pattern compiles.
pub uninterp spec fn regex_error_text(pattern: Seq<char>) -> Option<Seq<char>>;

/// Compiles a pattern, giving the regex crate's error text when it is refused.
#[verifier::external_body]
pub(crate) fn check_pattern(pattern: &str) -> (r: Result<(), String>)
    ensures
        match r {
            Ok(()) => regex_error_text(pattern@) is None,
            Err(e) => regex_error_text(pattern@) == Some(e@),
        },
{
    match regex::Regex::new(pattern) {
        Ok(_) => Ok(()),
        Err(e) => Err(e.to_string()),
    }
}

/// Whether a compiled pattern matches somewhere in a text (`Regex::is_match`).
pub uninterp spec fn regex_finds(pattern: Seq<char>, text: Seq<char>) -> bool;

/// Whether `pattern` matches somewhere in `text`.
#[verifier::external_body]
pub(crate) fn pattern_matches(pattern: &str, text: &str) -> (r: bool)
    requires
        regex_error_text(pattern@) is None,
    ensures
        r == regex_finds(pattern@, text@),
{
    match regex::Regex::new(pattern) {
        Ok(re) => re.is_match(text),
        Err(_) => false,
    }
}

/// A text with every match of a compiled pattern replaced, `$` group
/// references in the replacement expanded (`Regex::replace_all`).
pub uninterp spec fn regex_replaced(pattern: Seq<char>, text: Seq<char>, replacement: Seq<char>) -> Seq<char>;

/// `text` with every match of `pattern` replaced by `replacement`.
#[verifier::external_body]
pub(crate) fn replace_pattern(pattern: &str, text: &str, replacement: &str) -> (r: String)
    requires
        regex_error_text(pattern@) is None,
    ensures
        r@ == regex_replaced(pattern@, text@, replacement@),
{
    match regex::Regex::new(pattern) {
        Ok(re) => re.replace_all(text, replacement).into_owned(),
        Err(_) => text.to_string(),
    }
}

} // verus!
