//! The languages the application serves and the one it falls back to.

use vstd::prelude::*;
use vstd::string::*;
use crate::text::same_text;

verus! {

/// The languages the application serves.
pub const SUPPORTED_LANGUAGES: [&'static str; 3] = ["en", "es", "fr"];

/// The language that stands in where no served language is asked for.
pub const DEFAULT_LANGUAGE: &'static str = "en";

/// The code of the fallback language.
pub open spec fn default_code() -> Seq<char> {
    "en"@
}

/// The codes the application serves, in their fixed order.
pub open spec fn supported_codes() -> Seq<Seq<char>> {
    seq!["en"@, "es"@, "fr"@]
}

/// `code` is one of the served languages.
pub open spec fn supported(code: Seq<char>) -> bool {
    code == "en"@ || code == "es"@ || code == "fr"@
}

/// `code` when it is served, the fallback code otherwise.
pub open spec fn validated(code: Seq<char>) -> Seq<char> {
    if supported(code) {
        code
    } else {
        default_code()
    }
}

/// The fallback language is itself served, so validation always ends in a served code.
pub proof fn lemma_validated_is_supported(code: Seq<char>)
    ensures
        supported(validated(code)),
        supported(code) ==> validated(code) == code,
        validated(validated(code)) == validated(code),
{
}

/// The code of the fallback language.
pub fn default_language() -> (r: String)
    ensures
        r@ == default_code(),
{
    String::from_str(DEFAULT_LANGUAGE)
}

/// The codes the application serves.
pub fn supported_languages() -> (r: Vec<String>)
    ensures
        r@.len() == 3,
        forall|i: int| 0 <= i < 3 ==> (#[trigger] r@[i])@ == supported_codes()[i],
{
    let mut r: Vec<String> = Vec::new();
    r.push(String::from_str(SUPPORTED_LANGUAGES[0]));
    r.push(String::from_str(SUPPORTED_LANGUAGES[1]));
    r.push(String::from_str(SUPPORTED_LANGUAGES[2]));
    r
}

/// Whether `code` is one of the served languages.
pub fn is_supported(code: &str) -> (r: bool)
    ensures
        r == supported(code@),
{
    same_text(code, SUPPORTED_LANGUAGES[0]) || same_text(code, SUPPORTED_LANGUAGES[1]) || same_text(
        code,
        SUPPORTED_LANGUAGES[2],
    )
}

/// `code` when it is served, the fallback code otherwise.
pub fn validate_language(code: &str) -> (r: String)
    ensures
        r@ == validated(code@),
        supported(r@),
{
    if is_supported(code) {
        String::from_str(code)
    } else {
        default_language()
    }
}

} // verus!
