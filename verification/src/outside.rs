//! Calls into the outside crates (and the one std conversion vstd does not
//! specify) that the verified logic relies on. Each item here is trusted:
//! Verus believes its contract and does not read its body.

use vstd::prelude::*;

verus! {

/// The normalized serialization of a URL text, if it parses: what
/// `reqwest::Url::parse` accepts and how it normalizes is a pure function of
/// the input text alone, and takes pages to state.
pub uninterp spec fn url_parsed(s: Seq<char>) -> Option<Seq<char>>;

/// The canonical JSON serialization of a JSON text, if it is valid JSON:
/// parsing and re-serializing with serde_json is a pure function of the input
/// text alone (whitespace dropped, strings re-escaped), and takes pages to
/// state.
pub uninterp spec fn json_canon(s: Seq<char>) -> Option<Seq<char>>;

/// Relies on `reqwest::Url::parse` (the `url` crate): parsing is deterministic
/// in the input text; on success `Url::as_str` is its normalized
/// serialization, named `url_parsed`.
#[verifier::external_body]
pub fn parse_url(s: &str) -> (r: Result<String, String>)
    ensures
        (r matches Ok(u) ==> url_parsed(s@) matches Some(n) && u@ == n),
        (r matches Err(_) ==> url_parsed(s@) is None),
{
    match reqwest::Url::parse(s) {
        Ok(u) => Ok(String::from(u.as_str())),
        Err(e) => Err(e.to_string()),
    }
}

/// Relies on `serde_json::from_str` and `serde_json::to_string`: parsing a
/// text as a JSON value and re-serializing it compactly is deterministic in
/// the input text, succeeds exactly when the text is valid JSON, and
/// serializing a parsed value cannot fail; the composition is named
/// `json_canon`.
#[verifier::external_body]
pub fn canonical_json(s: &str) -> (r: Result<String, String>)
    ensures
        (r matches Ok(t) ==> json_canon(s@) matches Some(c) && t@ == c),
        (r matches Err(_) ==> json_canon(s@) is None),
{
    match serde_json::from_str::<serde_json::Value>(s) {
        Ok(v) => match serde_json::to_string(&v) {
            Ok(t) => Ok(t),
            Err(e) => Err(e.to_string()),
        },
        Err(e) => Err(e.to_string()),
    }
}

/// Whether a text is free of the ANSI escape character: on such input,
/// colored's rendering is the input between a style prefix and a reset suffix.
pub open spec fn esc_free(s: Seq<char>) -> bool {
    forall|i: int| 0 <= i < s.len() ==> s[i] != '\u{1b}'
}

/// Whether `p` is `orig` wrapped in some prefix and suffix.
pub open spec fn painted(orig: Seq<char>, p: Seq<char>) -> bool {
    exists|a: Seq<char>, b: Seq<char>| p == a + orig + b
}

/// Relies on colored's `Colorize::blue` and `ColoredString`'s `Display`: when
/// the input holds no escape character, the output is the input surrounded by
/// a (possibly empty) style prefix and reset suffix; whether the escapes are
/// emitted depends on the environment, so nothing more is stated.
#[verifier::external_body]
pub fn paint_blue(s: &str) -> (r: String)
    ensures
        esc_free(s@) ==> painted(s@, r@),
{
    colored::Colorize::blue(s).to_string()
}

/// Relies on colored's `Colorize::yellow` and `ColoredString`'s `Display`, as
/// `paint_blue` does.
#[verifier::external_body]
pub fn paint_yellow(s: &str) -> (r: String)
    ensures
        esc_free(s@) ==> painted(s@, r@),
{
    colored::Colorize::yellow(s).to_string()
}

/// Relies on colored's `Colorize::cyan` and `ColoredString`'s `Display`, as
/// `paint_blue` does.
#[verifier::external_body]
pub fn paint_cyan(s: &str) -> (r: String)
    ensures
        esc_free(s@) ==> painted(s@, r@),
{
    colored::Colorize::cyan(s).to_string()
}

/// Relies on json_color's `Colorizer::colorize_json_str`: it yields a colored
/// pretty-printing of the input when the input is valid JSON, and `Err`
/// otherwise; the colors pass through colored, whose output depends on the
/// environment, so nothing is stated of the text.
#[verifier::external_body]
pub fn colorize_json(s: &str) -> (r: Option<String>)
{
    json_color::Colorizer::arbitrary().colorize_json_str(s).ok()
}

/// Relies on `String: FromIterator<char>`: collecting characters builds the
/// string of exactly those characters in order.
#[verifier::external_body]
pub fn chars_to_string(cs: &Vec<char>) -> (r: String)
    ensures
        r@ == cs@,
{
    cs.iter().collect()
}

} // verus!
