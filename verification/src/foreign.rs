//! The calls that the library makes into other crates, each with the
//! contract that the library relies on.
use vstd::prelude::*;
use std::sync::Arc;
use std::time::Duration;
use crate::string_set::string_views;

verus! {

/// Whether `c` is a digit of Crockford's base 32, upper case.
pub open spec fn is_crockford_digit(c: char) -> bool {
    ('0' <= c && c <= '9') || ('A' <= c && c <= 'Z' && c != 'I' && c != 'L' && c != 'O' && c != 'U')
}

/// Whether `s` is the text of a ULID: 26 digits of Crockford's base 32.
pub open spec fn is_ulid_text(s: Seq<char>) -> bool {
    &&& s.len() == 26
    &&& forall|i: int| 0 <= i < s.len() ==> is_crockford_digit(#[trigger] s[i])
}

/// A fresh identifier: `ulid::Ulid::new()` (the current time and random
/// bits) turned into text by `Ulid::to_string`. The contract claims only the
/// shape of the text, which `to_string` always writes as 26 digits of
/// Crockford's base 32; which identifier comes out depends on the clock and
/// on chance, and is not stated.
#[verifier::external_body]
pub(crate) fn new_ulid() -> (id: String)
    ensures
        is_ulid_text(id@),
{
    ulid::Ulid::new().to_string()
}

/// What `serde_json::from_slice::<Vec<String>>` makes of `bytes`: the strings
/// of the JSON array that the bytes hold, or `None` where they hold no such
/// array.
pub uninterp spec fn json_string_array(bytes: Seq<u8>) -> Option<Seq<Seq<char>>>;

/// Reads `bytes` as a JSON array of strings with
/// `serde_json::from_slice::<Vec<String>>`. The contract claims that the
/// result is the named function of the bytes, and nothing of that function.
#[verifier::external_body]
pub(crate) fn parse_json_string_array(bytes: &[u8]) -> (r: Option<Vec<String>>)
    ensures
        match r {
            Some(v) => json_string_array(bytes@) == Some(string_views(v@)),
            None => json_string_array(bytes@) is None,
        },
{
    serde_json::from_slice::<Vec<String>>(bytes).ok()
}

/// Whether `text` parses as an `http::Uri`.
pub uninterp spec fn parses_as_uri(text: Seq<char>) -> bool;

/// Parses `text` with `<http::Uri as FromStr>::from_str` and tells whether
/// that succeeded. The contract claims that the answer is the named
/// function of the text, and nothing of that function.
#[verifier::external_body]
pub(crate) fn is_uri(text: &str) -> (b: bool)
    ensures
        b == parses_as_uri(text@),
{
    text.parse::<http::Uri>().is_ok()
}

/// The string of the given characters, built by `String::from_iter`, which
/// appends each character in turn.
#[verifier::external_body]
pub(crate) fn string_from_chars(chars: &Vec<char>) -> (s: String)
    ensures
        s@ == chars@,
{
    String::from_iter(chars.iter())
}

/// Another handle on the value behind `a`, made by `Arc::clone`, which
/// hands out a pointer to the same allocation.
#[verifier::external_body]
pub(crate) fn share<T>(a: &Arc<T>) -> (r: Arc<T>)
    ensures
        r == *a,
{
    a.clone()
}

/// The duration of `secs` seconds, as `Duration::from_secs` makes it.
pub uninterp spec fn duration_from_secs(secs: u64) -> Duration;

/// `secs` seconds, made by `Duration::from_secs`, which never fails. The
/// contract claims that the result is the named function of `secs`, and
/// nothing of that function.
#[verifier::external_body]
pub(crate) fn duration_secs(secs: u64) -> (d: Duration)
    ensures
        d == duration_from_secs(secs),
{
    Duration::from_secs(secs)
}

} // verus!
