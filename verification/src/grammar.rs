//! The HTTP/1.1 grammar rules that events and header fields are checked
//! against, each a full-match regular expression run by the `regex` crate,
//! and the byte-level predicates those expressions denote.

use vstd::prelude::*;

verus! {

/// `token` (RFC 9110 section 5.6.2): method names and header field names.
pub const TOKEN_PATTERN: &'static str = r"^[-!#$%&'*+.^_`|~0-9a-zA-Z]+$";

/// An HTTP version number such as `1.1`.
pub const HTTP_VERSION_PATTERN: &'static str = r"^[0-9]\.[0-9]$";

/// A request target: one or more visible ASCII characters.
pub const REQUEST_TARGET_PATTERN: &'static str = r"(?-u)^[\x21-\x7e]+$";

/// A reason phrase: spaces, tabs and field characters.
pub const REASON_PHRASE_PATTERN: &'static str = r"(?-u)^(?:[ \t]|[^\x00\s])*$";

/// A field value: empty, or field characters separated by runs of spaces and
/// tabs, with no whitespace at either end.
pub const FIELD_VALUE_PATTERN: &'static str = r"(?-u)^(?:[^\x00\s]+(?:[ \t]+[^\x00\s]+)*)?$";

/// A `Content-Length` value: one or more decimal digits.
pub const CONTENT_LENGTH_PATTERN: &'static str = r"^[0-9]+$";

pub open spec fn is_digit(b: u8) -> bool {
    0x30 <= b && b <= 0x39
}

pub open spec fn is_alpha(b: u8) -> bool {
    (0x41 <= b && b <= 0x5A) || (0x61 <= b && b <= 0x7A)
}

/// A `tchar`: a digit, a letter, or one of ``-!#$%&'*+.^_`|~``.
pub open spec fn is_tchar(b: u8) -> bool {
    is_digit(b) || is_alpha(b) || b == 0x2D || b == 0x21 || b == 0x23 || b == 0x24 || b == 0x25
        || b == 0x26 || b == 0x27 || b == 0x2A || b == 0x2B || b == 0x2E || b == 0x5E || b == 0x5F
        || b == 0x60 || b == 0x7C || b == 0x7E
}

pub open spec fn is_token(s: Seq<u8>) -> bool {
    s.len() > 0 && forall|i: int| 0 <= i < s.len() ==> is_tchar(#[trigger] s[i])
}

pub open spec fn is_http_version(s: Seq<u8>) -> bool {
    s.len() == 3 && is_digit(s[0]) && s[1] == 0x2E && is_digit(s[2])
}

/// A visible ASCII character.
pub open spec fn is_vchar(b: u8) -> bool {
    0x21 <= b && b <= 0x7E
}

pub open spec fn is_request_target(s: Seq<u8>) -> bool {
    s.len() > 0 && forall|i: int| 0 <= i < s.len() ==> is_vchar(#[trigger] s[i])
}

/// A field character: any byte but NUL and ASCII whitespace (tab, line feed,
/// vertical tab, form feed, carriage return, space).
pub open spec fn is_field_vchar(b: u8) -> bool {
    !(b == 0x00 || b == 0x09 || b == 0x0A || b == 0x0B || b == 0x0C || b == 0x0D || b == 0x20)
}

/// A space or a horizontal tab.
pub open spec fn is_blank(b: u8) -> bool {
    b == 0x20 || b == 0x09
}

pub open spec fn is_reason_phrase(s: Seq<u8>) -> bool {
    forall|i: int| 0 <= i < s.len() ==> is_blank(#[trigger] s[i]) || is_field_vchar(s[i])
}

pub open spec fn is_field_value(s: Seq<u8>) -> bool {
    s.len() == 0 || {
        &&& forall|i: int| 0 <= i < s.len() ==> is_blank(#[trigger] s[i]) || is_field_vchar(s[i])
        &&& is_field_vchar(s[0])
        &&& is_field_vchar(s.last())
    }
}

pub open spec fn is_digits(s: Seq<u8>) -> bool {
    s.len() > 0 && forall|i: int| 0 <= i < s.len() ==> is_digit(#[trigger] s[i])
}

/// What `regex::bytes::Regex::new(pattern)` followed by `is_match(haystack)`
/// gives: `None` where the pattern does not compile, else whether the
/// haystack matches.
pub uninterp spec fn regex_outcome(pattern: Seq<char>, haystack: Seq<u8>) -> Option<bool>;

/// Compiles `pattern` with `regex::bytes::Regex::new` and runs
/// `Regex::is_match` on `haystack`; a pattern that does not compile gives
/// `None`.
///
/// Beyond naming the outcome, the contract states, for each pattern of this
/// module, the match it denotes under the `regex` crate's documented syntax:
/// `^` and `$` anchor at the ends of the haystack, `(?-u)` makes classes
/// range over bytes, and `\s` there is `[\t\n\v\f\r ]`.
#[verifier::external_body]
fn regex_full_match(pattern: &str, haystack: &[u8]) -> (r: Option<bool>)
    ensures
        r == regex_outcome(pattern@, haystack@),
        pattern@ == TOKEN_PATTERN@ ==> r == Some(is_token(haystack@)),
        pattern@ == HTTP_VERSION_PATTERN@ ==> r == Some(is_http_version(haystack@)),
        pattern@ == REQUEST_TARGET_PATTERN@ ==> r == Some(is_request_target(haystack@)),
        pattern@ == REASON_PHRASE_PATTERN@ ==> r == Some(is_reason_phrase(haystack@)),
        pattern@ == FIELD_VALUE_PATTERN@ ==> r == Some(is_field_value(haystack@)),
        pattern@ == CONTENT_LENGTH_PATTERN@ ==> r == Some(is_digits(haystack@)),
{
    match regex::bytes::Regex::new(pattern) {
        Ok(re) => Some(re.is_match(haystack)),
        Err(_) => None,
    }
}

/// Whether `s` is a token.
pub fn check_token(s: &[u8]) -> (r: bool)
    ensures
        r == is_token(s@),
{
    match regex_full_match(TOKEN_PATTERN, s) {
        Some(m) => m,
        None => false,
    }
}

/// Whether `s` is an HTTP version number.
pub fn check_http_version(s: &[u8]) -> (r: bool)
    ensures
        r == is_http_version(s@),
{
    match regex_full_match(HTTP_VERSION_PATTERN, s) {
        Some(m) => m,
        None => false,
    }
}

/// Whether `s` is a request target.
pub fn check_request_target(s: &[u8]) -> (r: bool)
    ensures
        r == is_request_target(s@),
{
    match regex_full_match(REQUEST_TARGET_PATTERN, s) {
        Some(m) => m,
        None => false,
    }
}

/// Whether `s` is a reason phrase.
pub fn check_reason_phrase(s: &[u8]) -> (r: bool)
    ensures
        r == is_reason_phrase(s@),
{
    match regex_full_match(REASON_PHRASE_PATTERN, s) {
        Some(m) => m,
        None => false,
    }
}

/// Whether `s` is a field value.
pub fn check_field_value(s: &[u8]) -> (r: bool)
    ensures
        r == is_field_value(s@),
{
    match regex_full_match(FIELD_VALUE_PATTERN, s) {
        Some(m) => m,
        None => false,
    }
}

/// Whether `s` is a `Content-Length` value.
pub fn check_content_length(s: &[u8]) -> (r: bool)
    ensures
        r == is_digits(s@),
{
    match regex_full_match(CONTENT_LENGTH_PATTERN, s) {
        Some(m) => m,
        None => false,
    }
}

} // verus!
