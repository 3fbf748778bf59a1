//! The values that travel between clients and the service, and the rules on
//! short codes and submitted links.
use vstd::prelude::*;
use vstd::string::StrSliceExecFns;
use vstd::string::StringExecFns;

verus! {

/// The body of a request to shorten a link.
pub struct ShortenRequest {
    pub url: String,
}

/// The answer to a request to shorten a link.
pub struct ShortenResponse {
    pub short_url: String,
}

/// One shortened link.
pub struct UrlEntry {
    pub original: String,
}

/// Why a submitted link is not taken.
#[derive(Debug, PartialEq, Eq, Structural, Clone, Copy)]
pub enum UrlError {
    /// Nothing but white space was submitted.
    Empty,
    /// The link starts neither with `http://` nor with `https://`.
    MissingScheme,
}

/// The codes that name routes of their own and never stand for a link.
pub open spec fn is_reserved(code: Seq<char>) -> bool {
    code == "dashboard"@ || code == "shorten"@
}

/// Where the service answers; a short link is this followed by its code.
pub open spec fn base_url() -> Seq<char> {
    "http://localhost:8081/"@
}

pub fn is_reserved_code(code: &String) -> (r: bool)
    ensures
        r == is_reserved(code@),
{
    let dashboard = "dashboard".to_owned();
    let shorten = "shorten".to_owned();
    *code == dashboard || *code == shorten
}

/// The short link for `code`.
pub fn short_url_for(code: &String) -> (r: String)
    ensures
        r@ == base_url() + code@,
{
    let base: &str = "http://localhost:8081/";
    let mut r = base.to_owned();
    r.append(code.as_str());
    r
}

/// A character of Unicode's White_Space property, which `char::is_whitespace`
/// tests and `str::trim` cuts.
pub open spec fn is_white_space(c: char) -> bool {
    ('\u{9}' <= c && c <= '\u{d}') || c == ' ' || c == '\u{85}' || c == '\u{a0}' || c == '\u{1680}'
        || ('\u{2000}' <= c && c <= '\u{200a}') || c == '\u{2028}' || c == '\u{2029}' || c
        == '\u{202f}' || c == '\u{205f}' || c == '\u{3000}'
}

/// Nothing but white space: what is left after trimming is empty.
pub open spec fn is_blank(s: Seq<char>) -> bool {
    forall|i: int| 0 <= i < s.len() ==> is_white_space(#[trigger] s[i])
}

fn white_space(c: char) -> (r: bool)
    ensures
        r == is_white_space(c),
{
    ('\u{9}' <= c && c <= '\u{d}') || c == ' ' || c == '\u{85}' || c == '\u{a0}' || c == '\u{1680}'
        || ('\u{2000}' <= c && c <= '\u{200a}') || c == '\u{2028}' || c == '\u{2029}' || c
        == '\u{202f}' || c == '\u{205f}' || c == '\u{3000}'
}

fn blank(s: &str) -> (r: bool)
    ensures
        r == is_blank(s@),
{
    let n = s.unicode_len();
    let mut i: usize = 0;
    while i < n
        invariant
            n == s@.len(),
            i <= n,
            forall|j: int| 0 <= j < i ==> is_white_space(#[trigger] s@[j]),
        decreases n - i,
    {
        if !white_space(s.get_char(i)) {
            return false;
        }
        i += 1;
    }
    true
}

/// `p` is a prefix of `s`.
pub open spec fn starts_with(s: Seq<char>, p: Seq<char>) -> bool {
    p.len() <= s.len() && s.subrange(0, p.len() as int) == p
}

fn has_prefix(s: &str, p: &str) -> (r: bool)
    ensures
        r == starts_with(s@, p@),
{
    let n = p.unicode_len();
    if n > s.unicode_len() {
        return false;
    }
    let mut i: usize = 0;
    while i < n
        invariant
            n == p@.len(),
            n <= s@.len(),
            i <= n,
            forall|j: int| 0 <= j < i ==> s@[j] == p@[j],
        decreases n - i,
    {
        if s.get_char(i) != p.get_char(i) {
            assert(s@.subrange(0, n as int)[i as int] != p@[i as int]);
            return false;
        }
        i += 1;
    }
    assert(s@.subrange(0, n as int) =~= p@);
    true
}

/// A submitted link is taken when it is not blank and names its scheme.
pub open spec fn url_check(url: Seq<char>) -> Result<(), UrlError> {
    if is_blank(url) {
        Err(UrlError::Empty)
    } else if !starts_with(url, "http://"@) && !starts_with(url, "https://"@) {
        Err(UrlError::MissingScheme)
    } else {
        Ok(())
    }
}

/// Checks a submitted link before it reaches the store.
pub fn validate_url(url: &String) -> (r: Result<(), UrlError>)
    ensures
        r == url_check(url@),
{
    if blank(url.as_str()) {
        return Err(UrlError::Empty);
    }
    if !has_prefix(url.as_str(), "http://") && !has_prefix(url.as_str(), "https://") {
        return Err(UrlError::MissingScheme);
    }
    Ok(())
}

} // verus!
