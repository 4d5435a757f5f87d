//! File URLs handed to the editor by the system (when a file is opened
//! from another application), turned into paths.

use vstd::prelude::*;
use crate::text::str_eq;

verus! {

/// Whether `Url::parse` accepts `value` (the WHATWG URL parser of the
/// `url` crate).
pub uninterp spec fn url_parses(value: Seq<char>) -> bool;

/// The scheme `Url::scheme` reports for the URL parsed from `value`.
pub uninterp spec fn url_scheme(value: Seq<char>) -> Seq<char>;

/// The local path `Url::to_file_path` gives for the URL parsed from
/// `value`, when it gives one and that path is valid UTF-8.
pub uninterp spec fn url_file_path(value: Seq<char>) -> Option<Seq<char>>;

/// What the editor reads of a parsed URL: its scheme, and the local path
/// it names when it names one.
#[derive(Clone, Debug, PartialEq, Eq)]
pub struct ParsedUrl {
    pub scheme: String,
    pub file_path: Option<String>,
}

/// Parses `value` with `url::Url::parse`, and reads the scheme
/// (`Url::scheme`) and the local path (`Url::to_file_path`, kept when it
/// is valid UTF-8) of the result. The contract ties success, the scheme and
/// the path to `value` by name.
#[verifier::external_body]
fn parse_url(value: &str) -> (r: Option<ParsedUrl>)
    ensures
        r is Some <==> url_parses(value@),
        r matches Some(u) ==> u.scheme@ == url_scheme(value@),
        r matches Some(u) ==> match u.file_path {
            Some(p) => url_file_path(value@) == Some(p@),
            None => url_file_path(value@) is None,
        },
{
    let url = url::Url::parse(value).ok()?;
    let file_path = url.to_file_path().ok().and_then(|p| p.into_os_string().into_string().ok());
    Some(ParsedUrl { scheme: url.scheme().to_string(), file_path })
}

/// The local path of a parsed URL: only a `file` URL names one.
pub open spec fn spec_file_path_from_parsed(parsed: Option<ParsedUrl>) -> Option<Seq<char>> {
    match parsed {
        Some(u) => if u.scheme@ == "file"@ {
            match u.file_path {
                Some(p) => Some(p@),
                None => None,
            }
        } else {
            None
        },
        None => None,
    }
}

/// The local path of `parsed`, when it is a `file` URL with one.
pub fn file_path_from_parsed(parsed: Option<ParsedUrl>) -> (r: Option<String>)
    ensures
        match r {
            Some(p) => spec_file_path_from_parsed(parsed) == Some(p@),
            None => spec_file_path_from_parsed(parsed) is None,
        },
{
    match parsed {
        Some(u) => if str_eq(u.scheme.as_str(), "file") {
            u.file_path
        } else {
            None
        },
        None => None,
    }
}

/// The local path named by the URL `value`: nothing unless it parses as a
/// URL with the `file` scheme; then the path `Url::to_file_path` decodes
/// from it (see `url_file_path`).
pub fn path_from_file_url(value: &str) -> (r: Option<String>)
    ensures
        r is Some ==> url_parses(value@) && url_scheme(value@) == "file"@,
        !url_parses(value@) || url_scheme(value@) != "file"@ ==> r is None,
        url_parses(value@) && url_scheme(value@) == "file"@ ==> match r {
            Some(p) => url_file_path(value@) == Some(p@),
            None => url_file_path(value@) is None,
        },
{
    file_path_from_parsed(parse_url(value))
}

/// Whether `value` parses as a URL with the `file` scheme (the URLs the
/// editor accepts to open).
pub fn is_file_url(value: &str) -> (r: bool)
    ensures
        r == (url_parses(value@) && url_scheme(value@) == "file"@),
{
    match parse_url(value) {
        Some(u) => str_eq(u.scheme.as_str(), "file"),
        None => false,
    }
}

} // verus!
