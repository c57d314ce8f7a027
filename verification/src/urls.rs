//! URLs as the `url` crate reads and writes them. The library asks it for a
//! URL's scheme and path and for the text of a URL with a new path and
//! query; what it does with them is verified elsewhere.

use vstd::prelude::*;

verus! {

/// Whether `url::Url::parse` accepts the text.
pub uninterp spec fn url_parses(text: Seq<char>) -> bool;

/// The scheme of the URL that `url::Url::parse` reads from the text.
pub uninterp spec fn url_scheme(text: Seq<char>) -> Seq<char>;

/// The path of the URL that `url::Url::parse` reads from the text.
pub uninterp spec fn url_path(text: Seq<char>) -> Seq<char>;

/// The text of the URL read from `text` after `set_path(path)` and
/// `set_query(query)`.
pub uninterp spec fn url_with_path_query(text: Seq<char>, path: Seq<char>, query: Option<Seq<char>>) -> Seq<char>;

/// The text of the URL that `url::Url::parse` reads from the text.
pub uninterp spec fn url_text(text: Seq<char>) -> Seq<char>;

/// The host of the URL that `url::Url::parse` reads from the text
/// (`Url::host_str`).
pub uninterp spec fn url_host(text: Seq<char>) -> Option<Seq<char>>;

/// The port of the URL that `url::Url::parse` reads from the text, or the
/// default port of its scheme (`Url::port_or_known_default`).
pub uninterp spec fn url_port(text: Seq<char>) -> Option<u16>;

/// The views of an optional string slice.
pub open spec fn opt_str_view(o: Option<&str>) -> Option<Seq<char>> {
    match o {
        Some(s) => Some(s@),
        None => None,
    }
}

/// `url::Url::parse(text)` and `Url::scheme`: the scheme, or the parser's
/// error message. The contract ties success to `url_parses` and the scheme
/// to `url_scheme`.
#[verifier::external_body]
pub(crate) fn parse_url_scheme(text: &str) -> (r: Result<String, String>)
    ensures
        r is Ok <==> url_parses(text@),
        r matches Ok(s) ==> s@ == url_scheme(text@),
{
    url::Url::parse(text).map(|u| u.scheme().to_string()).map_err(|e| e.to_string())
}

/// `url::Url::parse(text)` and `Url::path`: the path, or the parser's
/// error message.
#[verifier::external_body]
pub(crate) fn parse_url_path(text: &str) -> (r: Result<String, String>)
    ensures
        r is Ok <==> url_parses(text@),
        r matches Ok(p) ==> p@ == url_path(text@),
{
    url::Url::parse(text).map(|u| u.path().to_string()).map_err(|e| e.to_string())
}

/// `url::Url::parse(text)`, then `set_path`, `set_query` and `as_str`.
#[verifier::external_body]
pub(crate) fn url_with(text: &str, path: &str, query: Option<&str>) -> (r: Result<String, String>)
    ensures
        r is Ok <==> url_parses(text@),
        r matches Ok(u) ==> u@ == url_with_path_query(text@, path@, opt_str_view(query)),
{
    url::Url::parse(text)
        .map(|mut u| {
            u.set_path(path);
            u.set_query(query);
            u.as_str().to_string()
        })
        .map_err(|e| e.to_string())
}

/// `url::Url::parse(text)` and `Url::as_str`: the URL as the parser
/// writes it back.
#[verifier::external_body]
pub(crate) fn parse_url_text(text: &str) -> (r: Result<String, String>)
    ensures
        r is Ok <==> url_parses(text@),
        r matches Ok(u) ==> u@ == url_text(text@),
{
    url::Url::parse(text).map(|u| u.as_str().to_string()).map_err(|e| e.to_string())
}

/// `url::Url::parse(text)`, then `Url::host_str` and
/// `Url::port_or_known_default`.
#[verifier::external_body]
pub(crate) fn parse_url_host_port(text: &str) -> (r: Result<(Option<String>, Option<u16>), String>)
    ensures
        r is Ok <==> url_parses(text@),
        r matches Ok((h, p)) ==> (match h {
            Some(x) => url_host(text@) == Some(x@),
            None => url_host(text@) is None,
        }) && p == url_port(text@),
{
    url::Url::parse(text)
        .map(|u| (u.host_str().map(|h| h.to_string()), u.port_or_known_default()))
        .map_err(|e| e.to_string())
}

} // verus!
