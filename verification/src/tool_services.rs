//! The local tool HTTP service: path normalisation and matching, route
//! selection, status lines, HTML escaping and URL path-segment encoding.
//! Sockets and files stay with the caller.

use crate::text::{
    concat, contains_char, dec, dec_u64, eq, eq_ignore_ascii_case, eq_ignore_case, eq_str,
    ends_with, from_chars, is_digit, lower_seq, replace, replace_seq, rsplit_once, rsplit_once_char,
    split_once, split_once_char, starts_with, str_bytes, string_from_utf8, strip_prefix, strip_prefix_of, to_chars, to_lower,
    to_owned_string, to_upper, trim, trim_end_by, trim_end_class, trim_start_by,
    trim_start_class, trim_ws, upper_seq, CharClass,
};
use vstd::prelude::*;
use vstd::utf8::{decode_utf8, encode_utf8, valid_utf8};

verus! {

// ---------------------------------------------------------------------------
// Paths shown in summaries
// ---------------------------------------------------------------------------

/// A path without the Windows verbatim prefix: `\\?\UNC\server` becomes
/// `\\server`, `\\?\C:\dir` becomes `C:\dir`, other paths are unchanged.
pub open spec fn without_verbatim_prefix(path: Seq<char>) -> Seq<char> {
    match strip_prefix(path, "\\\\?\\UNC\\"@) {
        Some(rest) => "\\\\"@ + rest,
        None => match strip_prefix(path, "\\\\?\\"@) {
            Some(rest) => rest,
            None => path,
        },
    }
}

/// Removes the Windows verbatim prefix from a path.
pub fn strip_windows_verbatim_prefix(path: &str) -> (r: String)
    ensures
        r@ == without_verbatim_prefix(path@),
{
    let v = to_chars(path);
    let unc = to_chars("\\\\?\\UNC\\");
    match strip_prefix_of(v.as_slice(), unc.as_slice()) {
        Some(rest) => {
            let lead = to_chars("\\\\");
            let r = concat(lead.as_slice(), rest.as_slice());
            return from_chars(r.as_slice());
        },
        None => {},
    }
    let verbatim = to_chars("\\\\?\\");
    match strip_prefix_of(v.as_slice(), verbatim.as_slice()) {
        Some(rest) => from_chars(rest.as_slice()),
        None => to_owned_string(path),
    }
}

/// The static directory as shown in a service summary.
pub fn display_path_for_summary(path: &str) -> (r: String)
    ensures
        r@ == without_verbatim_prefix(path@),
{
    strip_windows_verbatim_prefix(path)
}

// ---------------------------------------------------------------------------
// Request paths
// ---------------------------------------------------------------------------

/// A configured path: trimmed, `/` for blank input, one leading `/`, no
/// trailing `/`.
pub open spec fn normalized_path(value: Seq<char>) -> Seq<char> {
    let t = trim(value);
    if t.len() == 0 || t == seq!['/'] {
        seq!['/']
    } else {
        let with_leading = if seq!['/'].is_prefix_of(t) {
            t
        } else {
            seq!['/'] + t
        };
        trim_end_by(with_leading, CharClass::Exactly('/'))
    }
}

fn normalize_chars(value: &[char]) -> (r: Vec<char>)
    ensures
        r@ == normalized_path(value@),
{
    let t = trim_ws(value);
    let slash = ['/'];
    assert(slash@ =~= seq!['/']);
    if t.len() == 0 || eq(t.as_slice(), slash.as_slice()) {
        return slice_of(slash.as_slice());
    }
    let with_leading = if starts_with(t.as_slice(), slash.as_slice()) {
        t
    } else {
        concat(slash.as_slice(), t.as_slice())
    };
    trim_end_class(with_leading.as_slice(), &CharClass::Exactly('/'))
}

fn slice_of(v: &[char]) -> (r: Vec<char>)
    ensures
        r@ == v@,
{
    concat(v, &[])
}

/// Normalises a configured route path or static prefix.
pub fn normalize_service_path(value: &str) -> (r: String)
    ensures
        r@ == normalized_path(value@),
{
    let v = to_chars(value);
    let r = normalize_chars(v.as_slice());
    from_chars(r.as_slice())
}

/// Whether a request path lies under a prefix: the prefix is `/`, equals the
/// path, or is followed in the path by `/`.
pub open spec fn under_prefix(prefix: Seq<char>, path: Seq<char>) -> bool {
    prefix == seq!['/'] || path == prefix || (prefix + seq!['/']).is_prefix_of(path)
}

/// Whether a request path lies under a prefix.
pub fn path_matches(prefix: &str, path: &str) -> (r: bool)
    ensures
        r == under_prefix(prefix@, path@),
{
    let p = to_chars(prefix);
    let q = to_chars(path);
    path_matches_chars(p.as_slice(), q.as_slice())
}

fn path_matches_chars(p: &[char], q: &[char]) -> (r: bool)
    ensures
        r == under_prefix(p@, q@),
{
    let slash = ['/'];
    assert(slash@ =~= seq!['/']);
    if eq(p, slash.as_slice()) || eq(q, p) {
        return true;
    }
    let ps = concat(p, slash.as_slice());
    starts_with(q, ps.as_slice())
}

/// The part of a request path below a prefix, leading `/` removed.
pub open spec fn relative_path(prefix: Seq<char>, path: Seq<char>) -> Option<Seq<char>> {
    if !under_prefix(prefix, path) {
        None
    } else if prefix == seq!['/'] {
        Some(trim_start_by(path, CharClass::Exactly('/')))
    } else {
        match strip_prefix(path, prefix) {
            Some(rest) => Some(trim_start_by(rest, CharClass::Exactly('/'))),
            None => None,
        }
    }
}

/// The part of a request path below a prefix.
pub fn relative_request_path(prefix: &str, path: &str) -> (r: Option<String>)
    ensures
        match r {
            Some(s) => relative_path(prefix@, path@) == Some(s@),
            None => relative_path(prefix@, path@) is None,
        },
{
    let p = to_chars(prefix);
    let q = to_chars(path);
    if !path_matches_chars(p.as_slice(), q.as_slice()) {
        return None;
    }
    let slash = ['/'];
    assert(slash@ =~= seq!['/']);
    if eq(p.as_slice(), slash.as_slice()) {
        let r = trim_start_class(q.as_slice(), &CharClass::Exactly('/'));
        return Some(from_chars(r.as_slice()));
    }
    match strip_prefix_of(q.as_slice(), p.as_slice()) {
        Some(rest) => {
            let r = trim_start_class(rest.as_slice(), &CharClass::Exactly('/'));
            Some(from_chars(r.as_slice()))
        },
        None => None,
    }
}

/// A request target without its query string.
pub open spec fn without_query(path: Seq<char>) -> Seq<char> {
    match split_once(path, '?') {
        Some((head, _)) => head,
        None => path,
    }
}

fn without_query_chars(v: &[char]) -> (r: Vec<char>)
    ensures
        r@ == without_query(v@),
{
    match split_once_char(v, '?') {
        Some((head, _)) => head,
        None => slice_of(v),
    }
}

/// A request target without its query string.
pub fn request_path_without_query(path: &str) -> (r: String)
    ensures
        r@ == without_query(path@),
{
    let v = to_chars(path);
    let r = without_query_chars(v.as_slice());
    from_chars(r.as_slice())
}

// ---------------------------------------------------------------------------
// Methods and routes
// ---------------------------------------------------------------------------

/// Whether a route's method accepts a request method: `ANY` accepts all,
/// methods compare without case, and `GET` also answers `HEAD`.
pub open spec fn method_accepts(route: Seq<char>, request: Seq<char>) -> bool {
    route == "ANY"@ || eq_ignore_case(route, request) || (route == "GET"@ && eq_ignore_case(
        request,
        "HEAD"@,
    ))
}

/// Whether a route's method accepts a request method.
pub fn method_matches(route_method: &str, request_method: &str) -> (r: bool)
    ensures
        r == method_accepts(route_method@, request_method@),
{
    let rm = to_chars(route_method);
    let q = to_chars(request_method);
    if eq_str(rm.as_slice(), "ANY") {
        return true;
    }
    if eq_ignore_ascii_case(rm.as_slice(), q.as_slice()) {
        return true;
    }
    let head = to_chars("HEAD");
    eq_str(rm.as_slice(), "GET") && eq_ignore_ascii_case(q.as_slice(), head.as_slice())
}

/// The methods a route may name.
pub open spec fn known_method(m: Seq<char>) -> bool {
    m == "GET"@ || m == "POST"@ || m == "PUT"@ || m == "PATCH"@ || m == "DELETE"@ || m
        == "HEAD"@ || m == "OPTIONS"@ || m == "ANY"@
}

/// A route method trimmed and upper-cased, if it is one of the known ones.
pub open spec fn normalized_method(value: Seq<char>) -> Option<Seq<char>> {
    let m = upper_seq(trim(value));
    if known_method(m) {
        Some(m)
    } else {
        None
    }
}

/// Normalises a route method; unknown methods are refused.
pub fn normalize_method(value: &str) -> (r: Option<String>)
    ensures
        match r {
            Some(m) => normalized_method(value@) == Some(m@),
            None => normalized_method(value@) is None,
        },
{
    let v = to_chars(value);
    let t = trim_ws(v.as_slice());
    let m = to_upper(t.as_slice());
    let ms = m.as_slice();
    if eq_str(ms, "GET") || eq_str(ms, "POST") || eq_str(ms, "PUT") || eq_str(ms, "PATCH")
        || eq_str(ms, "DELETE") || eq_str(ms, "HEAD") || eq_str(ms, "OPTIONS") || eq_str(
        ms,
        "ANY",
    ) {
        Some(from_chars(ms))
    } else {
        None
    }
}

/// A request as the tool service sees it.
#[derive(Debug, Clone)]
pub struct HttpRequest {
    pub method: String,
    pub path: String,
}

/// Whether a route answers a request: the method is accepted and the path
/// without its query equals the route's path.
pub open spec fn route_answers(
    route_method: Seq<char>,
    route_path: Seq<char>,
    request: HttpRequest,
) -> bool {
    method_accepts(route_method, request.method@) && without_query(request.path@) == route_path
}

/// Whether a route with the given method and path answers the request.
pub fn route_matches(route_method: &str, route_path: &str, request: &HttpRequest) -> (r: bool)
    ensures
        r == route_answers(route_method@, route_path@, *request),
{
    if !method_matches(route_method, request.method.as_str()) {
        return false;
    }
    let p = to_chars(request.path.as_str());
    let w = without_query_chars(p.as_slice());
    eq_str(w.as_slice(), route_path)
}

// ---------------------------------------------------------------------------
// Responses
// ---------------------------------------------------------------------------

/// The reason phrase of a status code; unknown codes read `OK`.
pub open spec fn reason(status: u16) -> Seq<char> {
    if status == 100 {
        "Continue"@
    } else if status == 200 {
        "OK"@
    } else if status == 201 {
        "Created"@
    } else if status == 202 {
        "Accepted"@
    } else if status == 204 {
        "No Content"@
    } else if status == 301 {
        "Moved Permanently"@
    } else if status == 302 {
        "Found"@
    } else if status == 304 {
        "Not Modified"@
    } else if status == 400 {
        "Bad Request"@
    } else if status == 401 {
        "Unauthorized"@
    } else if status == 403 {
        "Forbidden"@
    } else if status == 404 {
        "Not Found"@
    } else if status == 405 {
        "Method Not Allowed"@
    } else if status == 409 {
        "Conflict"@
    } else if status == 413 {
        "Payload Too Large"@
    } else if status == 500 {
        "Internal Server Error"@
    } else if status == 502 {
        "Bad Gateway"@
    } else if status == 503 {
        "Service Unavailable"@
    } else {
        "OK"@
    }
}

/// The reason phrase of a status code.
pub fn status_reason(status: u16) -> (r: &'static str)
    ensures
        r@ == reason(status),
{
    match status {
        100 => "Continue",
        200 => "OK",
        201 => "Created",
        202 => "Accepted",
        204 => "No Content",
        301 => "Moved Permanently",
        302 => "Found",
        304 => "Not Modified",
        400 => "Bad Request",
        401 => "Unauthorized",
        403 => "Forbidden",
        404 => "Not Found",
        405 => "Method Not Allowed",
        409 => "Conflict",
        413 => "Payload Too Large",
        500 => "Internal Server Error",
        502 => "Bad Gateway",
        503 => "Service Unavailable",
        _ => "OK",
    }
}

/// `HTTP/1.1 <status> <reason>\r\n`.
pub open spec fn status_line(status: u16) -> Seq<char> {
    "HTTP/1.1 "@ + dec(status as nat) + seq![' '] + reason(status) + seq!['\r', '\n']
}

/// The status line of a response.
pub fn write_status_line(status: u16) -> (r: String)
    ensures
        r@ == status_line(status),
{
    let a = to_chars("HTTP/1.1 ");
    let d = dec_u64(status as u64);
    let sp = [' '];
    let re = to_chars(status_reason(status));
    let crlf = ['\r', '\n'];
    let x = concat(a.as_slice(), d.as_slice());
    let y = concat(x.as_slice(), sp.as_slice());
    let z = concat(y.as_slice(), re.as_slice());
    let w = concat(z.as_slice(), crlf.as_slice());
    assert(w@ =~= status_line(status));
    from_chars(w.as_slice())
}

/// A response of the tool service.
#[derive(Debug, Clone)]
pub struct ToolHttpResponse {
    pub status: u16,
    pub content_type: String,
    pub body: Vec<u8>,
}

/// A plain-text response carrying a message.
pub fn plain_response(status: u16, message: &str) -> (r: ToolHttpResponse)
    ensures
        r.status == status,
        r.content_type@ == "text/plain; charset=utf-8"@,
        r.body@ == encode_utf8(message@),
{
    ToolHttpResponse {
        status,
        content_type: to_owned_string("text/plain; charset=utf-8"),
        body: str_bytes(message),
    }
}

/// The content type served for a file extension (compared without case).
pub open spec fn content_type_of(ext: Seq<char>) -> Seq<char> {
    let e = lower_seq(ext);
    if e == "html"@ || e == "htm"@ {
        "text/html; charset=utf-8"@
    } else if e == "css"@ {
        "text/css; charset=utf-8"@
    } else if e == "js"@ || e == "mjs"@ {
        "text/javascript; charset=utf-8"@
    } else if e == "json"@ {
        "application/json; charset=utf-8"@
    } else if e == "txt"@ || e == "md"@ {
        "text/plain; charset=utf-8"@
    } else if e == "png"@ {
        "image/png"@
    } else if e == "jpg"@ || e == "jpeg"@ {
        "image/jpeg"@
    } else if e == "gif"@ {
        "image/gif"@
    } else if e == "svg"@ {
        "image/svg+xml"@
    } else if e == "webp"@ {
        "image/webp"@
    } else if e == "ico"@ {
        "image/x-icon"@
    } else {
        "application/octet-stream"@
    }
}

/// Each known extension, in any letter case, is served with its content
/// type: pages, stylesheets and scripts as UTF-8 text, images by their
/// formats; an unknown one as plain bytes.
pub proof fn law_extension_content_types(ext: Seq<char>)
    ensures
        (lower_seq(ext) == "html"@ || lower_seq(ext) == "htm"@) ==> content_type_of(ext) == "text/html; charset=utf-8"@,
        lower_seq(ext) == "css"@ ==> content_type_of(ext) == "text/css; charset=utf-8"@,
        (lower_seq(ext) == "js"@ || lower_seq(ext) == "mjs"@) ==> content_type_of(ext) == "text/javascript; charset=utf-8"@,
        lower_seq(ext) == "json"@ ==> content_type_of(ext) == "application/json; charset=utf-8"@,
        (lower_seq(ext) == "txt"@ || lower_seq(ext) == "md"@) ==> content_type_of(ext) == "text/plain; charset=utf-8"@,
        lower_seq(ext) == "png"@ ==> content_type_of(ext) == "image/png"@,
        (lower_seq(ext) == "jpg"@ || lower_seq(ext) == "jpeg"@) ==> content_type_of(ext) == "image/jpeg"@,
        lower_seq(ext) == "gif"@ ==> content_type_of(ext) == "image/gif"@,
        lower_seq(ext) == "svg"@ ==> content_type_of(ext) == "image/svg+xml"@,
        lower_seq(ext) == "webp"@ ==> content_type_of(ext) == "image/webp"@,
        lower_seq(ext) == "ico"@ ==> content_type_of(ext) == "image/x-icon"@,
        lower_seq(ext).len() == 0 ==> content_type_of(ext) == "application/octet-stream"@,
{
    reveal_strlit("html");
    reveal_strlit("htm");
    reveal_strlit("css");
    reveal_strlit("js");
    reveal_strlit("mjs");
    reveal_strlit("json");
    reveal_strlit("txt");
    reveal_strlit("md");
    reveal_strlit("png");
    reveal_strlit("jpg");
    reveal_strlit("jpeg");
    reveal_strlit("gif");
    reveal_strlit("svg");
    reveal_strlit("webp");
    reveal_strlit("ico");
    let e = lower_seq(ext);
    if e == "htm"@ {
        assert(e.len() == 3 && e[0] == 'h' && e[2] == 'm');
        assert(e != "html"@);
    }
    if e == "css"@ {
        assert(e.len() == 3 && e[0] == 'c' && e[2] == 's');
        assert(e != "html"@ && e != "htm"@);
    }
    if e == "js"@ {
        assert(e.len() == 2 && e[0] == 'j' && e[1] == 's');
        assert(e != "html"@ && e != "htm"@ && e != "css"@);
    }
    if e == "mjs"@ {
        assert(e.len() == 3 && e[0] == 'm' && e[2] == 's');
        assert(e != "html"@ && e != "htm"@ && e != "css"@ && e != "js"@);
    }
    if e == "json"@ {
        assert(e.len() == 4 && e[0] == 'j' && e[3] == 'n');
        assert(e != "html"@ && e != "htm"@ && e != "css"@ && e != "js"@ && e != "mjs"@);
    }
    if e == "txt"@ {
        assert(e.len() == 3 && e[0] == 't' && e[2] == 't');
        assert(e != "html"@ && e != "htm"@ && e != "css"@ && e != "js"@ && e != "mjs"@ && e != "json"@);
    }
    if e == "md"@ {
        assert(e.len() == 2 && e[0] == 'm' && e[1] == 'd');
        assert(e != "html"@ && e != "htm"@ && e != "css"@ && e != "js"@ && e != "mjs"@ && e != "json"@ && e != "txt"@);
    }
    if e == "png"@ {
        assert(e.len() == 3 && e[0] == 'p' && e[2] == 'g');
        assert(e != "html"@ && e != "htm"@ && e != "css"@ && e != "js"@ && e != "mjs"@ && e != "json"@ && e != "txt"@ && e != "md"@);
    }
    if e == "jpg"@ {
        assert(e.len() == 3 && e[0] == 'j' && e[2] == 'g');
        assert(e != "html"@ && e != "htm"@ && e != "css"@ && e != "js"@ && e != "mjs"@ && e != "json"@ && e != "txt"@ && e != "md"@ && e != "png"@);
    }
    if e == "jpeg"@ {
        assert(e.len() == 4 && e[0] == 'j' && e[3] == 'g');
        assert(e != "html"@ && e != "htm"@ && e != "css"@ && e != "js"@ && e != "mjs"@ && e != "json"@ && e != "txt"@ && e != "md"@ && e != "png"@ && e != "jpg"@);
    }
    if e == "gif"@ {
        assert(e.len() == 3 && e[0] == 'g' && e[2] == 'f');
        assert(e != "html"@ && e != "htm"@ && e != "css"@ && e != "js"@ && e != "mjs"@ && e != "json"@ && e != "txt"@ && e != "md"@ && e != "png"@ && e != "jpg"@ && e != "jpeg"@);
    }
    if e == "svg"@ {
        assert(e.len() == 3 && e[0] == 's' && e[2] == 'g');
        assert(e != "html"@ && e != "htm"@ && e != "css"@ && e != "js"@ && e != "mjs"@ && e != "json"@ && e != "txt"@ && e != "md"@ && e != "png"@ && e != "jpg"@ && e != "jpeg"@ && e != "gif"@);
    }
    if e == "webp"@ {
        assert(e.len() == 4 && e[0] == 'w' && e[3] == 'p');
        assert(e != "html"@ && e != "htm"@ && e != "css"@ && e != "js"@ && e != "mjs"@ && e != "json"@ && e != "txt"@ && e != "md"@ && e != "png"@ && e != "jpg"@ && e != "jpeg"@ && e != "gif"@ && e != "svg"@);
    }
    if e == "ico"@ {
        assert(e.len() == 3 && e[0] == 'i' && e[2] == 'o');
        assert(e != "html"@ && e != "htm"@ && e != "css"@ && e != "js"@ && e != "mjs"@ && e != "json"@ && e != "txt"@ && e != "md"@ && e != "png"@ && e != "jpg"@ && e != "jpeg"@ && e != "gif"@ && e != "svg"@ && e != "webp"@);
    }
}

/// The content type served for a file with the given extension (empty when
/// the file has none).
pub fn content_type_for_extension(ext: &str) -> (r: &'static str)
    ensures
        r@ == content_type_of(ext@),
{
    let v = to_chars(ext);
    let e = to_lower(v.as_slice());
    let es = e.as_slice();
    if eq_str(es, "html") || eq_str(es, "htm") {
        "text/html; charset=utf-8"
    } else if eq_str(es, "css") {
        "text/css; charset=utf-8"
    } else if eq_str(es, "js") || eq_str(es, "mjs") {
        "text/javascript; charset=utf-8"
    } else if eq_str(es, "json") {
        "application/json; charset=utf-8"
    } else if eq_str(es, "txt") || eq_str(es, "md") {
        "text/plain; charset=utf-8"
    } else if eq_str(es, "png") {
        "image/png"
    } else if eq_str(es, "jpg") || eq_str(es, "jpeg") {
        "image/jpeg"
    } else if eq_str(es, "gif") {
        "image/gif"
    } else if eq_str(es, "svg") {
        "image/svg+xml"
    } else if eq_str(es, "webp") {
        "image/webp"
    } else if eq_str(es, "ico") {
        "image/x-icon"
    } else {
        "application/octet-stream"
    }
}


// ---------------------------------------------------------------------------
// HTML and URL encoding
// ---------------------------------------------------------------------------

/// HTML escaping of `&`, `<`, `>`, `"` and `'` (in that order).
pub open spec fn html_escaped(v: Seq<char>) -> Seq<char> {
    replace(
        replace(
            replace(replace(replace(v, seq!['&'], "&amp;"@), seq!['<'], "&lt;"@), seq!['>'], "&gt;"@),
            seq!['"'],
            "&quot;"@,
        ),
        seq!['\''],
        "&#39;"@,
    )
}

fn escape_chars(v: &[char]) -> (r: Vec<char>)
    ensures
        r@ == html_escaped(v@),
{
    let amp = ['&'];
    let lt = ['<'];
    let gt = ['>'];
    let dq = ['"'];
    let sq = ['\''];
    assert(amp@ =~= seq!['&']);
    assert(lt@ =~= seq!['<']);
    assert(gt@ =~= seq!['>']);
    assert(dq@ =~= seq!['"']);
    assert(sq@ =~= seq!['\'']);
    let a = replace_seq(v, amp.as_slice(), to_chars("&amp;").as_slice());
    let b = replace_seq(a.as_slice(), lt.as_slice(), to_chars("&lt;").as_slice());
    let c = replace_seq(b.as_slice(), gt.as_slice(), to_chars("&gt;").as_slice());
    let d = replace_seq(c.as_slice(), dq.as_slice(), to_chars("&quot;").as_slice());
    replace_seq(d.as_slice(), sq.as_slice(), to_chars("&#39;").as_slice())
}

/// Escapes text for HTML content.
pub fn escape_html(value: &str) -> (r: String)
    ensures
        r@ == html_escaped(value@),
{
    let v = to_chars(value);
    let r = escape_chars(v.as_slice());
    from_chars(r.as_slice())
}

/// Escapes text for an HTML attribute value.
pub fn escape_html_attr(value: &str) -> (r: String)
    ensures
        r@ == html_escaped(value@),
{
    escape_html(value)
}

/// Bytes kept as they are in a path segment: ASCII letters and digits and
/// `-`, `.`, `_`, `~`.
pub open spec fn unreserved(b: u8) -> bool {
    (0x30 <= b <= 0x39) || (0x41 <= b <= 0x5a) || (0x61 <= b <= 0x7a) || b == 0x2d || b == 0x2e
        || b == 0x5f || b == 0x7e
}

/// The upper-case hexadecimal digit of a value below sixteen.
pub open spec fn hex_digit(d: nat) -> char {
    if d < 10 {
        ((0x30 + d) as u32) as char
    } else {
        ((0x41 + d - 10) as u32) as char
    }
}

/// Percent-encoding of the bytes of a path segment: unreserved bytes as
/// characters, every other byte as `%` and two upper-case hex digits.
pub open spec fn percent_encoded(bytes: Seq<u8>) -> Seq<char>
    decreases bytes.len(),
{
    if bytes.len() == 0 {
        Seq::empty()
    } else {
        let b = bytes.last();
        let rest = percent_encoded(bytes.drop_last());
        if unreserved(b) {
            rest.push((b as u32) as char)
        } else {
            rest + seq!['%', hex_digit((b / 16) as nat), hex_digit((b % 16) as nat)]
        }
    }
}

fn hex_char(d: u8) -> (c: char)
    requires
        d < 16,
    ensures
        c == hex_digit(d as nat),
{
    if d < 10 {
        crate::text::char_from_ascii(0x30 + d as u32)
    } else {
        crate::text::char_from_ascii(0x41 + (d as u32) - 10)
    }
}

/// Percent-encodes the UTF-8 bytes of a path segment.
pub fn percent_encode_path_segment(value: &str) -> (r: String)
    ensures
        r@ == percent_encoded(encode_utf8(value@)),
{
    let bytes = value.as_bytes();
    let mut out: Vec<char> = Vec::new();
    let mut i: usize = 0;
    while i < bytes.len()
        invariant
            bytes@ == encode_utf8(value@),
            i <= bytes@.len(),
            out@ == percent_encoded(bytes@.take(i as int)),
        decreases bytes.len() - i,
    {
        let b = bytes[i];
        proof {
            assert(bytes@.take(i + 1).drop_last() =~= bytes@.take(i as int));
            assert(bytes@.take(i + 1).last() == b);
        }
        if (0x30 <= b && b <= 0x39) || (0x41 <= b && b <= 0x5a) || (0x61 <= b && b <= 0x7a) || b
            == 0x2d || b == 0x2e || b == 0x5f || b == 0x7e {
            out.push(crate::text::char_from_ascii(b as u32));
        } else {
            let hi = hex_char(b / 16);
            let lo = hex_char(b % 16);
            let ghost before = out@;
            out.push('%');
            out.push(hi);
            out.push(lo);
            assert(out@ =~= before + seq!['%', hex_digit((b / 16) as nat), hex_digit((b % 16) as nat)]);
        }
        i = i + 1;
    }
    assert(bytes@.take(bytes@.len() as int) =~= bytes@);
    from_chars(out.as_slice())
}

/// The byte of an upper-case hexadecimal digit.
pub open spec fn hex_byte(d: nat) -> u8 {
    if d < 10 {
        (0x30 + d) as u8
    } else {
        (0x41 + d - 10) as u8
    }
}

/// The bytes of one percent-encoded byte.
pub open spec fn percent_one(b: u8) -> Seq<u8> {
    if unreserved(b) {
        seq![b]
    } else {
        seq![0x25u8, hex_byte((b / 16) as nat), hex_byte((b % 16) as nat)]
    }
}

/// The bytes of a percent-encoding.
pub open spec fn percent_bytes(bytes: Seq<u8>) -> Seq<u8>
    decreases bytes.len(),
{
    if bytes.len() == 0 {
        Seq::empty()
    } else {
        percent_bytes(bytes.drop_last()) + percent_one(bytes.last())
    }
}

/// Percent-encoding is ASCII text whose bytes are `percent_bytes`.
pub proof fn lemma_percent_encoded_bytes(bytes: Seq<u8>)
    ensures
        vstd::utf8::is_ascii_chars(percent_encoded(bytes)),
        percent_encoded(bytes).len() == percent_bytes(bytes).len(),
        forall|i: int|
            0 <= i < percent_bytes(bytes).len() ==> #[trigger] percent_bytes(bytes)[i] == percent_encoded(bytes)[i] as u8,
    decreases bytes.len(),
{
    if bytes.len() > 0 {
        lemma_percent_encoded_bytes(bytes.drop_last());
        let b = bytes.last();
        let rc = percent_encoded(bytes.drop_last());
        let rb = percent_bytes(bytes.drop_last());
        if unreserved(b) {
            assert(((b as u32) as char) as u8 == b);
        } else {
            let h = (b / 16) as nat;
            let l = (b % 16) as nat;
            assert(hex_digit(h) as u8 == hex_byte(h));
            assert(hex_digit(l) as u8 == hex_byte(l));
        }
        assert forall|i: int| 0 <= i < percent_encoded(bytes).len() implies '\0' <= #[trigger] percent_encoded(bytes)[i]
            <= '\u{7f}' by {
            if i < rc.len() {
                assert(percent_encoded(bytes)[i] == rc[i]);
            }
        }
        assert forall|i: int| 0 <= i < percent_bytes(bytes).len() implies #[trigger] percent_bytes(bytes)[i]
            == percent_encoded(bytes)[i] as u8 by {
            if i < rb.len() {
                assert(percent_bytes(bytes)[i] == rb[i]);
                assert(percent_encoded(bytes)[i] == rc[i]);
            }
        }
    }
}

/// Encoding two runs of bytes encodes each in turn.
pub proof fn lemma_percent_bytes_concat(a: Seq<u8>, c: Seq<u8>)
    ensures
        percent_bytes(a + c) == percent_bytes(a) + percent_bytes(c),
    decreases c.len(),
{
    if c.len() == 0 {
        assert(a + c =~= a);
        assert(percent_bytes(a) + percent_bytes(c) =~= percent_bytes(a));
    } else {
        lemma_percent_bytes_concat(a, c.drop_last());
        assert((a + c).drop_last() =~= a + c.drop_last());
        assert((a + c).last() == c.last());
        assert(percent_bytes(a + c) =~= percent_bytes(a) + percent_bytes(c));
    }
}

/// Decoding the bytes of a percent-encoding gives the bytes back.
pub proof fn lemma_percent_bytes_decode(bytes: Seq<u8>)
    ensures
        percent_decoded(percent_bytes(bytes)) == Some(bytes),
    decreases bytes.len(),
{
    if bytes.len() == 0 {
    } else {
        let b = bytes[0];
        let rest = bytes.drop_first();
        assert(bytes =~= seq![b] + rest);
        lemma_percent_bytes_concat(seq![b], rest);
        assert(seq![b].drop_last() =~= Seq::<u8>::empty());
        assert(percent_bytes(seq![b].drop_last()) == Seq::<u8>::empty());
        assert(seq![b].last() == b);
        assert(percent_bytes(seq![b]) =~= percent_one(b));
        lemma_percent_bytes_decode(rest);
        let all = percent_bytes(bytes);
        assert(all == percent_one(b) + percent_bytes(rest));
        if unreserved(b) {
            assert(all[0] == b);
            assert(all.drop_first() =~= percent_bytes(rest));
            assert(seq![b] + rest =~= bytes);
        } else {
            let h = (b / 16) as nat;
            let l = (b % 16) as nat;
            assert(all[0] == 0x25u8);
            assert(all[1] == hex_byte(h));
            assert(all[2] == hex_byte(l));
            assert(hex_val(hex_byte(h)) == Some(h as u8));
            assert(hex_val(hex_byte(l)) == Some(l as u8));
            assert(((h as u8) * 16 + (l as u8)) as u8 == b);
            assert(all.skip(3) =~= percent_bytes(rest));
            assert(seq![b] + rest =~= bytes);
        }
    }
}

/// A percent-encoded segment decodes to the bytes it encodes.
pub proof fn law_percent_roundtrip(bytes: Seq<u8>)
    ensures
        percent_decoded(encode_utf8(percent_encoded(bytes))) == Some(bytes),
{
    lemma_percent_encoded_bytes(bytes);
    vstd::utf8::is_ascii_chars_encode_utf8(percent_encoded(bytes));
    assert(encode_utf8(percent_encoded(bytes)) =~= percent_bytes(bytes));
    lemma_percent_bytes_decode(bytes);
}

/// The value of a hexadecimal digit byte, either case.
pub open spec fn hex_val(b: u8) -> Option<u8> {
    if 0x30 <= b <= 0x39 {
        Some((b - 0x30) as u8)
    } else if 0x61 <= b <= 0x66 {
        Some((b - 0x61 + 10) as u8)
    } else if 0x41 <= b <= 0x46 {
        Some((b - 0x41 + 10) as u8)
    } else {
        None
    }
}

/// The value of a hexadecimal digit byte.
pub fn hex_value(value: u8) -> (r: Option<u8>)
    ensures
        r == hex_val(value),
{
    if 0x30 <= value && value <= 0x39 {
        Some(value - 0x30)
    } else if 0x61 <= value && value <= 0x66 {
        Some(value - 0x61 + 10)
    } else if 0x41 <= value && value <= 0x46 {
        Some(value - 0x41 + 10)
    } else {
        None
    }
}

/// Percent-decoding: `%` and two hex digits become one byte; a `%` without
/// two following hex digits makes the segment invalid.
pub open spec fn percent_decoded(bytes: Seq<u8>) -> Option<Seq<u8>>
    decreases bytes.len(),
{
    if bytes.len() == 0 {
        Some(Seq::empty())
    } else if bytes[0] == 0x25 {
        if bytes.len() < 3 {
            None
        } else {
            match (hex_val(bytes[1]), hex_val(bytes[2])) {
                (Some(h), Some(l)) => match percent_decoded(bytes.skip(3)) {
                    Some(rest) => Some(seq![(h * 16 + l) as u8] + rest),
                    None => None,
                },
                _ => None,
            }
        }
    } else {
        match percent_decoded(bytes.drop_first()) {
            Some(rest) => Some(seq![bytes[0]] + rest),
            None => None,
        }
    }
}

/// Decodes a percent-encoded path segment; `None` when an escape is broken
/// or the bytes are not UTF-8.
pub fn decode_url_path_segment(value: &str) -> (r: Option<String>)
    ensures
        match percent_decoded(encode_utf8(value@)) {
            Some(d) => if valid_utf8(d) {
                r matches Some(s) && s@ == decode_utf8(d)
            } else {
                r is None
            },
            None => r is None,
        },
{
    let bytes = value.as_bytes();
    let n = bytes.len();
    let mut decoded: Vec<u8> = Vec::new();
    let mut index: usize = 0;
    assert(bytes@.skip(0) =~= bytes@);
    while index < n
        invariant
            n == bytes@.len(),
            bytes@ == encode_utf8(value@),
            index <= n,
            percent_decoded(bytes@) == match percent_decoded(bytes@.skip(index as int)) {
                Some(rest) => Some(decoded@ + rest),
                None => None::<Seq<u8>>,
            },
        decreases n - index,
    {
        let ghost t = bytes@.skip(index as int);
        if bytes[index] == 0x25 {
            if n - index < 3 {
                return None;
            }
            let high = match hex_value(bytes[index + 1]) {
                Some(h) => h,
                None => {
                    assert(t[1] == bytes@[index + 1]);
                    return None;
                },
            };
            let low = match hex_value(bytes[index + 2]) {
                Some(l) => l,
                None => {
                    assert(t[2] == bytes@[index + 2]);
                    return None;
                },
            };
            proof {
                assert(t[0] == 0x25);
                assert(t[1] == bytes@[index + 1]);
                assert(t[2] == bytes@[index + 2]);
                assert(t.skip(3) =~= bytes@.skip(index + 3));
                match percent_decoded(t.skip(3)) {
                    Some(rest) => {
                        assert(decoded@.push((high * 16 + low) as u8) + rest =~= decoded@ + (seq![
                            (high * 16 + low) as u8,
                        ] + rest));
                    },
                    None => {},
                }
            }
            decoded.push(high * 16 + low);
            index = index + 3;
        } else {
            proof {
                assert(t[0] == bytes@[index as int]);
                assert(t.drop_first() =~= bytes@.skip(index + 1));
                match percent_decoded(t.drop_first()) {
                    Some(rest) => {
                        assert(decoded@.push(bytes@[index as int]) + rest =~= decoded@ + (seq![
                            bytes@[index as int],
                        ] + rest));
                    },
                    None => {},
                }
            }
            decoded.push(bytes[index]);
            index = index + 1;
        }
    }
    assert(bytes@.skip(index as int) =~= Seq::<u8>::empty());
    assert(decoded@ + Seq::<u8>::empty() =~= decoded@);
    match string_from_utf8(decoded) {
        Ok(s) => Some(s),
        Err(_) => None,
    }
}

// ---------------------------------------------------------------------------
// Directory listings
// ---------------------------------------------------------------------------

/// A request path ending in `/`.
pub open spec fn listing_base(p: Seq<char>) -> Seq<char> {
    if seq!['/'].is_suffix_of(p) {
        p
    } else {
        p + seq!['/']
    }
}

fn listing_base_chars(p: &[char]) -> (r: Vec<char>)
    ensures
        r@ == listing_base(p@),
{
    let slash = ['/'];
    assert(slash@ =~= seq!['/']);
    if ends_with(p, slash.as_slice()) {
        slice_of(p)
    } else {
        concat(p, slash.as_slice())
    }
}

/// The directory path under which listed entries are linked.
pub fn listing_base_path(request_path: &str) -> (r: String)
    ensures
        r@ == listing_base(request_path@),
{
    let v = to_chars(request_path);
    let r = listing_base_chars(v.as_slice());
    from_chars(r.as_slice())
}

/// The link of a listed entry: base, encoded name, and `/` for directories.
pub fn listing_child_href(base_path: &str, encoded_name: &str, is_dir: bool) -> (r: String)
    ensures
        r@ == base_path@ + encoded_name@ + (if is_dir {
            seq!['/']
        } else {
            Seq::empty()
        }),
{
    let b = to_chars(base_path);
    let n = to_chars(encoded_name);
    let a = concat(b.as_slice(), n.as_slice());
    if is_dir {
        let slash = ['/'];
        let r = concat(a.as_slice(), slash.as_slice());
        assert(r@ =~= base_path@ + encoded_name@ + seq!['/']);
        from_chars(r.as_slice())
    } else {
        assert(a@ =~= base_path@ + encoded_name@ + Seq::<char>::empty());
        from_chars(a.as_slice())
    }
}

/// The link to the parent of a listed directory, kept inside the prefix;
/// none at the prefix itself or at the root.
pub open spec fn parent_href(request_path: Seq<char>, prefix: Seq<char>) -> Option<Seq<char>> {
    let current = normalized_path(request_path);
    if current == prefix || current == seq!['/'] {
        None
    } else {
        let parent = match rsplit_once(current, '/') {
            Some((head, _)) => if head.len() == 0 {
                seq!['/']
            } else {
                head
            },
            None => seq!['/'],
        };
        let bounded = if under_prefix(prefix, parent) {
            parent
        } else {
            prefix
        };
        Some(listing_base(bounded))
    }
}

/// The link to the parent directory in a listing.
pub fn parent_listing_href(request_path: &str, prefix: &str) -> (r: Option<String>)
    ensures
        match r {
            Some(h) => parent_href(request_path@, prefix@) == Some(h@),
            None => parent_href(request_path@, prefix@) is None,
        },
{
    let rp = to_chars(request_path);
    let p = to_chars(prefix);
    let current = normalize_chars(rp.as_slice());
    let slash = ['/'];
    assert(slash@ =~= seq!['/']);
    if eq(current.as_slice(), p.as_slice()) || eq(current.as_slice(), slash.as_slice()) {
        return None;
    }
    let parent = match rsplit_once_char(current.as_slice(), '/') {
        Some((head, _)) => if head.len() == 0 {
            slice_of(slash.as_slice())
        } else {
            head
        },
        None => slice_of(slash.as_slice()),
    };
    let bounded = if path_matches_chars(p.as_slice(), parent.as_slice()) {
        parent
    } else {
        p
    };
    let r = listing_base_chars(bounded.as_slice());
    Some(from_chars(r.as_slice()))
}

// ---------------------------------------------------------------------------
// Request heads
// ---------------------------------------------------------------------------

/// `\r\n\r\n` starts at position `i`.
pub open spec fn blank_line_at(b: Seq<u8>, i: int) -> bool {
    0 <= i && i + 4 <= b.len() && b[i] == 0x0d && b[i + 1] == 0x0a && b[i + 2] == 0x0d && b[i
        + 3] == 0x0a
}

/// The position of the first `\r\n\r\n`, if any.
pub open spec fn first_blank_line(b: Seq<u8>) -> Option<int> {
    if exists|i: int| blank_line_at(b, i) && forall|j: int| 0 <= j < i ==> !blank_line_at(b, j) {
        Some(choose|i: int| blank_line_at(b, i) && forall|j: int| 0 <= j < i ==> !blank_line_at(b, j))
    } else {
        None
    }
}

/// The first blank line found by a scan is `first_blank_line`.
pub proof fn lemma_first_blank_line(b: Seq<u8>, i: int)
    requires
        blank_line_at(b, i),
        forall|j: int| 0 <= j < i ==> !blank_line_at(b, j),
    ensures
        first_blank_line(b) == Some(i),
{
    let c = choose|c: int| blank_line_at(b, c) && forall|j: int| 0 <= j < c ==> !blank_line_at(b, j);
    if c < i {
        assert(!blank_line_at(b, c));
    } else if c > i {
        assert(!blank_line_at(b, i));
    }
}

/// Without blank lines there is no first one.
pub proof fn lemma_no_blank_line(b: Seq<u8>)
    requires
        forall|j: int| !blank_line_at(b, j),
    ensures
        first_blank_line(b) is None,
{
}

/// The position of the first `\r\n\r\n`, which ends an HTTP head.
pub fn find_header_end(buffer: &[u8]) -> (r: Option<usize>)
    ensures
        match r {
            Some(i) => blank_line_at(buffer@, i as int) && forall|j: int|
                0 <= j < i ==> !blank_line_at(buffer@, j),
            None => forall|j: int| !blank_line_at(buffer@, j),
        },
{
    let n = buffer.len();
    if n < 4 {
        return None;
    }
    let mut i: usize = 0;
    while i <= n - 4
        invariant
            n == buffer@.len(),
            n >= 4,
            i <= n - 3,
            forall|j: int| 0 <= j < i ==> !blank_line_at(buffer@, j),
        decreases n - i,
    {
        if buffer[i] == 0x0d && buffer[i + 1] == 0x0a && buffer[i + 2] == 0x0d && buffer[i + 3]
            == 0x0a {
            return Some(i);
        }
        i = i + 1;
    }
    None
}

} // verus!
