//! The HTTP proxy's decisions: how a request head is read, when a
//! connection stays open, how a chunked body is decoded, which headers are
//! passed on, where a request is sent, and what is logged. Sockets and the
//! upstream client stay with the caller.

use crate::error::AppError;
use crate::headers::{str_eq, HeaderMap};
use crate::models::{ServiceDetail, ServiceKind};
use crate::text::{
    concat, contains_seq, eq_ignore_case, eq_ignore_ascii_case_str, from_chars, lower_seq,
    push_chars, push_str, split_by, split_chars, split_once, split_once_char, starts_with,
    to_chars, to_lower, trim, trim_end_by, trim_end_class, trim_ws, views, CharClass,
};
use crate::urls::{
    parse_url_path, parse_url_text, url_parses, url_path, url_text, url_with, url_with_path_query,
};
use vstd::prelude::*;
use vstd::utf8::encode_utf8;

verus! {

/// The most bytes an HTTP head may take.
pub const MAX_HEADER_BYTES: usize = 65536;

/// The most bytes a chunk size line may take.
pub const MAX_CHUNK_SIZE_LINE_BYTES: usize = 1024;

// ---------------------------------------------------------------------------
// Headers passed on
// ---------------------------------------------------------------------------

/// A hop-by-hop header, which a proxy does not pass on.
pub open spec fn hop_by_hop(name: Seq<char>) -> bool {
    name == "connection"@ || name == "keep-alive"@ || name == "proxy-authenticate"@
        || name == "proxy-authorization"@ || name == "te"@ || name == "trailer"@
        || name == "transfer-encoding"@ || name == "upgrade"@
}

/// Whether a header name is hop-by-hop.
pub fn is_hop_by_hop(name: &str) -> (r: bool)
    ensures
        r == hop_by_hop(name@),
{
    str_eq(name, "connection") || str_eq(name, "keep-alive") || str_eq(name, "proxy-authenticate")
        || str_eq(name, "proxy-authorization") || str_eq(name, "te") || str_eq(name, "trailer")
        || str_eq(name, "transfer-encoding") || str_eq(name, "upgrade")
}

/// A request header that is not sent upstream: hop-by-hop, or one the
/// client sets itself (`content-length`, `host`).
pub fn should_skip_request_header(name: &str) -> (r: bool)
    ensures
        r == (hop_by_hop(name@) || name@ == "content-length"@ || name@ == "host"@),
{
    is_hop_by_hop(name) || str_eq(name, "content-length") || str_eq(name, "host")
}

/// A response header that is not copied to the client: hop-by-hop, or the
/// length, which is written anew.
pub fn should_skip_response_header(name: &str) -> (r: bool)
    ensures
        r == (hop_by_hop(name@) || name@ == "content-length"@),
{
    is_hop_by_hop(name) || str_eq(name, "content-length")
}

/// The reason phrase the proxy writes for its own statuses.
pub open spec fn reason_of(status: u16) -> Seq<char> {
    if status == 200 {
        "OK"@
    } else if status == 400 {
        "Bad Request"@
    } else if status == 403 {
        "Forbidden"@
    } else if status == 502 {
        "Bad Gateway"@
    } else if status == 504 {
        "Gateway Timeout"@
    } else {
        "Proxy Response"@
    }
}

/// The reason phrase of a status line.
pub fn reason_phrase(status: u16) -> (r: &'static str)
    ensures
        r@ == reason_of(status),
{
    match status {
        200 => "OK",
        400 => "Bad Request",
        403 => "Forbidden",
        502 => "Bad Gateway",
        504 => "Gateway Timeout",
        _ => "Proxy Response",
    }
}

// ---------------------------------------------------------------------------
// Keep-alive and chunked requests
// ---------------------------------------------------------------------------

/// The value of a header, empty when absent.
pub open spec fn header_or_empty(m: Map<Seq<char>, Seq<char>>, name: Seq<char>) -> Seq<char> {
    if m.dom().contains(name) {
        m[name]
    } else {
        Seq::empty()
    }
}

/// Some comma-separated part of `value`, trimmed, equals `token` ignoring
/// ASCII case.
pub open spec fn lists_token(value: Seq<char>, token: Seq<char>) -> bool {
    exists|i: int|
        0 <= i < split_by(value, seq![',']).len() && eq_ignore_case(
            trim(#[trigger] split_by(value, seq![','])[i]),
            token,
        )
}

fn has_token(value: &[char], token: &str) -> (r: bool)
    ensures
        r == lists_token(value@, token@),
{
    let comma = vec![','];
    assert(comma@ =~= seq![',']);
    let parts = split_chars(value, comma.as_slice());
    let ghost ps = split_by(value@, seq![',']);
    assert(views(parts@) == ps);
    let n = parts.len();
    let mut i: usize = 0;
    while i < n
        invariant
            n == parts@.len(),
            views(parts@) == ps,
            ps == split_by(value@, seq![',']),
            i <= n,
            forall|j: int| 0 <= j < i ==> !eq_ignore_case(trim(#[trigger] ps[j]), token@),
        decreases n - i,
    {
        let t = trim_ws(parts[i].as_slice());
        assert(ps[i as int] == parts@[i as int]@);
        if eq_ignore_ascii_case_str(t.as_slice(), token) {
            return true;
        }
        i = i + 1;
    }
    false
}

/// Whether the client keeps the connection open: HTTP/1.1 unless
/// `Connection` lists `close`; HTTP/1.0 only when it lists `keep-alive`.
pub open spec fn keeps_alive(version: u8, headers: Map<Seq<char>, Seq<char>>) -> bool {
    let connection = lower_seq(header_or_empty(headers, "connection"@));
    if version >= 1 {
        !lists_token(connection, "close"@)
    } else {
        lists_token(connection, "keep-alive"@)
    }
}

fn header_chars(headers: &HeaderMap, name: &str) -> (r: Vec<char>)
    ensures
        r@ == header_or_empty(headers.map(), name@),
{
    match headers.get(name) {
        Some(v) => to_chars(v.as_str()),
        None => Vec::new(),
    }
}

/// Decides whether the client connection stays open after a request.
pub fn request_keep_alive(version: u8, headers: &HeaderMap) -> (r: bool)
    ensures
        r == keeps_alive(version, headers.map()),
{
    let raw = header_chars(headers, "connection");
    let connection = to_lower(raw.as_slice());
    if version >= 1 {
        !has_token(connection.as_slice(), "close")
    } else {
        has_token(connection.as_slice(), "keep-alive")
    }
}

/// Whether a request body is chunked: `Transfer-Encoding` lists `chunked`.
pub open spec fn chunked(headers: Map<Seq<char>, Seq<char>>) -> bool {
    headers.dom().contains("transfer-encoding"@) && lists_token(headers["transfer-encoding"@], "chunked"@)
}

/// Decides whether a request body is chunked.
pub fn is_chunked_request(headers: &HeaderMap) -> (r: bool)
    ensures
        r == chunked(headers.map()),
{
    match headers.get("transfer-encoding") {
        Some(v) => {
            let cs = to_chars(v.as_str());
            has_token(cs.as_slice(), "chunked")
        },
        None => false,
    }
}

// ---------------------------------------------------------------------------
// Where a request goes
// ---------------------------------------------------------------------------

/// A request target split at its first `?` into path and query.
pub open spec fn path_query(target: Seq<char>) -> (Seq<char>, Option<Seq<char>>) {
    match split_once(target, '?') {
        Some((p, q)) => (p, Some(q)),
        None => (target, None),
    }
}

/// Splits a request target into path and query.
pub fn split_path_query(target: &str) -> (r: (String, Option<String>))
    ensures
        r.0@ == path_query(target@).0,
        match (r.1, path_query(target@).1) {
            (Some(q), Some(qv)) => q@ == qv,
            (None, None) => true,
            _ => false,
        },
{
    let v = to_chars(target);
    match split_once_char(v.as_slice(), '?') {
        Some((p, q)) => (from_chars(p.as_slice()), Some(from_chars(q.as_slice()))),
        None => (String::from_str(target), None),
    }
}

/// The path a reverse proxy request is sent to: the target's path without
/// trailing slashes, joined to the incoming path by one slash; `/` when
/// that is empty.
pub open spec fn reverse_path(base: Seq<char>, incoming: Seq<char>) -> Seq<char> {
    let b = trim_end_by(base, CharClass::Exactly('/'));
    let p = if incoming.len() > 0 && incoming[0] == '/' {
        b + incoming
    } else {
        b + "/"@ + incoming
    };
    if p.len() == 0 {
        "/"@
    } else {
        p
    }
}

/// The URL a reverse proxy sends a request to: the configured target with
/// the request's path appended and the request's query.
pub open spec fn reverse_url(target_url: Seq<char>, request_target: Seq<char>) -> Seq<char> {
    let (p, q) = path_query(request_target);
    url_with_path_query(target_url, reverse_path(url_path(target_url), p), q)
}

/// Builds the URL a reverse proxy request goes to; a target URL that does
/// not parse is a `Url` error.
pub fn build_reverse_url(target_url: &str, request_target: &str) -> (r: Result<String, AppError>)
    ensures
        url_parses(target_url@) <==> r is Ok,
        r matches Ok(u) ==> u@ == reverse_url(target_url@, request_target@),
        r matches Err(e) ==> e is Url,
{
    let base = match parse_url_path(target_url) {
        Ok(p) => p,
        Err(m) => return Err(AppError::Url(m)),
    };
    let (path, query) = split_path_query(request_target);
    let bv = to_chars(base.as_str());
    let cls = CharClass::Exactly('/');
    let trimmed = trim_end_class(bv.as_slice(), &cls);
    let pv = to_chars(path.as_str());
    let mut joined: Vec<char> = trimmed;
    if pv.len() > 0 && pv[0] == '/' {
        push_chars(&mut joined, pv.as_slice());
    } else {
        push_str(&mut joined, "/");
        push_chars(&mut joined, pv.as_slice());
    }
    let new_path: String = if joined.len() == 0 {
        String::from_str("/")
    } else {
        from_chars(joined.as_slice())
    };
    proof {
        reveal_strlit("/");
    }
    let q: Option<&str> = match &query {
        Some(s) => Some(s.as_str()),
        None => None,
    };
    match url_with(target_url, new_path.as_str(), q) {
        Ok(u) => Ok(u),
        Err(m) => Err(AppError::Url(m)),
    }
}

/// The URL a forward proxy request goes to: the absolute URL of the request
/// line as the URL parser writes it.
pub fn build_forward_url(target: &str) -> (r: Result<String, AppError>)
    ensures
        !(starts_with_seq(target@, "http://"@) || starts_with_seq(target@, "https://"@)) ==> (r matches Err(
            AppError::InvalidInput(m),
        ) && m@ == "HTTP forward 请求行必须包含完整 URL"@),
        (starts_with_seq(target@, "http://"@) || starts_with_seq(target@, "https://"@)) ==> (
        match r {
            Ok(u) => url_parses(target@) && u@ == url_text(target@),
            Err(e) => !url_parses(target@) && e is Url,
        }),
{
    let v = to_chars(target);
    let a = to_chars("http://");
    let b = to_chars("https://");
    if starts_with(v.as_slice(), a.as_slice()) || starts_with(v.as_slice(), b.as_slice()) {
        match parse_url_text(target) {
            Ok(u) => Ok(u),
            Err(m) => Err(AppError::Url(m)),
        }
    } else {
        Err(AppError::InvalidInput(String::from_str("HTTP forward 请求行必须包含完整 URL")))
    }
}

/// `s` starts with `p`.
pub open spec fn starts_with_seq(s: Seq<char>, p: Seq<char>) -> bool {
    p.len() <= s.len() && s.take(p.len() as int) == p
}

/// The time a request may take, from the service's settings.
pub open spec fn request_timeout(detail: ServiceDetail) -> Option<u64> {
    match detail.kind {
        ServiceKind::HttpReverse => match detail.http_reverse {
            Some(cfg) => Some(cfg.request_timeout_ms),
            None => None,
        },
        ServiceKind::HttpForward => match detail.http_forward {
            Some(cfg) => Some(cfg.connect_timeout_ms),
            None => None,
        },
        _ => None,
    }
}

/// The message when an HTTP service lacks the settings of its kind or is
/// not an HTTP service.
pub open spec fn timeout_error_message(kind: ServiceKind) -> Seq<char> {
    match kind {
        ServiceKind::HttpReverse => "HTTP 反向代理缺少配置"@,
        ServiceKind::HttpForward => "HTTP Forward 缺少配置"@,
        _ => "当前服务类型不是 HTTP 代理"@,
    }
}

/// The request timeout of an HTTP service in milliseconds.
pub fn http_request_timeout_ms(detail: &ServiceDetail) -> (r: Result<u64, AppError>)
    ensures
        match request_timeout(*detail) {
            Some(t) => r == Ok::<u64, AppError>(t),
            None => r matches Err(AppError::InvalidInput(m)) && m@ == timeout_error_message(detail.kind),
        },
{
    match detail.kind {
        ServiceKind::HttpReverse => match &detail.http_reverse {
            Some(cfg) => Ok(cfg.request_timeout_ms),
            None => Err(AppError::InvalidInput(String::from_str("HTTP 反向代理缺少配置"))),
        },
        ServiceKind::HttpForward => match &detail.http_forward {
            Some(cfg) => Ok(cfg.connect_timeout_ms),
            None => Err(AppError::InvalidInput(String::from_str("HTTP Forward 缺少配置"))),
        },
        _ => Err(AppError::InvalidInput(String::from_str("当前服务类型不是 HTTP 代理"))),
    }
}

// ---------------------------------------------------------------------------
// Requests and events
// ---------------------------------------------------------------------------

/// A request read from a client.
pub struct ClientRequest {
    pub method: String,
    pub target: String,
    pub headers: HeaderMap,
    pub body: Vec<u8>,
    pub keep_alive: bool,
}

/// What is logged of one request.
pub struct HttpEvent {
    pub protocol: String,
    pub target_addr: String,
    pub method: String,
    pub host: String,
    pub path: String,
    pub status: Option<u16>,
    pub bytes_in: u64,
    pub bytes_out: u64,
    pub error: String,
    pub warning: Option<String>,
}

/// The event of a CONNECT tunnel.
pub fn connect_event(request: &ClientRequest, status: u16, bytes_in: u64, bytes_out: u64, error: &str) -> (r: HttpEvent)
    ensures
        r.protocol@ == "https"@,
        r.target_addr@ == request.target@,
        r.method@ == request.method@,
        r.host@ == request.target@,
        r.path@ == Seq::<char>::empty(),
        r.status == Some(status),
        r.bytes_in == bytes_in,
        r.bytes_out == bytes_out,
        r.error@ == error@,
        r.warning is None,
{
    let path = String::new();
    assert(path@ =~= Seq::<char>::empty());
    HttpEvent {
        protocol: String::from_str("https"),
        target_addr: request.target.clone(),
        method: request.method.clone(),
        host: request.target.clone(),
        path,
        status: Some(status),
        bytes_in,
        bytes_out,
        error: String::from_str(error),
        warning: None,
    }
}

/// The event of a plain HTTP request with an optional rewrite warning; the
/// host is the request's `Host` header, empty when absent.
pub fn plain_event_with_warning(
    request: &ClientRequest,
    target_addr: &str,
    status: u16,
    bytes_in: u64,
    bytes_out: u64,
    error: &str,
    warning: Option<String>,
) -> (r: HttpEvent)
    ensures
        r.protocol@ == "http"@,
        r.target_addr@ == target_addr@,
        r.method@ == request.method@,
        r.host@ == header_or_empty(request.headers.map(), "host"@),
        r.path@ == request.target@,
        r.status == Some(status),
        r.bytes_in == bytes_in,
        r.bytes_out == bytes_out,
        r.error@ == error@,
        r.warning == warning,
{
    let host = match request.headers.get("host") {
        Some(h) => h.clone(),
        None => {
            let e = String::new();
            assert(e@ =~= Seq::<char>::empty());
            e
        },
    };
    HttpEvent {
        protocol: String::from_str("http"),
        target_addr: String::from_str(target_addr),
        method: request.method.clone(),
        host,
        path: request.target.clone(),
        status: Some(status),
        bytes_in,
        bytes_out,
        error: String::from_str(error),
        warning,
    }
}

/// The event of a plain HTTP request without warning.
pub fn plain_event(request: &ClientRequest, target_addr: &str, status: u16, bytes_in: u64, bytes_out: u64, error: &str) -> (r: HttpEvent)
    ensures
        r.protocol@ == "http"@,
        r.target_addr@ == target_addr@,
        r.method@ == request.method@,
        r.host@ == header_or_empty(request.headers.map(), "host"@),
        r.path@ == request.target@,
        r.status == Some(status),
        r.bytes_in == bytes_in,
        r.bytes_out == bytes_out,
        r.error@ == error@,
        r.warning is None,
{
    plain_event_with_warning(request, target_addr, status, bytes_in, bytes_out, error, None)
}

// ---------------------------------------------------------------------------
// Request heads
// ---------------------------------------------------------------------------

/// A request head as `httparse` reads it: method, path, minor version,
/// the headers as name and raw value, and whether the head was complete.
pub struct HttpHead {
    pub method: Option<String>,
    pub path: Option<String>,
    pub version: Option<u8>,
    pub headers: Vec<(String, Vec<u8>)>,
    pub complete: bool,
}

/// A request head as text: method, path, version, headers, completeness.
pub type HeadView = (Option<Seq<char>>, Option<Seq<char>>, Option<u8>, Seq<(Seq<char>, Seq<u8>)>, bool);

impl HttpHead {
    pub open spec fn view(&self) -> HeadView {
        (
            match self.method {
                Some(m) => Some(m@),
                None => None,
            },
            match self.path {
                Some(p) => Some(p@),
                None => None,
            },
            self.version,
            Seq::new(self.headers@.len(), |i: int| (self.headers@[i].0@, self.headers@[i].1@)),
            self.complete,
        )
    }
}

/// What `httparse::Request::parse` reads from a head with room for the
/// given number of headers; `None` when it reports an error.
pub uninterp spec fn http_head(bytes: Seq<u8>, capacity: usize) -> Option<HeadView>;

/// The most headers a proxied request head may carry.
pub const MAX_REQUEST_HEADERS: usize = 128;

/// `httparse::Request::parse` on a request head, with room for `capacity`
/// headers (a few thousand at most, so that the room can be allocated):
/// the parsed head (with whether it was complete), or the text of the
/// parser's error. What that text says is not stated.
#[verifier::external_body]
pub(crate) fn parse_http_head(bytes: &[u8], capacity: usize) -> (r: Result<HttpHead, String>)
    requires
        capacity <= 4096,
    ensures
        r is Ok <==> http_head(bytes@, capacity) is Some,
        r matches Ok(h) ==> http_head(bytes@, capacity) == Some(h.view()),
{
    let mut headers = vec![httparse::EMPTY_HEADER; capacity];
    let mut parsed = httparse::Request::new(&mut headers);
    let status = match parsed.parse(bytes) {
        Ok(s) => s,
        Err(e) => return Err(e.to_string()),
    };
    Ok(HttpHead {
        method: parsed.method.map(|m| m.to_string()),
        path: parsed.path.map(|p| p.to_string()),
        version: parsed.version,
        headers: parsed.headers.iter().map(|h| (h.name.to_string(), h.value.to_vec())).collect(),
        complete: status.is_complete(),
    })
}

/// The headers of a head as the proxy keeps them: names lower-cased,
/// values that are UTF-8 trimmed, others and empty names dropped; a later
/// header replaces an earlier one of the same name.
pub open spec fn head_headers(hs: Seq<(Seq<char>, Seq<u8>)>) -> Map<Seq<char>, Seq<char>>
    decreases hs.len(),
{
    if hs.len() == 0 {
        Map::empty()
    } else {
        let m = head_headers(hs.drop_last());
        let (n, v) = hs.last();
        if n.len() == 0 || !vstd::utf8::valid_utf8(v) {
            m
        } else {
            m.insert(lower_seq(n), trim(vstd::utf8::decode_utf8(v)))
        }
    }
}

/// A request head as the proxy uses it.
pub struct RequestHead {
    pub method: String,
    pub target: String,
    pub version: u8,
    pub headers: HeaderMap,
    pub keep_alive: bool,
    pub chunked: bool,
}

/// Reads the head of a request (up to and including its blank line).
/// An unreadable head, or one without method or target, is refused.
pub fn read_request_head(bytes: &[u8]) -> (r: Result<RequestHead, AppError>)
    ensures
        http_head(bytes@, MAX_REQUEST_HEADERS) is None ==> r matches Err(AppError::InvalidInput(_)),
        http_head(bytes@, MAX_REQUEST_HEADERS) matches Some(h) ==> (if h.0 is None {
            r matches Err(AppError::InvalidInput(m)) && m@ == "HTTP 方法缺失"@
        } else if h.1 is None {
            r matches Err(AppError::InvalidInput(m)) && m@ == "HTTP 请求目标缺失"@
        } else {
            r matches Ok(head) && head.method@ == h.0->0 && head.target@ == h.1->0
                && head.version == (match h.2 {
                Some(v) => v,
                None => 1u8,
            }) && head.headers.map() == head_headers(h.3) && head.keep_alive == keeps_alive(
                head.version,
                head.headers.map(),
            ) && head.chunked == chunked(head.headers.map())
        }),
{
    let head = match parse_http_head(bytes, MAX_REQUEST_HEADERS) {
        Ok(h) => h,
        Err(m) => {
            let mut acc: Vec<char> = Vec::new();
            push_str(&mut acc, "HTTP 请求解析失败: ");
            push_str(&mut acc, m.as_str());
            return Err(AppError::InvalidInput(from_chars(acc.as_slice())));
        },
    };
    let ghost hv = head.view();
    let version: u8 = match head.version {
        Some(v) => v,
        None => 1,
    };
    let method = match head.method {
        Some(m) => m,
        None => return Err(AppError::InvalidInput(String::from_str("HTTP 方法缺失"))),
    };
    let target = match head.path {
        Some(p) => p,
        None => return Err(AppError::InvalidInput(String::from_str("HTTP 请求目标缺失"))),
    };
    let mut headers = HeaderMap::new();
    let mut rest = head.headers;
    let ghost all = hv.3;
    let n = rest.len();
    let mut i: usize = 0;
    assert(head_headers(all.take(0)) =~= Map::<Seq<char>, Seq<char>>::empty());
    while i < n
        invariant
            n == all.len(),
            i <= n,
            rest@.len() == n - i,
            forall|k: int| 0 <= k < rest@.len() ==> (#[trigger] rest@[k]).0@ == all[i + k].0 && rest@[k].1@ == all[i + k].1,
            headers.map() == head_headers(all.take(i as int)),
        decreases n - i,
    {
        let (name, value) = rest.remove(0);
        proof {
            assert(all.take(i + 1).drop_last() =~= all.take(i as int));
            assert(all.take(i + 1).last() == (name@, value@));
        }
        if name.as_str().unicode_len() > 0 {
            match crate::text::string_from_utf8(value) {
                Ok(text) => {
                    let nv = to_chars(name.as_str());
                    let lowered = to_lower(nv.as_slice());
                    let tv = to_chars(text.as_str());
                    let trimmed = trim_ws(tv.as_slice());
                    headers.insert(from_chars(lowered.as_slice()), from_chars(trimmed.as_slice()));
                },
                Err(_) => {},
            }
        }
        i = i + 1;
    }
    assert(all.take(n as int) =~= all);
    let keep_alive = request_keep_alive(version, &headers);
    let chunked = is_chunked_request(&headers);
    Ok(RequestHead { method, target, version, headers, keep_alive, chunked })
}

/// The value of a `content-length` header (`str::parse::<usize>`); zero
/// when absent or not a number.
pub open spec fn content_length_of(headers: Map<Seq<char>, Seq<char>>) -> nat {
    if headers.dom().contains("content-length"@) {
        match crate::text::parse_unsigned(headers["content-length"@], usize::MAX as nat) {
            Some(v) => v,
            None => 0,
        }
    } else {
        0
    }
}

/// The length of a body that is not chunked.
pub fn content_length(headers: &HeaderMap) -> (r: usize)
    ensures
        r == content_length_of(headers.map()),
{
    match headers.get("content-length") {
        Some(v) => {
            let cs = to_chars(v.as_str());
            match crate::text::parse_unsigned_max(cs.as_slice(), usize::MAX as u64) {
                Some(x) => x as usize,
                None => 0,
            }
        },
        None => 0,
    }
}

/// A `content-length` header holding the decimal text of a length that fits
/// in `usize` gives exactly that length; without the header the length is
/// zero.
pub proof fn law_content_length_reads_decimal(headers: Map<Seq<char>, Seq<char>>, n: nat)
    requires
        n <= usize::MAX,
    ensures
        content_length_of(headers.insert("content-length"@, crate::text::dec(n))) == n,
        content_length_of(headers.remove("content-length"@)) == 0,
{
    crate::text::law_decimal_roundtrip(n, usize::MAX as nat);
}

/// Once a decoded chunked body is marked with its length, the length read
/// from the headers is that body's length.
pub proof fn law_marked_length_reads_back(headers: Map<Seq<char>, Seq<char>>, body_len: usize)
    ensures
        content_length_of(headers.remove("transfer-encoding"@).insert("content-length"@, crate::text::dec(body_len as nat)))
            == body_len,
{
    crate::text::law_decimal_roundtrip(body_len as nat, usize::MAX as nat);
}

/// After a chunked body is decoded the request carries its length instead
/// of the transfer encoding.
pub fn mark_body_decoded(headers: &mut HeaderMap, body_len: usize)
    ensures
        final(headers).map() == old(headers).map().remove("transfer-encoding"@).insert(
            "content-length"@,
            crate::text::dec(body_len as nat),
        ),
{
    headers.remove("transfer-encoding");
    headers.insert(String::from_str("content-length"), crate::text::u64_string(body_len as u64));
}

// ---------------------------------------------------------------------------
// Chunked bodies
// ---------------------------------------------------------------------------

/// The value of a hexadecimal digit character.
pub open spec fn hex_char_value(c: char) -> Option<nat> {
    if '0' <= c && c <= '9' {
        Some((c as nat - '0' as nat) as nat)
    } else if 'a' <= c && c <= 'f' {
        Some((c as nat - 'a' as nat + 10) as nat)
    } else if 'A' <= c && c <= 'F' {
        Some((c as nat - 'A' as nat + 10) as nat)
    } else {
        None
    }
}

/// Every character is a hexadecimal digit.
pub open spec fn all_hex(s: Seq<char>) -> bool {
    forall|i: int| 0 <= i < s.len() ==> (#[trigger] hex_char_value(s[i])) is Some
}

/// The value of hexadecimal digits.
pub open spec fn hex_digits_value(s: Seq<char>) -> nat
    decreases s.len(),
{
    if s.len() == 0 {
        0
    } else {
        hex_digits_value(s.drop_last()) * 16 + match hex_char_value(s.last()) {
            Some(d) => d,
            None => 0,
        }
    }
}

/// `usize::from_str_radix(s, 16)`: an optional `+`, then at least one
/// hexadecimal digit, the value at most `usize::MAX`.
pub open spec fn parse_hex(s: Seq<char>) -> Option<nat> {
    let d = crate::text::unsigned_body(s);
    if d.len() > 0 && all_hex(d) && hex_digits_value(d) <= usize::MAX {
        Some(hex_digits_value(d))
    } else {
        None
    }
}

proof fn lemma_hex_value_monotone(s: Seq<char>, k: int)
    requires
        0 <= k <= s.len(),
    ensures
        hex_digits_value(s.take(k)) <= hex_digits_value(s),
    decreases s.len() - k,
{
    if k < s.len() {
        assert(s.drop_last().take(k) =~= s.take(k));
        lemma_hex_value_monotone(s.drop_last(), k);
    } else {
        assert(s.take(k) =~= s);
    }
}

/// Parses a chunk size.
pub fn parse_chunk_size(v: &[char]) -> (r: Option<usize>)
    ensures
        match r {
            Some(x) => parse_hex(v@) == Some(x as nat),
            None => parse_hex(v@) is None,
        },
{
    let n = v.len();
    let start: usize = if n > 0 && v[0] == '+' { 1 } else { 0 };
    let ghost d = crate::text::unsigned_body(v@);
    assert(d =~= v@.skip(start as int));
    if start == n {
        return None;
    }
    let mut acc: u128 = 0;
    let mut i: usize = start;
    while i < n
        invariant
            n == v@.len(),
            start <= i <= n,
            d == v@.skip(start as int),
            d == crate::text::unsigned_body(v@),
            acc <= usize::MAX,
            all_hex(d.take(i - start)),
            acc == hex_digits_value(d.take(i - start)),
        decreases n - i,
    {
        let c = v[i];
        let dv: u128 = if '0' <= c && c <= '9' {
            (c as u32 - '0' as u32) as u128
        } else if 'a' <= c && c <= 'f' {
            (c as u32 - 'a' as u32 + 10) as u128
        } else if 'A' <= c && c <= 'F' {
            (c as u32 - 'A' as u32 + 10) as u128
        } else {
            assert(d[i - start] == c);
            assert(hex_char_value(d[(i - start) as int]) is None);
            assert(!all_hex(d));
            return None;
        };
        assert(hex_char_value(c) == Some(dv as nat));
        assert(d.take(i + 1 - start).drop_last() =~= d.take(i - start));
        assert(d.take(i + 1 - start).last() == c);
        assert(hex_digits_value(d.take(i + 1 - start)) == hex_digits_value(d.take(i - start)) * 16 + dv);
        acc = acc * 16 + dv;
        i = i + 1;
        assert(acc == hex_digits_value(d.take(i - start)));
        assert(all_hex(d.take(i - start))) by {
            assert forall|j: int| 0 <= j < i - start implies (#[trigger] hex_char_value(d.take(i - start)[j])) is Some by {
                if j < i - 1 - start {
                    assert(d.take(i - start)[j] == d.take(i - 1 - start)[j]);
                }
            }
        }
        if acc > usize::MAX as u128 {
            proof {
                lemma_hex_value_monotone(d, i - start);
            }
            return None;
        }
    }
    assert(d.take(n - start) =~= d);
    Some(acc as usize)
}

/// `\r\n` at `i`.
pub open spec fn crlf_at(b: Seq<u8>, i: int) -> bool {
    0 <= i && i + 1 < b.len() && b[i] == 0x0d && b[i + 1] == 0x0a
}

/// The first `\r\n`, if any.
pub open spec fn first_crlf(b: Seq<u8>) -> Option<int> {
    if exists|i: int| crlf_at(b, i) && forall|j: int| 0 <= j < i ==> !crlf_at(b, j) {
        Some(choose|i: int| crlf_at(b, i) && forall|j: int| 0 <= j < i ==> !crlf_at(b, j))
    } else {
        None
    }
}

fn find_crlf(b: &[u8]) -> (r: Option<usize>)
    ensures
        match r {
            Some(i) => first_crlf(b@) == Some(i as int) && crlf_at(b@, i as int),
            None => first_crlf(b@) is None,
        },
{
    let n = b.len();
    let mut i: usize = 0;
    while i < n && n - i > 1
        invariant
            n == b@.len(),
            i <= n,
            forall|j: int| 0 <= j < i ==> !crlf_at(b@, j),
        decreases n - i,
    {
        if b[i] == 0x0d && b[i + 1] == 0x0a {
            proof {
                assert(crlf_at(b@, i as int));
                let c = choose|c: int| crlf_at(b@, c) && forall|j: int| 0 <= j < c ==> !crlf_at(b@, j);
                if c < i {
                } else if c > i {
                    assert(!crlf_at(b@, i as int));
                }
            }
            return Some(i);
        }
        i = i + 1;
    }
    proof {
        if exists|c: int| crlf_at(b@, c) && forall|j: int| 0 <= j < c ==> !crlf_at(b@, j) {
            let c = choose|c: int| crlf_at(b@, c) && forall|j: int| 0 <= j < c ==> !crlf_at(b@, j);
            assert(c + 1 < n);
        }
    }
    None
}

/// The text of a chunk size line before any extension (`;`), trimmed.
pub open spec fn size_text(line: Seq<char>) -> Seq<char> {
    trim(split_by(line, seq![';'])[0])
}

/// Where a chunked body is in its decoding.
pub enum ChunkPhase {
    /// Expecting a chunk size line.
    Size,
    /// Expecting this many data bytes and their `\r\n`.
    Data(usize),
    /// Expecting the trailer after the last chunk.
    Trailer,
    /// The body has ended.
    Done,
}

/// What one decoding step asks of the caller.
pub enum ChunkStep {
    /// Read more bytes and step again on the whole buffer.
    NeedMore,
    /// Drop this many bytes from the front of the buffer and step again.
    Consumed(usize),
    /// The body has ended; drop this many bytes.
    Finished(usize),
    /// The body is malformed.
    Invalid(String),
}

/// The decoding of a chunked request body, one piece at a time from the
/// front of the caller's buffer.
pub struct ChunkedDecoder {
    pub phase: ChunkPhase,
    pub body: Vec<u8>,
}

/// What a step does with the buffer in a phase: the step, the next phase
/// and the body after it (for `Invalid`, only the message matters).
pub open spec fn chunk_step(phase: ChunkPhase, body: Seq<u8>, buf: Seq<u8>) -> (ChunkStepView, ChunkPhase, Seq<u8>) {
    match phase {
        ChunkPhase::Size => match first_crlf(buf) {
            None => if buf.len() > MAX_CHUNK_SIZE_LINE_BYTES {
                (ChunkStepView::Invalid("chunked 请求体 size 行过长"@), phase, body)
            } else {
                (ChunkStepView::NeedMore, phase, body)
            },
            Some(pos) => {
                let line = buf.take(pos);
                if !vstd::utf8::valid_utf8(line) {
                    (ChunkStepView::Invalid("chunked 请求体 size 行不是 UTF-8"@), phase, body)
                } else {
                    match parse_hex(size_text(vstd::utf8::decode_utf8(line))) {
                        None => (ChunkStepView::Invalid("chunked 请求体 chunk size 无效"@), phase, body),
                        Some(size) => if size == 0 {
                            (ChunkStepView::Consumed(pos + 2), ChunkPhase::Trailer, body)
                        } else {
                            (ChunkStepView::Consumed(pos + 2), ChunkPhase::Data(size as usize), body)
                        },
                    }
                }
            },
        },
        ChunkPhase::Data(size) => if buf.len() < size + 2 {
            (ChunkStepView::NeedMore, phase, body)
        } else if !crlf_at(buf, size as int) {
            (ChunkStepView::Invalid("chunked 请求体 chunk 缺少结尾 CRLF"@), phase, body)
        } else {
            (ChunkStepView::Consumed(size + 2), ChunkPhase::Size, body + buf.take(size as int))
        },
        ChunkPhase::Trailer => match crate::tool_services::first_blank_line(buf) {
            Some(pos) => (ChunkStepView::Finished(pos + 4), ChunkPhase::Done, body),
            None => if buf.len() >= 2 && buf[0] == 0x0d && buf[1] == 0x0a {
                (ChunkStepView::Finished(2), ChunkPhase::Done, body)
            } else if buf.len() > MAX_HEADER_BYTES {
                (ChunkStepView::Invalid("chunked 请求体 trailer 过大"@), phase, body)
            } else {
                (ChunkStepView::NeedMore, phase, body)
            },
        },
        ChunkPhase::Done => (ChunkStepView::Finished(0), phase, body),
    }
}

/// The plain form of a step.
pub enum ChunkStepView {
    NeedMore,
    Consumed(int),
    Finished(int),
    Invalid(Seq<char>),
}

impl ChunkStep {
    pub open spec fn view(&self) -> ChunkStepView {
        match self {
            ChunkStep::NeedMore => ChunkStepView::NeedMore,
            ChunkStep::Consumed(n) => ChunkStepView::Consumed(*n as int),
            ChunkStep::Finished(n) => ChunkStepView::Finished(*n as int),
            ChunkStep::Invalid(m) => ChunkStepView::Invalid(m@),
        }
    }
}

impl ChunkedDecoder {
    /// A decoder at the start of a body.
    pub fn new() -> (r: ChunkedDecoder)
        ensures
            r.phase == ChunkPhase::Size,
            r.body@ == Seq::<u8>::empty(),
    {
        ChunkedDecoder { phase: ChunkPhase::Size, body: Vec::new() }
    }

    /// One step of decoding on the bytes buffered so far.
    pub fn step(&mut self, buf: &[u8]) -> (r: ChunkStep)
        ensures
            ({
                let (sv, ph, b) = chunk_step(old(self).phase, old(self).body@, buf@);
                &&& r.view() == sv
                &&& !(sv is Invalid) ==> final(self).phase == ph && final(self).body@ == b
            }),
    {
        match self.phase {
            ChunkPhase::Size => {
                let (r, next) = size_step(buf);
                match next {
                    Some(p) => {
                        self.phase = p;
                    },
                    None => {},
                }
                r
            },
            ChunkPhase::Data(size) => data_step(&mut self.body, &mut self.phase, size, buf),
            ChunkPhase::Trailer => {
                let (r, done) = trailer_step(buf);
                if done {
                    self.phase = ChunkPhase::Done;
                }
                r
            },
            ChunkPhase::Done => ChunkStep::Finished(0),
        }
    }
}

/// A step in the size phase: the step and, when a line was read, the next
/// phase.
fn size_step(buf: &[u8]) -> (r: (ChunkStep, Option<ChunkPhase>))
    ensures
        ({
            let (sv, ph, b) = chunk_step(ChunkPhase::Size, Seq::<u8>::empty(), buf@);
            &&& r.0.view() == sv
            &&& !(sv is Invalid) ==> (match r.1 {
                Some(p) => p == ph,
                None => ph == ChunkPhase::Size,
            })
        }),
{
    match find_crlf(buf) {
        None => {
            if buf.len() > MAX_CHUNK_SIZE_LINE_BYTES {
                (ChunkStep::Invalid(String::from_str("chunked 请求体 size 行过长")), None)
            } else {
                (ChunkStep::NeedMore, None)
            }
        },
        Some(pos) => {
            let n = buf.len();
            let mut line: Vec<u8> = Vec::new();
            let mut k: usize = 0;
            while k < pos
                invariant
                    n == buf@.len(),
                    pos + 1 < buf@.len(),
                    k <= pos,
                    line@ == buf@.take(k as int),
                decreases pos - k,
            {
                line.push(buf[k]);
                k = k + 1;
                assert(line@ =~= buf@.take(k as int));
            }
            let text = match crate::text::string_from_utf8(line) {
                Ok(t) => t,
                Err(_) => return (ChunkStep::Invalid(String::from_str("chunked 请求体 size 行不是 UTF-8")), None),
            };
            let tv = to_chars(text.as_str());
            let semi = vec![';'];
            assert(semi@ =~= seq![';']);
            let pieces = split_chars(tv.as_slice(), semi.as_slice());
            proof {
                crate::text::lemma_split_nonempty(tv@, seq![';']);
            }
            assert(pieces@[0]@ == split_by(tv@, seq![';'])[0]);
            let st = trim_ws(pieces[0].as_slice());
            match parse_chunk_size(st.as_slice()) {
                None => (ChunkStep::Invalid(String::from_str("chunked 请求体 chunk size 无效")), None),
                Some(size) => {
                    if size == 0 {
                        (ChunkStep::Consumed(pos + 2), Some(ChunkPhase::Trailer))
                    } else {
                        (ChunkStep::Consumed(pos + 2), Some(ChunkPhase::Data(size)))
                    }
                },
            }
        },
    }
}

/// A step in the data phase.
fn data_step(body: &mut Vec<u8>, phase: &mut ChunkPhase, size: usize, buf: &[u8]) -> (r: ChunkStep)
    requires
        *old(phase) == ChunkPhase::Data(size),
    ensures
        buf@.len() < size + 2 ==> r.view() == ChunkStepView::NeedMore && *final(phase) == *old(phase)
            && final(body)@ == old(body)@,
        buf@.len() >= size + 2 && !crlf_at(buf@, size as int) ==> r.view() == ChunkStepView::Invalid(
            "chunked 请求体 chunk 缺少结尾 CRLF"@,
        ),
        buf@.len() >= size + 2 && crlf_at(buf@, size as int) ==> r.view() == ChunkStepView::Consumed(size + 2)
            && *final(phase) == ChunkPhase::Size && final(body)@ == old(body)@ + buf@.take(size as int),
{
    if buf.len() < 2 || buf.len() - 2 < size {
        return ChunkStep::NeedMore;
    }
    if !(buf[size] == 0x0d && buf[size + 1] == 0x0a) {
        return ChunkStep::Invalid(String::from_str("chunked 请求体 chunk 缺少结尾 CRLF"));
    }
    let ghost before = body@;
    let mut k: usize = 0;
    while k < size
        invariant
            size + 2 <= buf@.len(),
            k <= size,
            body@ == before + buf@.take(k as int),
        decreases size - k,
    {
        body.push(buf[k]);
        k = k + 1;
        assert(body@ =~= before + buf@.take(k as int));
    }
    *phase = ChunkPhase::Size;
    ChunkStep::Consumed(size + 2)
}

/// A step in the trailer phase: the step and whether the body ended.
fn trailer_step(buf: &[u8]) -> (r: (ChunkStep, bool))
    ensures
        ({
            let (sv, ph, b) = chunk_step(ChunkPhase::Trailer, Seq::<u8>::empty(), buf@);
            &&& r.0.view() == sv
            &&& !(sv is Invalid) ==> (r.1 <==> ph == ChunkPhase::Done)
        }),
{
    let n = buf.len();
    match crate::tool_services::find_header_end(buf) {
        Some(pos) => {
            assert(pos + 4 <= n);
            proof {
                crate::tool_services::lemma_first_blank_line(buf@, pos as int);
            }
            (ChunkStep::Finished(pos + 4), true)
        },
        None => {
            proof {
                crate::tool_services::lemma_no_blank_line(buf@);
            }
            if buf.len() >= 2 && buf[0] == 0x0d && buf[1] == 0x0a {
                (ChunkStep::Finished(2), true)
            } else if buf.len() > MAX_HEADER_BYTES {
                (ChunkStep::Invalid(String::from_str("chunked 请求体 trailer 过大")), false)
            } else {
                (ChunkStep::NeedMore, false)
            }
        },
    }

}

// ---------------------------------------------------------------------------
// Decoding what a chunked encoder wrote
// ---------------------------------------------------------------------------

/// The hexadecimal digits of a number (upper case, no leading zeros).
pub open spec fn hex_text(n: nat) -> Seq<char>
    decreases n,
{
    if n < 16 {
        seq![crate::tool_services::hex_digit(n)]
    } else {
        hex_text(n / 16).push(crate::tool_services::hex_digit(n % 16))
    }
}

/// `\r\n`.
pub open spec fn crlf_bytes() -> Seq<u8> {
    seq![0x0du8, 0x0au8]
}

/// One chunk as an encoder writes it: its size in hexadecimal, `\r\n`, the
/// data, `\r\n`.
pub open spec fn chunk_piece(data: Seq<u8>) -> Seq<u8> {
    encode_utf8(hex_text(data.len())) + crlf_bytes() + data + crlf_bytes()
}

/// A chunked body: each chunk, then the last chunk `0` and an empty
/// trailer.
pub open spec fn chunked_encoding(chunks: Seq<Seq<u8>>) -> Seq<u8>
    decreases chunks.len(),
{
    if chunks.len() == 0 {
        encode_utf8(seq!['0']) + crlf_bytes() + crlf_bytes()
    } else {
        chunk_piece(chunks[0]) + chunked_encoding(chunks.drop_first())
    }
}

/// The chunks' data one after the other.
pub open spec fn joined_chunks(chunks: Seq<Seq<u8>>) -> Seq<u8>
    decreases chunks.len(),
{
    if chunks.len() == 0 {
        Seq::empty()
    } else {
        chunks[0] + joined_chunks(chunks.drop_first())
    }
}

/// The decoder stepped as its caller steps it, for at most `fuel` steps:
/// after `Consumed(n)` the first `n` bytes are dropped and it steps again;
/// `Finished(n)` ends with the body and the number of bytes used in all.
pub open spec fn decoded_run(phase: ChunkPhase, body: Seq<u8>, buf: Seq<u8>, fuel: nat) -> Option<(Seq<u8>, int)>
    decreases fuel,
{
    if fuel == 0 {
        None
    } else {
        let (sv, ph, b) = chunk_step(phase, body, buf);
        match sv {
            ChunkStepView::Consumed(n) => match decoded_run(ph, b, buf.skip(n), (fuel - 1) as nat) {
                Some((x, used)) => Some((x, used + n)),
                None => None,
            },
            ChunkStepView::Finished(n) => Some((b, n)),
            _ => None,
        }
    }
}

/// A digit that `hex_text` writes.
pub open spec fn upper_hex_char(c: char) -> bool {
    ('0' <= c && c <= '9') || ('A' <= c && c <= 'F')
}

/// What the digits of a number are made of, and that they read back as
/// the number.
proof fn lemma_hex_text(n: nat)
    ensures
        hex_text(n).len() >= 1,
        forall|i: int| 0 <= i < hex_text(n).len() ==> upper_hex_char(#[trigger] hex_text(n)[i]),
        all_hex(hex_text(n)),
        hex_digits_value(hex_text(n)) == n,
    decreases n,
{
    let d = crate::tool_services::hex_digit(n % 16);
    assert(hex_char_value(d) == Some(n % 16));
    if n < 16 {
        assert(hex_text(n).drop_last() =~= Seq::<char>::empty());
        assert(hex_digits_value(hex_text(n)) == hex_digits_value(Seq::<char>::empty()) * 16 + n);
    } else {
        lemma_hex_text(n / 16);
        let t = hex_text(n);
        assert(t.drop_last() =~= hex_text(n / 16));
        assert(t.last() == d);
        assert forall|i: int| 0 <= i < t.len() implies upper_hex_char(#[trigger] t[i]) by {
            if i < t.len() - 1 {
                assert(t[i] == hex_text(n / 16)[i]);
            }
        }
        assert forall|i: int| 0 <= i < t.len() implies (#[trigger] hex_char_value(t[i])) is Some by {
            assert(upper_hex_char(t[i]));
        }
        assert(hex_digits_value(t) == hex_digits_value(hex_text(n / 16)) * 16 + n % 16);
        assert(n == (n / 16) * 16 + n % 16);
    }
}

/// A size line written by an encoder reads back as the size.
proof fn lemma_size_line(n: nat, rest: Seq<u8>)
    requires
        n <= usize::MAX,
    ensures
        ({
            let h = encode_utf8(hex_text(n));
            let buf = h + crlf_bytes() + rest;
            &&& first_crlf(buf) == Some(h.len() as int)
            &&& buf.take(h.len() as int) == h
            &&& vstd::utf8::valid_utf8(h)
            &&& vstd::utf8::decode_utf8(h) == hex_text(n)
            &&& parse_hex(size_text(hex_text(n))) == Some(n)
            &&& h.len() <= MAX_CHUNK_SIZE_LINE_BYTES
            &&& h.len() == hex_text(n).len()
        }),
{
    let t = hex_text(n);
    lemma_hex_text(n);
    assert(vstd::utf8::is_ascii_chars(t)) by {
        assert forall|i: int| 0 <= i < t.len() implies '\0' <= #[trigger] t[i] <= '\u{7f}' by {
            assert(upper_hex_char(t[i]));
        }
    }
    vstd::utf8::is_ascii_chars_encode_utf8(t);
    vstd::utf8::encode_utf8_valid_utf8(t);
    vstd::utf8::encode_utf8_decode_utf8(t);
    let h = encode_utf8(t);
    let buf = h + crlf_bytes() + rest;
    assert forall|j: int| 0 <= j < h.len() implies #[trigger] buf[j] != 0x0du8 by {
        assert(buf[j] == h[j]);
        assert(t[j] as u8 == h[j]);
        assert(upper_hex_char(t[j]));
    }
    assert(crlf_at(buf, h.len() as int));
    assert forall|j: int| 0 <= j < h.len() implies !crlf_at(buf, j) by {
        assert(buf[j] != 0x0du8);
    }
    let pos = choose|i: int| crlf_at(buf, i) && forall|j: int| 0 <= j < i ==> !crlf_at(buf, j);
    assert(crlf_at(buf, pos) && forall|j: int| 0 <= j < pos ==> !crlf_at(buf, j));
    if pos < h.len() {
        assert(!crlf_at(buf, pos));
    }
    if pos > h.len() {
        assert(!crlf_at(buf, h.len() as int));
    }
    assert(buf.take(h.len() as int) =~= h);
    assert forall|i: int| 0 <= i < t.len() implies !seq![';'].contains(#[trigger] t[i]) by {
        assert(upper_hex_char(t[i]));
        if seq![';'].contains(t[i]) {
            assert(seq![';'][0] == ';');
        }
    }
    crate::text::lemma_split_without_separator(t, seq![';']);
    assert(split_by(t, seq![';'])[0] == t);
    assert(!crate::text::is_ws(t[0])) by {
        assert(upper_hex_char(t[0]));
    }
    assert(!crate::text::is_ws(t.last())) by {
        assert(upper_hex_char(t[t.len() - 1]));
    }
    assert(crate::text::trim_start_by(t, CharClass::Whitespace) == t);
    assert(trim_end_by(t, CharClass::Whitespace) == t);
    assert(trim(t) == t);
    assert(t[0] != '+') by {
        assert(upper_hex_char(t[0]));
    }
    assert(crate::text::unsigned_body(t) == t);
    lemma_hex_len(n);
}

/// The digits of a size that fits in `usize` are few.
proof fn lemma_hex_len(n: nat)
    requires
        n <= usize::MAX,
    ensures
        hex_text(n).len() <= 16,
{
    assert(pow16(16) == 0x1_0000_0000_0000_0000) by {
        reveal_with_fuel(pow16, 17);
    }
    lemma_hex_len_bound(n, 16);
}

proof fn lemma_hex_len_bound(n: nat, k: nat)
    requires
        k >= 1,
        n < pow16(k),
    ensures
        hex_text(n).len() <= k,
    decreases n,
{
    if n >= 16 {
        assert(pow16(k) == 16 * pow16((k - 1) as nat));
        if k == 1 {
            assert(pow16(0) == 1);
        }
        assert(n / 16 < pow16((k - 1) as nat));
        lemma_hex_len_bound(n / 16, (k - 1) as nat);
        assert(hex_text(n).len() == hex_text(n / 16).len() + 1);
    }
}

/// `16` to the power `k`.
pub open spec fn pow16(k: nat) -> nat
    decreases k,
{
    if k == 0 {
        1
    } else {
        16 * pow16((k - 1) as nat)
    }
}

/// The size line of a chunk moves the decoder to the chunk's data.
proof fn lemma_size_step(n: nat, body: Seq<u8>, rest: Seq<u8>)
    requires
        0 < n <= usize::MAX,
    ensures
        chunk_step(ChunkPhase::Size, body, encode_utf8(hex_text(n)) + crlf_bytes() + rest) == (
            ChunkStepView::Consumed(encode_utf8(hex_text(n)).len() + 2int),
            ChunkPhase::Data(n as usize),
            body,
        ),
{
    lemma_size_line(n, rest);
}

/// A chunk's data and its `\r\n` are added to the body.
proof fn lemma_data_step(data: Seq<u8>, body: Seq<u8>, rest: Seq<u8>)
    requires
        0 < data.len() <= usize::MAX,
    ensures
        chunk_step(ChunkPhase::Data(data.len() as usize), body, data + crlf_bytes() + rest) == (
            ChunkStepView::Consumed(data.len() + 2int),
            ChunkPhase::Size,
            body + data,
        ),
{
    let buf = data + crlf_bytes() + rest;
    let n = data.len();
    assert(crlf_at(buf, n as int));
    assert(buf.take(n as int) =~= data);
}

/// A step that consumes bytes hands the rest to the next step.
proof fn lemma_run_consumed(phase: ChunkPhase, body: Seq<u8>, buf: Seq<u8>, fuel: nat, n: int, ph: ChunkPhase, b: Seq<u8>)
    requires
        fuel > 0,
        chunk_step(phase, body, buf) == (ChunkStepView::Consumed(n), ph, b),
    ensures
        decoded_run(phase, body, buf, fuel) == match decoded_run(ph, b, buf.skip(n), (fuel - 1) as nat) {
            Some((x, used)) => Some((x, used + n)),
            None => None,
        },
{
}

/// The decoder reads one chunk an encoder wrote and goes on with the rest.
#[verifier::spinoff_prover]
#[verifier::rlimit(40)]
proof fn lemma_decode_piece(data: Seq<u8>, body: Seq<u8>, rest: Seq<u8>, fuel: nat)
    requires
        0 < data.len() <= usize::MAX,
        fuel >= 2,
    ensures
        decoded_run(ChunkPhase::Size, body, chunk_piece(data) + rest, fuel) == match decoded_run(
            ChunkPhase::Size,
            body + data,
            rest,
            (fuel - 2) as nat,
        ) {
            Some((x, used)) => Some((x, used + chunk_piece(data).len())),
            None => None,
        },
{
    let n = data.len();
    let h = encode_utf8(hex_text(n));
    let buf = chunk_piece(data) + rest;
    let after_size = data + crlf_bytes() + rest;
    assert(buf =~= h + crlf_bytes() + after_size);
    lemma_size_step(n, body, after_size);
    assert(buf.skip(h.len() + 2int) =~= after_size);
    lemma_run_consumed(ChunkPhase::Size, body, buf, fuel, h.len() + 2int, ChunkPhase::Data(n as usize), body);
    lemma_data_step(data, body, rest);
    assert(after_size.skip(n + 2int) =~= rest);
    lemma_run_consumed(
        ChunkPhase::Data(n as usize),
        body,
        after_size,
        (fuel - 1) as nat,
        n + 2int,
        ChunkPhase::Size,
        body + data,
    );
    assert(chunk_piece(data).len() == h.len() + 2 + n + 2);
}

/// The decoder reads the last chunk and the empty trailer.
proof fn lemma_decode_last(body: Seq<u8>, fuel: nat)
    requires
        fuel >= 2,
    ensures
        decoded_run(ChunkPhase::Size, body, chunked_encoding(Seq::empty()), fuel) == Some(
            (body, chunked_encoding(Seq::<Seq<u8>>::empty()).len() as int),
        ),
{
    let buf = chunked_encoding(Seq::<Seq<u8>>::empty());
    assert(hex_text(0) =~= seq!['0']) by {
        assert(crate::tool_services::hex_digit(0) == '0');
    }
    lemma_size_line(0, crlf_bytes());
    let h = encode_utf8(seq!['0']);
    assert(buf =~= h + crlf_bytes() + crlf_bytes());
    assert(chunk_step(ChunkPhase::Size, body, buf) == (
        ChunkStepView::Consumed(h.len() + 2int),
        ChunkPhase::Trailer,
        body,
    ));
    let tail = buf.skip(h.len() + 2int);
    assert(tail =~= crlf_bytes());
    crate::tool_services::lemma_no_blank_line(tail);
    assert(chunk_step(ChunkPhase::Trailer, body, tail) == (ChunkStepView::Finished(2), ChunkPhase::Done, body));
    assert(decoded_run(ChunkPhase::Trailer, body, tail, (fuel - 1) as nat) == Some((body, 2int)));
    assert(h.len() == 1);
    assert(buf.len() == 5);
}

/// Decoding what a chunked encoder wrote gives back the chunks' data, one
/// after the other, and uses every byte of the encoding (for chunks that
/// are not empty and whose sizes fit in `usize`).
pub proof fn law_chunked_roundtrip(chunks: Seq<Seq<u8>>, body: Seq<u8>)
    requires
        forall|i: int| 0 <= i < chunks.len() ==> 0 < (#[trigger] chunks[i]).len() <= usize::MAX,
    ensures
        decoded_run(ChunkPhase::Size, body, chunked_encoding(chunks), 2 * chunks.len() + 2) == Some(
            (body + joined_chunks(chunks), chunked_encoding(chunks).len() as int),
        ),
    decreases chunks.len(),
{
    if chunks.len() == 0 {
        lemma_decode_last(body, 2);
        assert(body + joined_chunks(chunks) =~= body);
    } else {
        let c = chunks[0];
        let rest = chunks.drop_first();
        assert forall|i: int| 0 <= i < rest.len() implies 0 < (#[trigger] rest[i]).len() <= usize::MAX by {
            assert(rest[i] == chunks[i + 1]);
        }
        law_chunked_roundtrip(rest, body + c);
        lemma_decode_piece(c, body, chunked_encoding(rest), 2 * chunks.len() + 2);
        assert(((2 * chunks.len() + 2) - 2) as nat == 2 * rest.len() + 2);
        assert(body + c + joined_chunks(rest) =~= body + joined_chunks(chunks));
    }
}

// ---------------------------------------------------------------------------
// Plain HTTP requests
// ---------------------------------------------------------------------------

/// What to do with a plain HTTP request.
pub enum UpstreamPlan {
    /// The forward proxy does not allow plain HTTP: write `response` to the
    /// client, keep the connection open only if `keep_alive`, and log `event`.
    Refuse { response: String, keep_alive: bool, event: HttpEvent },
    /// Send the request upstream.
    Send(UpstreamRequest),
}

/// A request ready to be sent upstream.
pub struct UpstreamRequest {
    /// The URL to send to.
    pub url: String,
    /// The request as rewritten: headers after the request rules, body
    /// after the body rules.
    pub request: ClientRequest,
    /// The headers to send, in name order: those not skipped.
    pub headers: Vec<(String, String)>,
    /// The warning of the body rewrite, if any.
    pub warning: Option<String>,
}

/// The headers, in order, that are sent upstream.
pub open spec fn sent_of(entries: Seq<(Seq<char>, Seq<char>)>) -> Seq<(Seq<char>, Seq<char>)>
    decreases entries.len(),
{
    if entries.len() == 0 {
        Seq::empty()
    } else {
        let rest = sent_of(entries.drop_last());
        let (n, v) = entries.last();
        if hop_by_hop(n) || n == "content-length"@ || n == "host"@ {
            rest
        } else {
            rest.push((n, v))
        }
    }
}

/// A header goes upstream exactly when the client sent it and its name is
/// none of the hop-by-hop names (`connection`, `keep-alive`,
/// `proxy-authenticate`, `proxy-authorization`, `te`, `trailer`,
/// `transfer-encoding`, `upgrade`) nor `content-length` or `host`, which the
/// client of the upstream sets itself.
pub proof fn law_upstream_header_filter(entries: Seq<(Seq<char>, Seq<char>)>, p: (Seq<char>, Seq<char>))
    ensures
        sent_of(entries).contains(p) <==> (entries.contains(p) && p.0 != "connection"@ && p.0 != "keep-alive"@
            && p.0 != "proxy-authenticate"@ && p.0 != "proxy-authorization"@ && p.0 != "te"@ && p.0 != "trailer"@
            && p.0 != "transfer-encoding"@ && p.0 != "upgrade"@ && p.0 != "content-length"@ && p.0 != "host"@),
    decreases entries.len(),
{
    if entries.len() > 0 {
        let init = entries.drop_last();
        let last = entries.last();
        law_upstream_header_filter(init, p);
        assert(entries =~= init.push(last));
        assert(entries.contains(p) <==> (init.contains(p) || last == p)) by {
            if entries.contains(p) {
                let i = choose|i: int| 0 <= i < entries.len() && entries[i] == p;
                if i < init.len() {
                    assert(init[i] == p);
                }
            }
            if init.contains(p) {
                let i = choose|i: int| 0 <= i < init.len() && init[i] == p;
                assert(entries[i] == p);
            }
            if last == p {
                assert(entries[entries.len() - 1] == p);
            }
        }
        let rest = sent_of(init);
        if !(hop_by_hop(last.0) || last.0 == "content-length"@ || last.0 == "host"@) {
            assert(sent_of(entries) == rest.push(last));
            assert(rest.push(last).contains(p) <==> (rest.contains(p) || last == p)) by {
                if rest.push(last).contains(p) {
                    let i = choose|i: int| 0 <= i < rest.push(last).len() && rest.push(last)[i] == p;
                    if i < rest.len() {
                        assert(rest[i] == p);
                    }
                }
                if rest.contains(p) {
                    let i = choose|i: int| 0 <= i < rest.len() && rest[i] == p;
                    assert(rest.push(last)[i] == p);
                }
                if last == p {
                    assert(rest.push(last)[rest.len() as int] == p);
                }
            }
        }
    }
}

/// The views of string pairs.
pub open spec fn pair_views(s: Seq<(String, String)>) -> Seq<(Seq<char>, Seq<char>)> {
    Seq::new(s.len(), |i: int| (s[i].0@, s[i].1@))
}

/// Lists the headers that are sent upstream: those of the table, in name
/// order, that are not skipped.
pub fn upstream_headers(headers: &HeaderMap) -> (r: Vec<(String, String)>)
    ensures
        pair_views(r@) == sent_of(headers.pairs()),
{
    let entries = headers.entries();
    let ghost ps = headers.pairs();
    let n = entries.len();
    let mut out: Vec<(String, String)> = Vec::new();
    let mut i: usize = 0;
    assert(pair_views(out@) =~= sent_of(ps.take(0)));
    while i < n
        invariant
            n == entries@.len(),
            n == ps.len(),
            forall|k: int| 0 <= k < n ==> ps[k] == ((#[trigger] entries@[k]).0@, entries@[k].1@),
            i <= n,
            pair_views(out@) == sent_of(ps.take(i as int)),
        decreases n - i,
    {
        proof {
            assert(ps.take(i + 1).drop_last() =~= ps.take(i as int));
            assert(ps.take(i + 1).last() == ps[i as int]);
        }
        let name = &entries[i].0;
        if !should_skip_request_header(name.as_str()) {
            let ghost before = pair_views(out@);
            out.push((name.clone(), entries[i].1.clone()));
            assert(pair_views(out@) =~= before.push(ps[i as int]));
        }
        i = i + 1;
    }
    assert(ps.take(n as int) =~= ps);
    out
}

/// The request timeout, target and rewrite settings that decide where a
/// plain request goes and how it is changed; see `plan_plain_http`.
pub open spec fn plan_target_error(detail: ServiceDetail) -> Option<Seq<char>> {
    match detail.kind {
        ServiceKind::HttpReverse => if detail.http_reverse is None { Some("HTTP 反向代理缺少配置"@) } else { None },
        ServiceKind::HttpForward => if detail.http_forward is None { Some("HTTP Forward 缺少配置"@) } else { None },
        _ => Some("当前服务类型不是 HTTP 代理"@),
    }
}

/// The lower-cased content type of a header table, empty when absent.
pub open spec fn headers_content_type(m: Map<Seq<char>, Seq<char>>) -> Seq<char> {
    if m.dom().contains("content-type"@) {
        lower_seq(m["content-type"@])
    } else {
        Seq::empty()
    }
}

/// Whether a header table names a content encoding that is not blank.
pub open spec fn headers_encoded(m: Map<Seq<char>, Seq<char>>) -> bool {
    m.dom().contains("content-encoding"@) && trim(m["content-encoding"@]).len() > 0
}

/// The request headers of a reverse proxy before the body rules: the
/// request rules applied, then `host` removed unless it is preserved.
pub open spec fn reverse_headers(request: ClientRequest, detail: ServiceDetail) -> Map<Seq<char>, Seq<char>> {
    let h = crate::rewrite::header_rules_applied(request.headers.map(), detail.header_rules@, "request"@);
    if detail.http_reverse->0.preserve_host {
        h
    } else {
        h.remove("host"@)
    }
}

/// A reverse-proxied request as sent, after a body rewrite with outcome
/// `o`: the URL, the headers (with the new `content-length` when the body
/// changed), the body and the warning, the rest of the request unchanged.
pub open spec fn reverse_sent(u: UpstreamRequest, request: ClientRequest, detail: ServiceDetail, o: crate::rewrite::RewriteOutcome) -> bool {
    let h = reverse_headers(request, detail);
    &&& u.url@ == reverse_url(detail.http_reverse->0.target_url@, request.target@)
    &&& u.request.headers.map() == (if o.changed {
        h.insert("content-length"@, crate::text::dec(o.body@.len()))
    } else {
        h
    })
    &&& u.request.body@ == (if o.changed { o.body@ } else { request.body@ })
    &&& crate::rewrite::opt_view(u.warning) == crate::rewrite::opt_view(o.warning)
    &&& u.request.method == request.method && u.request.target == request.target
    &&& u.request.keep_alive == request.keep_alive
    &&& pair_views(u.headers@) == sent_of(u.request.headers.pairs())
}

/// Decides what happens to a plain HTTP request: a service without the
/// settings of its kind, or one that is not an HTTP proxy, is an error; a
/// forward proxy that does not allow plain HTTP refuses it; otherwise the
/// request gets its URL, the request header rules, for a reverse proxy the
/// `Host` removal (unless preserved) and the body rules, and the list of
/// headers to send.
pub fn plan_plain_http(request: ClientRequest, detail: &ServiceDetail) -> (r: Result<UpstreamPlan, AppError>)
    ensures
        plan_target_error(*detail) matches Some(m) ==> r matches Err(AppError::InvalidInput(x)) && x@ == m,
        (detail.kind == ServiceKind::HttpForward && detail.http_forward is Some && !detail.http_forward->0.allow_http)
            ==> (r matches Ok(UpstreamPlan::Refuse { response, keep_alive, event: e })
                && response@ == simple_response_text(403, "HTTP disabled"@) && !keep_alive
                && e.status == Some(403u16) && e.error@ == "HTTP disabled"@
                && e.target_addr@ == Seq::<char>::empty() && e.bytes_in == 0 && e.bytes_out == 0),
        (detail.kind == ServiceKind::HttpReverse && detail.http_reverse is Some) ==> ({
            let cfg = detail.http_reverse->0;
            let h = reverse_headers(request, *detail);
            &&& !url_parses(cfg.target_url@) ==> (r matches Err(e) && e is Url)
            &&& url_parses(cfg.target_url@) ==> exists|o: Result<crate::rewrite::RewriteOutcome, AppError>|
                #[trigger] crate::rewrite::body_rewrite_spec(
                    o,
                    request.body@,
                    headers_content_type(h),
                    headers_encoded(h),
                    cfg.max_rewrite_body_bytes,
                    cfg.skip_compressed_body,
                    detail.body_rewrite_rules@,
                ) && match o {
                    Err(e) => r == Err::<UpstreamPlan, AppError>(e),
                    Ok(out) => r matches Ok(UpstreamPlan::Send(u)) && reverse_sent(u, request, *detail, out),
                }
        }),
        (detail.kind == ServiceKind::HttpForward && detail.http_forward is Some && detail.http_forward->0.allow_http) ==> ({
            let full = starts_with_seq(request.target@, "http://"@) || starts_with_seq(request.target@, "https://"@);
            &&& !full ==> (r matches Err(AppError::InvalidInput(m)) && m@ == "HTTP forward 请求行必须包含完整 URL"@)
            &&& (full && !url_parses(request.target@)) ==> (r matches Err(e) && e is Url)
            &&& (full && url_parses(request.target@)) ==> (r matches Ok(UpstreamPlan::Send(u)) && u.url@ == url_text(request.target@)
                && u.request.headers.map() == crate::rewrite::header_rules_applied(request.headers.map(), detail.header_rules@, "request"@)
                && u.request.body@ == request.body@ && u.warning is None
                && u.request.method == request.method && u.request.target == request.target
                && u.request.keep_alive == request.keep_alive
                && pair_views(u.headers@) == sent_of(u.request.headers.pairs()))
        }),
{
    let mut request = request;
    let ghost original = request;
    let mut warning: Option<String> = None;
    let is_reverse = match detail.kind {
        ServiceKind::HttpReverse => true,
        _ => false,
    };
    let url: String = match detail.kind {
        ServiceKind::HttpReverse => match &detail.http_reverse {
            None => return Err(AppError::InvalidInput(String::from_str("HTTP 反向代理缺少配置"))),
            Some(cfg) => match build_reverse_url(cfg.target_url.as_str(), request.target.as_str()) {
                Ok(u) => u,
                Err(e) => return Err(e),
            },
        },
        ServiceKind::HttpForward => match &detail.http_forward {
            None => return Err(AppError::InvalidInput(String::from_str("HTTP Forward 缺少配置"))),
            Some(cfg) => {
                if !cfg.allow_http {
                    let e = plain_event(&request, "", 403, 0, 0, "HTTP disabled");
                    let response = simple_response(403, "HTTP disabled");
                    proof {
                        reveal_strlit("");
                    }
                    return Ok(UpstreamPlan::Refuse { response, keep_alive: false, event: e });
                }
                match build_forward_url(request.target.as_str()) {
                    Ok(u) => u,
                    Err(e) => return Err(e),
                }
            },
        },
        _ => return Err(AppError::InvalidInput(String::from_str("当前服务类型不是 HTTP 代理"))),
    };
    crate::rewrite::apply_header_rules(&mut request.headers, detail.header_rules.as_slice(), "request");
    match &detail.http_reverse {
        Some(cfg) => {
            if is_reverse {
                if !cfg.preserve_host {
                    request.headers.remove("host");
                }
                assert(request.headers.map() == reverse_headers(original, *detail));
                let ct: Option<&str> = match request.headers.get("content-type") {
                    Some(v) => Some(v.as_str()),
                    None => None,
                };
                let ce: Option<&str> = match request.headers.get("content-encoding") {
                    Some(v) => Some(v.as_str()),
                    None => None,
                };
                assert(crate::rewrite::content_type_of(ct) == headers_content_type(request.headers.map()));
                assert(crate::rewrite::encoded(ce) == headers_encoded(request.headers.map()));
                let res = crate::rewrite::rewrite_body(
                    request.body.as_slice(),
                    ct,
                    ce,
                    cfg.max_rewrite_body_bytes,
                    cfg.skip_compressed_body,
                    detail.body_rewrite_rules.as_slice(),
                );
                let ghost rg = res;
                let outcome = match res {
                    Ok(o) => o,
                    Err(e) => {
                        assert(crate::rewrite::body_rewrite_spec(
                            rg,
                            original.body@,
                            headers_content_type(reverse_headers(original, *detail)),
                            headers_encoded(reverse_headers(original, *detail)),
                            cfg.max_rewrite_body_bytes,
                            cfg.skip_compressed_body,
                            detail.body_rewrite_rules@,
                        ));
                        return Err(e);
                    },
                };
                let ghost og = outcome;
                warning = outcome.warning;
                if outcome.changed {
                    request.body = outcome.body;
                    let len = request.body.len();
                    request.headers.insert(String::from_str("content-length"), crate::text::u64_string(len as u64));
                }
                let headers = upstream_headers(&request.headers);
                let u = UpstreamRequest { url, request, headers, warning };
                assert(reverse_sent(u, original, *detail, og));
                assert(crate::rewrite::body_rewrite_spec(
                    rg,
                    original.body@,
                    headers_content_type(reverse_headers(original, *detail)),
                    headers_encoded(reverse_headers(original, *detail)),
                    cfg.max_rewrite_body_bytes,
                    cfg.skip_compressed_body,
                    detail.body_rewrite_rules@,
                ));
                return Ok(UpstreamPlan::Send(u));
            }
        },
        None => {},
    }
    let headers = upstream_headers(&request.headers);
    Ok(UpstreamPlan::Send(UpstreamRequest { url, request, headers, warning }))
}

/// The status line and headers written to the client for an upstream
/// response: the headers that are not skipped, then the body length and
/// whether the connection stays open.
pub open spec fn response_head(status: u16, kept: Seq<(Seq<char>, Seq<char>)>, body_len: nat, keep_alive: bool) -> Seq<char> {
    "HTTP/1.1 "@ + crate::text::dec(status as nat) + " "@ + reason_of(status) + "\r\n"@ + header_lines(kept)
        + "content-length: "@ + crate::text::dec(body_len) + "\r\nconnection: "@ + (if keep_alive {
        "keep-alive"@
    } else {
        "close"@
    }) + "\r\n\r\n"@
}

/// `name: value\r\n` for each header.
pub open spec fn header_lines(hs: Seq<(Seq<char>, Seq<char>)>) -> Seq<char>
    decreases hs.len(),
{
    if hs.len() == 0 {
        Seq::empty()
    } else {
        header_lines(hs.drop_last()) + hs.last().0 + ": "@ + hs.last().1 + "\r\n"@
    }
}

/// The headers, in order, that a response keeps.
pub open spec fn kept_response_headers(entries: Seq<(Seq<char>, Seq<char>)>) -> Seq<(Seq<char>, Seq<char>)>
    decreases entries.len(),
{
    if entries.len() == 0 {
        Seq::empty()
    } else {
        let rest = kept_response_headers(entries.drop_last());
        let (n, v) = entries.last();
        if hop_by_hop(n) || n == "content-length"@ {
            rest
        } else {
            rest.push((n, v))
        }
    }
}

/// The head of a response passed on from upstream.
pub fn upstream_response_head(status: u16, headers: &HeaderMap, body_len: usize, keep_alive: bool) -> (r: String)
    ensures
        r@ == response_head(status, kept_response_headers(headers.pairs()), body_len as nat, keep_alive),
{
    let entries = headers.entries();
    let mut acc: Vec<char> = Vec::new();
    push_str(&mut acc, "HTTP/1.1 ");
    let st = crate::text::dec_u64(status as u64);
    push_chars(&mut acc, st.as_slice());
    push_str(&mut acc, " ");
    push_str(&mut acc, reason_phrase(status));
    push_str(&mut acc, "\r\n");
    let ghost prefix = acc@;
    let ghost ps = headers.pairs();
    let n = entries.len();
    let mut i: usize = 0;
    while i < n
        invariant
            n == entries@.len(),
            n == ps.len(),
            forall|k: int| 0 <= k < n ==> ps[k] == ((#[trigger] entries@[k]).0@, entries@[k].1@),
            i <= n,
            acc@ == prefix + header_lines(kept_response_headers(ps.take(i as int))),
        decreases n - i,
    {
        proof {
            assert(ps.take(i + 1).drop_last() =~= ps.take(i as int));
            assert(ps.take(i + 1).last() == ps[i as int]);
            assert(ps[i as int] == (entries@[i as int].0@, entries@[i as int].1@));
        }
        let name = entries[i].0.as_str();
        if !should_skip_response_header(name) {
            let ghost before = kept_response_headers(ps.take(i as int));
            push_str(&mut acc, name);
            push_str(&mut acc, ": ");
            push_str(&mut acc, entries[i].1.as_str());
            push_str(&mut acc, "\r\n");
            proof {
                let after = before.push((entries@[i as int].0@, entries@[i as int].1@));
                assert(after.drop_last() =~= before);
                assert(acc@ =~= prefix + header_lines(after));
            }
        }
        i = i + 1;
    }
    assert(ps.take(n as int) =~= ps);
    push_str(&mut acc, "content-length: ");
    let bl = crate::text::dec_u64(body_len as u64);
    push_chars(&mut acc, bl.as_slice());
    push_str(&mut acc, "\r\nconnection: ");
    if keep_alive {
        push_str(&mut acc, "keep-alive");
    } else {
        push_str(&mut acc, "close");
    }
    push_str(&mut acc, "\r\n\r\n");
    from_chars(acc.as_slice())
}

/// A response the proxy writes itself: status line, the body length, a
/// closing connection and the body.
pub open spec fn simple_response_text(status: u16, body: Seq<char>) -> Seq<char> {
    "HTTP/1.1 "@ + crate::text::dec(status as nat) + " "@ + reason_of(status) + "\r\ncontent-length: "@
        + crate::text::dec(vstd::utf8::encode_utf8(body).len()) + "\r\nconnection: close\r\n\r\n"@ + body
}

/// Writes a response of the proxy's own.
pub fn simple_response(status: u16, body: &str) -> (r: String)
    ensures
        r@ == simple_response_text(status, body@),
{
    let mut acc: Vec<char> = Vec::new();
    push_str(&mut acc, "HTTP/1.1 ");
    let st = crate::text::dec_u64(status as u64);
    push_chars(&mut acc, st.as_slice());
    push_str(&mut acc, " ");
    push_str(&mut acc, reason_phrase(status));
    push_str(&mut acc, "\r\ncontent-length: ");
    let bytes = crate::text::str_bytes(body);
    let bl = crate::text::dec_u64(bytes.len() as u64);
    push_chars(&mut acc, bl.as_slice());
    push_str(&mut acc, "\r\nconnection: close\r\n\r\n");
    push_str(&mut acc, body);
    from_chars(acc.as_slice())
}

/// The response headers as the proxy keeps them: names lower-cased, in
/// order, a later one replacing an earlier one of the same name.
pub fn response_header_table(pairs: Vec<(String, String)>) -> (r: HeaderMap)
    ensures
        r.map() == lowered_all(pairs@),
{
    let mut r = HeaderMap::new();
    let n = pairs.len();
    let ghost all = pairs@;
    let mut rest = pairs;
    let mut i: usize = 0;
    assert(all.take(0) =~= Seq::<(String, String)>::empty());
    while i < n
        invariant
            n == all.len(),
            i <= n,
            rest@ == all.skip(i as int),
            r.map() == lowered_all(all.take(i as int)),
        decreases n - i,
    {
        let (name, value) = rest.remove(0);
        assert(all.take(i + 1).drop_last() =~= all.take(i as int));
        let nv = to_chars(name.as_str());
        let lowered = to_lower(nv.as_slice());
        r.insert(from_chars(lowered.as_slice()), value);
        assert(rest@ =~= all.skip(i + 1));
        i = i + 1;
    }
    assert(all.take(n as int) =~= all);
    r
}

/// The map of pairs with lower-cased names, inserted in order.
pub open spec fn lowered_all(pairs: Seq<(String, String)>) -> Map<Seq<char>, Seq<char>>
    decreases pairs.len(),
{
    if pairs.len() == 0 {
        Map::empty()
    } else {
        lowered_all(pairs.drop_last()).insert(lower_seq(pairs.last().0@), pairs.last().1@)
    }
}

} // verus!
