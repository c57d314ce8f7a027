//! The running side of a local tool HTTP service: the checked runtime
//! configuration, the reading of a request head, the choice between a
//! route, the static directory and "not found", and the resolution of
//! static paths and directory listings. The file system and the sockets
//! stay with the caller, which hands in what it found.

use crate::error::AppError;
use crate::http_proxy::{http_head, parse_http_head, HeadView};
use crate::models::{
    RuntimeStatus, ToolServiceContentSource, ToolServiceInput, ToolServiceRouteInput, ToolServiceStaticMode,
    ToolServiceSummary,
};
use crate::text::{
    rsplit_once, rsplit_once_char, split_by, split_chars, string_views, views, contains_char, dec, dec_u64, eq_ignore_ascii_case_str, from_chars, lower_seq, parse_unsigned, parse_unsigned_max, push_chars,
    push_str, string_from_utf8_lossy, str_bytes, to_chars, to_owned_string, trim, trim_ws, utf8_lossy,
};
use crate::headers::{lemma_name_lt_asymmetric, lemma_name_lt_irreflexive, lemma_name_lt_transitive, name_lt, str_lt};
use crate::tool_services::{
    escape_html, escape_html_attr, html_escaped, listing_child_href, parent_href, parent_listing_href,
    percent_encode_path_segment, percent_encoded, content_type_for_extension, content_type_of, decode_url_path_segment, percent_decoded, relative_path,
    relative_request_path, display_path_for_summary, find_header_end, method_accepts, normalize_method, normalize_service_path,
    normalized_method, normalized_path, path_matches, plain_response, request_path_without_query, route_answers,
    route_matches, under_prefix, without_query, HttpRequest, ToolHttpResponse,
};
use crate::validation::{blank, has_static_root, route_label, text_or_empty};
use vstd::prelude::*;
use vstd::utf8::{decode_utf8, encode_utf8, valid_utf8};

verus! {

// ---------------------------------------------------------------------------
// The runtime configuration
// ---------------------------------------------------------------------------

/// What the file system says of a configured path: that it cannot be
/// read (with the error's text), or what it is and its canonical form (or
/// the text of the error that canonicalising gave).
#[derive(Debug)]
pub enum PathProbe {
    Inaccessible(String),
    Found { is_dir: bool, is_file: bool, canonical: Result<String, String> },
}

/// An error as text: invalid input, or an I/O failure.
pub enum ToolFault {
    Invalid(Seq<char>),
    Io(Seq<char>),
}

/// The result is the error the fault describes.
pub open spec fn fails_with<T>(r: Result<T, AppError>, f: ToolFault) -> bool {
    match f {
        ToolFault::Invalid(m) => r matches Err(AppError::InvalidInput(x)) && x@ == m,
        ToolFault::Io(m) => r matches Err(AppError::Io(x)) && x@ == m,
    }
}

/// Where a route's body comes from, once checked.
#[derive(Debug, Clone)]
pub enum ToolServiceRouteContent {
    Inline(Vec<u8>),
    File(String),
}

/// A checked route.
#[derive(Debug, Clone)]
pub struct ToolServiceRouteConfig {
    pub method: String,
    pub path: String,
    pub response_status: u16,
    pub content_type: String,
    pub content: ToolServiceRouteContent,
}

/// A checked tool service configuration.
#[derive(Debug, Clone)]
pub struct ToolServiceRuntimeConfig {
    pub name: String,
    pub host: String,
    pub port: u16,
    pub static_root_dir: Option<String>,
    pub static_mode: ToolServiceStaticMode,
    pub static_path_prefix: String,
    pub routes: Vec<ToolServiceRouteConfig>,
}

/// The check of a probed static directory.
pub open spec fn root_outcome(p: PathProbe) -> Result<Seq<char>, ToolFault> {
    match p {
        PathProbe::Inaccessible(e) => Err(ToolFault::Invalid("静态目录不可访问: "@ + e@)),
        PathProbe::Found { is_dir, is_file, canonical } => if !is_dir {
            Err(ToolFault::Invalid("静态目录必须是文件夹"@))
        } else {
            match canonical {
                Ok(c) => Ok(c@),
                Err(e) => Err(ToolFault::Io(e@)),
            }
        },
    }
}

/// The static directory must be readable and a directory; it is kept in
/// canonical form.
pub fn validate_static_root_dir(probe: PathProbe) -> (r: Result<String, AppError>)
    ensures
        match root_outcome(probe) {
            Ok(c) => r matches Ok(x) && x@ == c,
            Err(f) => fails_with(r, f),
        },
{
    match probe {
        PathProbe::Inaccessible(e) => {
            let mut m = to_chars("静态目录不可访问: ");
            push_str(&mut m, e.as_str());
            Err(AppError::InvalidInput(from_chars(m.as_slice())))
        },
        PathProbe::Found { is_dir, is_file, canonical } => {
            if !is_dir {
                return Err(AppError::InvalidInput(to_owned_string("静态目录必须是文件夹")));
            }
            match canonical {
                Ok(c) => Ok(c),
                Err(e) => Err(AppError::Io(e)),
            }
        },
    }
}

/// The default content type of a route.
pub open spec fn default_route_content_type() -> Seq<char> {
    "application/json; charset=utf-8"@
}

/// Why a route is refused, if it is: checked in the order method, status,
/// file.
pub open spec fn route_fault(index: nat, r: ToolServiceRouteInput, file: Option<PathProbe>) -> Option<ToolFault> {
    let label = route_label(index);
    if normalized_method(r.method@) is None {
        Some(ToolFault::Invalid(label + " 的请求方法无效"@))
    } else if !(100 <= r.response_status <= 599) {
        Some(ToolFault::Invalid(label + " 的响应状态码必须是 100-599"@))
    } else if r.content_source is File {
        if blank(text_or_empty(r.file_path)) {
            Some(ToolFault::Invalid(label + " 需要选择响应文件"@))
        } else {
            match file {
                Some(PathProbe::Inaccessible(e)) => Some(ToolFault::Invalid(label + " 响应文件不可访问: "@ + e@)),
                Some(PathProbe::Found { is_dir, is_file, canonical }) => if !is_file {
                    Some(ToolFault::Invalid(label + " 响应文件必须是文件"@))
                } else {
                    match canonical {
                        Ok(_) => None,
                        Err(e) => Some(ToolFault::Io(e@)),
                    }
                },
                None => None,
            }
        }
    } else {
        None
    }
}

/// A checked route as its input and probe give it.
pub open spec fn route_checked(
    c: ToolServiceRouteConfig,
    r: ToolServiceRouteInput,
    file: Option<PathProbe>,
) -> bool {
    &&& normalized_method(r.method@) == Some(c.method@)
    &&& c.path@ == normalized_path(r.path@)
    &&& c.response_status == r.response_status
    &&& c.content_type@ == (if trim(r.content_type@).len() == 0 {
        default_route_content_type()
    } else {
        trim(r.content_type@)
    })
    &&& match r.content_source {
        ToolServiceContentSource::Inline => c.content matches ToolServiceRouteContent::Inline(b) && b@
            == encode_utf8(text_or_empty(r.body)),
        ToolServiceContentSource::File => c.content matches ToolServiceRouteContent::File(p) && file matches Some(
            PathProbe::Found { canonical: Ok(k), .. },
        ) && p@ == k@,
    }
}

/// The probe needed for a route: a file route with a path names a file
/// that was probed.
pub open spec fn route_probed(r: ToolServiceRouteInput, file: Option<PathProbe>) -> bool {
    (r.content_source is File && !blank(text_or_empty(r.file_path))) ==> file is Some
}

/// Checks a route (`index` counts from zero): the method must be known,
/// the status 100-599, and a file route must name a readable file; the
/// path is normalised and a blank content type becomes JSON.
pub fn validate_route(index: usize, input: &ToolServiceRouteInput, file: Option<PathProbe>) -> (r: Result<
    ToolServiceRouteConfig,
    AppError,
>)
    requires
        index < usize::MAX,
        route_probed(*input, file),
    ensures
        match route_fault(index as nat, *input, file) {
            Some(f) => fails_with(r, f),
            None => r matches Ok(c) && route_checked(c, *input, file),
        },
{
    let mut label = to_chars("接口 #");
    let d = dec_u64((index + 1) as u64);
    push_chars(&mut label, d.as_slice());
    let method = match normalize_method(input.method.as_str()) {
        Some(m) => m,
        None => {
            push_str(&mut label, " 的请求方法无效");
            return Err(AppError::InvalidInput(from_chars(label.as_slice())));
        },
    };
    let path = normalize_service_path(input.path.as_str());
    let status = input.response_status;
    if !(100 <= status && status <= 599) {
        push_str(&mut label, " 的响应状态码必须是 100-599");
        return Err(AppError::InvalidInput(from_chars(label.as_slice())));
    }
    let ct = to_chars(input.content_type.as_str());
    let ctt = trim_ws(ct.as_slice());
    let content_type = if ctt.len() == 0 {
        to_owned_string("application/json; charset=utf-8")
    } else {
        from_chars(ctt.as_slice())
    };
    let content = match input.content_source {
        ToolServiceContentSource::Inline => {
            let body = match &input.body {
                Some(b) => str_bytes(b.as_str()),
                None => {
                    let e: Vec<u8> = Vec::new();
                    proof {
                        assert(encode_utf8(Seq::<char>::empty()) =~= Seq::<u8>::empty()) by {
                            reveal_with_fuel(vstd::utf8::encode_utf8, 1);
                        }
                    }
                    e
                },
            };
            ToolServiceRouteContent::Inline(body)
        },
        ToolServiceContentSource::File => {
            let fp = match &input.file_path {
                Some(p) => to_chars(p.as_str()),
                None => Vec::new(),
            };
            let fpt = trim_ws(fp.as_slice());
            if fpt.len() == 0 {
                proof {
                    assert(fp@ == text_or_empty(input.file_path));
                }
                push_str(&mut label, " 需要选择响应文件");
                return Err(AppError::InvalidInput(from_chars(label.as_slice())));
            }
            match file {
                Some(PathProbe::Inaccessible(e)) => {
                    push_str(&mut label, " 响应文件不可访问: ");
                    push_str(&mut label, e.as_str());
                    return Err(AppError::InvalidInput(from_chars(label.as_slice())));
                },
                Some(PathProbe::Found { is_dir, is_file, canonical }) => {
                    if !is_file {
                        push_str(&mut label, " 响应文件必须是文件");
                        return Err(AppError::InvalidInput(from_chars(label.as_slice())));
                    }
                    match canonical {
                        Ok(c) => ToolServiceRouteContent::File(c),
                        Err(e) => return Err(AppError::Io(e)),
                    }
                },
                None => {
                    proof {
                        assert(fp@ == text_or_empty(input.file_path));
                    }
                    return Err(AppError::Io(String::new()));
                },
            }
        },
    };
    Ok(ToolServiceRouteConfig { method, path, response_status: status, content_type, content })
}

/// The first refused route from `i` on.
pub open spec fn routes_fault(routes: Seq<ToolServiceRouteInput>, files: Seq<Option<PathProbe>>, i: int) -> Option<
    ToolFault,
>
    decreases routes.len() - i,
{
    if i < 0 || i >= routes.len() {
        None
    } else {
        match route_fault(i as nat, routes[i], files[i]) {
            Some(f) => Some(f),
            None => routes_fault(routes, files, i + 1),
        }
    }
}

/// Why a service configuration is refused, if it is: a blank name, a
/// blank host, port zero, an unusable static directory, the first refused
/// route, or nothing to serve, in that order.
pub open spec fn config_fault(input: ToolServiceInput, root: Option<PathProbe>, files: Seq<Option<PathProbe>>) -> Option<
    ToolFault,
> {
    if blank(input.name@) {
        Some(ToolFault::Invalid("服务名称不能为空"@))
    } else if blank(input.host@) {
        Some(ToolFault::Invalid("监听主机不能为空"@))
    } else if input.port == 0 {
        Some(ToolFault::Invalid("端口必须是 1-65535"@))
    } else if has_static_root(input) && (root matches Some(p) && root_outcome(p) is Err) {
        Some(root_outcome(root->0)->Err_0)
    } else if routes_fault(input.routes@, files, 0) is Some {
        routes_fault(input.routes@, files, 0)
    } else if !has_static_root(input) && input.routes@.len() == 0 {
        Some(ToolFault::Invalid("请至少配置静态目录或一个接口"@))
    } else {
        None
    }
}

/// The probes a configuration needs: the static directory when one is
/// named, and the file of each file route that names one.
pub open spec fn config_probed(input: ToolServiceInput, root: Option<PathProbe>, files: Seq<Option<PathProbe>>) -> bool {
    &&& files.len() == input.routes@.len()
    &&& has_static_root(input) ==> root is Some
    &&& forall|i: int| 0 <= i < files.len() ==> route_probed(#[trigger] input.routes@[i], files[i])
}

impl ToolServiceRuntimeConfig {
    /// Checks a tool service configuration against what the file system
    /// said of its paths: the name and host trimmed, the static directory
    /// canonical, the prefix normalised, each route checked.
    pub fn try_from(input: ToolServiceInput, root: Option<PathProbe>, files: Vec<Option<PathProbe>>) -> (r: Result<
        ToolServiceRuntimeConfig,
        AppError,
    >)
        requires
            config_probed(input, root, files@),
            input.routes@.len() < usize::MAX,
        ensures
            match config_fault(input, root, files@) {
                Some(f) => fails_with(r, f),
                None => r matches Ok(c) && c.name@ == trim(input.name@) && c.host@ == trim(input.host@) && c.port
                    == input.port && c.static_mode == input.static_mode && c.static_path_prefix@ == normalized_path(
                    input.static_path_prefix@,
                ) && (if has_static_root(input) {
                    root matches Some(PathProbe::Found { canonical: Ok(k), .. }) && c.static_root_dir matches Some(
                        d,
                    ) && d@ == k@
                } else {
                    c.static_root_dir is None
                }) && c.routes@.len() == input.routes@.len() && forall|i: int|
                    0 <= i < c.routes@.len() ==> route_checked(#[trigger] c.routes@[i], input.routes@[i], files@[i]),
            },
    {
        let nv = to_chars(input.name.as_str());
        let name = trim_ws(nv.as_slice());
        if name.len() == 0 {
            return Err(AppError::InvalidInput(to_owned_string("服务名称不能为空")));
        }
        let hv = to_chars(input.host.as_str());
        let host = trim_ws(hv.as_slice());
        if host.len() == 0 {
            return Err(AppError::InvalidInput(to_owned_string("监听主机不能为空")));
        }
        if input.port == 0 {
            return Err(AppError::InvalidInput(to_owned_string("端口必须是 1-65535")));
        }
        let root_named = match &input.static_root_dir {
            Some(d) => {
                let dv = to_chars(d.as_str());
                trim_ws(dv.as_slice()).len() > 0
            },
            None => false,
        };
        assert(root_named == has_static_root(input));
        let static_root_dir = if root_named {
            match root {
                Some(p) => match validate_static_root_dir(p) {
                    Ok(c) => Some(c),
                    Err(e) => return Err(e),
                },
                None => None,
            }
        } else {
            None
        };
        let ghost all = input.routes@;
        let ghost probes = files@;
        let n = input.routes.len();
        let mut rest = files;
        let mut routes: Vec<ToolServiceRouteConfig> = Vec::new();
        let mut i: usize = 0;
        while i < n
            invariant
                n == all.len(),
                n < usize::MAX,
                all == input.routes@,
                probes == files@,
                name@ == trim(input.name@),
                host@ == trim(input.host@),
                !blank(input.name@),
                !blank(input.host@),
                input.port != 0,
                !(has_static_root(input) && (root matches Some(p) && root_outcome(p) is Err)),
                if has_static_root(input) {
                    root matches Some(PathProbe::Found { canonical: Ok(k), .. }) && static_root_dir matches Some(d)
                        && d@ == k@
                } else {
                    static_root_dir is None
                },
                probes.len() == n,
                forall|k: int| 0 <= k < n ==> route_probed(#[trigger] all[k], probes[k]),
                i <= n,
                rest@ == probes.skip(i as int),
                routes@.len() == i,
                forall|k: int| 0 <= k < i ==> route_checked(#[trigger] routes@[k], all[k], probes[k]),
                forall|k: int| 0 <= k < i ==> route_fault(k as nat, #[trigger] all[k], probes[k]) is None,
                routes_fault(all, probes, 0) == routes_fault(all, probes, i as int),
            decreases n - i,
        {
            let probe = rest.remove(0);
            assert(rest@ =~= probes.skip(i + 1));
            assert(probe == probes[i as int]);
            match validate_route(i, &input.routes[i], probe) {
                Ok(c) => {
                    routes.push(c);
                },
                Err(e) => {
                    proof {
                        let f = route_fault(i as nat, all[i as int], probes[i as int])->0;
                        assert(routes_fault(all, probes, i as int) == Some(f));
                        assert(config_fault(input, root, probes) == Some(f));
                        assert(fails_with(Err::<ToolServiceRouteConfig, AppError>(e), f));
                        assert(fails_with(Err::<ToolServiceRuntimeConfig, AppError>(e), f));
                    }
                    return Err(e);
                },
            }
            i = i + 1;
        }
        if static_root_dir.is_none() && n == 0 {
            return Err(AppError::InvalidInput(to_owned_string("请至少配置静态目录或一个接口")));
        }
        Ok(
            ToolServiceRuntimeConfig {
                name: from_chars(name.as_slice()),
                host: from_chars(host.as_slice()),
                port: input.port,
                static_root_dir,
                static_mode: input.static_mode,
                static_path_prefix: normalize_service_path(input.static_path_prefix.as_str()),
                routes,
            },
        )
    }

    /// The path shown in the service's address: the static prefix when a
    /// static directory is served, else the first route's path, else `/`.
    pub fn first_access_path(&self) -> (r: &str)
        ensures
            r@ == (if self.static_root_dir is Some {
                self.static_path_prefix@
            } else if self.routes@.len() > 0 {
                self.routes@[0].path@
            } else {
                "/"@
            }),
    {
        if self.static_root_dir.is_some() {
            self.static_path_prefix.as_str()
        } else if self.routes.len() > 0 {
            self.routes[0].path.as_str()
        } else {
            "/"
        }
    }
}

// ---------------------------------------------------------------------------
// Reading a request
// ---------------------------------------------------------------------------

/// The most bytes a request head may take.
pub const TOOL_MAX_HEADER_BYTES: usize = 65536;

/// The most bytes a request body may take.
pub const TOOL_MAX_REQUEST_BODY_BYTES: usize = 1048576;

/// The most headers a request head may carry.
pub const TOOL_MAX_REQUEST_HEADERS: usize = 64;

/// Where reading a request head stands.
#[derive(Debug, Clone, Copy, PartialEq, Eq)]
pub enum HeadProgress {
    /// The head ends before this offset (its blank line included).
    Complete(usize),
    /// No blank line yet and the buffer is over the limit.
    TooLarge,
    /// Read more.
    NeedMore,
}

/// Looks for the end of the head in what was read so far.
pub fn head_progress(buffer: &[u8]) -> (r: HeadProgress)
    ensures
        match r {
            HeadProgress::Complete(end) => exists|i: int|
                crate::tool_services::blank_line_at(buffer@, i) && (forall|j: int|
                    0 <= j < i ==> !crate::tool_services::blank_line_at(buffer@, j)) && end == i + 4,
            HeadProgress::TooLarge => (forall|j: int| !crate::tool_services::blank_line_at(buffer@, j))
                && buffer@.len() > TOOL_MAX_HEADER_BYTES,
            HeadProgress::NeedMore => (forall|j: int| !crate::tool_services::blank_line_at(buffer@, j))
                && buffer@.len() <= TOOL_MAX_HEADER_BYTES,
        },
{
    match find_header_end(buffer) {
        Some(i) => {
            let blen = buffer.len();
            assert(crate::tool_services::blank_line_at(buffer@, i as int));
            assert(i + 4 <= blen);
            HeadProgress::Complete(i + 4)
        },
        None => if buffer.len() > TOOL_MAX_HEADER_BYTES {
            HeadProgress::TooLarge
        } else {
            HeadProgress::NeedMore
        },
    }
}

/// The error of a head that grew too large.
pub fn head_too_large() -> (r: AppError)
    ensures
        r matches AppError::InvalidInput(m) && m@ == "HTTP 请求头过大"@,
{
    AppError::InvalidInput(to_owned_string("HTTP 请求头过大"))
}

/// The error of a connection that ended before its head.
pub fn empty_request() -> (r: AppError)
    ensures
        r matches AppError::InvalidInput(m) && m@ == "HTTP 请求为空"@,
{
    AppError::InvalidInput(to_owned_string("HTTP 请求为空"))
}

/// The method, path and body length of a request head.
#[derive(Debug, Clone)]
pub struct ToolRequestHead {
    pub method: String,
    pub path: String,
    pub content_length: usize,
}

/// The length the first `Content-Length` header names (its value read
/// lossily as UTF-8 and trimmed), zero when there is none or it is not a
/// number.
pub open spec fn first_content_length(hs: Seq<(Seq<char>, Seq<u8>)>) -> nat
    decreases hs.len(),
{
    if hs.len() == 0 {
        0
    } else if crate::text::eq_ignore_case(hs[0].0, "content-length"@) {
        match parse_unsigned(trim(utf8_lossy(hs[0].1)), usize::MAX as nat) {
            Some(n) => n,
            None => 0,
        }
    } else {
        first_content_length(hs.drop_first())
    }
}

/// What a head says, or why it is refused.
pub open spec fn tool_head_outcome(h: HeadView) -> Result<(Seq<char>, Seq<char>, nat), Seq<char>> {
    if !h.4 {
        Err("HTTP 请求头不完整"@)
    } else if h.0 is None {
        Err("HTTP 请求缺少方法"@)
    } else if h.1 is None {
        Err("HTTP 请求缺少路径"@)
    } else {
        Ok((h.0->0, h.1->0, first_content_length(h.3)))
    }
}

/// Reads a request head (with room for 64 headers): a head the parser
/// refuses is refused with the parser's message; an incomplete head, or one
/// without method or path, is refused.
pub fn parse_tool_request_head(head: &[u8]) -> (r: Result<ToolRequestHead, AppError>)
    ensures
        http_head(head@, TOOL_MAX_REQUEST_HEADERS) is None ==> (r matches Err(AppError::InvalidInput(m))
            && m@.len() >= "HTTP 请求解析失败: "@.len() && m@.take("HTTP 请求解析失败: "@.len() as int)
            == "HTTP 请求解析失败: "@),
        http_head(head@, TOOL_MAX_REQUEST_HEADERS) matches Some(h) ==> match tool_head_outcome(h) {
            Err(m) => r matches Err(AppError::InvalidInput(x)) && x@ == m,
            Ok((method, path, len)) => r matches Ok(t) && t.method@ == method && t.path@ == path
                && t.content_length == len,
        },
{
    let parsed = match parse_http_head(head, TOOL_MAX_REQUEST_HEADERS) {
        Ok(p) => p,
        Err(e) => {
            let mut m = to_chars("HTTP 请求解析失败: ");
            push_str(&mut m, e.as_str());
            proof {
                reveal_strlit("HTTP 请求解析失败: ");
                assert(("HTTP 请求解析失败: "@ + e@).take("HTTP 请求解析失败: "@.len() as int)
                    =~= "HTTP 请求解析失败: "@);
            }
            return Err(AppError::InvalidInput(from_chars(m.as_slice())));
        },
    };
    let ghost hv = parsed.view();
    if !parsed.complete {
        return Err(AppError::InvalidInput(to_owned_string("HTTP 请求头不完整")));
    }
    let method = match parsed.method {
        Some(m) => m,
        None => return Err(AppError::InvalidInput(to_owned_string("HTTP 请求缺少方法"))),
    };
    let path = match parsed.path {
        Some(p) => p,
        None => return Err(AppError::InvalidInput(to_owned_string("HTTP 请求缺少路径"))),
    };
    let headers = parsed.headers;
    let ghost hs = hv.3;
    let n = headers.len();
    let mut i: usize = 0;
    let mut length: usize = 0;
    assert(hs.skip(0) =~= hs);
    while i < n
        invariant_except_break
            first_content_length(hs) == first_content_length(hs.skip(i as int)),
            length == 0,
        invariant
            n == headers@.len(),
            hs.len() == n,
            forall|k: int| 0 <= k < n ==> (#[trigger] hs[k]).0 == headers@[k].0@ && hs[k].1 == headers@[k].1@,
            i <= n,
        ensures
            length == first_content_length(hs),
        decreases n - i,
    {
        assert(hs.skip(i as int).drop_first() =~= hs.skip(i + 1));
        assert(hs.skip(i as int)[0] == hs[i as int]);
        let name = to_chars(headers[i].0.as_str());
        if eq_ignore_ascii_case_str(name.as_slice(), "content-length") {
            let text = string_from_utf8_lossy(headers[i].1.as_slice());
            let tv = to_chars(text.as_str());
            let t = trim_ws(tv.as_slice());
            length = match parse_unsigned_max(t.as_slice(), usize::MAX as u64) {
                Some(x) => x as usize,
                None => 0,
            };
            break;
        }
        i = i + 1;
    }
    proof {
        if i == n {
            assert(hs.skip(n as int) =~= Seq::<(Seq<char>, Seq<u8>)>::empty());
        }
    }
    Ok(ToolRequestHead { method, path, content_length: length })
}

/// The error of a body over the limit; `None` when it fits.
pub fn body_too_large(content_length: usize) -> (r: Option<AppError>)
    ensures
        content_length <= TOOL_MAX_REQUEST_BODY_BYTES ==> r is None,
        content_length > TOOL_MAX_REQUEST_BODY_BYTES ==> (r matches Some(AppError::InvalidInput(m)) && m@
            == "请求体超过 1048576 字节"@),
{
    if content_length > TOOL_MAX_REQUEST_BODY_BYTES {
        let mut m = to_chars("请求体超过 ");
        let d = dec_u64(TOOL_MAX_REQUEST_BODY_BYTES as u64);
        push_chars(&mut m, d.as_slice());
        push_str(&mut m, " 字节");
        proof {
            reveal_strlit("请求体超过 ");
            reveal_strlit(" 字节");
            reveal_strlit("请求体超过 1048576 字节");
            reveal_with_fuel(dec, 8);
            assert(m@ =~= "请求体超过 1048576 字节"@);
        }
        return Some(AppError::InvalidInput(from_chars(m.as_slice())));
    }
    None
}

// ---------------------------------------------------------------------------
// Answering a request
// ---------------------------------------------------------------------------

/// What answers a request.
#[derive(Debug, Clone, Copy, PartialEq, Eq)]
pub enum ToolDispatch {
    /// The route at this index (the first that answers).
    Route(usize),
    /// The static directory.
    Static,
    /// Nothing: `404`.
    NotFound,
}

/// The first route that answers the request.
pub open spec fn first_route(routes: Seq<ToolServiceRouteConfig>, request: HttpRequest) -> Option<int>
    decreases routes.len(),
{
    if routes.len() == 0 {
        None
    } else if route_answers(routes[0].method@, routes[0].path@, request) {
        Some(0)
    } else {
        match first_route(routes.drop_first(), request) {
            Some(i) => Some(i + 1),
            None => None,
        }
    }
}

/// Routes first, in order; then the static directory when one is served
/// and the path (without its query) lies under its prefix.
pub fn tool_dispatch(config: &ToolServiceRuntimeConfig, request: &HttpRequest) -> (r: ToolDispatch)
    ensures
        match first_route(config.routes@, *request) {
            Some(i) => r == ToolDispatch::Route(i as usize),
            None => if config.static_root_dir is Some && under_prefix(
                config.static_path_prefix@,
                without_query(request.path@),
            ) {
                r == ToolDispatch::Static
            } else {
                r == ToolDispatch::NotFound
            },
        },
{
    let n = config.routes.len();
    let mut i: usize = 0;
    let ghost all = config.routes@;
    assert(all.skip(0) =~= all);
    while i < n
        invariant
            n == all.len(),
            all == config.routes@,
            i <= n,
            first_route(all, *request) == match first_route(all.skip(i as int), *request) {
                Some(j) => Some(j + i),
                None => None::<int>,
            },
        decreases n - i,
    {
        assert(all.skip(i as int).drop_first() =~= all.skip(i + 1));
        assert(all.skip(i as int)[0] == all[i as int]);
        if route_matches(config.routes[i].method.as_str(), config.routes[i].path.as_str(), request) {
            return ToolDispatch::Route(i);
        }
        i = i + 1;
    }
    assert(all.skip(n as int) =~= Seq::<ToolServiceRouteConfig>::empty());
    if config.static_root_dir.is_some() {
        let path = request_path_without_query(request.path.as_str());
        if path_matches(config.static_path_prefix.as_str(), path.as_str()) {
            return ToolDispatch::Static;
        }
    }
    ToolDispatch::NotFound
}

/// The answer when nothing matched.
pub fn not_found_response() -> (r: ToolHttpResponse)
    ensures
        r.status == 404,
        r.content_type@ == "text/plain; charset=utf-8"@,
        r.body@ == encode_utf8("请求路径未匹配"@),
{
    plain_response(404, "请求路径未匹配")
}

/// A route's answer: its status and content type with its inline body, or
/// with the file it names (`file_body`, what reading it gave; a `500` when
/// it could not be read).
pub fn route_response(route: &ToolServiceRouteConfig, file_body: Option<Vec<u8>>) -> (r: ToolHttpResponse)
    ensures
        match route.content {
            ToolServiceRouteContent::Inline(b) => r.status == route.response_status && r.content_type
                == route.content_type && r.body@ == b@,
            ToolServiceRouteContent::File(_) => match file_body {
                Some(b) => r.status == route.response_status && r.content_type == route.content_type && r.body@
                    == b@,
                None => r.status == 500 && r.content_type@ == "text/plain; charset=utf-8"@ && r.body@
                    == encode_utf8("响应文件读取失败"@),
            },
        },
{
    match &route.content {
        ToolServiceRouteContent::Inline(b) => {
            ToolHttpResponse { status: route.response_status, content_type: route.content_type.clone(), body: b.clone() }
        },
        ToolServiceRouteContent::File(_) => match file_body {
            Some(b) => ToolHttpResponse { status: route.response_status, content_type: route.content_type.clone(), body: b },
            None => plain_response(500, "响应文件读取失败"),
        },
    }
}

/// The refusals of a static request before any file is looked at: only
/// `GET` and `HEAD` are served, and only when a directory is configured.
pub fn static_precheck(config: &ToolServiceRuntimeConfig, method: &str) -> (r: Option<ToolHttpResponse>)
    ensures
        !crate::text::eq_ignore_case(method@, "GET"@) && !crate::text::eq_ignore_case(method@, "HEAD"@) ==> (r matches Some(x)
            && x.status == 405 && x.body@ == encode_utf8("静态目录只支持 GET 和 HEAD"@) && x.content_type@
            == "text/plain; charset=utf-8"@),
        (crate::text::eq_ignore_case(method@, "GET"@) || crate::text::eq_ignore_case(method@, "HEAD"@)) ==> (if config.static_root_dir is None {
            r matches Some(x) && x.status == 404 && x.body@ == encode_utf8("静态目录未配置"@) && x.content_type@
                == "text/plain; charset=utf-8"@
        } else {
            r is None
        }),
{
    let m = to_chars(method);
    if !eq_ignore_ascii_case_str(m.as_slice(), "GET") && !eq_ignore_ascii_case_str(m.as_slice(), "HEAD") {
        return Some(plain_response(405, "静态目录只支持 GET 和 HEAD"));
    }
    if config.static_root_dir.is_none() {
        return Some(plain_response(404, "静态目录未配置"));
    }
    None
}

/// The text of a path segment: percent-decoded, and UTF-8.
pub open spec fn segment_text(seg: Seq<char>) -> Option<Seq<char>> {
    match percent_decoded(encode_utf8(seg)) {
        Some(d) => if valid_utf8(d) {
            Some(decode_utf8(d))
        } else {
            None
        },
        None => None,
    }
}

/// A name written into a listing link (percent-encoded) reads back as the
/// same name when that link is requested.
pub proof fn law_link_segment_roundtrip(name: Seq<char>)
    ensures
        segment_text(percent_encoded(encode_utf8(name))) == Some(name),
{
    crate::tool_services::law_percent_roundtrip(encode_utf8(name));
    vstd::utf8::encode_utf8_valid_utf8(name);
    vstd::utf8::encode_utf8_decode_utf8(name);
}

/// A segment that may not name a file: `.`, `..`, or one holding `\`,
/// `/` or NUL.
pub open spec fn unsafe_segment(t: Seq<char>) -> bool {
    t == seq!['.'] || t == seq!['.', '.'] || t.contains('\\') || t.contains('/') || t.contains('\0')
}

/// The names below the root that the pieces of a relative path give;
/// nothing when a piece does not decode or is unsafe.
pub open spec fn segments_of(pieces: Seq<Seq<char>>) -> Option<Seq<Seq<char>>>
    decreases pieces.len(),
{
    if pieces.len() == 0 {
        Some(Seq::empty())
    } else {
        match segments_of(pieces.drop_last()) {
            None => None,
            Some(prev) => {
                let p = pieces.last();
                if p.len() == 0 {
                    Some(prev)
                } else {
                    match segment_text(p) {
                        None => None,
                        Some(t) => if unsafe_segment(t) {
                            None
                        } else {
                            Some(prev.push(t))
                        },
                    }
                }
            },
        }
    }
}

/// The names below the static root that a request path asks for: nothing
/// when the path (without its query) is not under the prefix; for the
/// prefix itself a site asks for `index.html` and a directory for itself.
pub open spec fn static_segments(prefix: Seq<char>, mode: ToolServiceStaticMode, request_path: Seq<char>) -> Option<
    Seq<Seq<char>>,
> {
    match relative_path(prefix, without_query(request_path)) {
        None => None,
        Some(rel) => if rel.len() == 0 {
            if mode is Site {
                Some(seq!["index.html"@])
            } else {
                Some(Seq::empty())
            }
        } else {
            segments_of(split_by(rel, seq!['/']))
        },
    }
}

/// The names below the static root to look up for a request.
pub fn static_target_segments(prefix: &str, mode: ToolServiceStaticMode, request_path: &str) -> (r: Option<Vec<String>>)
    ensures
        match r {
            Some(v) => static_segments(prefix@, mode, request_path@) == Some(string_views(v@)),
            None => static_segments(prefix@, mode, request_path@) is None,
        },
{
    let path = request_path_without_query(request_path);
    let rel = match relative_request_path(prefix, path.as_str()) {
        Some(r) => r,
        None => return None,
    };
    let rv = to_chars(rel.as_str());
    if rv.len() == 0 {
        let mut v: Vec<String> = Vec::new();
        match mode {
            ToolServiceStaticMode::Site => {
                v.push(to_owned_string("index.html"));
            },
            ToolServiceStaticMode::Directory => {},
        }
        assert(string_views(v@) =~= (if mode is Site {
            seq!["index.html"@]
        } else {
            Seq::<Seq<char>>::empty()
        }));
        return Some(v);
    }
    let slash = vec!['/'];
    assert(slash@ =~= seq!['/']);
    let pieces = split_chars(rv.as_slice(), slash.as_slice());
    let ghost ps = views(pieces@);
    assert(ps == split_by(rel@, seq!['/']));
    assert(static_segments(prefix@, mode, request_path@) == segments_of(ps));
    let n = pieces.len();
    let mut out: Vec<String> = Vec::new();
    let mut i: usize = 0;
    assert(ps.take(0) =~= Seq::<Seq<char>>::empty());
    assert(string_views(out@) =~= Seq::<Seq<char>>::empty());
    while i < n
        invariant
            n == pieces@.len(),
            ps == views(pieces@),
            ps.len() == n,
            i <= n,
            static_segments(prefix@, mode, request_path@) == segments_of(ps),
            segments_of(ps.take(i as int)) == Some(string_views(out@)),
        decreases n - i,
    {
        assert(ps.take(i + 1).drop_last() =~= ps.take(i as int));
        assert(ps.take(i + 1).last() == pieces@[i as int]@);
        let piece = &pieces[i];
        if piece.len() > 0 {
            let text = from_chars(piece.as_slice());
            let decoded = match decode_url_path_segment(text.as_str()) {
                Some(d) => d,
                None => {
                    proof {
                        assert(segment_text(piece@) is None);
                        assert(segments_of(ps.take(i + 1)) is None);
                        lemma_segments_none_extends(ps, i as int + 1);
                    }
                    return None;
                },
            };
            let dv = to_chars(decoded.as_str());
            let bad = (dv.len() == 1 && dv[0] == '.') || (dv.len() == 2 && dv[0] == '.' && dv[1] == '.')
                || contains_char(dv.as_slice(), '\\') || contains_char(dv.as_slice(), '/') || contains_char(
                dv.as_slice(),
                '\0',
            );
            proof {
                if dv@.len() == 1 && dv@[0] == '.' {
                    assert(dv@ =~= seq!['.']);
                }
                if dv@.len() == 2 && dv@[0] == '.' && dv@[1] == '.' {
                    assert(dv@ =~= seq!['.', '.']);
                }
            }
            if bad {
                proof {
                    lemma_segments_none_extends(ps, i as int + 1);
                }
                return None;
            }
            let ghost before = string_views(out@);
            out.push(decoded);
            assert(string_views(out@) =~= before.push(dv@));
        }
        i = i + 1;
    }
    assert(ps.take(n as int) =~= ps);
    Some(out)
}

/// Once a prefix gives nothing, every longer one does.
proof fn lemma_segments_none_extends(ps: Seq<Seq<char>>, k: int)
    requires
        0 <= k <= ps.len(),
        segments_of(ps.take(k)) is None,
    ensures
        segments_of(ps) is None,
    decreases ps.len() - k,
{
    if k < ps.len() {
        assert(ps.take(k + 1).drop_last() =~= ps.take(k));
        lemma_segments_none_extends(ps, k + 1);
    } else {
        assert(ps.take(k) =~= ps);
    }
}

/// What to do once the looked-up path is known to exist.
#[derive(Debug, Clone, Copy, PartialEq, Eq)]
pub enum StaticNext {
    /// List the directory (its canonical form must lie under the root).
    Listing,
    /// Serve the file, after appending `index.html` when asked to (its
    /// canonical form must lie under the root).
    File { append_index: bool },
}

/// A directory is listed in directory mode and served by its
/// `index.html` in site mode; anything else is served as a file.
pub fn static_after_metadata(mode: ToolServiceStaticMode, is_dir: bool) -> (r: StaticNext)
    ensures
        is_dir && mode is Directory ==> r == StaticNext::Listing,
        is_dir && mode is Site ==> r == (StaticNext::File { append_index: true }),
        !is_dir ==> r == (StaticNext::File { append_index: false }),
{
    if is_dir {
        match mode {
            ToolServiceStaticMode::Directory => StaticNext::Listing,
            ToolServiceStaticMode::Site => StaticNext::File { append_index: true },
        }
    } else {
        StaticNext::File { append_index: false }
    }
}

/// Whether a path (as its components) lies under the root: the root's
/// components begin it.
pub fn is_within_root(root: &Vec<String>, target: &Vec<String>) -> (r: bool)
    ensures
        r == string_views(root@).is_prefix_of(string_views(target@)),
{
    let n = root.len();
    if n > target.len() {
        return false;
    }
    let mut i: usize = 0;
    while i < n
        invariant
            n == root@.len(),
            n <= target@.len(),
            i <= n,
            forall|k: int| 0 <= k < i ==> root@[k]@ == target@[k]@,
        decreases n - i,
    {
        let a = to_chars(root[i].as_str());
        if !crate::text::eq_str(a.as_slice(), target[i].as_str()) {
            assert(string_views(root@)[i as int] != string_views(target@)[i as int]);
            return false;
        }
        i = i + 1;
    }
    true
}

/// The extension of a file name: after its last `.`, unless that dot
/// starts the name; empty when there is none.
pub open spec fn file_extension(name: Seq<char>) -> Seq<char> {
    match rsplit_once(name, '.') {
        Some((before, after)) => if before.len() == 0 {
            Seq::empty()
        } else {
            after
        },
        None => Seq::empty(),
    }
}

/// A file named `stem.ext`, with a stem that is not empty and an
/// extension without dots, has the extension `ext`, so a readable
/// `style.css` (in any letter case) is served as a stylesheet.
pub proof fn law_file_extension_after_last_dot(stem: Seq<char>, ext: Seq<char>)
    requires
        stem.len() > 0,
        !ext.contains('.'),
    ensures
        file_extension(stem + seq!['.'] + ext) == ext,
        lower_seq(ext) == "css"@ ==> content_type_of(file_extension(stem + seq!['.'] + ext))
            == "text/css; charset=utf-8"@,
{
    let s = stem + seq!['.'] + ext;
    let k = stem.len() as int;
    assert(s[k] == '.');
    assert(s.contains('.'));
    let i = choose|i: int| 0 <= i < s.len() && s[i] == '.' && forall|j: int| i < j < s.len() ==> s[j] != '.';
    assert(0 <= i < s.len() && s[i] == '.' && forall|j: int| i < j < s.len() ==> s[j] != '.');
    if i > k {
        assert(s[i] == ext[i - k - 1]);
        assert(ext.contains(ext[i - k - 1]));
    }
    assert(i == k);
    assert(s.take(k) =~= stem);
    assert(s.skip(k + 1) =~= ext);
    crate::tool_services::law_extension_content_types(ext);
}

/// The answer for a static file: `200` with the content type of its
/// extension when it could be read (`body`), `404` otherwise.
pub fn static_file_response(file_name: &str, body: Option<Vec<u8>>) -> (r: ToolHttpResponse)
    ensures
        match body {
            Some(b) => r.status == 200 && r.content_type@ == content_type_of(file_extension(file_name@))
                && r.body@ == b@,
            None => r.status == 404 && r.content_type@ == "text/plain; charset=utf-8"@ && r.body@ == encode_utf8(
                "文件不存在"@,
            ),
        },
{
    match body {
        None => plain_response(404, "文件不存在"),
        Some(b) => {
            let nv = to_chars(file_name);
            let ext = match rsplit_once_char(nv.as_slice(), '.') {
                Some((before, after)) => if before.len() == 0 {
                    Vec::new()
                } else {
                    after
                },
                None => Vec::new(),
            };
            let es = from_chars(ext.as_slice());
            let ct = content_type_for_extension(es.as_str());
            ToolHttpResponse { status: 200, content_type: to_owned_string(ct), body: b }
        },
    }
}

/// The answer when the path does not exist or lies outside the root.
pub fn static_missing_response() -> (r: ToolHttpResponse)
    ensures
        r.status == 404,
        r.content_type@ == "text/plain; charset=utf-8"@,
        r.body@ == encode_utf8("文件不存在"@),
{
    plain_response(404, "文件不存在")
}

/// The answer for a listed directory: the page when the directory could
/// be read, `404` otherwise.
pub fn directory_listing_response(html: Option<String>) -> (r: ToolHttpResponse)
    ensures
        match html {
            Some(h) => r.status == 200 && r.content_type@ == "text/html; charset=utf-8"@ && r.body@
                == encode_utf8(h@),
            None => r.status == 404 && r.content_type@ == "text/plain; charset=utf-8"@ && r.body@
                == encode_utf8("目录不可访问"@),
        },
{
    match html {
        Some(h) => ToolHttpResponse {
            status: 200,
            content_type: to_owned_string("text/html; charset=utf-8"),
            body: str_bytes(h.as_str()),
        },
        None => plain_response(404, "目录不可访问"),
    }
}

/// The error when the client sent nothing for too long, while its head
/// (`in_body` false) or its body was being read.
pub fn read_timed_out(in_body: bool) -> (r: AppError)
    ensures
        r matches AppError::InvalidInput(m) && m@ == (if in_body {
            "读取 HTTP 请求体超时"@
        } else {
            "读取 HTTP 请求超时"@
        }),
{
    if in_body {
        AppError::InvalidInput(to_owned_string("读取 HTTP 请求体超时"))
    } else {
        AppError::InvalidInput(to_owned_string("读取 HTTP 请求超时"))
    }
}

// ---------------------------------------------------------------------------
// Directory listings
// ---------------------------------------------------------------------------

/// The path of a listed directory below the root, as `/a/b` (`/` for the
/// root itself, or when the directory does not lie under the root).
pub open spec fn listing_relative(root: Seq<Seq<char>>, dir: Seq<Seq<char>>) -> Seq<char> {
    if root.is_prefix_of(dir) && dir.len() > root.len() {
        seq!['/'] + crate::text::join(dir.skip(root.len() as int), seq!['/'])
    } else {
        seq!['/']
    }
}

/// The path of a listed directory below the root, from the components of
/// both.
pub fn listing_relative_path(root: &Vec<String>, dir: &Vec<String>) -> (r: String)
    ensures
        r@ == listing_relative(string_views(root@), string_views(dir@)),
{
    let mut out = to_chars("/");
    proof {
        reveal_strlit("/");
    }
    if is_within_root(root, dir) && dir.len() > root.len() {
        let mut parts: Vec<Vec<char>> = Vec::new();
        let mut i: usize = root.len();
        let ghost rest = string_views(dir@).skip(root@.len() as int);
        while i < dir.len()
            invariant
                root@.len() <= i <= dir@.len(),
                rest == string_views(dir@).skip(root@.len() as int),
                views(parts@) == rest.take(i - root@.len()),
            decreases dir.len() - i,
        {
            let ghost prevp = views(parts@);
            assert(rest[i - root@.len()] == dir@[i as int]@);
            parts.push(to_chars(dir[i].as_str()));
            assert(views(parts@) =~= prevp.push(dir@[i as int]@));
            assert(rest.take(i + 1 - root@.len()) =~= rest.take(i - root@.len()).push(rest[i - root@.len()]));
            i = i + 1;
        }
        assert(rest.take(dir@.len() - root@.len()) =~= rest);
        let slash = vec!['/'];
        assert(slash@ =~= seq!['/']);
        let joined = crate::text::join_with(&parts, slash.as_slice());
        push_chars(&mut out, joined.as_slice());
    }
    from_chars(out.as_slice())
}

/// The lower-case form of a text as `str::to_lowercase` gives it (full
/// Unicode case mapping).
pub uninterp spec fn lowercased(s: Seq<char>) -> Seq<char>;

/// `str::to_lowercase`.
#[verifier::external_body]
fn str_to_lowercase(s: &str) -> (r: String)
    ensures
        r@ == lowercased(s@),
{
    s.to_lowercase()
}

/// An entry of a directory as the file system gave it: its name, whether
/// it is a directory, and its size as shown (empty for what is not a
/// file).
#[derive(Debug, Clone)]
pub struct ListingItem {
    pub name: String,
    pub is_dir: bool,
    pub size_text: String,
}

/// A row of a directory listing.
#[derive(Debug, Clone)]
pub struct DirectoryListingEntry {
    pub href: String,
    pub name: String,
    pub is_dir: bool,
    pub size_text: String,
}

/// A row as text: link, name, directory or not, size.
pub type EntryView = (Seq<char>, Seq<char>, bool, Seq<char>);

/// The view of a row.
pub open spec fn entry_view(e: DirectoryListingEntry) -> EntryView {
    (e.href@, e.name@, e.is_dir, e.size_text@)
}

/// The row an item becomes: its link is the listing's base path, the
/// name percent-encoded, and `/` for a directory.
pub open spec fn entry_of(base: Seq<char>, item: ListingItem) -> EntryView {
    (
        base + percent_encoded(encode_utf8(item.name@)) + (if item.is_dir {
            seq!['/']
        } else {
            Seq::empty()
        }),
        item.name@,
        item.is_dir,
        item.size_text@,
    )
}

/// Rows are listed directories first, then by lower-cased name.
pub open spec fn listed_first(a: EntryView, b: EntryView) -> bool {
    (a.2 && !b.2) || (a.2 == b.2 && name_lt(lowercased(a.1), lowercased(b.1)))
}

/// No row is listed after one it comes before.
pub open spec fn listing_ordered(s: Seq<EntryView>) -> bool {
    forall|i: int, j: int| 0 <= i < j < s.len() ==> !listed_first(#[trigger] s[j], #[trigger] s[i])
}

proof fn lemma_listed_first_transitive(a: EntryView, b: EntryView, c: EntryView)
    requires
        listed_first(a, b),
        listed_first(b, c),
    ensures
        listed_first(a, c),
{
    if a.2 == b.2 && b.2 == c.2 {
        lemma_name_lt_transitive(lowercased(a.1), lowercased(b.1), lowercased(c.1));
    }
}

proof fn lemma_listed_first_asymmetric(a: EntryView, b: EntryView)
    requires
        listed_first(a, b),
    ensures
        !listed_first(b, a),
{
    if a.2 == b.2 {
        lemma_name_lt_asymmetric(lowercased(a.1), lowercased(b.1));
    }
}

/// The rows of a listing: each item linked under the base path, sorted
/// directories first and then by lower-cased name.
pub fn build_listing_entries(base_path: &str, items: Vec<ListingItem>) -> (r: Vec<DirectoryListingEntry>)
    ensures
        exists|s: Seq<EntryView>|
            #[trigger] s.to_multiset() == Seq::new(items@.len(), |i: int| entry_of(base_path@, items@[i])).to_multiset()
                && listing_ordered(s) && s == Seq::new(r@.len(), |i: int| entry_view(r@[i])),
{
    let ghost all = Seq::new(items@.len(), |i: int| entry_of(base_path@, items@[i]));
    let n = items.len();
    let mut out: Vec<(String, DirectoryListingEntry)> = Vec::new();
    let mut taken: usize = 0;
    let mut rest = items;
    let ghost orig = rest@;
    assert(rest@ =~= orig.skip(0));
    assert(Seq::new(out@.len(), |i: int| entry_view(out@[i].1)) =~= Seq::<EntryView>::empty());
    assert(all.take(0) =~= Seq::<EntryView>::empty());
    while taken < n
        invariant
            n == orig.len(),
            all == Seq::new(orig.len(), |i: int| entry_of(base_path@, orig[i])),
            taken <= n,
            rest@ == orig.skip(taken as int),
            out@.len() == taken,
            forall|k: int| 0 <= k < out@.len() ==> (#[trigger] out@[k]).0@ == lowercased(out@[k].1.name@),
            Seq::new(out@.len(), |i: int| entry_view(out@[i].1)).to_multiset() == all.take(taken as int).to_multiset(),
            listing_ordered(Seq::new(out@.len(), |i: int| entry_view(out@[i].1))),
        decreases n - taken,
    {
        let item = rest.remove(0);
        assert(rest@ =~= orig.skip(taken + 1));
        assert(item == orig[taken as int]);
        let encoded = percent_encode_path_segment(item.name.as_str());
        let href = listing_child_href(base_path, encoded.as_str(), item.is_dir);
        let key = str_to_lowercase(item.name.as_str());
        let entry = DirectoryListingEntry { href, name: item.name, is_dir: item.is_dir, size_text: item.size_text };
        let ghost x = entry_view(entry);
        assert(x == all[taken as int]);
        let m = out.len();
        let mut p: usize = 0;
        while p < m && !(entry.is_dir && !out[p].1.is_dir || (entry.is_dir == out[p].1.is_dir && str_lt(
            key.as_str(),
            out[p].0.as_str(),
        )))
            invariant
                m == out@.len(),
                p <= m,
                key@ == lowercased(entry.name@),
                x == entry_view(entry),
                forall|k: int| 0 <= k < out@.len() ==> (#[trigger] out@[k]).0@ == lowercased(out@[k].1.name@),
                forall|j: int| 0 <= j < p ==> !listed_first(x, #[trigger] entry_view(out@[j].1)),
            decreases m - p,
        {
            p = p + 1;
        }
        let ghost prev = Seq::new(out@.len(), |i: int| entry_view(out@[i].1));
        proof {
            if p < m {
                assert(listed_first(x, prev[p as int]));
            }
        }
        out.insert(p, (key, entry));
        let ghost now = Seq::new(out@.len(), |i: int| entry_view(out@[i].1));
        proof {
            assert(now =~= prev.insert(p as int, x));
            assert(all.take(taken + 1) =~= all.take(taken as int).push(x));
            vstd::seq_lib::to_multiset_insert(prev, p as int, x);
            vstd::seq_lib::to_multiset_build(all.take(taken as int), x);
            assert forall|i: int, j: int| 0 <= i < j < now.len() implies !listed_first(#[trigger] now[j], #[trigger] now[i]) by {
                if j < p {
                    assert(now[i] == prev[i] && now[j] == prev[j]);
                } else if j == p {
                    assert(now[i] == prev[i]);
                } else if i == p {
                    assert(now[j] == prev[j - 1]);
                    if listed_first(prev[j - 1], x) {
                        if j - 1 == p {
                            lemma_listed_first_asymmetric(x, prev[p as int]);
                        } else {
                            lemma_listed_first_transitive(prev[j - 1], x, prev[p as int]);
                        }
                    }
                } else if i < p {
                    assert(now[i] == prev[i] && now[j] == prev[j - 1]);
                } else {
                    assert(now[i] == prev[i - 1] && now[j] == prev[j - 1]);
                }
            }
        }
        taken = taken + 1;
    }
    assert(all.take(n as int) =~= all);
    let ghost sorted = Seq::new(out@.len(), |i: int| entry_view(out@[i].1));
    let mut r: Vec<DirectoryListingEntry> = Vec::new();
    let mut k: usize = 0;
    let total = out.len();
    let mut pairs = out;
    while k < total
        invariant
            total == sorted.len(),
            k <= total,
            pairs@.len() == total - k,
            forall|i: int| 0 <= i < pairs@.len() ==> entry_view(#[trigger] pairs@[i].1) == sorted[k + i],
            r@.len() == k,
            forall|i: int| 0 <= i < k ==> entry_view(#[trigger] r@[i]) == sorted[i],
        decreases total - k,
    {
        let (_, e) = pairs.remove(0);
        r.push(e);
        k = k + 1;
    }
    assert(sorted =~= Seq::new(r@.len(), |i: int| entry_view(r@[i])));
    r
}

/// The opening of a listing page, before the title.
pub open spec fn listing_open() -> Seq<char> {
    "<!doctype html><html lang=\"zh-CN\"><head><meta charset=\"utf-8\"><meta name=\"viewport\" content=\"width=device-width,initial-scale=1\"><title>"@
}

/// The page's style, between the title and the heading.
pub open spec fn listing_style() -> Seq<char> {
    "</title><style>:root{color-scheme:light dark;font-family:Inter,Segoe UI,Arial,sans-serif;}body{margin:0;padding:32px;background:#f6f7f9;color:#15171a;}main{max-width:980px;margin:0 auto;}h1{font-size:24px;margin:0 0 8px;}p{margin:0 0 20px;color:#5c6670;}table{width:100%;border-collapse:collapse;background:#fff;border:1px solid #d9dee5;}th,td{padding:12px 14px;border-bottom:1px solid #edf0f4;text-align:left;}th{font-size:13px;color:#5c6670;background:#f9fafb;}a{color:#0969da;text-decoration:none;}a:hover{text-decoration:underline;}.kind{width:96px;}.size{width:120px;text-align:right;}@media (prefers-color-scheme:dark){body{background:#101214;color:#f2f4f8;}p{color:#a6b0bc;}table{background:#161a1f;border-color:#303842;}th,td{border-bottom-color:#242b33;}th{background:#1d232b;color:#a6b0bc;}}</style></head><body><main><h1>"@
}

/// The table's head, after the description.
pub open spec fn listing_table_head() -> Seq<char> {
    "</p><table><thead><tr><th>名称</th><th class=\"kind\">类型</th><th class=\"size\">大小</th></tr></thead><tbody>"@
}

/// The row of an entry.
pub open spec fn listing_row(e: EntryView) -> Seq<char> {
    "<tr><td><a href=\""@ + html_escaped(e.0) + "\""@ + (if e.2 {
        Seq::empty()
    } else {
        " download=\""@ + html_escaped(e.1) + "\""@
    }) + ">"@ + html_escaped(if e.2 {
        e.1 + "/"@
    } else {
        e.1
    }) + "</a></td><td class=\"kind\">"@ + (if e.2 {
        "目录"@
    } else {
        "文件"@
    }) + "</td><td class=\"size\">"@ + e.3 + "</td></tr>"@
}

/// The rows of the entries, in order.
pub open spec fn listing_rows(es: Seq<EntryView>) -> Seq<char>
    decreases es.len(),
{
    if es.len() == 0 {
        Seq::empty()
    } else {
        listing_rows(es.drop_last()) + listing_row(es.last())
    }
}

/// A listing page: the title `目录列表 - <path>`, the service name, the
/// directory below the root and the request path; a `..` row when there is
/// a parent to go to; the rows, or a note that the directory is empty.
pub open spec fn listing_html(
    service_name: Seq<char>,
    request_path: Seq<char>,
    prefix: Seq<char>,
    relative_path: Seq<char>,
    es: Seq<EntryView>,
) -> Seq<char> {
    listing_open() + html_escaped("目录列表 - "@ + request_path) + listing_style() + html_escaped(service_name)
        + "</h1><p>"@ + html_escaped(relative_path) + " · "@ + html_escaped(request_path) + listing_table_head()
        + (match parent_href(request_path, prefix) {
        Some(p) => "<tr><td><a href=\""@ + html_escaped(p)
            + "\">..</a></td><td class=\"kind\">目录</td><td class=\"size\"></td></tr>"@,
        None => Seq::empty(),
    }) + (if es.len() == 0 {
        "<tr><td colspan=\"3\">目录为空</td></tr>"@
    } else {
        listing_rows(es)
    }) + "</tbody></table></main></body></html>"@
}

/// Appends the row of an entry.
fn push_listing_row(html: &mut Vec<char>, e: &DirectoryListingEntry)
    ensures
        final(html)@ == old(html)@ + listing_row(entry_view(*e)),
{
    let ghost start = html@;
    let mut row = to_chars("<tr><td><a href=\"");
    push_str(&mut row, escape_html_attr(e.href.as_str()).as_str());
    push_str(&mut row, "\"");
    if !e.is_dir {
        push_str(&mut row, " download=\"");
        push_str(&mut row, escape_html_attr(e.name.as_str()).as_str());
        push_str(&mut row, "\"");
    }
    let ghost part1 = row@;
    assert(part1 =~= "<tr><td><a href=\""@ + html_escaped(e.href@) + "\""@ + (if e.is_dir {
        Seq::<char>::empty()
    } else {
        " download=\""@ + html_escaped(e.name@) + "\""@
    }));
    push_str(&mut row, ">");
    if e.is_dir {
        let mut d = to_chars(e.name.as_str());
        push_str(&mut d, "/");
        let ds = from_chars(d.as_slice());
        push_str(&mut row, escape_html(ds.as_str()).as_str());
    } else {
        push_str(&mut row, escape_html(e.name.as_str()).as_str());
    }
    push_str(&mut row, "</a></td><td class=\"kind\">");
    if e.is_dir {
        push_str(&mut row, "目录");
    } else {
        push_str(&mut row, "文件");
    }
    push_str(&mut row, "</td><td class=\"size\">");
    push_str(&mut row, e.size_text.as_str());
    push_str(&mut row, "</td></tr>");
    assert(row@ =~= listing_row(entry_view(*e)));
    push_chars(html, row.as_slice());
}

/// Renders a directory listing page.
pub fn render_directory_listing_html(
    service_name: &str,
    request_path: &str,
    prefix: &str,
    relative_path: &str,
    entries: &Vec<DirectoryListingEntry>,
) -> (r: String)
    ensures
        r@ == listing_html(
            service_name@,
            request_path@,
            prefix@,
            relative_path@,
            Seq::new(entries@.len(), |i: int| entry_view(entries@[i])),
        ),
{
    let mut title = to_chars("目录列表 - ");
    push_str(&mut title, request_path);
    let t = from_chars(title.as_slice());
    let mut html = to_chars("<!doctype html><html lang=\"zh-CN\"><head><meta charset=\"utf-8\"><meta name=\"viewport\" content=\"width=device-width,initial-scale=1\"><title>");
    push_str(&mut html, escape_html(t.as_str()).as_str());
    push_str(&mut html, "</title><style>:root{color-scheme:light dark;font-family:Inter,Segoe UI,Arial,sans-serif;}body{margin:0;padding:32px;background:#f6f7f9;color:#15171a;}main{max-width:980px;margin:0 auto;}h1{font-size:24px;margin:0 0 8px;}p{margin:0 0 20px;color:#5c6670;}table{width:100%;border-collapse:collapse;background:#fff;border:1px solid #d9dee5;}th,td{padding:12px 14px;border-bottom:1px solid #edf0f4;text-align:left;}th{font-size:13px;color:#5c6670;background:#f9fafb;}a{color:#0969da;text-decoration:none;}a:hover{text-decoration:underline;}.kind{width:96px;}.size{width:120px;text-align:right;}@media (prefers-color-scheme:dark){body{background:#101214;color:#f2f4f8;}p{color:#a6b0bc;}table{background:#161a1f;border-color:#303842;}th,td{border-bottom-color:#242b33;}th{background:#1d232b;color:#a6b0bc;}}</style></head><body><main><h1>");
    push_str(&mut html, escape_html(service_name).as_str());
    push_str(&mut html, "</h1><p>");
    push_str(&mut html, escape_html(relative_path).as_str());
    push_str(&mut html, " · ");
    push_str(&mut html, escape_html(request_path).as_str());
    push_str(&mut html, "</p><table><thead><tr><th>名称</th><th class=\"kind\">类型</th><th class=\"size\">大小</th></tr></thead><tbody>");
    match parent_listing_href(request_path, prefix) {
        Some(p) => {
            push_str(&mut html, "<tr><td><a href=\"");
            push_str(&mut html, escape_html_attr(p.as_str()).as_str());
            push_str(&mut html, "\">..</a></td><td class=\"kind\">目录</td><td class=\"size\"></td></tr>");
        },
        None => {},
    }
    let ghost es = Seq::new(entries@.len(), |i: int| entry_view(entries@[i]));
    let ghost before_rows = html@;
    if entries.len() == 0 {
        push_str(&mut html, "<tr><td colspan=\"3\">目录为空</td></tr>");
    } else {
        let mut i: usize = 0;
        assert(es.take(0) =~= Seq::<EntryView>::empty());
        while i < entries.len()
            invariant
                es == Seq::new(entries@.len(), |i: int| entry_view(entries@[i])),
                i <= entries@.len(),
                html@ == before_rows + listing_rows(es.take(i as int)),
            decreases entries.len() - i,
        {
            let ghost ev = entry_view(entries@[i as int]);
            push_listing_row(&mut html, &entries[i]);
            proof {
                assert(es.take(i + 1).drop_last() =~= es.take(i as int));
                assert(es.take(i + 1).last() == ev);
                assert(html@ =~= before_rows + listing_rows(es.take(i + 1)));
            }
            i = i + 1;
        }
        assert(es.take(entries@.len() as int) =~= es);
    }
    push_str(&mut html, "</tbody></table></main></body></html>");
    from_chars(html.as_slice())
}

} // verus!
