//! Validation of what users enter before it is stored: services, tool
//! services, SSH profiles, system proxy profiles and settings.
//!
//! The outcome of each check is stated as a `Validity`: valid, invalid with
//! the message the user sees, or (for a reverse proxy) a target URL that
//! does not parse. When several things are wrong the first one in the order
//! below wins.

use crate::error::AppError;
use crate::json::{is_json, is_json_text};
use crate::models::{
    BodyRewriteRuleInput, CreateServiceInput, HeaderRuleInput, ServiceKind, SshAuthType,
    SshProfileInput, SystemProxyProfileInput, ToolServiceContentSource, ToolServiceInput,
    ToolServiceRouteInput,
};
use crate::headers::str_eq;
use crate::text::{
    concat, dec, from_chars, to_chars, to_upper, trim, trim_ws, u64_string, upper_seq,
};
use crate::tool_services::{normalize_method, normalized_method};
use crate::urls::{parse_url_scheme, url_parses, url_scheme};
use vstd::prelude::*;
use vstd::utf8::encode_utf8;

verus! {

/// The outcome of a check.
pub enum Validity {
    Valid,
    Invalid(Seq<char>),
    BadUrl,
}

/// Whether a result stands for a validity: `Ok` for valid, `InvalidInput`
/// with the message, or a `Url` error.
pub open spec fn gives(r: Result<(), AppError>, v: Validity) -> bool {
    match v {
        Validity::Valid => r is Ok,
        Validity::Invalid(m) => r matches Err(AppError::InvalidInput(x)) && x@ == m,
        Validity::BadUrl => r matches Err(AppError::Url(_)),
    }
}

/// Nothing but whitespace.
pub open spec fn blank(s: Seq<char>) -> bool {
    trim(s).len() == 0
}

/// The text of an optional string, empty when absent.
pub open spec fn text_or_empty(o: Option<String>) -> Seq<char> {
    match o {
        Some(s) => s@,
        None => Seq::empty(),
    }
}

/// The first validity that is not `Valid`, or `Valid`.
pub open spec fn first_failure(vs: Seq<Validity>) -> Validity {
    if exists|i: int| first_failing_at(vs, i) {
        vs[choose|i: int| first_failing_at(vs, i)]
    } else {
        Validity::Valid
    }
}

/// `i` is the first index whose validity is not `Valid`.
pub open spec fn first_failing_at(vs: Seq<Validity>, i: int) -> bool {
    &&& 0 <= i < vs.len()
    &&& vs[i] != Validity::Valid
    &&& forall|j: int| 0 <= j < i ==> #[trigger] vs[j] == Validity::Valid
}

proof fn lemma_first_failure_at(vs: Seq<Validity>, i: int)
    requires
        first_failing_at(vs, i),
    ensures
        first_failure(vs) == vs[i],
{
    let c = choose|c: int| first_failing_at(vs, c);
    if c < i {
        assert(vs[c] == Validity::Valid);
    } else if c > i {
        assert(vs[i] == Validity::Valid);
    }
}

proof fn lemma_first_failure_none(vs: Seq<Validity>)
    requires
        forall|j: int| 0 <= j < vs.len() ==> #[trigger] vs[j] == Validity::Valid,
    ensures
        first_failure(vs) == Validity::Valid,
{
    if exists|i: int| first_failing_at(vs, i) {
        let c = choose|c: int| first_failing_at(vs, c);
        assert(vs[c] == Validity::Valid);
    }
}

fn invalid(m: &str) -> (r: Result<(), AppError>)
    ensures
        gives(r, Validity::Invalid(m@)),
{
    Err(AppError::InvalidInput(String::from_str(m)))
}

fn is_blank(s: &str) -> (r: bool)
    ensures
        r == blank(s@),
{
    let v = to_chars(s);
    let t = trim_ws(v.as_slice());
    t.len() == 0
}

fn opt_text(o: &Option<String>) -> (r: &str)
    ensures
        r@ == text_or_empty(*o),
{
    match o {
        Some(s) => s.as_str(),
        None => {
            let e = "";
            proof {
                reveal_strlit("");
            }
            e
        },
    }
}

// ---------------------------------------------------------------------------
// Targets
// ---------------------------------------------------------------------------

/// A forwarding target needs a host and a port.
pub open spec fn target_validity(host: Seq<char>, port: u16) -> Validity {
    if blank(host) {
        Validity::Invalid("目标 host 不能为空"@)
    } else if port == 0 {
        Validity::Invalid("目标端口必须在 1 到 65535 之间"@)
    } else {
        Validity::Valid
    }
}

/// Checks a forwarding target.
pub fn validate_target(host: &str, port: u16) -> (r: Result<(), AppError>)
    ensures
        gives(r, target_validity(host@, port)),
{
    if is_blank(host) {
        return invalid("目标 host 不能为空");
    }
    if port == 0 {
        return invalid("目标端口必须在 1 到 65535 之间");
    }
    Ok(())
}

/// A remote bind address needs a host and a port.
pub open spec fn remote_bind_validity(host: Seq<char>, port: u16) -> Validity {
    if blank(host) {
        Validity::Invalid("远程绑定 host 不能为空"@)
    } else if port == 0 {
        Validity::Invalid("远程绑定端口必须在 1 到 65535 之间"@)
    } else {
        Validity::Valid
    }
}

/// Checks the address an SSH server binds for a remote forward.
pub fn validate_remote_bind(host: &str, port: u16) -> (r: Result<(), AppError>)
    ensures
        gives(r, remote_bind_validity(host@, port)),
{
    if is_blank(host) {
        return invalid("远程绑定 host 不能为空");
    }
    if port == 0 {
        return invalid("远程绑定端口必须在 1 到 65535 之间");
    }
    Ok(())
}

// ---------------------------------------------------------------------------
// Services
// ---------------------------------------------------------------------------

/// The validity on a header rule.
pub open spec fn header_rule_validity(rule: HeaderRuleInput) -> Validity {
    if !(rule.phase@ == "request"@ || rule.phase@ == "response"@) {
        Validity::Invalid("Header phase 必须是 request 或 response"@)
    } else if !(rule.action@ == "set"@ || rule.action@ == "remove"@) {
        Validity::Invalid("Header action 必须是 set 或 remove"@)
    } else if blank(rule.name@) {
        Validity::Invalid("Header 名称不能为空"@)
    } else {
        Validity::Valid
    }
}

/// The validity on a body rewrite rule; its value must be JSON.
pub open spec fn body_rule_validity(rule: BodyRewriteRuleInput) -> Validity {
    if !(rule.body_type@ == "auto"@ || rule.body_type@ == "json"@ || rule.body_type@ == "form"@) {
        Validity::Invalid("Body 类型必须是 auto/json/form"@)
    } else if blank(rule.path@) {
        Validity::Invalid("Body 改写路径不能为空"@)
    } else if !is_json(encode_utf8(rule.value_json@)) {
        Validity::Invalid("Body 改写值不是合法 JSON: "@ + rule.path@)
    } else {
        Validity::Valid
    }
}

/// The validities on the rules of a service, header rules first.
pub open spec fn rule_validities(input: CreateServiceInput) -> Seq<Validity> {
    Seq::new(input.header_rules@.len(), |i: int| header_rule_validity(input.header_rules@[i]))
        + Seq::new(
        input.body_rewrite_rules@.len(),
        |i: int| body_rule_validity(input.body_rewrite_rules@[i]),
    )
}

/// The validity on the settings of a service's kind.
pub open spec fn kind_validity(input: CreateServiceInput) -> Validity {
    match input.kind {
        ServiceKind::HttpReverse => match input.http_reverse {
            None => Validity::Invalid("HTTP 反向代理缺少目标配置"@),
            Some(cfg) => if !url_parses(cfg.target_url@) {
                Validity::BadUrl
            } else if url_scheme(cfg.target_url@) == "http"@ || url_scheme(cfg.target_url@) == "https"@ {
                Validity::Valid
            } else {
                Validity::Invalid("HTTP 反向代理目标 URL 必须是 http 或 https"@)
            },
        },
        ServiceKind::HttpForward => match input.http_forward {
            None => Validity::Invalid("HTTP Forward 缺少配置"@),
            Some(cfg) => if !cfg.allow_http && !cfg.allow_connect {
                Validity::Invalid("HTTP Forward 至少需要允许 HTTP 或 CONNECT"@)
            } else {
                Validity::Valid
            },
        },
        ServiceKind::TcpForward => match input.tcp_forward {
            None => Validity::Invalid("TCP 转发缺少目标配置"@),
            Some(cfg) => target_validity(cfg.target_host@, cfg.target_port),
        },
        ServiceKind::UdpForward => match input.udp_forward {
            None => Validity::Invalid("UDP 转发缺少目标配置"@),
            Some(cfg) => target_validity(cfg.target_host@, cfg.target_port),
        },
        ServiceKind::SshLocal => match input.ssh_tunnel {
            None => Validity::Invalid("SSH 隧道缺少配置"@),
            Some(cfg) => if blank(cfg.ssh_profile_id@) {
                Validity::Invalid("SSH Profile 不能为空"@)
            } else if cfg.tunnel_type@ != "local"@ {
                Validity::Invalid("SSH 本地隧道类型必须是 local"@)
            } else {
                target_validity(text_or_empty(cfg.target_host), match cfg.target_port {
                    Some(p) => p,
                    None => 0,
                })
            },
        },
        ServiceKind::SshSocks => match input.ssh_tunnel {
            None => Validity::Invalid("SSH SOCKS 缺少配置"@),
            Some(cfg) => if blank(cfg.ssh_profile_id@) {
                Validity::Invalid("SSH Profile 不能为空"@)
            } else if cfg.tunnel_type@ != "socks"@ {
                Validity::Invalid("SSH SOCKS 隧道类型必须是 socks"@)
            } else {
                Validity::Valid
            },
        },
        ServiceKind::SshRemote => match input.ssh_tunnel {
            None => Validity::Invalid("SSH remote 缺少配置"@),
            Some(cfg) => if blank(cfg.ssh_profile_id@) {
                Validity::Invalid("SSH Profile 不能为空"@)
            } else if cfg.tunnel_type@ != "remote"@ {
                Validity::Invalid("SSH remote 隧道类型必须是 remote"@)
            } else {
                let t = target_validity(text_or_empty(cfg.target_host), match cfg.target_port {
                    Some(p) => p,
                    None => 0,
                });
                if t != Validity::Valid {
                    t
                } else {
                    remote_bind_validity(text_or_empty(cfg.remote_bind_host), match cfg.remote_bind_port {
                        Some(p) => p,
                        None => 0,
                    })
                }
            },
        },
    }
}

/// The validity on a service: name, listen address, the settings of its
/// kind, then each header rule and each body rule in order.
pub open spec fn service_validity(input: CreateServiceInput) -> Validity {
    if blank(input.name@) {
        Validity::Invalid("服务名称不能为空"@)
    } else if blank(input.listen_host@) {
        Validity::Invalid("监听 host 不能为空"@)
    } else if input.listen_port == 0 {
        Validity::Invalid("监听端口必须在 1 到 65535 之间"@)
    } else if kind_validity(input) != Validity::Valid {
        kind_validity(input)
    } else {
        first_failure(rule_validities(input))
    }
}

fn check_ssh_tunnel_common(profile_id: &str, tunnel_type: &str, expected: &str, type_message: &str) -> (r: Result<(), AppError>)
    ensures
        gives(r, if blank(profile_id@) {
            Validity::Invalid("SSH Profile 不能为空"@)
        } else if tunnel_type@ != expected@ {
            Validity::Invalid(type_message@)
        } else {
            Validity::Valid
        }),
{
    if is_blank(profile_id) {
        return invalid("SSH Profile 不能为空");
    }
    if !str_eq(tunnel_type, expected) {
        return invalid(type_message);
    }
    Ok(())
}

fn validate_kind(input: &CreateServiceInput) -> (r: Result<(), AppError>)
    ensures
        gives(r, kind_validity(*input)),
{
    match input.kind {
        ServiceKind::HttpReverse => match &input.http_reverse {
            None => invalid("HTTP 反向代理缺少目标配置"),
            Some(cfg) => match parse_url_scheme(cfg.target_url.as_str()) {
                Err(m) => Err(AppError::Url(m)),
                Ok(scheme) => {
                    if str_eq(scheme.as_str(), "http") || str_eq(scheme.as_str(), "https") {
                        Ok(())
                    } else {
                        invalid("HTTP 反向代理目标 URL 必须是 http 或 https")
                    }
                },
            },
        },
        ServiceKind::HttpForward => match &input.http_forward {
            None => invalid("HTTP Forward 缺少配置"),
            Some(cfg) => if !cfg.allow_http && !cfg.allow_connect {
                invalid("HTTP Forward 至少需要允许 HTTP 或 CONNECT")
            } else {
                Ok(())
            },
        },
        ServiceKind::TcpForward => match &input.tcp_forward {
            None => invalid("TCP 转发缺少目标配置"),
            Some(cfg) => validate_target(cfg.target_host.as_str(), cfg.target_port),
        },
        ServiceKind::UdpForward => match &input.udp_forward {
            None => invalid("UDP 转发缺少目标配置"),
            Some(cfg) => validate_target(cfg.target_host.as_str(), cfg.target_port),
        },
        ServiceKind::SshLocal => match &input.ssh_tunnel {
            None => invalid("SSH 隧道缺少配置"),
            Some(cfg) => {
                let common = check_ssh_tunnel_common(
                    cfg.ssh_profile_id.as_str(),
                    cfg.tunnel_type.as_str(),
                    "local",
                    "SSH 本地隧道类型必须是 local",
                );
                if common.is_err() {
                    return common;
                }
                let port: u16 = match cfg.target_port {
                    Some(p) => p,
                    None => 0,
                };
                validate_target(opt_text(&cfg.target_host), port)
            },
        },
        ServiceKind::SshSocks => match &input.ssh_tunnel {
            None => invalid("SSH SOCKS 缺少配置"),
            Some(cfg) => check_ssh_tunnel_common(
                cfg.ssh_profile_id.as_str(),
                cfg.tunnel_type.as_str(),
                "socks",
                "SSH SOCKS 隧道类型必须是 socks",
            ),
        },
        ServiceKind::SshRemote => match &input.ssh_tunnel {
            None => invalid("SSH remote 缺少配置"),
            Some(cfg) => {
                let common = check_ssh_tunnel_common(
                    cfg.ssh_profile_id.as_str(),
                    cfg.tunnel_type.as_str(),
                    "remote",
                    "SSH remote 隧道类型必须是 remote",
                );
                if common.is_err() {
                    return common;
                }
                let port: u16 = match cfg.target_port {
                    Some(p) => p,
                    None => 0,
                };
                let t = validate_target(opt_text(&cfg.target_host), port);
                if t.is_err() {
                    return t;
                }
                let bind_port: u16 = match cfg.remote_bind_port {
                    Some(p) => p,
                    None => 0,
                };
                validate_remote_bind(opt_text(&cfg.remote_bind_host), bind_port)
            },
        },
    }
}

fn validate_header_rule(rule: &HeaderRuleInput) -> (r: Result<(), AppError>)
    ensures
        gives(r, header_rule_validity(*rule)),
{
    if !(str_eq(rule.phase.as_str(), "request") || str_eq(rule.phase.as_str(), "response")) {
        return invalid("Header phase 必须是 request 或 response");
    }
    if !(str_eq(rule.action.as_str(), "set") || str_eq(rule.action.as_str(), "remove")) {
        return invalid("Header action 必须是 set 或 remove");
    }
    if is_blank(rule.name.as_str()) {
        return invalid("Header 名称不能为空");
    }
    Ok(())
}

fn validate_body_rule(rule: &BodyRewriteRuleInput) -> (r: Result<(), AppError>)
    ensures
        gives(r, body_rule_validity(*rule)),
{
    let bt = rule.body_type.as_str();
    if !(str_eq(bt, "auto") || str_eq(bt, "json") || str_eq(bt, "form")) {
        return invalid("Body 类型必须是 auto/json/form");
    }
    if is_blank(rule.path.as_str()) {
        return invalid("Body 改写路径不能为空");
    }
    if !is_json_text(rule.value_json.as_str()) {
        let lead = to_chars("Body 改写值不是合法 JSON: ");
        let p = to_chars(rule.path.as_str());
        let m = concat(lead.as_slice(), p.as_slice());
        return Err(AppError::InvalidInput(from_chars(m.as_slice())));
    }
    Ok(())
}

/// Checks a service before it is created or updated. `current_id`, the
/// service being updated, plays no part in the checks.
pub fn validate_service_input(input: &CreateServiceInput, current_id: Option<&str>) -> (r: Result<(), AppError>)
    ensures
        gives(r, service_validity(*input)),
{
    if is_blank(input.name.as_str()) {
        return invalid("服务名称不能为空");
    }
    if is_blank(input.listen_host.as_str()) {
        return invalid("监听 host 不能为空");
    }
    if input.listen_port == 0 {
        return invalid("监听端口必须在 1 到 65535 之间");
    }
    let k = validate_kind(input);
    if k.is_err() {
        return k;
    }
    let ghost vs = rule_validities(*input);
    let nh = input.header_rules.len();
    let nb = input.body_rewrite_rules.len();
    assert(vs.len() == nh + nb);
    assert(service_validity(*input) == first_failure(vs));
    let mut i: usize = 0;
    while i < nh
        invariant
            nh == input.header_rules@.len(),
            nb == input.body_rewrite_rules@.len(),
            vs == rule_validities(*input),
            service_validity(*input) == first_failure(vs),
            i <= nh,
            forall|j: int| 0 <= j < i ==> #[trigger] vs[j] == Validity::Valid,
        decreases nh - i,
    {
        let r = validate_header_rule(&input.header_rules[i]);
        assert(vs[i as int] == header_rule_validity(input.header_rules@[i as int]));
        if r.is_err() {
            proof {
                lemma_first_failure_at(vs, i as int);
            }
            return r;
        }
        i = i + 1;
    }
    let mut k: usize = 0;
    while k < nb
        invariant
            nh == input.header_rules@.len(),
            nb == input.body_rewrite_rules@.len(),
            vs == rule_validities(*input),
            service_validity(*input) == first_failure(vs),
            vs.len() == nh + nb,
            k <= nb,
            forall|j: int| 0 <= j < nh + k ==> #[trigger] vs[j] == Validity::Valid,
        decreases nb - k,
    {
        let r = validate_body_rule(&input.body_rewrite_rules[k]);
        assert(vs[nh + k] == body_rule_validity(input.body_rewrite_rules@[k as int]));
        if r.is_err() {
            proof {
                lemma_first_failure_at(vs, nh + k);
            }
            return r;
        }
        k = k + 1;
    }
    proof {
        lemma_first_failure_none(vs);
    }
    Ok(())
}

// ---------------------------------------------------------------------------
// Tool services
// ---------------------------------------------------------------------------

/// The label of the route at an index: `接口 #` and its position from one.
pub open spec fn route_label(index: nat) -> Seq<char> {
    "接口 #"@ + dec(index + 1)
}

/// The validity on a route of a tool service.
pub open spec fn route_validity(index: nat, route: ToolServiceRouteInput) -> Validity {
    if normalized_method(route.method@) is None {
        Validity::Invalid(route_label(index) + " 的请求方法无效"@)
    } else if blank(route.path@) {
        Validity::Invalid(route_label(index) + " 的请求路径不能为空"@)
    } else if !(100 <= route.response_status <= 599) {
        Validity::Invalid(route_label(index) + " 的响应状态码必须是 100-599"@)
    } else if route.content_source == ToolServiceContentSource::File && blank(text_or_empty(route.file_path)) {
        Validity::Invalid(route_label(index) + " 需要选择响应文件"@)
    } else {
        Validity::Valid
    }
}

/// Whether a static directory is given (present and not blank).
pub open spec fn has_static_root(input: ToolServiceInput) -> bool {
    input.static_root_dir matches Some(d) && !blank(d@)
}

/// The validity on a tool service: name, host, port, something to serve,
/// then each route in order.
pub open spec fn tool_service_validity(input: ToolServiceInput) -> Validity {
    if blank(input.name@) {
        Validity::Invalid("服务名称不能为空"@)
    } else if blank(input.host@) {
        Validity::Invalid("监听主机不能为空"@)
    } else if input.port == 0 {
        Validity::Invalid("监听端口必须在 1 到 65535 之间"@)
    } else if !has_static_root(input) && input.routes@.len() == 0 {
        Validity::Invalid("请至少配置静态目录或一个接口"@)
    } else {
        first_failure(Seq::new(input.routes@.len(), |i: int| route_validity(i as nat, input.routes@[i])))
    }
}

fn labelled(index: usize, suffix: &str) -> (r: Result<(), AppError>)
    requires
        index < usize::MAX,
    ensures
        gives(r, Validity::Invalid(route_label(index as nat) + suffix@)),
{
    let lead = to_chars("接口 #");
    let num = u64_string((index + 1) as u64);
    let nv = to_chars(num.as_str());
    let sv = to_chars(suffix);
    let a = concat(lead.as_slice(), nv.as_slice());
    let m = concat(a.as_slice(), sv.as_slice());
    assert(m@ == route_label(index as nat) + suffix@);
    Err(AppError::InvalidInput(from_chars(m.as_slice())))
}

fn validate_route_input(index: usize, route: &ToolServiceRouteInput) -> (r: Result<(), AppError>)
    requires
        index < usize::MAX,
    ensures
        gives(r, route_validity(index as nat, *route)),
{
    if normalize_method(route.method.as_str()).is_none() {
        return labelled(index, " 的请求方法无效");
    }
    if is_blank(route.path.as_str()) {
        return labelled(index, " 的请求路径不能为空");
    }
    if !(100 <= route.response_status && route.response_status <= 599) {
        return labelled(index, " 的响应状态码必须是 100-599");
    }
    let is_file = match route.content_source {
        ToolServiceContentSource::File => true,
        ToolServiceContentSource::Inline => false,
    };
    if is_file && is_blank(opt_text(&route.file_path)) {
        return labelled(index, " 需要选择响应文件");
    }
    Ok(())
}

/// Checks a tool service before it is stored.
pub fn validate_tool_service_input(input: &ToolServiceInput) -> (r: Result<(), AppError>)
    ensures
        gives(r, tool_service_validity(*input)),
{
    if is_blank(input.name.as_str()) {
        return invalid("服务名称不能为空");
    }
    if is_blank(input.host.as_str()) {
        return invalid("监听主机不能为空");
    }
    if input.port == 0 {
        return invalid("监听端口必须在 1 到 65535 之间");
    }
    let has_static = match &input.static_root_dir {
        Some(d) => !is_blank(d.as_str()),
        None => false,
    };
    if !has_static && input.routes.len() == 0 {
        return invalid("请至少配置静态目录或一个接口");
    }
    let ghost vs = Seq::new(input.routes@.len(), |i: int| route_validity(i as nat, input.routes@[i]));
    assert(tool_service_validity(*input) == first_failure(vs));
    let n = input.routes.len();
    let mut i: usize = 0;
    while i < n
        invariant
            n == input.routes@.len(),
            vs == Seq::new(input.routes@.len(), |i: int| route_validity(i as nat, input.routes@[i])),
            tool_service_validity(*input) == first_failure(vs),
            i <= n,
            forall|j: int| 0 <= j < i ==> #[trigger] vs[j] == Validity::Valid,
        decreases n - i,
    {
        let r = validate_route_input(i, &input.routes[i]);
        if r.is_err() {
            proof {
                lemma_first_failure_at(vs, i as int);
            }
            return r;
        }
        i = i + 1;
    }
    proof {
        lemma_first_failure_none(vs);
    }
    Ok(())
}

// ---------------------------------------------------------------------------
// SSH profiles, system proxy profiles and settings
// ---------------------------------------------------------------------------

/// The validity on an SSH profile.
pub open spec fn ssh_profile_validity(input: SshProfileInput) -> Validity {
    if blank(input.name@) {
        Validity::Invalid("SSH Profile 名称不能为空"@)
    } else if target_validity(input.host@, input.port) != Validity::Valid {
        target_validity(input.host@, input.port)
    } else if blank(input.username@) {
        Validity::Invalid("SSH 用户名不能为空"@)
    } else if !(input.known_hosts_mode@ == "strict"@ || input.known_hosts_mode@ == "accept_new"@
        || input.known_hosts_mode@ == "insecure_skip"@) {
        Validity::Invalid("known_hosts 模式必须是 strict/accept_new/insecure_skip"@)
    } else if input.auth_type == SshAuthType::PrivateKey && blank(text_or_empty(input.private_key_path)) {
        Validity::Invalid("私钥认证需要填写私钥路径"@)
    } else {
        Validity::Valid
    }
}

/// Checks an SSH profile before it is stored.
pub fn validate_ssh_profile(input: &SshProfileInput) -> (r: Result<(), AppError>)
    ensures
        gives(r, ssh_profile_validity(*input)),
{
    if is_blank(input.name.as_str()) {
        return invalid("SSH Profile 名称不能为空");
    }
    let t = validate_target(input.host.as_str(), input.port);
    if t.is_err() {
        return t;
    }
    if is_blank(input.username.as_str()) {
        return invalid("SSH 用户名不能为空");
    }
    let mode = input.known_hosts_mode.as_str();
    if !(str_eq(mode, "strict") || str_eq(mode, "accept_new") || str_eq(mode, "insecure_skip")) {
        return invalid("known_hosts 模式必须是 strict/accept_new/insecure_skip");
    }
    let is_key = match input.auth_type {
        SshAuthType::PrivateKey => true,
        _ => false,
    };
    if is_key && is_blank(opt_text(&input.private_key_path)) {
        return invalid("私钥认证需要填写私钥路径");
    }
    Ok(())
}

/// The validity on a system proxy profile.
pub open spec fn system_proxy_profile_validity(input: SystemProxyProfileInput) -> Validity {
    if blank(input.name@) {
        Validity::Invalid("系统代理配置档名称不能为空"@)
    } else if blank(input.proxy_host@) {
        Validity::Invalid("系统代理配置档主机不能为空"@)
    } else if input.proxy_port == 0 {
        Validity::Invalid("系统代理配置档端口必须在 1 到 65535 之间"@)
    } else {
        Validity::Valid
    }
}

/// Checks a system proxy profile before it is stored.
pub fn validate_system_proxy_profile_input(input: &SystemProxyProfileInput) -> (r: Result<(), AppError>)
    ensures
        gives(r, system_proxy_profile_validity(*input)),
{
    if is_blank(input.name.as_str()) {
        return invalid("系统代理配置档名称不能为空");
    }
    if is_blank(input.proxy_host.as_str()) {
        return invalid("系统代理配置档主机不能为空");
    }
    if input.proxy_port == 0 {
        return invalid("系统代理配置档端口必须在 1 到 65535 之间");
    }
    Ok(())
}

/// The validity on a setting update: a key that is not blank and a JSON value.
pub open spec fn setting_update_validity(key: Seq<char>, value_json: Seq<char>) -> Validity {
    if blank(key) {
        Validity::Invalid("设置 key 不能为空"@)
    } else if !is_json(encode_utf8(value_json)) {
        Validity::Invalid("设置值必须是合法 JSON"@)
    } else {
        Validity::Valid
    }
}

/// Checks a setting before it is written.
pub fn validate_setting_update(key: &str, value_json: &str) -> (r: Result<(), AppError>)
    ensures
        gives(r, setting_update_validity(key@, value_json@)),
{
    if is_blank(key) {
        return invalid("设置 key 不能为空");
    }
    if !is_json_text(value_json) {
        return invalid("设置值必须是合法 JSON");
    }
    Ok(())
}

} // verus!
