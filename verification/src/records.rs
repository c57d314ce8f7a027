//! What the store writes and reads, apart from the SQL itself: value
//! conversions between the models and SQLite's integers, the rows a
//! service's details are saved as, the labels and log lines shown for
//! services and connections, and the merged, ordered log list.

use crate::error::AppError;
use crate::headers::{lemma_name_lt_transitive, name_lt, str_eq, str_lt};
use crate::json::{depth_within, json_printed, json_text, keys_ascending, sorted_tree, JsonNumber, JsonValue, JsonView};
use crate::models::{
    SystemProxyTarget, BodyRewriteRule, HeaderRule, AppSetting, BodyRewriteRuleInput, LogFilter, CreateServiceInput, HeaderRuleInput, LogRow, RuntimeStatus,
    ServiceDetail, ServiceKind, SshAuthType, SshProfileInput, ToolServiceConfig, ToolServiceSummary,
};
use crate::text::{
    dec, dec_i64, dec_int, dec_u64, from_chars, push_chars, push_str, to_chars, trim, trim_ws,
};
use vstd::prelude::*;

verus! {

// ---------------------------------------------------------------------------
// Integer conversions
// ---------------------------------------------------------------------------

/// A flag as SQLite stores it.
pub fn bool_to_i64(value: bool) -> (r: i64)
    ensures
        r == (if value { 1int } else { 0int }),
{
    if value {
        1
    } else {
        0
    }
}

/// A stored flag: anything but zero is set.
pub fn i64_to_bool(value: i64) -> (r: bool)
    ensures
        r == (value != 0),
{
    value != 0
}

/// A stored port, clamped into the range of ports.
pub fn i64_to_u16(value: i64) -> (r: u16)
    ensures
        r == (if value < 0 { 0int } else if value > 65535 { 65535int } else { value as int }),
{
    if value < 0 {
        0
    } else if value > 65535 {
        65535
    } else {
        value as u16
    }
}

/// A stored count; negative values read as zero.
pub fn i64_to_u64(value: i64) -> (r: u64)
    ensures
        r == (if value < 0 { 0int } else { value as int }),
{
    if value < 0 {
        0
    } else {
        value as u64
    }
}

/// A count as SQLite stores it, saturating at the largest `i64`.
pub fn u64_to_i64(value: u64) -> (r: i64)
    ensures
        r == (if value > i64::MAX { i64::MAX as int } else { value as int }),
{
    if value > i64::MAX as u64 {
        i64::MAX
    } else {
        value as i64
    }
}

// ---------------------------------------------------------------------------
// Paths and text
// ---------------------------------------------------------------------------

/// A stored HTTP path: trimmed, `/` for nothing, one leading slash and no
/// trailing slashes.
pub open spec fn db_http_path(value: Seq<char>) -> Seq<char> {
    crate::tool_services::normalized_path(value)
}

/// Normalises an HTTP path before it is stored.
pub fn normalize_db_http_path(value: &str) -> (r: String)
    ensures
        r@ == db_http_path(value@),
{
    crate::tool_services::normalize_service_path(value)
}

fn trimmed(s: &str) -> (r: String)
    ensures
        r@ == trim(s@),
{
    let v = to_chars(s);
    let t = trim_ws(v.as_slice());
    from_chars(t.as_slice())
}

// ---------------------------------------------------------------------------
// Rows of a service's details
// ---------------------------------------------------------------------------

/// The row that holds the settings of a service's kind.
pub enum DetailRow {
    HttpReverse { target_url: String, preserve_host: i64, request_timeout_ms: i64, max_rewrite_body_bytes: i64, skip_compressed_body: i64 },
    HttpForward { allow_http: i64, allow_connect: i64, connect_timeout_ms: i64, idle_timeout_ms: i64 },
    TcpForward { target_host: String, target_port: i64, connect_timeout_ms: i64, idle_timeout_ms: i64 },
    UdpForward { target_host: String, target_port: i64, idle_timeout_ms: i64 },
    SshTunnel {
        ssh_profile_id: String,
        tunnel_type: String,
        target_host: Option<String>,
        target_port: Option<i64>,
        remote_bind_host: Option<String>,
        remote_bind_port: Option<i64>,
    },
}

/// A header rule as stored: text fields trimmed (the value as entered).
pub struct HeaderRuleRow {
    pub phase: String,
    pub action: String,
    pub name: String,
    pub value: Option<String>,
    pub enabled: i64,
    pub sort_order: i64,
}

/// A body rewrite rule as stored: text fields trimmed.
pub struct BodyRuleRow {
    pub body_type: String,
    pub path: String,
    pub value_json: String,
    pub enabled: i64,
    pub sort_order: i64,
}

/// The stored form of a count.
pub open spec fn stored_count(v: u64) -> int {
    if v > i64::MAX { i64::MAX as int } else { v as int }
}

/// The stored form of a flag.
pub open spec fn stored_flag(b: bool) -> int {
    if b { 1 } else { 0 }
}

/// The view of an optional string.
pub open spec fn opt_view(o: Option<String>) -> Option<Seq<char>> {
    match o {
        Some(s) => Some(s@),
        None => None,
    }
}

/// The message when the settings of a service's kind are missing.
pub open spec fn missing_config_message(kind: ServiceKind) -> Seq<char> {
    match kind {
        ServiceKind::HttpReverse => "HTTP 反向代理缺少目标配置"@,
        ServiceKind::HttpForward => "HTTP Forward 缺少配置"@,
        ServiceKind::TcpForward => "TCP 转发缺少目标配置"@,
        ServiceKind::UdpForward => "UDP 转发缺少目标配置"@,
        _ => "SSH 隧道缺少配置"@,
    }
}

/// Whether the row holds the settings of a service as they are stored.
pub open spec fn detail_row_of(input: CreateServiceInput, row: DetailRow) -> bool {
    match input.kind {
        ServiceKind::HttpReverse => input.http_reverse matches Some(cfg) && row matches DetailRow::HttpReverse {
            target_url, preserve_host, request_timeout_ms, max_rewrite_body_bytes, skip_compressed_body
        } && target_url@ == trim(cfg.target_url@) && preserve_host == stored_flag(cfg.preserve_host)
            && request_timeout_ms == stored_count(cfg.request_timeout_ms) && max_rewrite_body_bytes
            == stored_count(cfg.max_rewrite_body_bytes) && skip_compressed_body == stored_flag(cfg.skip_compressed_body),
        ServiceKind::HttpForward => input.http_forward matches Some(cfg) && row matches DetailRow::HttpForward {
            allow_http, allow_connect, connect_timeout_ms, idle_timeout_ms
        } && allow_http == stored_flag(cfg.allow_http) && allow_connect == stored_flag(cfg.allow_connect)
            && connect_timeout_ms == stored_count(cfg.connect_timeout_ms) && idle_timeout_ms == stored_count(cfg.idle_timeout_ms),
        ServiceKind::TcpForward => input.tcp_forward matches Some(cfg) && row matches DetailRow::TcpForward {
            target_host, target_port, connect_timeout_ms, idle_timeout_ms
        } && target_host@ == trim(cfg.target_host@) && target_port == cfg.target_port as int
            && connect_timeout_ms == stored_count(cfg.connect_timeout_ms) && idle_timeout_ms == stored_count(cfg.idle_timeout_ms),
        ServiceKind::UdpForward => input.udp_forward matches Some(cfg) && row matches DetailRow::UdpForward {
            target_host, target_port, idle_timeout_ms
        } && target_host@ == trim(cfg.target_host@) && target_port == cfg.target_port as int
            && idle_timeout_ms == stored_count(cfg.idle_timeout_ms),
        _ => input.ssh_tunnel matches Some(cfg) && row matches DetailRow::SshTunnel {
            ssh_profile_id, tunnel_type, target_host, target_port, remote_bind_host, remote_bind_port
        } && ssh_profile_id@ == trim(cfg.ssh_profile_id@) && tunnel_type@ == trim(cfg.tunnel_type@)
            && opt_view(target_host) == opt_view(cfg.target_host) && target_port == (match cfg.target_port {
            Some(p) => Some(p as i64),
            None => None,
        }) && opt_view(remote_bind_host) == opt_view(cfg.remote_bind_host) && remote_bind_port == (
        match cfg.remote_bind_port {
            Some(p) => Some(p as i64),
            None => None,
        }),
    }
}

/// Whether the settings of a service's kind are present.
pub open spec fn has_kind_config(input: CreateServiceInput) -> bool {
    match input.kind {
        ServiceKind::HttpReverse => input.http_reverse is Some,
        ServiceKind::HttpForward => input.http_forward is Some,
        ServiceKind::TcpForward => input.tcp_forward is Some,
        ServiceKind::UdpForward => input.udp_forward is Some,
        _ => input.ssh_tunnel is Some,
    }
}

/// The row that stores the settings of a service's kind; refused when they
/// are missing.
pub fn detail_row(input: &CreateServiceInput) -> (r: Result<DetailRow, AppError>)
    ensures
        has_kind_config(*input) <==> r is Ok,
        r matches Ok(row) ==> detail_row_of(*input, row),
        r matches Err(e) ==> e matches AppError::InvalidInput(m) && m@ == missing_config_message(input.kind),
{
    match input.kind {
        ServiceKind::HttpReverse => match &input.http_reverse {
            Some(cfg) => Ok(DetailRow::HttpReverse {
                target_url: trimmed(cfg.target_url.as_str()),
                preserve_host: bool_to_i64(cfg.preserve_host),
                request_timeout_ms: u64_to_i64(cfg.request_timeout_ms),
                max_rewrite_body_bytes: u64_to_i64(cfg.max_rewrite_body_bytes),
                skip_compressed_body: bool_to_i64(cfg.skip_compressed_body),
            }),
            None => Err(AppError::InvalidInput(String::from_str("HTTP 反向代理缺少目标配置"))),
        },
        ServiceKind::HttpForward => match &input.http_forward {
            Some(cfg) => Ok(DetailRow::HttpForward {
                allow_http: bool_to_i64(cfg.allow_http),
                allow_connect: bool_to_i64(cfg.allow_connect),
                connect_timeout_ms: u64_to_i64(cfg.connect_timeout_ms),
                idle_timeout_ms: u64_to_i64(cfg.idle_timeout_ms),
            }),
            None => Err(AppError::InvalidInput(String::from_str("HTTP Forward 缺少配置"))),
        },
        ServiceKind::TcpForward => match &input.tcp_forward {
            Some(cfg) => Ok(DetailRow::TcpForward {
                target_host: trimmed(cfg.target_host.as_str()),
                target_port: cfg.target_port as i64,
                connect_timeout_ms: u64_to_i64(cfg.connect_timeout_ms),
                idle_timeout_ms: u64_to_i64(cfg.idle_timeout_ms),
            }),
            None => Err(AppError::InvalidInput(String::from_str("TCP 转发缺少目标配置"))),
        },
        ServiceKind::UdpForward => match &input.udp_forward {
            Some(cfg) => Ok(DetailRow::UdpForward {
                target_host: trimmed(cfg.target_host.as_str()),
                target_port: cfg.target_port as i64,
                idle_timeout_ms: u64_to_i64(cfg.idle_timeout_ms),
            }),
            None => Err(AppError::InvalidInput(String::from_str("UDP 转发缺少目标配置"))),
        },
        _ => match &input.ssh_tunnel {
            Some(cfg) => Ok(DetailRow::SshTunnel {
                ssh_profile_id: trimmed(cfg.ssh_profile_id.as_str()),
                tunnel_type: trimmed(cfg.tunnel_type.as_str()),
                target_host: match &cfg.target_host {
                    Some(h) => Some(h.clone()),
                    None => None,
                },
                target_port: match cfg.target_port {
                    Some(p) => Some(p as i64),
                    None => None,
                },
                remote_bind_host: match &cfg.remote_bind_host {
                    Some(h) => Some(h.clone()),
                    None => None,
                },
                remote_bind_port: match cfg.remote_bind_port {
                    Some(p) => Some(p as i64),
                    None => None,
                },
            }),
            None => Err(AppError::InvalidInput(String::from_str("SSH 隧道缺少配置"))),
        },
    }
}

/// A header rule as stored.
pub fn header_rule_row(rule: &HeaderRuleInput) -> (r: HeaderRuleRow)
    ensures
        r.phase@ == trim(rule.phase@),
        r.action@ == trim(rule.action@),
        r.name@ == trim(rule.name@),
        opt_view(r.value) == opt_view(rule.value),
        r.enabled == stored_flag(rule.enabled),
        r.sort_order == rule.sort_order,
{
    HeaderRuleRow {
        phase: trimmed(rule.phase.as_str()),
        action: trimmed(rule.action.as_str()),
        name: trimmed(rule.name.as_str()),
        value: match &rule.value {
            Some(v) => Some(v.clone()),
            None => None,
        },
        enabled: bool_to_i64(rule.enabled),
        sort_order: rule.sort_order,
    }
}

/// A body rewrite rule as stored.
pub fn body_rule_row(rule: &BodyRewriteRuleInput) -> (r: BodyRuleRow)
    ensures
        r.body_type@ == trim(rule.body_type@),
        r.path@ == trim(rule.path@),
        r.value_json@ == trim(rule.value_json@),
        r.enabled == stored_flag(rule.enabled),
        r.sort_order == rule.sort_order,
{
    BodyRuleRow {
        body_type: trimmed(rule.body_type.as_str()),
        path: trimmed(rule.path.as_str()),
        value_json: trimmed(rule.value_json.as_str()),
        enabled: bool_to_i64(rule.enabled),
        sort_order: rule.sort_order,
    }
}

// ---------------------------------------------------------------------------
// Labels
// ---------------------------------------------------------------------------

/// A host and a port as `host:port`.
pub open spec fn host_and_port(host: Seq<char>, port: nat) -> Seq<char> {
    host + ":"@ + dec(port)
}

/// The text of an optional string, empty when absent.
pub open spec fn text_or_empty(o: Option<String>) -> Seq<char> {
    match o {
        Some(s) => s@,
        None => Seq::empty(),
    }
}

/// What a service forwards to, as shown in lists.
pub open spec fn target_label_of(detail: ServiceDetail) -> Seq<char> {
    if detail.http_reverse is Some {
        detail.http_reverse->0.target_url@
    } else if detail.http_forward is Some {
        "动态 HTTP/CONNECT"@
    } else if detail.tcp_forward is Some {
        host_and_port(detail.tcp_forward->0.target_host@, detail.tcp_forward->0.target_port as nat)
    } else if detail.udp_forward is Some {
        host_and_port(detail.udp_forward->0.target_host@, detail.udp_forward->0.target_port as nat)
    } else if detail.ssh_tunnel is Some {
        let cfg = detail.ssh_tunnel->0;
        let target = host_and_port(text_or_empty(cfg.target_host), match cfg.target_port {
            Some(p) => p as nat,
            None => 0,
        });
        if cfg.tunnel_type@ == "socks"@ {
            "SOCKS5 动态代理"@
        } else if cfg.tunnel_type@ == "remote"@ {
            "SSH remote "@ + host_and_port(text_or_empty(cfg.remote_bind_host), match cfg.remote_bind_port {
                Some(p) => p as nat,
                None => 0,
            }) + " -> "@ + target
        } else {
            "SSH -> "@ + target
        }
    } else {
        Seq::empty()
    }
}

fn push_host_port(acc: &mut Vec<char>, host: &str, port: u16)
    ensures
        final(acc)@ == old(acc)@ + host_and_port(host@, port as nat),
{
    push_str(acc, host);
    push_str(acc, ":");
    let p = dec_u64(port as u64);
    push_chars(acc, p.as_slice());
}

fn opt_text(o: &Option<String>) -> (r: &str)
    ensures
        r@ == text_or_empty(*o),
{
    match o {
        Some(s) => s.as_str(),
        None => {
            let e = "";
            proof {
                reveal_strlit("");
            }
            e
        },
    }
}

/// Describes what a service forwards to.
pub fn target_label(detail: &ServiceDetail) -> (r: String)
    ensures
        r@ == target_label_of(*detail),
{
    if let Some(cfg) = &detail.http_reverse {
        return cfg.target_url.clone();
    }
    if detail.http_forward.is_some() {
        return String::from_str("动态 HTTP/CONNECT");
    }
    let mut acc: Vec<char> = Vec::new();
    if let Some(cfg) = &detail.tcp_forward {
        push_host_port(&mut acc, cfg.target_host.as_str(), cfg.target_port);
        return from_chars(acc.as_slice());
    }
    if let Some(cfg) = &detail.udp_forward {
        push_host_port(&mut acc, cfg.target_host.as_str(), cfg.target_port);
        return from_chars(acc.as_slice());
    }
    if let Some(cfg) = &detail.ssh_tunnel {
        let port: u16 = match cfg.target_port {
            Some(p) => p,
            None => 0,
        };
        if str_eq(cfg.tunnel_type.as_str(), "socks") {
            return String::from_str("SOCKS5 动态代理");
        }
        if str_eq(cfg.tunnel_type.as_str(), "remote") {
            let bind_port: u16 = match cfg.remote_bind_port {
                Some(p) => p,
                None => 0,
            };
            push_str(&mut acc, "SSH remote ");
            push_host_port(&mut acc, opt_text(&cfg.remote_bind_host), bind_port);
            push_str(&mut acc, " -> ");
            push_host_port(&mut acc, opt_text(&cfg.target_host), port);
            return from_chars(acc.as_slice());
        }
        push_str(&mut acc, "SSH -> ");
        push_host_port(&mut acc, opt_text(&cfg.target_host), port);
        return from_chars(acc.as_slice());
    }
    let r = String::new();
    assert(r@ =~= Seq::<char>::empty());
    r
}

/// The address a tool service is reached at: `http://host:port` and its
/// first access path.
pub open spec fn tool_service_url(config: ToolServiceConfig) -> Seq<char> {
    "http://"@ + host_and_port(config.host@, config.port as nat) + (if config.static_root_dir is Some {
        config.static_path_prefix@
    } else if config.routes@.len() > 0 {
        config.routes@[0].path@
    } else {
        "/"@
    })
}

/// The summary of a stored tool service that is not running.
pub fn tool_service_summary_from_config(config: ToolServiceConfig) -> (r: ToolServiceSummary)
    ensures
        r.id == config.id,
        r.name == config.name,
        r.host == config.host,
        r.port == config.port,
        r.url@ == tool_service_url(config),
        r.static_root_dir == config.static_root_dir,
        r.static_mode == config.static_mode,
        r.static_path_prefix == config.static_path_prefix,
        r.route_count == config.routes@.len(),
        r.started_at is None,
        r.total_requests == 0,
        r.runtime_status == RuntimeStatus::Stopped,
{
    let mut acc: Vec<char> = Vec::new();
    push_str(&mut acc, "http://");
    push_host_port(&mut acc, config.host.as_str(), config.port);
    push_str(&mut acc, config.first_access_path());
    let url = from_chars(acc.as_slice());
    let route_count = config.routes.len();
    ToolServiceSummary {
        id: config.id,
        name: config.name,
        host: config.host,
        port: config.port,
        url,
        static_root_dir: config.static_root_dir,
        static_mode: config.static_mode,
        static_path_prefix: config.static_path_prefix,
        route_count,
        started_at: None,
        total_requests: 0,
        runtime_status: RuntimeStatus::Stopped,
    }
}

// ---------------------------------------------------------------------------
// Settings
// ---------------------------------------------------------------------------

/// What `serde_json::from_str::<u32>` reads from a text.
pub uninterp spec fn json_u32(text: Seq<char>) -> Option<u32>;

/// `serde_json::from_str::<u32>(text).ok()`.
#[verifier::external_body]
fn parse_json_u32(text: &str) -> (r: Option<u32>)
    ensures
        r == json_u32(text@),
{
    serde_json::from_str::<u32>(text).ok()
}

/// `i` is the first setting with the key.
pub open spec fn first_setting_at(settings: Seq<AppSetting>, key: Seq<char>, i: int) -> bool {
    &&& 0 <= i < settings.len()
    &&& settings[i].key@ == key
    &&& forall|j: int| 0 <= j < i ==> (#[trigger] settings[j]).key@ != key
}

/// A number in `[lo, hi]`: `x` moved to the nearest end when outside.
pub open spec fn clamp(x: int, lo: int, hi: int) -> int {
    if x < lo { lo } else if x > hi { hi } else { x }
}

/// The value of a numeric setting: the first setting with the key read as
/// a `u32`, the default when absent or unreadable, clamped into range.
pub open spec fn setting_value(settings: Seq<AppSetting>, key: Seq<char>, default_value: u32, min_value: u32, max_value: u32) -> int {
    let raw: u32 = if exists|i: int| first_setting_at(settings, key, i) {
        match json_u32(settings[choose|i: int| first_setting_at(settings, key, i)].value_json@) {
            Some(v) => v,
            None => default_value,
        }
    } else {
        default_value
    };
    clamp(raw as int, min_value as int, max_value as int)
}

fn find_setting(settings: &[AppSetting], key: &str) -> (r: Option<usize>)
    ensures
        match r {
            Some(i) => first_setting_at(settings@, key@, i as int),
            None => !exists|i: int| first_setting_at(settings@, key@, i),
        },
{
    let n = settings.len();
    let mut i: usize = 0;
    while i < n
        invariant
            n == settings@.len(),
            i <= n,
            forall|j: int| 0 <= j < i ==> (#[trigger] settings@[j]).key@ != key@,
        decreases n - i,
    {
        if str_eq(settings[i].key.as_str(), key) {
            return Some(i);
        }
        i = i + 1;
    }
    proof {
        if exists|c: int| first_setting_at(settings@, key@, c) {
            let c = choose|c: int| first_setting_at(settings@, key@, c);
            assert(settings@[c].key@ != key@);
        }
    }
    None
}

/// Reads a numeric setting.
pub fn setting_u32(settings: &[AppSetting], key: &str, default_value: u32, min_value: u32, max_value: u32) -> (r: u32)
    requires
        min_value <= max_value,
    ensures
        r == setting_value(settings@, key@, default_value, min_value, max_value),
{
    let raw: u32 = match find_setting(settings, key) {
        Some(i) => {
            proof {
                let c = choose|c: int| first_setting_at(settings@, key@, c);
                if c < i {
                    assert(settings@[c].key@ != key@);
                } else if c > i {
                    assert(settings@[i as int].key@ != key@);
                }
            }
            match parse_json_u32(settings[i].value_json.as_str()) {
                Some(v) => v,
                None => default_value,
            }
        },
        None => default_value,
    };
    if raw < min_value {
        min_value
    } else if raw > max_value {
        max_value
    } else {
        raw
    }
}

// ---------------------------------------------------------------------------
// Logs
// ---------------------------------------------------------------------------

/// The row limit of a log query: 300 by default, kept within 1 to 2000.
pub open spec fn log_limit_spec(limit: Option<u32>) -> int {
    clamp(match limit {
        Some(l) => l as int,
        None => 300,
    }, 1, 2000)
}

/// The number of log rows a query returns.
pub fn log_limit(limit: Option<u32>) -> (r: u32)
    ensures
        r == log_limit_spec(limit),
{
    let l: u32 = match limit {
        Some(l) => l,
        None => 300,
    };
    if l < 1 {
        1
    } else if l > 2000 {
        2000
    } else {
        l
    }
}

/// The `LIKE` pattern of a keyword: `%keyword%`.
pub fn keyword_pattern(keyword: &str) -> (r: String)
    ensures
        r@ == "%"@ + keyword@ + "%"@,
{
    let mut acc: Vec<char> = Vec::new();
    push_str(&mut acc, "%");
    push_str(&mut acc, keyword);
    push_str(&mut acc, "%");
    from_chars(acc.as_slice())
}

/// The text of an optional filter field, empty when absent.
pub open spec fn field_or_empty(o: Option<String>) -> Seq<char> {
    match o {
        Some(s) => s@,
        None => Seq::empty(),
    }
}

/// The parameters the log list is queried with: each filter field (empty
/// when absent), the keyword pattern, the row limit, and whether service
/// events are read at all (only without a protocol filter: they have no
/// protocol).
pub struct LogQuery {
    pub service_id: String,
    pub level: String,
    pub protocol: String,
    pub keyword: String,
    pub like: String,
    pub created_after: String,
    pub created_before: String,
    pub limit: u32,
    pub include_service_events: bool,
}

fn text_or_empty_of(o: &Option<String>) -> (r: String)
    ensures
        r@ == field_or_empty(*o),
{
    match o {
        Some(s) => s.clone(),
        None => String::new(),
    }
}

/// The query parameters of a log filter.
pub fn log_query(filter: &LogFilter) -> (r: LogQuery)
    ensures
        r.service_id@ == field_or_empty(filter.service_id),
        r.level@ == field_or_empty(filter.level),
        r.protocol@ == field_or_empty(filter.protocol),
        r.keyword@ == field_or_empty(filter.keyword),
        r.like@ == "%"@ + field_or_empty(filter.keyword) + "%"@,
        r.created_after@ == field_or_empty(filter.created_after),
        r.created_before@ == field_or_empty(filter.created_before),
        r.limit == log_limit_spec(filter.limit),
        r.include_service_events == (field_or_empty(filter.protocol).len() == 0),
{
    let protocol = text_or_empty_of(&filter.protocol);
    let keyword = text_or_empty_of(&filter.keyword);
    let like = keyword_pattern(keyword.as_str());
    let with_service_events = to_chars(protocol.as_str()).len() == 0;
    LogQuery {
        service_id: text_or_empty_of(&filter.service_id),
        level: text_or_empty_of(&filter.level),
        protocol,
        keyword,
        like,
        created_after: text_or_empty_of(&filter.created_after),
        created_before: text_or_empty_of(&filter.created_before),
        limit: log_limit(filter.limit),
        include_service_events: with_service_events,
    }
}

/// The SQLite date modifier that keeps the last `days` days: `-N days`.
pub fn retention_modifier(days: u32) -> (r: String)
    ensures
        r@ == "-"@ + dec(days as nat) + " days"@,
{
    let mut acc: Vec<char> = Vec::new();
    push_str(&mut acc, "-");
    let d = dec_u64(days as u64);
    push_chars(&mut acc, d.as_slice());
    push_str(&mut acc, " days");
    from_chars(acc.as_slice())
}

/// `i64::saturating_mul(id, 2)`.
pub open spec fn doubled(id: i64) -> int {
    clamp(2 * id, i64::MIN as int, i64::MAX as int)
}

/// The id of a service event in the merged list: twice its row id, so that
/// it is even.
pub fn service_log_id(id: i64) -> (r: i64)
    ensures
        r == doubled(id),
{
    if id > i64::MAX / 2 {
        i64::MAX
    } else if id < i64::MIN / 2 {
        i64::MIN
    } else {
        id * 2
    }
}

/// The id of a connection event in the merged list: twice its row id plus
/// one, so that it is odd (both saturating).
pub fn connection_log_id(id: i64) -> (r: i64)
    ensures
        r == clamp(doubled(id) + 1, i64::MIN as int, i64::MAX as int),
{
    let d = service_log_id(id);
    if d == i64::MAX {
        i64::MAX
    } else {
        d + 1
    }
}

/// A connection event as read from the store.
pub struct ConnectionEventRow {
    pub id: i64,
    pub service_id: Option<String>,
    pub protocol: String,
    pub remote_addr: String,
    pub target_addr: String,
    pub event_type: String,
    pub method: String,
    pub host: String,
    pub path: String,
    pub status_code: Option<i64>,
    pub bytes_in: i64,
    pub bytes_out: i64,
    pub duration_ms: i64,
    pub error: String,
    pub created_at: String,
}

/// Where a connection went, as a log line shows it: host and path, else
/// the target address, else `-`.
pub open spec fn log_target(host: Seq<char>, path: Seq<char>, target_addr: Seq<char>) -> Seq<char> {
    if host.len() > 0 {
        host + path
    } else if target_addr.len() > 0 {
        target_addr
    } else {
        "-"@
    }
}

/// The log line of a connection event.
pub open spec fn connection_message(row: ConnectionEventRow) -> Seq<char> {
    let action = if row.method@.len() == 0 { row.event_type@ } else { row.method@ };
    let head = row.protocol@ + " "@ + action + " "@ + log_target(row.host@, row.path@, row.target_addr@);
    if row.error@.len() == 0 {
        let status = match row.status_code {
            Some(v) => dec_int(v as int),
            None => "-"@,
        };
        head + " -> "@ + status + " ("@ + dec_int(row.bytes_in as int) + "B in, "@ + dec_int(row.bytes_out as int)
            + "B out, "@ + dec_int(row.duration_ms as int) + "ms)"@
    } else {
        head + " failed: "@ + row.error@
    }
}

fn is_empty(s: &str) -> (r: bool)
    ensures
        r == (s@.len() == 0),
{
    s.unicode_len() == 0
}

/// Writes the log line of a connection event.
pub fn connection_log_message(row: &ConnectionEventRow) -> (r: String)
    ensures
        r@ == connection_message(*row),
{
    let mut acc: Vec<char> = Vec::new();
    push_str(&mut acc, row.protocol.as_str());
    push_str(&mut acc, " ");
    if is_empty(row.method.as_str()) {
        push_str(&mut acc, row.event_type.as_str());
    } else {
        push_str(&mut acc, row.method.as_str());
    }
    push_str(&mut acc, " ");
    if !is_empty(row.host.as_str()) {
        push_str(&mut acc, row.host.as_str());
        push_str(&mut acc, row.path.as_str());
    } else if !is_empty(row.target_addr.as_str()) {
        push_str(&mut acc, row.target_addr.as_str());
    } else {
        push_str(&mut acc, "-");
    }
    if is_empty(row.error.as_str()) {
        push_str(&mut acc, " -> ");
        match row.status_code {
            Some(v) => {
                let d = dec_i64(v);
                push_chars(&mut acc, d.as_slice());
            },
            None => push_str(&mut acc, "-"),
        }
        push_str(&mut acc, " (");
        let a = dec_i64(row.bytes_in);
        push_chars(&mut acc, a.as_slice());
        push_str(&mut acc, "B in, ");
        let b = dec_i64(row.bytes_out);
        push_chars(&mut acc, b.as_slice());
        push_str(&mut acc, "B out, ");
        let c = dec_i64(row.duration_ms);
        push_chars(&mut acc, c.as_slice());
        push_str(&mut acc, "ms)");
    } else {
        push_str(&mut acc, " failed: ");
        push_str(&mut acc, row.error.as_str());
    }
    from_chars(acc.as_slice())
}

fn jstr(s: &str) -> (r: JsonValue)
    ensures
        r.tree() == JsonView::Str(s@),
{
    JsonValue::Str(String::from_str(s))
}

fn jnum(n: i64) -> (r: JsonValue)
    ensures
        r.tree() == JsonView::Number(dec_int(n as int)),
{
    JsonValue::Number(JsonNumber::from_i64(n))
}

/// The metadata of a connection event as a document: its fields by name,
/// in name order, numbers in decimal and a missing status as `null`.
pub open spec fn connection_meta_doc(row: ConnectionEventRow) -> JsonView {
    JsonView::Object(
        seq![
            ("bytesIn"@, JsonView::Number(dec_int(row.bytes_in as int))),
            ("bytesOut"@, JsonView::Number(dec_int(row.bytes_out as int))),
            ("durationMs"@, JsonView::Number(dec_int(row.duration_ms as int))),
            ("error"@, JsonView::Str(row.error@)),
            ("eventType"@, JsonView::Str(row.event_type@)),
            ("host"@, JsonView::Str(row.host@)),
            ("method"@, JsonView::Str(row.method@)),
            ("path"@, JsonView::Str(row.path@)),
            ("protocol"@, JsonView::Str(row.protocol@)),
            ("remoteAddr"@, JsonView::Str(row.remote_addr@)),
            ("source"@, JsonView::Str("connection_events"@)),
            ("statusCode"@, match row.status_code {
                Some(v) => JsonView::Number(dec_int(v as int)),
                None => JsonView::Null,
            }),
            ("targetAddr"@, JsonView::Str(row.target_addr@)),
        ],
    )
}

/// The metadata of a connection event as a JSON document.
pub fn connection_meta(row: &ConnectionEventRow) -> (t: JsonValue)
    ensures
        t.tree() == connection_meta_doc(*row),
{
    let mut e: Vec<(String, JsonValue)> = Vec::new();
    e.push((String::from_str("bytesIn"), jnum(row.bytes_in)));
    e.push((String::from_str("bytesOut"), jnum(row.bytes_out)));
    e.push((String::from_str("durationMs"), jnum(row.duration_ms)));
    e.push((String::from_str("error"), jstr(row.error.as_str())));
    e.push((String::from_str("eventType"), jstr(row.event_type.as_str())));
    e.push((String::from_str("host"), jstr(row.host.as_str())));
    e.push((String::from_str("method"), jstr(row.method.as_str())));
    e.push((String::from_str("path"), jstr(row.path.as_str())));
    e.push((String::from_str("protocol"), jstr(row.protocol.as_str())));
    e.push((String::from_str("remoteAddr"), jstr(row.remote_addr.as_str())));
    e.push((String::from_str("source"), jstr("connection_events")));
    let status = match row.status_code {
        Some(v) => jnum(v),
        None => JsonValue::Null,
    };
    e.push((String::from_str("statusCode"), status));
    e.push((String::from_str("targetAddr"), jstr(row.target_addr.as_str())));
    proof {
        crate::json::lemma_entry_trees(e@);
        if let JsonView::Object(d) = connection_meta_doc(*row) {
            assert(crate::json::entry_trees(e@) =~= d);
        }
    }
    JsonValue::Object(e)
}

/// The metadata names are in ascending order, and the document is one
/// object of plain values, well within any nesting limit.
proof fn lemma_meta_doc(row: ConnectionEventRow, fuel: nat)
    requires
        fuel >= 2,
    ensures
        depth_within(connection_meta_doc(row), fuel),
        sorted_tree(connection_meta_doc(row)),
{
    let t = connection_meta_doc(row);
    if let JsonView::Object(e) = t {
        assert forall|i: int| 0 <= i < e.len() implies depth_within(#[trigger] e[i].1, (fuel - 1) as nat) by {
            assert(!(e[i].1 is Array) && !(e[i].1 is Object));
        }
        reveal_strlit("bytesIn");
        reveal_strlit("bytesOut");
        reveal_strlit("durationMs");
        reveal_strlit("error");
        reveal_strlit("eventType");
        reveal_strlit("host");
        reveal_strlit("method");
        reveal_strlit("path");
        reveal_strlit("protocol");
        reveal_strlit("remoteAddr");
        reveal_strlit("source");
        reveal_strlit("statusCode");
        reveal_strlit("targetAddr");
        assert forall|i: int| 0 <= i < e.len() - 1 implies name_lt(#[trigger] e[i].0, e[i + 1].0) by {
            reveal_with_fuel(name_lt, 7);
        }
        lemma_adjacent_ascending(e);
        assert forall|i: int| 0 <= i < e.len() implies #[trigger] sorted_tree(e[i].1) by {
            assert(!(e[i].1 is Array) && !(e[i].1 is Object));
        }
        crate::json::lemma_entries_sorted(e);
    }
}

/// Names each before the next are in ascending order.
proof fn lemma_adjacent_ascending(e: Seq<(Seq<char>, JsonView)>)
    requires
        forall|i: int| 0 <= i < e.len() - 1 ==> name_lt(#[trigger] e[i].0, e[i + 1].0),
    ensures
        keys_ascending(e),
{
    assert forall|i: int, j: int| 0 <= i < j < e.len() implies name_lt(#[trigger] e[i].0, #[trigger] e[j].0) by {
        lemma_chain(e, i, j);
    }
}

proof fn lemma_chain(e: Seq<(Seq<char>, JsonView)>, i: int, j: int)
    requires
        forall|k: int| 0 <= k < e.len() - 1 ==> name_lt(#[trigger] e[k].0, e[k + 1].0),
        0 <= i < j < e.len(),
    ensures
        name_lt(e[i].0, e[j].0),
    decreases j - i,
{
    if j > i + 1 {
        lemma_chain(e, i, j - 1);
        assert(name_lt(e[j - 1].0, e[j].0));
        lemma_name_lt_transitive(e[i].0, e[j - 1].0, e[j].0);
    }
}

/// The metadata of a connection event as JSON text: serde_json's text of
/// the metadata document; writing it always succeeds.
pub fn connection_log_meta_json(row: &ConnectionEventRow) -> (r: Result<String, AppError>)
    ensures
        r matches Ok(s) && s@ == json_printed(connection_meta_doc(*row)),
{
    let t = connection_meta(row);
    proof {
        lemma_meta_doc(*row, usize::MAX as nat);
    }
    json_text(t)
}

/// A connection event as a row of the log list.
pub fn connection_log_row(row: ConnectionEventRow) -> (r: Result<LogRow, AppError>)
    ensures
        r matches Ok(l) && l.id == clamp(doubled(row.id) + 1, i64::MIN as int, i64::MAX as int)
            && l.service_id == row.service_id && l.level@ == (if row.error@.len() == 0 { "info"@ } else { "error"@ })
            && l.message@ == connection_message(row) && l.created_at == row.created_at
            && l.meta_json@ == json_printed(connection_meta_doc(row)),
{
    let message = connection_log_message(&row);
    let meta_json = match connection_log_meta_json(&row) {
        Ok(m) => m,
        Err(e) => return Err(e),
    };
    let level = if is_empty(row.error.as_str()) {
        String::from_str("info")
    } else {
        String::from_str("error")
    };
    Ok(LogRow {
        id: connection_log_id(row.id),
        service_id: row.service_id,
        level,
        message,
        meta_json,
        created_at: row.created_at,
    })
}

/// `a` is listed before `b`: newer first, then the larger id first.
pub open spec fn log_before(a: LogRow, b: LogRow) -> bool {
    name_lt(b.created_at@, a.created_at@) || (a.created_at@ == b.created_at@ && a.id > b.id)
}

/// In list order: no row is listed before one that precedes it.
pub open spec fn log_ordered(s: Seq<LogRow>) -> bool {
    forall|i: int, j: int| 0 <= i < j < s.len() ==> !log_before(#[trigger] s[j], #[trigger] s[i])
}

proof fn lemma_log_before_transitive(a: LogRow, b: LogRow, c: LogRow)
    requires
        log_before(a, b),
        log_before(b, c),
    ensures
        log_before(a, c),
{
    if name_lt(b.created_at@, a.created_at@) && name_lt(c.created_at@, b.created_at@) {
        crate::headers::lemma_name_lt_transitive(c.created_at@, b.created_at@, a.created_at@);
    }
}

proof fn lemma_log_before_asymmetric(a: LogRow, b: LogRow)
    requires
        log_before(a, b),
    ensures
        !log_before(b, a),
{
    if log_before(b, a) {
        lemma_log_before_transitive(a, b, a);
        crate::headers::lemma_name_lt_irreflexive(a.created_at@);
    }
}

fn listed_before(a: &LogRow, b: &LogRow) -> (r: bool)
    ensures
        r == log_before(*a, *b),
{
    str_lt(b.created_at.as_str(), a.created_at.as_str()) || (str_eq(a.created_at.as_str(), b.created_at.as_str()) && a.id > b.id)
}

/// Orders log rows newest first (rows that compare equal keep their order)
/// and keeps the first `limit`.
pub fn order_logs(logs: Vec<LogRow>, limit: u32) -> (r: Vec<LogRow>)
    ensures
        exists|s: Seq<LogRow>|
            #[trigger] s.to_multiset() == logs@.to_multiset() && log_ordered(s) && r@ == s.take(
                if limit as int <= logs@.len() { limit as int } else { logs@.len() as int },
            ),
{
    let ghost all = logs@;
    let n = logs.len();
    let mut rest = logs;
    let mut out: Vec<LogRow> = Vec::new();
    let mut taken: usize = 0;
    assert(all.take(0) =~= out@);
    assert(rest@ =~= all.skip(0));
    while rest.len() > 0
        invariant
            n == all.len(),
            rest@.len() + taken == n,
            rest@ == all.skip(taken as int),
            out@.to_multiset() == all.take(taken as int).to_multiset(),
            out@.len() == taken,
            log_ordered(out@),
        decreases rest@.len(),
    {
        let ghost before_rest = rest@;
        let x = rest.remove(0);
        assert(x == all[taken as int]);
        assert(rest@ =~= all.skip(taken + 1));
        let m = out.len();
        let mut p: usize = 0;
        while p < m && !listed_before(&x, &out[p])
            invariant
                m == out@.len(),
                p <= m,
                forall|j: int| 0 <= j < p ==> !log_before(x, #[trigger] out@[j]),
            decreases m - p,
        {
            p = p + 1;
        }
        let ghost prev = out@;
        out.insert(p, x);
        proof {
            assert(all.take(taken + 1) =~= all.take(taken as int).push(x));
            assert(out@ == prev.insert(p as int, x));
            vstd::seq_lib::to_multiset_insert(prev, p as int, x);
            vstd::seq_lib::to_multiset_build(all.take(taken as int), x);
            assert forall|i: int, j: int| 0 <= i < j < out@.len() implies !log_before(#[trigger] out@[j], #[trigger] out@[i]) by {
                if j < p {
                    assert(out@[i] == prev[i] && out@[j] == prev[j]);
                } else if j == p {
                    assert(out@[i] == prev[i]);
                } else if i == p {
                    // x before prev[p] and prev ordered
                    assert(out@[j] == prev[j - 1]);
                    assert(log_before(x, prev[p as int]));
                    if log_before(prev[j - 1], x) {
                        if j - 1 == p {
                            lemma_log_before_asymmetric(x, prev[p as int]);
                        } else {
                            lemma_log_before_transitive(prev[j - 1], x, prev[p as int]);
                            assert(!log_before(prev[j - 1], prev[p as int]));
                        }
                    }
                } else if i < p {
                    assert(out@[i] == prev[i] && out@[j] == prev[j - 1]);
                } else {
                    assert(out@[i] == prev[i - 1] && out@[j] == prev[j - 1]);
                }
            }
        }
        taken = taken + 1;
    }
    assert(all.take(n as int) =~= all);
    let k: usize = if (limit as usize) <= n { limit as usize } else { n };
    let ghost s = out@;
    out.truncate(k);
    assert(out@ =~= s.take(k as int));
    out
}

// ---------------------------------------------------------------------------
// Duplicating a service
// ---------------------------------------------------------------------------

/// A header rule without its identity.
pub open spec fn header_rule_input_of(r: HeaderRule) -> HeaderRuleInput {
    HeaderRuleInput {
        phase: r.phase,
        action: r.action,
        name: r.name,
        value: r.value,
        enabled: r.enabled,
        sort_order: r.sort_order,
    }
}

/// A body rule without its identity.
pub open spec fn body_rule_input_of(r: BodyRewriteRule) -> BodyRewriteRuleInput {
    BodyRewriteRuleInput {
        body_type: r.body_type,
        path: r.path,
        value_json: r.value_json,
        enabled: r.enabled,
        sort_order: r.sort_order,
    }
}

/// The input that creates a copy of a service: named `<name> 副本`, not
/// started automatically, listening on the next port (at least 1, and
/// 65535 stays), with the same settings and rules.
pub fn duplicate_input(detail: ServiceDetail) -> (r: CreateServiceInput)
    ensures
        r.name@ == detail.name@ + " 副本"@,
        r.kind == detail.kind,
        r.enabled == detail.enabled,
        !r.auto_start,
        r.listen_host == detail.listen_host,
        r.listen_port == (if detail.listen_port == 65535 { 65535 } else { detail.listen_port + 1 }),
        r.notes == detail.notes,
        r.http_reverse == detail.http_reverse,
        r.http_forward == detail.http_forward,
        r.tcp_forward == detail.tcp_forward,
        r.udp_forward == detail.udp_forward,
        r.ssh_tunnel == detail.ssh_tunnel,
        r.header_rules@ == detail.header_rules@.map_values(|h: HeaderRule| header_rule_input_of(h)),
        r.body_rewrite_rules@ == detail.body_rewrite_rules@.map_values(|b: BodyRewriteRule| body_rule_input_of(b)),
{
    let mut name = to_chars(detail.name.as_str());
    push_str(&mut name, " 副本");
    let port: u16 = if detail.listen_port == 65535 { 65535 } else { detail.listen_port + 1 };
    let ghost hs = detail.header_rules@;
    let ghost bs = detail.body_rewrite_rules@;
    let mut header_rules: Vec<HeaderRuleInput> = Vec::new();
    let mut rest_h = detail.header_rules;
    let nh = rest_h.len();
    let mut i: usize = 0;
    while i < nh
        invariant
            nh == hs.len(),
            i <= nh,
            rest_h@ == hs.skip(i as int),
            header_rules@ == hs.take(i as int).map_values(|h: HeaderRule| header_rule_input_of(h)),
        decreases nh - i,
    {
        let h = rest_h.remove(0);
        assert(h == hs[i as int]);
        assert(rest_h@ =~= hs.skip(i + 1));
        header_rules.push(
            HeaderRuleInput {
                phase: h.phase,
                action: h.action,
                name: h.name,
                value: h.value,
                enabled: h.enabled,
                sort_order: h.sort_order,
            },
        );
        i = i + 1;
        assert(header_rules@ =~= hs.take(i as int).map_values(|h: HeaderRule| header_rule_input_of(h)));
    }
    assert(hs.take(nh as int) =~= hs);
    let mut body_rules: Vec<BodyRewriteRuleInput> = Vec::new();
    let mut rest_b = detail.body_rewrite_rules;
    let nb = rest_b.len();
    let mut j: usize = 0;
    while j < nb
        invariant
            nb == bs.len(),
            j <= nb,
            rest_b@ == bs.skip(j as int),
            body_rules@ == bs.take(j as int).map_values(|b: BodyRewriteRule| body_rule_input_of(b)),
        decreases nb - j,
    {
        let b = rest_b.remove(0);
        assert(b == bs[j as int]);
        assert(rest_b@ =~= bs.skip(j + 1));
        body_rules.push(
            BodyRewriteRuleInput {
                body_type: b.body_type,
                path: b.path,
                value_json: b.value_json,
                enabled: b.enabled,
                sort_order: b.sort_order,
            },
        );
        j = j + 1;
        assert(body_rules@ =~= bs.take(j as int).map_values(|b: BodyRewriteRule| body_rule_input_of(b)));
    }
    assert(bs.take(nb as int) =~= bs);
    CreateServiceInput {
        name: from_chars(name.as_slice()),
        kind: detail.kind,
        enabled: detail.enabled,
        auto_start: false,
        listen_host: detail.listen_host,
        listen_port: port,
        notes: detail.notes,
        http_reverse: detail.http_reverse,
        http_forward: detail.http_forward,
        tcp_forward: detail.tcp_forward,
        udp_forward: detail.udp_forward,
        ssh_tunnel: detail.ssh_tunnel,
        header_rules,
        body_rewrite_rules: body_rules,
    }
}

// ---------------------------------------------------------------------------
// Other store decisions
// ---------------------------------------------------------------------------

/// The settings a new store starts with, as key and JSON value.
pub open spec fn default_settings_spec() -> Seq<(Seq<char>, Seq<char>)> {
    seq![
        ("app.initialized"@, "true"@),
        ("logs.retention_days"@, "7"@),
        ("logs.max_rows"@, "20000"@),
        ("services.auto_start_enabled"@, "false"@),
    ]
}

/// The settings a new store starts with.
pub fn default_settings() -> (r: Vec<(&'static str, &'static str)>)
    ensures
        r@.len() == default_settings_spec().len(),
        forall|i: int| 0 <= i < r@.len() ==> (#[trigger] r@[i]).0@ == default_settings_spec()[i].0 && r@[i].1@
            == default_settings_spec()[i].1,
{
    vec![
        ("app.initialized", "true"),
        ("logs.retention_days", "7"),
        ("logs.max_rows", "20000"),
        ("services.auto_start_enabled", "false"),
    ]
}

/// The system proxy target a service stands for: only an HTTP forward
/// service can be one, at its listen address, with no bypass list.
pub fn system_proxy_target_from_service(detail: ServiceDetail) -> (r: Result<SystemProxyTarget, AppError>)
    ensures
        detail.kind is HttpForward ==> (r matches Ok(t) && t.proxy_host == detail.listen_host && t.proxy_port
            == detail.listen_port && t.bypass@ == Seq::<char>::empty()),
        !(detail.kind is HttpForward) ==> (r matches Err(AppError::InvalidInput(m)) && m@
            == "系统代理只能指向 HTTP forward 服务或系统代理配置"@),
{
    match detail.kind {
        ServiceKind::HttpForward => {
            let b = String::new();
            assert(b@ =~= Seq::<char>::empty());
            Ok(SystemProxyTarget { proxy_host: detail.listen_host, proxy_port: detail.listen_port, bypass: b })
        },
        _ => Err(AppError::InvalidInput(crate::text::to_owned_string("系统代理只能指向 HTTP forward 服务或系统代理配置"))),
    }
}

/// The refusal to delete an SSH profile that a tunnel or a jump uses.
pub fn ssh_profile_in_use() -> (r: AppError)
    ensures
        r matches AppError::Conflict(m) && m@ == "SSH Profile 正在被隧道服务或跳板配置引用，不能删除"@,
{
    AppError::Conflict(crate::text::to_owned_string("SSH Profile 正在被隧道服务或跳板配置引用，不能删除"))
}

/// A secret an SSH profile asks to be stored: its label, its kind and the
/// value.
#[derive(Debug, Clone)]
pub struct SecretToStore {
    pub label: String,
    pub kind: String,
    pub value: String,
}

/// The secret of an optional value that is given and not empty.
pub open spec fn secret_of(value: Option<String>, name: Seq<char>, suffix: Seq<char>, kind: Seq<char>, r: Option<
    SecretToStore,
>) -> bool {
    match value {
        Some(v) if v@.len() > 0 => r matches Some(s) && s.label@ == name + suffix && s.kind@ == kind && s.value
            == v,
        _ => r is None,
    }
}

fn secret_to_store(value: &Option<String>, name: &str, suffix: &str, kind: &str) -> (r: Option<SecretToStore>)
    ensures
        secret_of(*value, name@, suffix@, kind@, r),
{
    match value {
        Some(v) => {
            if to_chars(v.as_str()).len() == 0 {
                None
            } else {
                let mut label = to_chars(name);
                push_str(&mut label, suffix);
                Some(SecretToStore { label: from_chars(label.as_slice()), kind: crate::text::to_owned_string(kind), value: v.clone() })
            }
        },
        None => None,
    }
}

/// The secrets an SSH profile's input asks to be stored: a non-empty
/// password (`<name> password`, kind `ssh_password`) and a non-empty key
/// passphrase (`<name> key passphrase`, kind `ssh_key_passphrase`).
pub fn ssh_profile_secrets(input: &SshProfileInput) -> (r: (Option<SecretToStore>, Option<SecretToStore>))
    ensures
        secret_of(input.password, input.name@, " password"@, "ssh_password"@, r.0),
        secret_of(input.private_key_passphrase, input.name@, " key passphrase"@, "ssh_key_passphrase"@, r.1),
{
    let password = secret_to_store(&input.password, input.name.as_str(), " password", "ssh_password");
    let passphrase = secret_to_store(
        &input.private_key_passphrase,
        input.name.as_str(),
        " key passphrase",
        "ssh_key_passphrase",
    );
    (password, passphrase)
}

/// The secret ids a saved profile keeps: a newly stored secret wins over
/// the one saved before, and with no new secret the saved one is kept,
/// whatever the authentication; password authentication must end up with
/// a password.
pub fn ssh_profile_secret_ids(
    auth_type: SshAuthType,
    new_password: Option<String>,
    saved_password: Option<String>,
    new_passphrase: Option<String>,
    saved_passphrase: Option<String>,
) -> (r: Result<(Option<String>, Option<String>), AppError>)
    ensures
        ({
            let password = if new_password is Some { new_password } else { saved_password };
            let passphrase = if new_passphrase is Some { new_passphrase } else { saved_passphrase };
            if auth_type is Password && password is None {
                r matches Err(AppError::InvalidInput(m)) && m@ == "密码认证需要保存密码 secret"@
            } else {
                r matches Ok((p, k)) && p == password && k == passphrase
            }
        }),
{
    let password = match new_password {
        Some(p) => Some(p),
        None => saved_password,
    };
    let passphrase = match new_passphrase {
        Some(k) => Some(k),
        None => saved_passphrase,
    };
    match auth_type {
        SshAuthType::Password => match password {
            Some(p) => Ok((Some(p), passphrase)),
            None => Err(AppError::InvalidInput(crate::text::to_owned_string("密码认证需要保存密码 secret"))),
        },
        _ => Ok((password, passphrase)),
    }
}

/// The error for an SSH profile that does not exist.
pub fn ssh_profile_not_found(id: &str) -> (r: AppError)
    ensures
        r matches AppError::NotFound(m) && m@ == "SSH Profile 不存在: "@ + id@,
{
    let mut m = to_chars("SSH Profile 不存在: ");
    push_str(&mut m, id);
    AppError::NotFound(from_chars(m.as_slice()))
}

} // verus!
