//! Data shared between the user interface, the configuration store and the
//! runtime: services, SSH profiles, system proxy targets, logs and settings.

use crate::error::AppError;
use crate::text::{concat, from_chars, to_chars, to_owned_string};
use vstd::prelude::*;

verus! {

/// The kind of proxy service; it decides which runner starts.
#[derive(Debug, Clone, Copy, PartialEq, Eq, Hash)]
pub enum ServiceKind {
    HttpReverse,
    HttpForward,
    TcpForward,
    UdpForward,
    SshLocal,
    SshRemote,
    SshSocks,
}

/// The stored name of a service kind.
pub open spec fn service_kind_name(k: ServiceKind) -> Seq<char> {
    match k {
        ServiceKind::HttpReverse => "http_reverse"@,
        ServiceKind::HttpForward => "http_forward"@,
        ServiceKind::TcpForward => "tcp_forward"@,
        ServiceKind::UdpForward => "udp_forward"@,
        ServiceKind::SshLocal => "ssh_local"@,
        ServiceKind::SshRemote => "ssh_remote"@,
        ServiceKind::SshSocks => "ssh_socks"@,
    }
}

impl ServiceKind {
    /// The snake_case name stored in the database.
    pub fn as_str(self) -> (r: &'static str)
        ensures
            r@ == service_kind_name(self),
    {
        match self {
            ServiceKind::HttpReverse => "http_reverse",
            ServiceKind::HttpForward => "http_forward",
            ServiceKind::TcpForward => "tcp_forward",
            ServiceKind::UdpForward => "udp_forward",
            ServiceKind::SshLocal => "ssh_local",
            ServiceKind::SshRemote => "ssh_remote",
            ServiceKind::SshSocks => "ssh_socks",
        }
    }

    /// Reads a stored name back; any other text is rejected with a message
    /// that quotes it.
    pub fn try_from(value: &str) -> (r: Result<ServiceKind, String>)
        ensures
            match r {
                Ok(k) => service_kind_name(k) == value@,
                Err(m) => (forall|k: ServiceKind| service_kind_name(k) != value@) && m@
                    == "未知服务类型: "@ + value@,
            },
    {
        let kinds = [
            ServiceKind::HttpReverse,
            ServiceKind::HttpForward,
            ServiceKind::TcpForward,
            ServiceKind::UdpForward,
            ServiceKind::SshLocal,
            ServiceKind::SshRemote,
            ServiceKind::SshSocks,
        ];
        let v = to_chars(value);
        let mut i: usize = 0;
        while i < 7
            invariant
                v@ == value@,
                i <= 7,
                kinds@ == seq![
                    ServiceKind::HttpReverse,
                    ServiceKind::HttpForward,
                    ServiceKind::TcpForward,
                    ServiceKind::UdpForward,
                    ServiceKind::SshLocal,
                    ServiceKind::SshRemote,
                    ServiceKind::SshSocks,
                ],
                forall|j: int| 0 <= j < i ==> service_kind_name(kinds@[j]) != value@,
            decreases 7 - i,
        {
            let k = kinds[i];
            if crate::text::eq_str(v.as_slice(), k.as_str()) {
                return Ok(k);
            }
            i = i + 1;
        }
        assert forall|k: ServiceKind| service_kind_name(k) != value@ by {
            match k {
                ServiceKind::HttpReverse => assert(kinds@[0] == k),
                ServiceKind::HttpForward => assert(kinds@[1] == k),
                ServiceKind::TcpForward => assert(kinds@[2] == k),
                ServiceKind::UdpForward => assert(kinds@[3] == k),
                ServiceKind::SshLocal => assert(kinds@[4] == k),
                ServiceKind::SshRemote => assert(kinds@[5] == k),
                ServiceKind::SshSocks => assert(kinds@[6] == k),
            }
        }
        Err(prefixed("未知服务类型: ", value))
    }
}

/// `prefix` followed by `value`.
pub fn prefixed(prefix: &str, value: &str) -> (r: String)
    ensures
        r@ == prefix@ + value@,
{
    let p = to_chars(prefix);
    let v = to_chars(value);
    let all = concat(p.as_slice(), v.as_slice());
    from_chars(all.as_slice())
}

/// The runtime state of a service; only the in-memory manager knows it.
#[derive(Debug, Clone, PartialEq, Eq)]
pub enum RuntimeStatus {
    Stopped,
    Starting,
    Running,
    Stopping,
    Failed { message: String },
}

impl RuntimeStatus {
    /// The initial state.
    pub fn default() -> (r: RuntimeStatus)
        ensures
            r == RuntimeStatus::Stopped,
    {
        RuntimeStatus::Stopped
    }
}

/// Where a tool-service route takes its response body from.
#[derive(Debug, Clone, Copy, PartialEq, Eq, Hash)]
pub enum ToolServiceContentSource {
    Inline,
    File,
}

/// The stored name of a content source.
pub open spec fn content_source_name(s: ToolServiceContentSource) -> Seq<char> {
    match s {
        ToolServiceContentSource::Inline => "inline"@,
        ToolServiceContentSource::File => "file"@,
    }
}

impl ToolServiceContentSource {
    /// The snake_case name stored in the database.
    pub fn as_str(self) -> (r: &'static str)
        ensures
            r@ == content_source_name(self),
    {
        match self {
            ToolServiceContentSource::Inline => "inline",
            ToolServiceContentSource::File => "file",
        }
    }

    /// Reads a stored name back.
    pub fn try_from(value: &str) -> (r: Result<ToolServiceContentSource, String>)
        ensures
            match r {
                Ok(k) => content_source_name(k) == value@,
                Err(m) => (forall|k: ToolServiceContentSource|
                    content_source_name(k) != value@) && m@ == "未知工具服务响应来源: "@ + value@,
            },
    {
        let v = to_chars(value);
        if crate::text::eq_str(v.as_slice(), "inline") {
            Ok(ToolServiceContentSource::Inline)
        } else if crate::text::eq_str(v.as_slice(), "file") {
            Ok(ToolServiceContentSource::File)
        } else {
            assert forall|k: ToolServiceContentSource| content_source_name(k) != value@ by {
                match k {
                    ToolServiceContentSource::Inline => {},
                    ToolServiceContentSource::File => {},
                }
            }
            Err(prefixed("未知工具服务响应来源: ", value))
        }
    }
}

/// How a tool service serves its static directory: a directory asks for
/// a listing of its entries, or (as a site) for its `index.html`.
#[derive(Debug, Clone, Copy, PartialEq, Eq, Hash)]
pub enum ToolServiceStaticMode {
    Directory,
    Site,
}

/// The stored name of a static mode.
pub open spec fn static_mode_name(m: ToolServiceStaticMode) -> Seq<char> {
    match m {
        ToolServiceStaticMode::Directory => "directory"@,
        ToolServiceStaticMode::Site => "site"@,
    }
}

impl ToolServiceStaticMode {
    /// The mode a service has unless it says otherwise.
    pub fn default() -> (r: ToolServiceStaticMode)
        ensures
            r == ToolServiceStaticMode::Directory,
    {
        ToolServiceStaticMode::Directory
    }

    /// The snake_case name stored in the database.
    pub fn as_str(self) -> (r: &'static str)
        ensures
            r@ == static_mode_name(self),
    {
        match self {
            ToolServiceStaticMode::Directory => "directory",
            ToolServiceStaticMode::Site => "site",
        }
    }

    /// Reads a stored name back.
    pub fn try_from(value: &str) -> (r: Result<ToolServiceStaticMode, String>)
        ensures
            match r {
                Ok(k) => static_mode_name(k) == value@,
                Err(m) => (forall|k: ToolServiceStaticMode| static_mode_name(k) != value@) && m@
                    == "未知静态目录模式: "@ + value@,
            },
    {
        let v = to_chars(value);
        if crate::text::eq_str(v.as_slice(), "directory") {
            Ok(ToolServiceStaticMode::Directory)
        } else if crate::text::eq_str(v.as_slice(), "site") {
            Ok(ToolServiceStaticMode::Site)
        } else {
            assert forall|k: ToolServiceStaticMode| static_mode_name(k) != value@ by {
                match k {
                    ToolServiceStaticMode::Directory => {},
                    ToolServiceStaticMode::Site => {},
                }
            }
            Err(prefixed("未知静态目录模式: ", value))
        }
    }
}

/// A route of a local tool HTTP service.
#[derive(Debug, Clone)]
pub struct ToolServiceRouteInput {
    pub method: String,
    pub path: String,
    pub response_status: u16,
    pub content_type: String,
    pub content_source: ToolServiceContentSource,
    pub body: Option<String>,
    pub file_path: Option<String>,
}

/// The configuration of a local tool HTTP service.
#[derive(Debug, Clone)]
pub struct ToolServiceInput {
    pub name: String,
    pub host: String,
    pub port: u16,
    pub static_root_dir: Option<String>,
    pub static_mode: ToolServiceStaticMode,
    pub static_path_prefix: String,
    pub routes: Vec<ToolServiceRouteInput>,
}

/// A stored local tool HTTP service.
#[derive(Debug, Clone)]
pub struct ToolServiceConfig {
    pub id: String,
    pub name: String,
    pub host: String,
    pub port: u16,
    pub static_root_dir: Option<String>,
    pub static_mode: ToolServiceStaticMode,
    pub static_path_prefix: String,
    pub routes: Vec<ToolServiceRouteInput>,
    pub created_at: String,
    pub updated_at: String,
}

/// A copy of an optional string.
pub fn clone_opt(o: &Option<String>) -> (r: Option<String>)
    ensures
        r == *o,
{
    match o {
        Some(s) => Some(s.clone()),
        None => None,
    }
}

/// A copy of a route.
pub fn clone_route(r: &ToolServiceRouteInput) -> (c: ToolServiceRouteInput)
    ensures
        c == *r,
{
    ToolServiceRouteInput {
        method: r.method.clone(),
        path: r.path.clone(),
        response_status: r.response_status,
        content_type: r.content_type.clone(),
        content_source: r.content_source,
        body: clone_opt(&r.body),
        file_path: clone_opt(&r.file_path),
    }
}

/// A copy of a list of routes.
pub fn clone_routes(v: &Vec<ToolServiceRouteInput>) -> (c: Vec<ToolServiceRouteInput>)
    ensures
        c@ == v@,
{
    let mut c: Vec<ToolServiceRouteInput> = Vec::new();
    let mut i: usize = 0;
    while i < v.len()
        invariant
            i <= v@.len(),
            c@ == v@.take(i as int),
        decreases v.len() - i,
    {
        c.push(clone_route(&v[i]));
        i = i + 1;
        assert(c@ =~= v@.take(i as int));
    }
    assert(v@.take(v@.len() as int) =~= v@);
    c
}

impl ToolServiceConfig {
    /// The input that starts this service: the configuration without its
    /// identity and timestamps.
    pub fn to_input(&self) -> (r: ToolServiceInput)
        ensures
            r.name == self.name,
            r.host == self.host,
            r.port == self.port,
            r.static_root_dir == self.static_root_dir,
            r.static_mode == self.static_mode,
            r.static_path_prefix == self.static_path_prefix,
            r.routes@ == self.routes@,
    {
        ToolServiceInput {
            name: self.name.clone(),
            host: self.host.clone(),
            port: self.port,
            static_root_dir: clone_opt(&self.static_root_dir),
            static_mode: self.static_mode,
            static_path_prefix: self.static_path_prefix.clone(),
            routes: clone_routes(&self.routes),
        }
    }

    /// The path shown in the service URL: the static prefix when a static
    /// directory is mounted, else the first route's path, else `/`.
    pub fn first_access_path(&self) -> (r: &str)
        ensures
            r@ == (if self.static_root_dir is Some {
                self.static_path_prefix@
            } else if self.routes@.len() > 0 {
                self.routes@[0].path@
            } else {
                "/"@
            }),
    {
        if self.static_root_dir.is_some() {
            self.static_path_prefix.as_str()
        } else if self.routes.len() > 0 {
            self.routes[0].path.as_str()
        } else {
            "/"
        }
    }
}

/// A tool service as listed: configuration joined with runtime state.
#[derive(Debug, Clone)]
pub struct ToolServiceSummary {
    pub id: String,
    pub name: String,
    pub host: String,
    pub port: u16,
    pub url: String,
    pub static_root_dir: Option<String>,
    pub static_mode: ToolServiceStaticMode,
    pub static_path_prefix: String,
    pub route_count: usize,
    pub started_at: Option<String>,
    pub total_requests: u64,
    pub runtime_status: RuntimeStatus,
}

/// A row of the service list.
#[derive(Debug, Clone)]
pub struct ServiceSummary {
    pub id: String,
    pub name: String,
    pub kind: ServiceKind,
    pub enabled: bool,
    pub auto_start: bool,
    pub listen_host: String,
    pub listen_port: u16,
    pub target_label: String,
    pub runtime_status: RuntimeStatus,
    pub active_connections: u64,
    pub total_connections: u64,
}

/// A complete service configuration.
#[derive(Debug, Clone)]
pub struct ServiceDetail {
    pub id: String,
    pub name: String,
    pub kind: ServiceKind,
    pub enabled: bool,
    pub auto_start: bool,
    pub listen_host: String,
    pub listen_port: u16,
    pub notes: String,
    pub created_at: String,
    pub updated_at: String,
    pub http_reverse: Option<HttpReverseConfig>,
    pub http_forward: Option<HttpForwardConfig>,
    pub tcp_forward: Option<TcpForwardConfig>,
    pub udp_forward: Option<UdpForwardConfig>,
    pub ssh_tunnel: Option<SshTunnelConfig>,
    pub header_rules: Vec<HeaderRule>,
    pub body_rewrite_rules: Vec<BodyRewriteRule>,
}

/// HTTP reverse proxy settings.
#[derive(Debug, Clone)]
pub struct HttpReverseConfig {
    pub target_url: String,
    pub preserve_host: bool,
    pub request_timeout_ms: u64,
    pub max_rewrite_body_bytes: u64,
    pub skip_compressed_body: bool,
}

/// HTTP forward proxy settings.
#[derive(Debug, Clone)]
pub struct HttpForwardConfig {
    pub allow_http: bool,
    pub allow_connect: bool,
    pub connect_timeout_ms: u64,
    pub idle_timeout_ms: u64,
}

/// TCP forwarding settings.
#[derive(Debug, Clone)]
pub struct TcpForwardConfig {
    pub target_host: String,
    pub target_port: u16,
    pub connect_timeout_ms: u64,
    pub idle_timeout_ms: u64,
}

/// UDP forwarding settings.
#[derive(Debug, Clone)]
pub struct UdpForwardConfig {
    pub target_host: String,
    pub target_port: u16,
    pub idle_timeout_ms: u64,
}

/// SSH tunnel settings.
#[derive(Debug, Clone)]
pub struct SshTunnelConfig {
    pub ssh_profile_id: String,
    pub tunnel_type: String,
    pub target_host: Option<String>,
    pub target_port: Option<u16>,
    pub remote_bind_host: Option<String>,
    pub remote_bind_port: Option<u16>,
}

/// A header rewrite rule.
#[derive(Debug, Clone)]
pub struct HeaderRule {
    pub id: String,
    pub phase: String,
    pub action: String,
    pub name: String,
    pub value: Option<String>,
    pub enabled: bool,
    pub sort_order: i64,
}

/// A body rewrite rule.
#[derive(Debug, Clone)]
pub struct BodyRewriteRule {
    pub id: String,
    pub body_type: String,
    pub path: String,
    pub value_json: String,
    pub enabled: bool,
    pub sort_order: i64,
}

/// The input that creates or fully updates a service.
#[derive(Debug, Clone)]
pub struct CreateServiceInput {
    pub name: String,
    pub kind: ServiceKind,
    pub enabled: bool,
    pub auto_start: bool,
    pub listen_host: String,
    pub listen_port: u16,
    pub notes: String,
    pub http_reverse: Option<HttpReverseConfig>,
    pub http_forward: Option<HttpForwardConfig>,
    pub tcp_forward: Option<TcpForwardConfig>,
    pub udp_forward: Option<UdpForwardConfig>,
    pub ssh_tunnel: Option<SshTunnelConfig>,
    pub header_rules: Vec<HeaderRuleInput>,
    pub body_rewrite_rules: Vec<BodyRewriteRuleInput>,
}

/// A header rule as entered, without identity.
#[derive(Debug, Clone)]
pub struct HeaderRuleInput {
    pub phase: String,
    pub action: String,
    pub name: String,
    pub value: Option<String>,
    pub enabled: bool,
    pub sort_order: i64,
}

/// A body rewrite rule as entered, without identity.
#[derive(Debug, Clone)]
pub struct BodyRewriteRuleInput {
    pub body_type: String,
    pub path: String,
    pub value_json: String,
    pub enabled: bool,
    pub sort_order: i64,
}

/// A row of the runtime status list.
#[derive(Debug, Clone)]
pub struct ServiceRuntimeSummary {
    pub service_id: String,
    pub kind: ServiceKind,
    pub listen_addr: String,
    pub runtime_status: RuntimeStatus,
    pub started_at: Option<String>,
    pub active_connections: u64,
    pub total_connections: u64,
    pub bytes_in: u64,
    pub bytes_out: u64,
}

/// The outcome of a connectivity test.
#[derive(Debug, Clone)]
pub struct TestResult {
    pub ok: bool,
    pub message: String,
    pub duration_ms: u64,
}

/// How an SSH profile authenticates.
#[derive(Debug, Clone, Copy, PartialEq, Eq)]
pub enum SshAuthType {
    Password,
    PrivateKey,
    Agent,
}

/// The stored name of an authentication type.
pub open spec fn auth_type_name(a: SshAuthType) -> Seq<char> {
    match a {
        SshAuthType::Password => "password"@,
        SshAuthType::PrivateKey => "private_key"@,
        SshAuthType::Agent => "agent"@,
    }
}

impl SshAuthType {
    /// The snake_case name stored in the database.
    pub fn as_str(self) -> (r: &'static str)
        ensures
            r@ == auth_type_name(self),
    {
        match self {
            SshAuthType::Password => "password",
            SshAuthType::PrivateKey => "private_key",
            SshAuthType::Agent => "agent",
        }
    }

    /// Reads a stored name back.
    pub fn try_from(value: &str) -> (r: Result<SshAuthType, String>)
        ensures
            match r {
                Ok(k) => auth_type_name(k) == value@,
                Err(m) => (forall|k: SshAuthType| auth_type_name(k) != value@) && m@
                    == "未知 SSH 认证类型: "@ + value@,
            },
    {
        let v = to_chars(value);
        if crate::text::eq_str(v.as_slice(), "password") {
            Ok(SshAuthType::Password)
        } else if crate::text::eq_str(v.as_slice(), "private_key") {
            Ok(SshAuthType::PrivateKey)
        } else if crate::text::eq_str(v.as_slice(), "agent") {
            Ok(SshAuthType::Agent)
        } else {
            assert forall|k: SshAuthType| auth_type_name(k) != value@ by {
                match k {
                    SshAuthType::Password => {},
                    SshAuthType::PrivateKey => {},
                    SshAuthType::Agent => {},
                }
            }
            Err(prefixed("未知 SSH 认证类型: ", value))
        }
    }
}

/// An SSH profile as shown to the user; secrets are only flagged.
#[derive(Debug, Clone)]
pub struct SshProfile {
    pub id: String,
    pub name: String,
    pub host: String,
    pub port: u16,
    pub username: String,
    pub auth_type: SshAuthType,
    pub has_password: bool,
    pub private_key_path: Option<String>,
    pub has_passphrase: bool,
    pub known_hosts_mode: String,
    pub known_hosts_path: Option<String>,
    pub connect_timeout_ms: u64,
    pub keepalive_interval_ms: u64,
    pub jump_profile_id: Option<String>,
}

/// An SSH profile as the runtime uses it, with secret identifiers.
#[derive(Debug, Clone)]
pub struct SshProfileRuntimeConfig {
    pub id: String,
    pub name: String,
    pub host: String,
    pub port: u16,
    pub username: String,
    pub auth_type: SshAuthType,
    pub password_secret_id: Option<String>,
    pub private_key_path: Option<String>,
    pub private_key_passphrase_secret_id: Option<String>,
    pub known_hosts_mode: String,
    pub known_hosts_path: Option<String>,
    pub connect_timeout_ms: u64,
    pub keepalive_interval_ms: u64,
    pub jump_profile_id: Option<String>,
}

/// The input that creates or updates an SSH profile.
#[derive(Debug, Clone)]
pub struct SshProfileInput {
    pub name: String,
    pub host: String,
    pub port: u16,
    pub username: String,
    pub auth_type: SshAuthType,
    pub password: Option<String>,
    pub private_key_path: Option<String>,
    pub private_key_passphrase: Option<String>,
    pub known_hosts_mode: String,
    pub known_hosts_path: Option<String>,
    pub connect_timeout_ms: u64,
    pub keepalive_interval_ms: u64,
    pub jump_profile_id: Option<String>,
}

/// An application setting: a key and a JSON-encoded value.
#[derive(Debug, Clone)]
pub struct AppSetting {
    pub key: String,
    pub value_json: String,
}

/// Whether the application starts at login.
#[derive(Debug, Clone, PartialEq, Eq)]
pub struct AutostartStatus {
    pub enabled: bool,
    pub supported: bool,
    pub message: String,
}

/// Log query filter.
#[derive(Debug, Clone)]
pub struct LogFilter {
    pub service_id: Option<String>,
    pub level: Option<String>,
    pub protocol: Option<String>,
    pub keyword: Option<String>,
    pub created_after: Option<String>,
    pub created_before: Option<String>,
    pub limit: Option<u32>,
}

/// A log row.
#[derive(Debug, Clone)]
pub struct LogRow {
    pub id: i64,
    pub service_id: Option<String>,
    pub level: String,
    pub message: String,
    pub meta_json: String,
    pub created_at: String,
}

/// The state of the system proxy.
#[derive(Debug, Clone)]
pub struct SystemProxyStatus {
    pub enabled: bool,
    pub proxy_host: String,
    pub proxy_port: Option<u16>,
    pub bypass: String,
    pub message: String,
}

/// A target the system proxy can be pointed at.
#[derive(Debug, Clone)]
pub struct SystemProxyTarget {
    pub proxy_host: String,
    pub proxy_port: u16,
    pub bypass: String,
}

/// A stored system proxy profile.
#[derive(Debug, Clone)]
pub struct SystemProxyProfile {
    pub id: String,
    pub name: String,
    pub proxy_host: String,
    pub proxy_port: u16,
    pub bypass: String,
    pub active: bool,
    pub created_at: String,
    pub updated_at: String,
}

/// The input that creates or updates a system proxy profile.
#[derive(Debug, Clone)]
pub struct SystemProxyProfileInput {
    pub name: String,
    pub proxy_host: String,
    pub proxy_port: u16,
    pub bypass: String,
}

/// Facts about the running system.
#[derive(Debug, Clone)]
pub struct SystemInfo {
    pub os: String,
    pub arch: String,
    pub app_version: String,
    pub data_dir: String,
}

/// A service event pushed to the user interface.
#[derive(Debug, Clone)]
pub struct ServiceEventPayload {
    pub service_id: Option<String>,
    pub level: String,
    pub message: String,
}

/// A connection event pushed to the user interface.
#[derive(Debug, Clone)]
pub struct ConnectionEventPayload {
    pub service_id: String,
    pub protocol: String,
    pub event_type: String,
    pub target_addr: String,
}

/// Default for switches that start enabled.
pub fn default_true() -> (r: bool)
    ensures
        r,
{
    true
}

/// Default listen host.
pub fn default_listen_host() -> (r: String)
    ensures
        r@ == "127.0.0.1"@,
{
    to_owned_string("127.0.0.1")
}

/// Default SSH port.
pub fn default_ssh_port() -> (r: u16)
    ensures
        r == 22,
{
    22
}

/// Default host-key policy.
pub fn default_known_hosts_mode() -> (r: String)
    ensures
        r@ == "accept_new"@,
{
    to_owned_string("accept_new")
}

/// Default SSH connect timeout in milliseconds.
pub fn default_connect_timeout_ms() -> (r: u64)
    ensures
        r == 10_000,
{
    10_000
}

/// Default SSH keepalive interval in milliseconds.
pub fn default_keepalive_interval_ms() -> (r: u64)
    ensures
        r == 30_000,
{
    30_000
}

} // verus!
