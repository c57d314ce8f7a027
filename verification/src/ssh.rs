//! SSH forwarding helpers: address labels, the OpenSSH known-hosts name of a
//! host, the reconnect back-off, the known-hosts trust decision, and what
//! authenticating with a profile takes.

use crate::error::AppError;
use crate::models::{SshAuthType, SshProfileRuntimeConfig};
use crate::text::{
    concat, contains_char, dec, dec_u64, eq_str, from_chars, push_chars, push_str, starts_with, to_chars,
    to_owned_string, trim, trim_ws,
};
use vstd::arithmetic::power2::{lemma2_to64, pow2};
use vstd::prelude::*;

verus! {

/// `host:port`, with an IPv6 host (one that holds `:` and does not already
/// start with `[`) put in brackets.
pub open spec fn host_port(host: Seq<char>, port: u16) -> Seq<char> {
    if host.contains(':') && !seq!['['].is_prefix_of(host) {
        seq!['['] + host + seq![']', ':'] + dec(port as nat)
    } else {
        host + seq![':'] + dec(port as nat)
    }
}

fn host_port_chars(host: &str, port: u16) -> (r: Vec<char>)
    ensures
        r@ == host_port(host@, port),
{
    let h = to_chars(host);
    let p = dec_u64(port as u64);
    let open = ['['];
    assert(open@ =~= seq!['[']);
    if contains_char(h.as_slice(), ':') && !starts_with(h.as_slice(), open.as_slice()) {
        let close = [']', ':'];
        let a = concat(open.as_slice(), h.as_slice());
        let b = concat(a.as_slice(), close.as_slice());
        let r = concat(b.as_slice(), p.as_slice());
        assert(r@ =~= host_port(host@, port));
        r
    } else {
        let colon = [':'];
        let a = concat(h.as_slice(), colon.as_slice());
        let r = concat(a.as_slice(), p.as_slice());
        assert(r@ =~= host_port(host@, port));
        r
    }
}

/// `host:port` for logs and connections.
pub fn format_host_port(host: &str, port: u16) -> (r: String)
    ensures
        r@ == host_port(host@, port),
{
    let v = host_port_chars(host, port);
    from_chars(v.as_slice())
}

/// The host name OpenSSH writes in `known_hosts`: the bare host on port 22,
/// `[host]:port` on any other port.
pub open spec fn known_host(host: Seq<char>, port: u16) -> Seq<char> {
    if port == 22 {
        host
    } else {
        seq!['['] + host + seq![']', ':'] + dec(port as nat)
    }
}

/// The `known_hosts` name of a host.
pub fn known_host_name(host: &str, port: u16) -> (r: String)
    ensures
        r@ == known_host(host@, port),
{
    if port == 22 {
        to_owned_string(host)
    } else {
        let h = to_chars(host);
        let p = dec_u64(port as u64);
        let open = ['['];
        let close = [']', ':'];
        let a = concat(open.as_slice(), h.as_slice());
        let b = concat(a.as_slice(), close.as_slice());
        let r = concat(b.as_slice(), p.as_slice());
        assert(r@ =~= known_host(host@, port));
        from_chars(r.as_slice())
    }
}

/// The wait before reconnect attempt `attempt`, in seconds: one second
/// doubled per attempt (at most five doublings), capped at thirty.
pub open spec fn reconnect_delay(attempt: u32) -> nat {
    let doublings: nat = if attempt < 5 {
        attempt as nat
    } else {
        5
    };
    if pow2(doublings) < 30 {
        pow2(doublings)
    } else {
        30
    }
}

/// Seconds to wait before a reconnect attempt.
pub fn ssh_reconnect_delay(attempt: u32) -> (secs: u64)
    ensures
        secs == reconnect_delay(attempt),
        1 <= secs <= 30,
{
    proof {
        lemma2_to64();
    }
    let doublings: u32 = if attempt < 5 {
        attempt
    } else {
        5
    };
    let factor: u64 = match doublings {
        0 => 1,
        1 => 2,
        2 => 4,
        3 => 8,
        4 => 16,
        _ => 32,
    };
    if factor < 30 {
        factor
    } else {
        30
    }
}

/// The reconnect back-off never shrinks from one attempt to the next,
/// starts at one second, and reaches its cap of thirty seconds from the
/// fifth attempt on.
pub proof fn law_reconnect_delay_backs_off(attempt: u32)
    ensures
        reconnect_delay(0) == 1,
        1 <= reconnect_delay(attempt) <= 30,
        attempt < u32::MAX ==> reconnect_delay(attempt) <= reconnect_delay((attempt + 1) as u32),
        attempt >= 5 ==> reconnect_delay(attempt) == 30,
        attempt < 4 ==> reconnect_delay((attempt + 1) as u32) == 2 * reconnect_delay(attempt),
{
    lemma2_to64();
}

/// A remote forward: where the SSH server listens and where traffic goes.
#[derive(Debug, Clone)]
pub struct RemoteForwardSpec {
    pub service_id: String,
    pub remote_bind_host: String,
    pub remote_bind_port: u16,
    pub target_host: String,
    pub target_port: u16,
}

impl RemoteForwardSpec {
    /// The address the SSH server listens on.
    pub fn remote_bind_addr(&self) -> (r: String)
        ensures
            r@ == host_port(self.remote_bind_host@, self.remote_bind_port),
    {
        format_host_port(self.remote_bind_host.as_str(), self.remote_bind_port)
    }

    /// The local address traffic is forwarded to.
    pub fn target_addr(&self) -> (r: String)
        ensures
            r@ == host_port(self.target_host@, self.target_port),
    {
        format_host_port(self.target_host.as_str(), self.target_port)
    }

    /// `bind -> target` for logs.
    pub fn log_target_addr(&self) -> (r: String)
        ensures
            r@ == host_port(self.remote_bind_host@, self.remote_bind_port) + " -> "@ + host_port(
                self.target_host@,
                self.target_port,
            ),
    {
        let a = host_port_chars(self.remote_bind_host.as_str(), self.remote_bind_port);
        let arrow = to_chars(" -> ");
        let b = host_port_chars(self.target_host.as_str(), self.target_port);
        let ab = concat(a.as_slice(), arrow.as_slice());
        let r = concat(ab.as_slice(), b.as_slice());
        from_chars(r.as_slice())
    }
}

/// The destination of a SOCKS5 CONNECT request.
#[derive(Debug, Clone)]
pub struct SocksConnectRequest {
    pub host: String,
    pub port: u16,
}

impl SocksConnectRequest {
    /// The destination as `host:port`.
    pub fn target_addr(&self) -> (r: String)
        ensures
            r@ == host_port(self.host@, self.port),
    {
        format_host_port(self.host.as_str(), self.port)
    }
}

/// The outcome of looking a host key up in `known_hosts`.
#[derive(Debug, Clone, Copy, PartialEq, Eq)]
pub enum KnownHostCheck {
    Match,
    NotFound,
    Mismatch,
    Failure,
}

/// What to do with a host key.
#[derive(Debug, Clone, Copy, PartialEq, Eq)]
pub enum KnownHostDecision {
    Trusted,
    AddNew,
}

/// `label host:port` (the host and port written as given).
pub open spec fn host_message(label: Seq<char>, host: Seq<char>, port: u16) -> Seq<char> {
    label + host + seq![':'] + dec(port as nat)
}

fn host_message_string(label: &str, host: &str, port: u16) -> (r: String)
    ensures
        r@ == host_message(label@, host@, port),
{
    let l = to_chars(label);
    let h = to_chars(host);
    let colon = [':'];
    let p = dec_u64(port as u64);
    let a = concat(l.as_slice(), h.as_slice());
    let b = concat(a.as_slice(), colon.as_slice());
    let r = concat(b.as_slice(), p.as_slice());
    assert(r@ =~= host_message(label@, host@, port));
    from_chars(r.as_slice())
}

/// The decision for a host key: a match is trusted; an unknown host is
/// added unless the mode is `strict`; a changed key or a failed check is
/// refused.
pub fn decide_known_host(mode: &str, check: KnownHostCheck, host: &str, port: u16) -> (r: Result<
    KnownHostDecision,
    AppError,
>)
    ensures
        check == KnownHostCheck::Match ==> r == Ok::<KnownHostDecision, AppError>(
            KnownHostDecision::Trusted,
        ),
        check == KnownHostCheck::NotFound && mode@ != "strict"@ ==> r == Ok::<
            KnownHostDecision,
            AppError,
        >(KnownHostDecision::AddNew),
        check == KnownHostCheck::NotFound && mode@ == "strict"@ ==> (r matches Err(
            AppError::InvalidInput(m),
        ) && m@ == host_message("known_hosts 中不存在 "@, host@, port)),
        check == KnownHostCheck::Mismatch ==> (r matches Err(AppError::InvalidInput(m)) && m@
            == host_message("SSH host key 与 known_hosts 不匹配: "@, host@, port)),
        check == KnownHostCheck::Failure ==> (r matches Err(AppError::InvalidInput(m)) && m@
            == host_message("known_hosts 校验失败: "@, host@, port)),
{
    match check {
        KnownHostCheck::Match => Ok(KnownHostDecision::Trusted),
        KnownHostCheck::NotFound => {
            let m = to_chars(mode);
            if eq_str(m.as_slice(), "strict") {
                Err(AppError::InvalidInput(host_message_string("known_hosts 中不存在 ", host, port)))
            } else {
                Ok(KnownHostDecision::AddNew)
            }
        },
        KnownHostCheck::Mismatch => Err(
            AppError::InvalidInput(
                host_message_string("SSH host key 与 known_hosts 不匹配: ", host, port),
            ),
        ),
        KnownHostCheck::Failure => Err(
            AppError::InvalidInput(host_message_string("known_hosts 校验失败: ", host, port)),
        ),
    }
}

/// Whether the known-hosts file should be read: yes when it exists; when
/// it is missing, `strict` mode refuses and other modes wait for the first
/// entry.
pub fn should_read_known_hosts_file(mode: &str, path_exists: bool, path_display: &str) -> (r: Result<
    bool,
    AppError,
>)
    ensures
        path_exists ==> r == Ok::<bool, AppError>(true),
        !path_exists && mode@ != "strict"@ ==> r == Ok::<bool, AppError>(false),
        !path_exists && mode@ == "strict"@ ==> (r matches Err(AppError::InvalidInput(m)) && m@
            == "known_hosts 文件不存在: "@ + path_display@),
{
    if path_exists {
        return Ok(true);
    }
    let m = to_chars(mode);
    if eq_str(m.as_slice(), "strict") {
        let label = to_chars("known_hosts 文件不存在: ");
        let p = to_chars(path_display);
        let all = concat(label.as_slice(), p.as_slice());
        return Err(AppError::InvalidInput(from_chars(all.as_slice())));
    }
    Ok(false)
}

// ---------------------------------------------------------------------------
// Authentication
// ---------------------------------------------------------------------------

/// The secrets a profile's authentication needs: the password secret (for
/// password authentication) and the private key passphrase secret (when
/// one is named).
#[derive(Debug, Clone)]
pub struct SecretPlan {
    pub password_secret_id: Option<String>,
    pub passphrase_secret_id: Option<String>,
}

/// Which secrets to load for a profile; password authentication without a
/// password secret is refused, naming the profile.
pub fn auth_secret_plan(profile: &SshProfileRuntimeConfig) -> (r: Result<SecretPlan, AppError>)
    ensures
        (profile.auth_type is Password && profile.password_secret_id is None) ==> (r matches Err(
            AppError::InvalidInput(m),
        ) && m@ == "SSH Profile "@ + profile.name@ + "("@ + profile.id@ + ") 缺少密码 secret"@),
        !(profile.auth_type is Password && profile.password_secret_id is None) ==> (r matches Ok(p) && p.password_secret_id
            == (if profile.auth_type is Password {
            profile.password_secret_id
        } else {
            None
        }) && p.passphrase_secret_id == profile.private_key_passphrase_secret_id),
{
    let password_secret_id = match profile.auth_type {
        SshAuthType::Password => match &profile.password_secret_id {
            Some(id) => Some(id.clone()),
            None => {
                let mut m = to_chars("SSH Profile ");
                push_str(&mut m, profile.name.as_str());
                push_str(&mut m, "(");
                push_str(&mut m, profile.id.as_str());
                push_str(&mut m, ") 缺少密码 secret");
                return Err(AppError::InvalidInput(from_chars(m.as_slice())));
            },
        },
        _ => None,
    };
    let passphrase_secret_id = match &profile.private_key_passphrase_secret_id {
        Some(id) => Some(id.clone()),
        None => None,
    };
    Ok(SecretPlan { password_secret_id, passphrase_secret_id })
}

/// How to authenticate.
#[derive(Debug, Clone)]
pub enum AuthStep {
    /// With the password (and, if the server refuses it, keyboard-interactive
    /// answering every prompt with it).
    Password { username: String, password: String },
    /// With the private key file and its passphrase.
    PublicKey { username: String, key_path: String, passphrase: Option<String> },
    /// With the SSH agent.
    Agent { username: String },
}

/// The authentication step of a profile with the loaded secrets: a
/// password is needed for password authentication, a key path that is not
/// blank for key authentication.
pub fn auth_step(profile: &SshProfileRuntimeConfig, password: Option<String>, passphrase: Option<String>) -> (r: Result<
    AuthStep,
    AppError,
>)
    ensures
        profile.auth_type is Password ==> match password {
            None => r matches Err(AppError::InvalidInput(m)) && m@ == "密码认证缺少密码"@,
            Some(p) => r matches Ok(AuthStep::Password { username, password: q }) && username == profile.username && q == p,
        },
        profile.auth_type is PrivateKey ==> match profile.private_key_path {
            Some(k) => if trim(k@).len() == 0 {
                r matches Err(AppError::InvalidInput(m)) && m@ == "私钥认证缺少私钥路径"@
            } else {
                r matches Ok(AuthStep::PublicKey { username, key_path, passphrase: pp }) && username == profile.username
                    && key_path == k && pp == passphrase
            },
            None => r matches Err(AppError::InvalidInput(m)) && m@ == "私钥认证缺少私钥路径"@,
        },
        profile.auth_type is Agent ==> (r matches Ok(AuthStep::Agent { username }) && username == profile.username),
{
    match profile.auth_type {
        SshAuthType::Password => match password {
            Some(p) => Ok(AuthStep::Password { username: profile.username.clone(), password: p }),
            None => Err(AppError::InvalidInput(to_owned_string("密码认证缺少密码"))),
        },
        SshAuthType::PrivateKey => match &profile.private_key_path {
            Some(k) => {
                let kv = to_chars(k.as_str());
                if trim_ws(kv.as_slice()).len() == 0 {
                    return Err(AppError::InvalidInput(to_owned_string("私钥认证缺少私钥路径")));
                }
                Ok(AuthStep::PublicKey { username: profile.username.clone(), key_path: k.clone(), passphrase })
            },
            None => Err(AppError::InvalidInput(to_owned_string("私钥认证缺少私钥路径"))),
        },
        SshAuthType::Agent => Ok(AuthStep::Agent { username: profile.username.clone() }),
    }
}

/// The refusal after both password and keyboard-interactive
/// authentication failed.
pub fn password_auth_failed(first: &str, second: &str) -> (r: AppError)
    ensures
        r matches AppError::InvalidInput(m) && m@ == "SSH 密码认证失败: "@ + first@ + "; keyboard-interactive 失败: "@
            + second@,
{
    let mut m = to_chars("SSH 密码认证失败: ");
    push_str(&mut m, first);
    push_str(&mut m, "; keyboard-interactive 失败: ");
    push_str(&mut m, second);
    AppError::InvalidInput(from_chars(m.as_slice()))
}

/// The answers to keyboard-interactive prompts: the password for each.
pub fn prompt_answers(password: &str, prompts: usize) -> (r: Vec<String>)
    ensures
        r@.len() == prompts,
        forall|i: int| 0 <= i < prompts ==> #[trigger] r@[i]@ == password@,
{
    let mut r: Vec<String> = Vec::new();
    let mut i: usize = 0;
    while i < prompts
        invariant
            i <= prompts,
            r@.len() == i,
            forall|k: int| 0 <= k < i ==> #[trigger] r@[k]@ == password@,
        decreases prompts - i,
    {
        r.push(to_owned_string(password));
        i = i + 1;
    }
    r
}

/// Whether the host key is checked at all: not in `insecure_skip` mode.
pub fn checks_host_key(mode: &str) -> (r: bool)
    ensures
        r == (mode@ != "insecure_skip"@),
{
    let v = to_chars(mode);
    !eq_str(v.as_slice(), "insecure_skip")
}

/// The `known_hosts` file configured for a profile, when it names one
/// that is not blank (otherwise the user's `~/.ssh/known_hosts`).
pub fn configured_known_hosts_path(profile: &SshProfileRuntimeConfig) -> (r: Option<String>)
    ensures
        match profile.known_hosts_path {
            Some(p) => if trim(p@).len() == 0 {
                r is None
            } else {
                r == Some(p)
            },
            None => r is None,
        },
{
    match &profile.known_hosts_path {
        Some(p) => {
            let v = to_chars(p.as_str());
            if trim_ws(v.as_slice()).len() == 0 {
                None
            } else {
                Some(p.clone())
            }
        },
        None => None,
    }
}

/// The error when no home directory is known for `known_hosts`.
pub fn no_home_for_known_hosts() -> (r: AppError)
    ensures
        r matches AppError::InvalidInput(m) && m@ == "无法定位用户主目录用于 known_hosts"@,
{
    AppError::InvalidInput(to_owned_string("无法定位用户主目录用于 known_hosts"))
}

/// The error when the server sent no host key.
pub fn missing_host_key() -> (r: AppError)
    ensures
        r matches AppError::InvalidInput(m) && m@ == "SSH 服务端没有返回 host key"@,
{
    AppError::InvalidInput(to_owned_string("SSH 服务端没有返回 host key"))
}

/// The error when an SSH host name gives no address.
pub fn unresolved_ssh_host(host: &str, port: u16) -> (r: AppError)
    ensures
        r matches AppError::InvalidInput(m) && m@ == "无法解析 SSH 主机: "@ + host@ + ":"@ + dec(port as nat),
{
    let mut m = to_chars("无法解析 SSH 主机: ");
    push_str(&mut m, host);
    push_str(&mut m, ":");
    let d = dec_u64(port as u64);
    push_chars(&mut m, d.as_slice());
    AppError::InvalidInput(from_chars(m.as_slice()))
}

} // verus!
