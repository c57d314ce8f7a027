//! What the desktop commands decide without touching the system: the
//! OpenSSH command line for a profile chain, the quoting that hands it to a
//! terminal, the LAN address shown to the user, and the texts of the
//! autostart and test results.

use crate::error::AppError;
use crate::headers::str_eq;
use crate::jumps::{normalized, normalized_optional, opt_string_view};
use crate::models::{AutostartStatus, SshProfileRuntimeConfig, TestResult};
use crate::text::{
    contains_char, dec, dec_u64, ends_with, from_chars, join, push_chars, push_str, replace,
    replace_str, starts_with, to_chars, trim, trim_ws, views,
};
use vstd::prelude::*;

verus! {

// ---------------------------------------------------------------------------
// Autostart
// ---------------------------------------------------------------------------

/// The autostart state shown to the user.
pub fn build_autostart_status(enabled: bool) -> (r: AutostartStatus)
    ensures
        r.enabled == enabled,
        r.supported,
        r.message@ == (if enabled { "已注册系统登录启动项。"@ } else { "未启用系统登录启动。"@ }),
{
    AutostartStatus {
        enabled,
        supported: true,
        message: if enabled {
            String::from_str("已注册系统登录启动项。")
        } else {
            String::from_str("未启用系统登录启动。")
        },
    }
}

// ---------------------------------------------------------------------------
// LAN address
// ---------------------------------------------------------------------------

/// An IPv4 address that makes sense to show as this machine's LAN address:
/// not unspecified, loopback, broadcast, multicast or link-local.
pub open spec fn usable_lan(ip: [u8; 4]) -> bool {
    let a = ip[0];
    let b = ip[1];
    &&& !(a == 0 && b == 0 && ip[2] == 0 && ip[3] == 0)
    &&& a != 127
    &&& !(a == 255 && b == 255 && ip[2] == 255 && ip[3] == 255)
    &&& !(224 <= a <= 239)
    &&& !(a == 169 && b == 254)
}

/// A private IPv4 address: 10/8, 172.16/12 or 192.168/16.
pub open spec fn private_ipv4(ip: [u8; 4]) -> bool {
    ip[0] == 10 || (ip[0] == 172 && 16 <= ip[1] <= 31) || (ip[0] == 192 && ip[1] == 168)
}

/// Whether an address is usable as the LAN address.
pub fn is_usable_lan_ipv4(ip: [u8; 4]) -> (r: bool)
    ensures
        r == usable_lan(ip),
{
    let a = ip[0];
    let b = ip[1];
    !(a == 0 && b == 0 && ip[2] == 0 && ip[3] == 0) && a != 127 && !(a == 255 && b == 255 && ip[2]
        == 255 && ip[3] == 255) && !(224 <= a && a <= 239) && !(a == 169 && b == 254)
}

/// `i` is the first index of a usable private address.
pub open spec fn first_private_at(c: Seq<[u8; 4]>, i: int) -> bool {
    &&& 0 <= i < c.len()
    &&& usable_lan(c[i]) && private_ipv4(c[i])
    &&& forall|j: int| 0 <= j < i ==> !(usable_lan(#[trigger] c[j]) && private_ipv4(c[j]))
}

/// `i` is the first index of a usable address.
pub open spec fn first_usable_at(c: Seq<[u8; 4]>, i: int) -> bool {
    &&& 0 <= i < c.len()
    &&& usable_lan(c[i])
    &&& forall|j: int| 0 <= j < i ==> !usable_lan(#[trigger] c[j])
}

/// The LAN address among candidates: the first usable private one, else
/// the first usable one.
pub open spec fn chosen_lan(c: Seq<[u8; 4]>) -> Option<[u8; 4]> {
    if exists|i: int| first_private_at(c, i) {
        Some(c[choose|i: int| first_private_at(c, i)])
    } else if exists|i: int| first_usable_at(c, i) {
        Some(c[choose|i: int| first_usable_at(c, i)])
    } else {
        None
    }
}

/// Chooses the LAN address among the addresses the machine would use.
pub fn choose_lan_ipv4(candidates: &[[u8; 4]]) -> (r: Option<[u8; 4]>)
    ensures
        r == chosen_lan(candidates@),
{
    let n = candidates.len();
    let mut fallback: Option<usize> = None;
    let mut i: usize = 0;
    while i < n
        invariant
            n == candidates@.len(),
            i <= n,
            forall|j: int| 0 <= j < i ==> !(usable_lan(#[trigger] candidates@[j]) && private_ipv4(candidates@[j])),
            match fallback {
                Some(k) => first_usable_at(candidates@, k as int) && k < i,
                None => forall|j: int| 0 <= j < i ==> !usable_lan(#[trigger] candidates@[j]),
            },
        decreases n - i,
    {
        let ip = candidates[i];
        if is_usable_lan_ipv4(ip) {
            let a = ip[0];
            let b = ip[1];
            if a == 10 || (a == 172 && 16 <= b && b <= 31) || (a == 192 && b == 168) {
                proof {
                    assert(first_private_at(candidates@, i as int));
                    let k = choose|k: int| first_private_at(candidates@, k);
                    if k < i {
                        assert(!(usable_lan(candidates@[k]) && private_ipv4(candidates@[k])));
                    } else if k > i {
                        assert(!(usable_lan(candidates@[i as int]) && private_ipv4(candidates@[i as int])));
                    }
                }
                return Some(ip);
            }
            if fallback.is_none() {
                fallback = Some(i);
            }
        }
        i = i + 1;
    }
    proof {
        if exists|j: int| first_private_at(candidates@, j) {
            let j = choose|j: int| first_private_at(candidates@, j);
            assert(!(usable_lan(candidates@[j]) && private_ipv4(candidates@[j])));
        }
    }
    match fallback {
        Some(k) => {
            proof {
                let c = choose|c: int| first_usable_at(candidates@, c);
                if c < k {
                    assert(!usable_lan(candidates@[c]));
                } else if c > k {
                    assert(!usable_lan(candidates@[k as int]));
                }
            }
            Some(candidates[k])
        },
        None => {
            proof {
                if exists|j: int| first_usable_at(candidates@, j) {
                    let j = choose|j: int| first_usable_at(candidates@, j);
                    assert(!usable_lan(candidates@[j]));
                }
            }
            None
        },
    }
}

// ---------------------------------------------------------------------------
// The OpenSSH command line
// ---------------------------------------------------------------------------

/// The `StrictHostKeyChecking` value of a known-hosts mode.
pub open spec fn host_key_checking(mode: Seq<char>) -> Option<Seq<char>> {
    if mode == "strict"@ {
        Some("yes"@)
    } else if mode == "accept_new"@ {
        Some("accept-new"@)
    } else if mode == "insecure_skip"@ {
        Some("no"@)
    } else {
        None
    }
}

/// An OpenSSH option: `-o` and `key=value`.
pub open spec fn ssh_option(key: Seq<char>, value: Seq<char>) -> Seq<Seq<char>> {
    seq!["-o"@, key + "="@ + value]
}

/// Milliseconds rounded up to whole seconds, at least one.
pub open spec fn ssh_seconds(ms: u64) -> nat {
    let s = if ms + 999 > u64::MAX { u64::MAX as nat } else { (ms + 999) as nat };
    if s / 1000 < 1 { 1 } else { s / 1000 }
}

/// Rounds milliseconds up to the seconds OpenSSH takes.
pub fn millis_to_ssh_seconds(value: u64) -> (r: u64)
    ensures
        r == ssh_seconds(value),
{
    let s: u64 = if value > u64::MAX - 999 { u64::MAX } else { value + 999 };
    let q = s / 1000;
    if q < 1 { 1 } else { q }
}

/// A host as OpenSSH takes it in a destination: an IPv6 address in
/// brackets unless it has them already.
pub open spec fn destination_host(host: Seq<char>) -> Seq<char> {
    if host.contains(':') && !(host.len() > 0 && host[0] == '[' && host.last() == ']') {
        "["@ + host + "]"@
    } else {
        host
    }
}

/// Puts brackets around an IPv6 host.
pub fn ssh_host_for_destination(host: &str) -> (r: String)
    ensures
        r@ == destination_host(host@),
{
    let v = to_chars(host);
    let n = v.len();
    let bracketed = n > 0 && v[0] == '[' && v[n - 1] == ']';
    if contains_char(v.as_slice(), ':') && !bracketed {
        let mut acc: Vec<char> = Vec::new();
        push_str(&mut acc, "[");
        push_chars(&mut acc, v.as_slice());
        push_str(&mut acc, "]");
        from_chars(acc.as_slice())
    } else {
        String::from_str(host)
    }
}

/// `user@host` of a profile, or the message of what is missing.
pub open spec fn user_host(p: SshProfileRuntimeConfig) -> Result<Seq<char>, Seq<char>> {
    let u = trim(p.username@);
    let h = trim(p.host@);
    if u.len() == 0 {
        Err("SSH 用户名不能为空"@)
    } else if h.len() == 0 {
        Err("SSH 主机不能为空"@)
    } else {
        Ok(u + "@"@ + destination_host(h))
    }
}

/// Writes `user@host` for a profile.
pub fn ssh_user_host_destination(profile: &SshProfileRuntimeConfig) -> (r: Result<String, AppError>)
    ensures
        match user_host(*profile) {
            Ok(d) => r matches Ok(s) && s@ == d,
            Err(m) => r matches Err(AppError::InvalidInput(x)) && x@ == m,
        },
{
    let uv = to_chars(profile.username.as_str());
    let u = trim_ws(uv.as_slice());
    let hv = to_chars(profile.host.as_str());
    let h = trim_ws(hv.as_slice());
    if u.len() == 0 {
        return Err(AppError::InvalidInput(String::from_str("SSH 用户名不能为空")));
    }
    if h.len() == 0 {
        return Err(AppError::InvalidInput(String::from_str("SSH 主机不能为空")));
    }
    let hs = from_chars(h.as_slice());
    let host = ssh_host_for_destination(hs.as_str());
    let mut acc: Vec<char> = Vec::new();
    push_chars(&mut acc, u.as_slice());
    push_str(&mut acc, "@");
    push_str(&mut acc, host.as_str());
    Ok(from_chars(acc.as_slice()))
}

/// `user@host:port` of a jump profile.
pub open spec fn jump_destination(p: SshProfileRuntimeConfig) -> Result<Seq<char>, Seq<char>> {
    match user_host(p) {
        Ok(d) => Ok(d + ":"@ + dec(p.port as nat)),
        Err(m) => Err(m),
    }
}

/// Writes the destination of a jump profile.
pub fn ssh_jump_destination(profile: &SshProfileRuntimeConfig) -> (r: Result<String, AppError>)
    ensures
        match jump_destination(*profile) {
            Ok(d) => r matches Ok(s) && s@ == d,
            Err(m) => r matches Err(AppError::InvalidInput(x)) && x@ == m,
        },
{
    let d = match ssh_user_host_destination(profile) {
        Ok(d) => d,
        Err(e) => return Err(e),
    };
    let mut acc = to_chars(d.as_str());
    push_str(&mut acc, ":");
    let p = dec_u64(profile.port as u64);
    push_chars(&mut acc, p.as_slice());
    Ok(from_chars(acc.as_slice()))
}

/// A value trimmed, absent when blank.
pub fn non_empty(value: Option<&str>) -> (r: Option<String>)
    ensures
        opt_string_view(r) == normalized(crate::jumps::opt_str_view(value)),
{
    normalized_optional(value)
}

/// The known-hosts options of a profile, or the message of an unknown mode.
pub open spec fn known_hosts_options(p: SshProfileRuntimeConfig) -> Result<Seq<Seq<char>>, Seq<char>> {
    match host_key_checking(p.known_hosts_mode@) {
        None => Err("未知 known_hosts 校验模式: "@ + p.known_hosts_mode@),
        Some(v) => Ok(ssh_option("StrictHostKeyChecking"@, v) + match normalized(opt_string_view(p.known_hosts_path)) {
            Some(path) => ssh_option("UserKnownHostsFile"@, path),
            None => Seq::empty(),
        }),
    }
}

/// `-i` and the key path of each profile that names one, in chain order.
pub open spec fn key_args(chain: Seq<SshProfileRuntimeConfig>) -> Seq<Seq<char>>
    decreases chain.len(),
{
    if chain.len() == 0 {
        Seq::empty()
    } else {
        key_args(chain.drop_last()) + match normalized(opt_string_view(chain.last().private_key_path)) {
            Some(path) => seq!["-i"@, path],
            None => Seq::empty(),
        }
    }
}

/// The destinations of jump profiles, or the first message of what is
/// missing.
pub open spec fn jump_destinations(chain: Seq<SshProfileRuntimeConfig>) -> Result<Seq<Seq<char>>, Seq<char>>
    decreases chain.len(),
{
    if chain.len() == 0 {
        Ok(Seq::empty())
    } else {
        match jump_destinations(chain.drop_last()) {
            Err(m) => Err(m),
            Ok(ds) => match jump_destination(chain.last()) {
                Err(m) => Err(m),
                Ok(d) => Ok(ds.push(d)),
            },
        }
    }
}

/// The OpenSSH arguments that connect through a chain of profiles (first
/// hop first, target last): the target's port, known-hosts and timing
/// options, every key, the jump hosts, and the target's destination. The
/// error is the message of the first thing missing.
pub open spec fn terminal_args(chain: Seq<SshProfileRuntimeConfig>) -> Result<Seq<Seq<char>>, Seq<char>> {
    if chain.len() == 0 {
        Err("SSH 连接链不能为空"@)
    } else {
        let t = chain.last();
        match known_hosts_options(t) {
            Err(m) => Err(m),
            Ok(kh) => {
                let timing = (if t.connect_timeout_ms > 0 {
                    ssh_option("ConnectTimeout"@, dec(ssh_seconds(t.connect_timeout_ms)))
                } else {
                    Seq::empty()
                }) + (if t.keepalive_interval_ms > 0 {
                    ssh_option("ServerAliveInterval"@, dec(ssh_seconds(t.keepalive_interval_ms)))
                } else {
                    Seq::empty()
                });
                let jumps: Result<Seq<Seq<char>>, Seq<char>> = if chain.len() > 1 {
                    match jump_destinations(chain.drop_last()) {
                        Err(m) => Err(m),
                        Ok(ds) => Ok(seq!["-J"@, join(ds, ","@)]),
                    }
                } else {
                    Ok(Seq::empty())
                };
                match jumps {
                    Err(m) => Err(m),
                    Ok(j) => match user_host(t) {
                        Err(m) => Err(m),
                        Ok(d) => Ok(seq!["-p"@, dec(t.port as nat)] + kh + timing + key_args(chain) + j + seq![d]),
                    },
                }
            },
        }
    }
}

fn push_string(args: &mut Vec<String>, s: &str)
    ensures
        crate::text::string_views(final(args)@) == crate::text::string_views(old(args)@).push(s@),
{
    let ghost before = crate::text::string_views(args@);
    args.push(String::from_str(s));
    assert(crate::text::string_views(args@) =~= before.push(s@));
}

/// Adds an OpenSSH option.
pub fn append_ssh_option(args: &mut Vec<String>, key: &str, value: &str)
    ensures
        crate::text::string_views(final(args)@) == crate::text::string_views(old(args)@) + ssh_option(key@, value@),
{
    let ghost before = crate::text::string_views(args@);
    push_string(args, "-o");
    let mut acc = to_chars(key);
    push_str(&mut acc, "=");
    push_str(&mut acc, value);
    let s = from_chars(acc.as_slice());
    push_string(args, s.as_str());
    assert(crate::text::string_views(args@) =~= before + ssh_option(key@, value@));
}

/// Adds the known-hosts options of a profile.
pub fn append_known_hosts_options(args: &mut Vec<String>, profile: &SshProfileRuntimeConfig) -> (r: Result<(), AppError>)
    ensures
        match known_hosts_options(*profile) {
            Ok(o) => r is Ok && crate::text::string_views(final(args)@) == crate::text::string_views(old(args)@) + o,
            Err(m) => r matches Err(AppError::InvalidInput(x)) && x@ == m,
        },
{
    let mode = profile.known_hosts_mode.as_str();
    let flag = if str_eq(mode, "strict") {
        "yes"
    } else if str_eq(mode, "accept_new") {
        "accept-new"
    } else if str_eq(mode, "insecure_skip") {
        "no"
    } else {
        let mut acc = to_chars("未知 known_hosts 校验模式: ");
        push_str(&mut acc, mode);
        return Err(AppError::InvalidInput(from_chars(acc.as_slice())));
    };
    let ghost before = crate::text::string_views(args@);
    append_ssh_option(args, "StrictHostKeyChecking", flag);
    let path = match &profile.known_hosts_path {
        Some(p) => non_empty(Some(p.as_str())),
        None => None,
    };
    match path {
        Some(p) => {
            append_ssh_option(args, "UserKnownHostsFile", p.as_str());
        },
        None => {},
    }
    assert(crate::text::string_views(args@) =~= before + known_hosts_options(*profile)->Ok_0);
    Ok(())
}

/// Builds the OpenSSH arguments for a chain of profiles.
pub fn ssh_terminal_args(chain: &[SshProfileRuntimeConfig]) -> (r: Result<Vec<String>, AppError>)
    ensures
        match terminal_args(chain@) {
            Ok(a) => r matches Ok(v) && crate::text::string_views(v@) == a,
            Err(m) => r matches Err(AppError::InvalidInput(x)) && x@ == m,
        },
{
    let n = chain.len();
    if n == 0 {
        return Err(AppError::InvalidInput(String::from_str("SSH 连接链不能为空")));
    }
    let target = &chain[n - 1];
    assert(chain@.last() == *target);
    let mut args: Vec<String> = Vec::new();
    push_string(&mut args, "-p");
    let port = crate::text::u64_string(target.port as u64);
    push_string(&mut args, port.as_str());
    match append_known_hosts_options(&mut args, target) {
        Ok(()) => {},
        Err(e) => return Err(e),
    }
    if target.connect_timeout_ms > 0 {
        let s = crate::text::u64_string(millis_to_ssh_seconds(target.connect_timeout_ms));
        append_ssh_option(&mut args, "ConnectTimeout", s.as_str());
    }
    if target.keepalive_interval_ms > 0 {
        let s = crate::text::u64_string(millis_to_ssh_seconds(target.keepalive_interval_ms));
        append_ssh_option(&mut args, "ServerAliveInterval", s.as_str());
    }
    let ghost before_keys = crate::text::string_views(args@);
    let mut i: usize = 0;
    assert(chain@.take(0) =~= Seq::<SshProfileRuntimeConfig>::empty());
    assert(before_keys + key_args(chain@.take(0)) =~= before_keys);
    while i < n
        invariant
            n == chain@.len(),
            i <= n,
            crate::text::string_views(args@) == before_keys + key_args(chain@.take(i as int)),
        decreases n - i,
    {
        assert(chain@.take(i + 1).drop_last() =~= chain@.take(i as int));
        assert(chain@.take(i + 1).last() == chain@[i as int]);
        let path = match &chain[i].private_key_path {
            Some(p) => non_empty(Some(p.as_str())),
            None => None,
        };
        match path {
            Some(p) => {
                push_string(&mut args, "-i");
                push_string(&mut args, p.as_str());
            },
            None => {},
        }
        i = i + 1;
    }
    assert(chain@.take(n as int) =~= chain@);
    let ghost before_jumps = crate::text::string_views(args@);
    if n > 1 {
        let mut dests: Vec<Vec<char>> = Vec::new();
        let mut k: usize = 0;
        let ghost jumps = chain@.drop_last();
        assert(jumps.take(0) =~= Seq::<SshProfileRuntimeConfig>::empty());
        assert(views(dests@) =~= Seq::<Seq<char>>::empty());
        while k < n - 1
            invariant
                n == chain@.len(),
                n > 1,
                jumps == chain@.drop_last(),
                known_hosts_options(chain@.last()) is Ok,
                k <= n - 1,
                jump_destinations(jumps.take(k as int)) == Ok::<Seq<Seq<char>>, Seq<char>>(views(dests@)),
            decreases n - 1 - k,
        {
            assert(jumps.take(k + 1).drop_last() =~= jumps.take(k as int));
            assert(jumps.take(k + 1).last() == chain@[k as int]);
            match ssh_jump_destination(&chain[k]) {
                Ok(d) => {
                    let ghost before = views(dests@);
                    dests.push(to_chars(d.as_str()));
                    assert(views(dests@) =~= before.push(d@));
                },
                Err(e) => {
                    proof {
                        lemma_jump_error_persists(jumps, k as int + 1);
                    }
                    return Err(e);
                },
            }
            k = k + 1;
        }
        assert(jumps.take((n - 1) as int) =~= jumps);
        push_string(&mut args, "-J");
        let comma = to_chars(",");
        let joined = crate::text::join_with(&dests, comma.as_slice());
        let js = from_chars(joined.as_slice());
        push_string(&mut args, js.as_str());
    }
    let dest = match ssh_user_host_destination(target) {
        Ok(d) => d,
        Err(e) => return Err(e),
    };
    push_string(&mut args, dest.as_str());
    proof {
        let kh = known_hosts_options(*target)->Ok_0;
        assert(crate::text::string_views(args@) =~= terminal_args(chain@)->Ok_0);
    }
    Ok(args)
}

proof fn lemma_jump_error_persists(jumps: Seq<SshProfileRuntimeConfig>, k: int)
    requires
        0 < k <= jumps.len(),
        jump_destinations(jumps.take(k)) is Err,
    ensures
        jump_destinations(jumps) == jump_destinations(jumps.take(k)),
    decreases jumps.len() - k,
{
    if k < jumps.len() {
        assert(jumps.drop_last().take(k) =~= jumps.take(k));
        lemma_jump_error_persists(jumps.drop_last(), k);
    } else {
        assert(jumps.take(k) =~= jumps);
    }
}

/// What the user is told after a terminal was asked to connect.
pub fn terminal_opened_message(target: &SshProfileRuntimeConfig) -> (r: String)
    ensures
        r@ == "已请求系统终端连接 "@ + target.username@ + "@"@ + target.host@ + ":"@ + dec(target.port as nat) + "。"@,
{
    let mut acc = to_chars("已请求系统终端连接 ");
    push_str(&mut acc, target.username.as_str());
    push_str(&mut acc, "@");
    push_str(&mut acc, target.host.as_str());
    push_str(&mut acc, ":");
    let p = dec_u64(target.port as u64);
    push_chars(&mut acc, p.as_slice());
    push_str(&mut acc, "。");
    from_chars(acc.as_slice())
}

// ---------------------------------------------------------------------------
// Handing the command line to a terminal
// ---------------------------------------------------------------------------

/// A PowerShell single-quoted string.
pub open spec fn powershell_quoted(value: Seq<char>) -> Seq<char> {
    "'"@ + replace(value, "'"@, "''"@) + "'"@
}

/// Quotes a string for PowerShell.
pub fn powershell_quote(value: &str) -> (r: String)
    ensures
        r@ == powershell_quoted(value@),
{
    proof {
        reveal_strlit("'");
    }
    let v = to_chars(value);
    let body = replace_str(v.as_slice(), "'", "''");
    let mut acc = to_chars("'");
    push_chars(&mut acc, body.as_slice());
    push_str(&mut acc, "'");
    from_chars(acc.as_slice())
}

/// Each argument quoted with `q`.
pub open spec fn quoted_all(args: Seq<Seq<char>>, q: spec_fn(Seq<char>) -> Seq<char>) -> Seq<Seq<char>> {
    Seq::new(args.len(), |i: int| q(args[i]))
}

/// The PowerShell command that runs `ssh` with the arguments.
pub open spec fn powershell_command(args: Seq<Seq<char>>) -> Seq<char> {
    join(seq!["&"@, powershell_quoted("ssh"@)] + quoted_all(args, |x: Seq<char>| powershell_quoted(x)), " "@)
}

/// Builds the PowerShell command that runs `ssh`.
pub fn powershell_ssh_command(ssh_args: &[String]) -> (r: String)
    ensures
        r@ == powershell_command(crate::text::string_views(ssh_args@)),
{
    let mut parts: Vec<Vec<char>> = Vec::new();
    parts.push(to_chars("&"));
    let s = powershell_quote("ssh");
    parts.push(to_chars(s.as_str()));
    let ghost head = views(parts@);
    let n = ssh_args.len();
    let mut i: usize = 0;
    while i < n
        invariant
            n == ssh_args@.len(),
            i <= n,
            views(parts@) == head + quoted_all(crate::text::string_views(ssh_args@).take(i as int), |x: Seq<char>| powershell_quoted(x)),
        decreases n - i,
    {
        let q = powershell_quote(ssh_args[i].as_str());
        let ghost before = views(parts@);
        parts.push(to_chars(q.as_str()));
        proof {
            assert(views(parts@) =~= before.push(q@));
            assert(quoted_all(crate::text::string_views(ssh_args@).take(i + 1), |x: Seq<char>| powershell_quoted(x)) =~= quoted_all(
                crate::text::string_views(ssh_args@).take(i as int),
                |x: Seq<char>| powershell_quoted(x),
            ).push(powershell_quoted(ssh_args@[i as int]@)));
        }
        i = i + 1;
    }
    assert(crate::text::string_views(ssh_args@).take(n as int) =~= crate::text::string_views(ssh_args@));
    assert(head =~= seq!["&"@, powershell_quoted("ssh"@)]);
    let sep = to_chars(" ");
    let joined = crate::text::join_with(&parts, sep.as_slice());
    from_chars(joined.as_slice())
}

/// An AppleScript string literal.
pub open spec fn apple_script_quoted(value: Seq<char>) -> Seq<char> {
    "\""@ + replace(replace(value, "\\"@, "\\\\"@), "\""@, "\\\""@) + "\""@
}

/// Quotes a string for AppleScript.
pub fn apple_script_quote(value: &str) -> (r: String)
    ensures
        r@ == apple_script_quoted(value@),
{
    proof {
        reveal_strlit("\\");
        reveal_strlit("\"");
    }
    let v = to_chars(value);
    let a = replace_str(v.as_slice(), "\\", "\\\\");
    let b = replace_str(a.as_slice(), "\"", "\\\"");
    let mut acc = to_chars("\"");
    push_chars(&mut acc, b.as_slice());
    push_str(&mut acc, "\"");
    from_chars(acc.as_slice())
}

/// A POSIX shell single-quoted word; `''` for the empty string.
pub open spec fn posix_quoted(value: Seq<char>) -> Seq<char> {
    if value.len() == 0 {
        "''"@
    } else {
        "'"@ + replace(value, "'"@, "'\"'\"'"@) + "'"@
    }
}

/// Quotes a word for a POSIX shell.
pub fn posix_shell_quote(value: &str) -> (r: String)
    ensures
        r@ == posix_quoted(value@),
{
    proof {
        reveal_strlit("'");
    }
    let v = to_chars(value);
    if v.len() == 0 {
        return String::from_str("''");
    }
    let body = replace_str(v.as_slice(), "'", "'\"'\"'");
    let mut acc = to_chars("'");
    push_chars(&mut acc, body.as_slice());
    push_str(&mut acc, "'");
    from_chars(acc.as_slice())
}

/// The shell command line that runs a program with arguments.
pub open spec fn posix_command(program: Seq<char>, args: Seq<Seq<char>>) -> Seq<char> {
    join(seq![posix_quoted(program)] + quoted_all(args, |x: Seq<char>| posix_quoted(x)), " "@)
}

/// Builds a shell command line.
pub fn posix_shell_command(program: &str, args: &[String]) -> (r: String)
    ensures
        r@ == posix_command(program@, crate::text::string_views(args@)),
{
    let mut parts: Vec<Vec<char>> = Vec::new();
    let p = posix_shell_quote(program);
    parts.push(to_chars(p.as_str()));
    let ghost head = views(parts@);
    let n = args.len();
    let mut i: usize = 0;
    while i < n
        invariant
            n == args@.len(),
            i <= n,
            views(parts@) == head + quoted_all(crate::text::string_views(args@).take(i as int), |x: Seq<char>| posix_quoted(x)),
        decreases n - i,
    {
        let q = posix_shell_quote(args[i].as_str());
        let ghost before = views(parts@);
        parts.push(to_chars(q.as_str()));
        proof {
            assert(views(parts@) =~= before.push(q@));
            assert(quoted_all(crate::text::string_views(args@).take(i + 1), |x: Seq<char>| posix_quoted(x)) =~= quoted_all(
                crate::text::string_views(args@).take(i as int),
                |x: Seq<char>| posix_quoted(x),
            ).push(posix_quoted(args@[i as int]@)));
        }
        i = i + 1;
    }
    assert(crate::text::string_views(args@).take(n as int) =~= crate::text::string_views(args@));
    assert(head =~= seq![posix_quoted(program@)]);
    let sep = to_chars(" ");
    let joined = crate::text::join_with(&parts, sep.as_slice());
    from_chars(joined.as_slice())
}

fn prefixed_args(first: &str, ssh_args: &[String]) -> (r: Vec<String>)
    ensures
        crate::text::string_views(r@) == seq![first@, "ssh"@] + crate::text::string_views(ssh_args@),
{
    let mut args: Vec<String> = Vec::new();
    push_string(&mut args, first);
    push_string(&mut args, "ssh");
    let ghost head = crate::text::string_views(args@);
    let n = ssh_args.len();
    let mut i: usize = 0;
    while i < n
        invariant
            n == ssh_args@.len(),
            i <= n,
            crate::text::string_views(args@) == head + crate::text::string_views(ssh_args@).take(i as int),
        decreases n - i,
    {
        let ghost before = crate::text::string_views(args@);
        args.push(ssh_args[i].clone());
        assert(crate::text::string_views(args@) =~= before.push(ssh_args@[i as int]@));
        assert(crate::text::string_views(ssh_args@).take(i + 1) =~= crate::text::string_views(ssh_args@).take(i as int).push(ssh_args@[i as int]@));
        i = i + 1;
    }
    assert(crate::text::string_views(ssh_args@).take(n as int) =~= crate::text::string_views(ssh_args@));
    args
}

/// `-e ssh ...`: the arguments of terminals that take a command after `-e`.
pub fn terminal_e_args(ssh_args: &[String]) -> (r: Vec<String>)
    ensures
        crate::text::string_views(r@) == seq!["-e"@, "ssh"@] + crate::text::string_views(ssh_args@),
{
    prefixed_args("-e", ssh_args)
}

/// `-- ssh ...`: the arguments of terminals that take a command after `--`.
pub fn terminal_dash_dash_args(ssh_args: &[String]) -> (r: Vec<String>)
    ensures
        crate::text::string_views(r@) == seq!["--"@, "ssh"@] + crate::text::string_views(ssh_args@),
{
    prefixed_args("--", ssh_args)
}

/// The `osascript` arguments that open Terminal on macOS and run `ssh`.
pub fn macos_terminal_args(ssh_args: &[String]) -> (r: Vec<String>)
    ensures
        crate::text::string_views(r@) == seq![
            "-e"@,
            "tell application \"Terminal\" to do script "@ + apple_script_quoted(posix_command("ssh"@, crate::text::string_views(ssh_args@))),
            "-e"@,
            "tell application \"Terminal\" to activate"@,
        ],
{
    let line = posix_shell_command("ssh", ssh_args);
    let q = apple_script_quote(line.as_str());
    let mut script = to_chars("tell application \"Terminal\" to do script ");
    push_str(&mut script, q.as_str());
    let s = from_chars(script.as_slice());
    let mut args: Vec<String> = Vec::new();
    push_string(&mut args, "-e");
    push_string(&mut args, s.as_str());
    push_string(&mut args, "-e");
    push_string(&mut args, "tell application \"Terminal\" to activate");
    args
}

/// The PowerShell arguments that open a window running `ssh`.
pub fn powershell_terminal_args(ssh_args: &[String]) -> (r: Vec<String>)
    ensures
        crate::text::string_views(r@) == seq![
            "-NoExit"@,
            "-ExecutionPolicy"@,
            "Bypass"@,
            "-Command"@,
            powershell_command(crate::text::string_views(ssh_args@)),
        ],
{
    let c = powershell_ssh_command(ssh_args);
    let mut args: Vec<String> = Vec::new();
    push_string(&mut args, "-NoExit");
    push_string(&mut args, "-ExecutionPolicy");
    push_string(&mut args, "Bypass");
    push_string(&mut args, "-Command");
    push_string(&mut args, c.as_str());
    args
}

// ---------------------------------------------------------------------------
// Testing a service
// ---------------------------------------------------------------------------

/// How a service's configuration is tested.
pub enum TestPlan {
    /// Try a TCP connection within the time; on success report the message.
    Connect { addr: String, timeout_ms: u64, message: String },
    /// Nothing to try; report the message.
    Report(String),
}

/// The outcome of planning a test, as plain values.
pub enum TestPlanView {
    Connect(Seq<char>, u64, Seq<char>),
    Report(Seq<char>),
    Invalid(Seq<char>),
    BadUrl,
}

/// How a service is tested, by the first settings it has: a reverse
/// proxy's target host and port, a TCP target, or a message for the rest.
pub open spec fn test_plan(detail: crate::models::ServiceDetail) -> TestPlanView {
    if detail.http_reverse is Some {
        let cfg = detail.http_reverse->0;
        let t = cfg.target_url@;
        if !crate::urls::url_parses(t) {
            TestPlanView::BadUrl
        } else if crate::urls::url_host(t) is None {
            TestPlanView::Invalid("目标 URL 缺少 host"@)
        } else if crate::urls::url_port(t) is None {
            TestPlanView::Invalid("目标 URL 缺少端口且无法根据 scheme 推断"@)
        } else {
            TestPlanView::Connect(
                crate::urls::url_host(t)->0 + ":"@ + dec(crate::urls::url_port(t)->0 as nat),
                if cfg.request_timeout_ms < 10000 { cfg.request_timeout_ms } else { 10000 },
                "HTTP 反向代理目标端口可达"@,
            )
        }
    } else if detail.http_forward is Some {
        TestPlanView::Report("HTTP forward 配置有效，可启动后用浏览器或 curl 验证"@)
    } else if detail.tcp_forward is Some {
        let cfg = detail.tcp_forward->0;
        TestPlanView::Connect(cfg.target_host@ + ":"@ + dec(cfg.target_port as nat), cfg.connect_timeout_ms, "TCP 目标端口可达"@)
    } else if detail.udp_forward is Some {
        let cfg = detail.udp_forward->0;
        TestPlanView::Report("UDP 目标 "@ + cfg.target_host@ + ":"@ + dec(cfg.target_port as nat) + " 已通过配置校验"@)
    } else if detail.ssh_tunnel is Some {
        TestPlanView::Report("SSH 隧道配置已保存，启动时会建立隧道"@)
    } else {
        TestPlanView::Invalid("服务缺少类型专用配置"@)
    }
}

/// Whether a planned test stands for its plain form.
pub open spec fn plan_is(r: Result<TestPlan, AppError>, v: TestPlanView) -> bool {
    match v {
        TestPlanView::Connect(a, t, m) => r matches Ok(TestPlan::Connect { addr, timeout_ms, message })
            && addr@ == a && timeout_ms == t && message@ == m,
        TestPlanView::Report(m) => r matches Ok(TestPlan::Report(x)) && x@ == m,
        TestPlanView::Invalid(m) => r matches Err(AppError::InvalidInput(x)) && x@ == m,
        TestPlanView::BadUrl => r matches Err(AppError::Url(_)),
    }
}

fn host_port_text(host: &str, port: u16) -> (r: String)
    ensures
        r@ == host@ + ":"@ + dec(port as nat),
{
    let mut acc = to_chars(host);
    push_str(&mut acc, ":");
    let p = dec_u64(port as u64);
    push_chars(&mut acc, p.as_slice());
    from_chars(acc.as_slice())
}

/// Plans the test of a service's configuration.
pub fn service_test_plan(detail: &crate::models::ServiceDetail) -> (r: Result<TestPlan, AppError>)
    ensures
        plan_is(r, test_plan(*detail)),
{
    if let Some(cfg) = &detail.http_reverse {
        let (host, port) = match crate::urls::parse_url_host_port(cfg.target_url.as_str()) {
            Ok(hp) => hp,
            Err(m) => return Err(AppError::Url(m)),
        };
        let host = match host {
            Some(h) => h,
            None => return Err(AppError::InvalidInput(String::from_str("目标 URL 缺少 host"))),
        };
        let port = match port {
            Some(p) => p,
            None => return Err(AppError::InvalidInput(String::from_str("目标 URL 缺少端口且无法根据 scheme 推断"))),
        };
        let timeout_ms: u64 = if cfg.request_timeout_ms < 10000 { cfg.request_timeout_ms } else { 10000 };
        return Ok(TestPlan::Connect {
            addr: host_port_text(host.as_str(), port),
            timeout_ms,
            message: String::from_str("HTTP 反向代理目标端口可达"),
        });
    }
    if detail.http_forward.is_some() {
        return Ok(TestPlan::Report(String::from_str("HTTP forward 配置有效，可启动后用浏览器或 curl 验证")));
    }
    if let Some(cfg) = &detail.tcp_forward {
        return Ok(TestPlan::Connect {
            addr: host_port_text(cfg.target_host.as_str(), cfg.target_port),
            timeout_ms: cfg.connect_timeout_ms,
            message: String::from_str("TCP 目标端口可达"),
        });
    }
    if let Some(cfg) = &detail.udp_forward {
        let mut acc = to_chars("UDP 目标 ");
        let hp = host_port_text(cfg.target_host.as_str(), cfg.target_port);
        push_str(&mut acc, hp.as_str());
        push_str(&mut acc, " 已通过配置校验");
        assert(acc@ =~= "UDP 目标 "@ + cfg.target_host@ + ":"@ + dec(cfg.target_port as nat) + " 已通过配置校验"@);
        return Ok(TestPlan::Report(from_chars(acc.as_slice())));
    }
    if detail.ssh_tunnel.is_some() {
        return Ok(TestPlan::Report(String::from_str("SSH 隧道配置已保存，启动时会建立隧道")));
    }
    Err(AppError::InvalidInput(String::from_str("服务缺少类型专用配置")))
}

/// The error of a connection attempt that ran out of time.
pub fn connect_timeout_error(addr: &str) -> (e: AppError)
    ensures
        e matches AppError::Message(m) && m@ == "连接 "@ + addr@ + " 超时"@,
{
    let mut acc = to_chars("连接 ");
    push_str(&mut acc, addr);
    push_str(&mut acc, " 超时");
    AppError::Message(from_chars(acc.as_slice()))
}

/// The result shown for a test: its message on success, the error's text
/// otherwise.
pub fn test_result(outcome: Result<String, AppError>, duration_ms: u64) -> (r: TestResult)
    ensures
        r.duration_ms == duration_ms,
        match outcome {
            Ok(m) => r.ok && r.message@ == m@,
            Err(e) => !r.ok && r.message@ == e.label() + e.detail(),
        },
{
    match outcome {
        Ok(message) => TestResult { ok: true, message, duration_ms },
        Err(e) => TestResult { ok: false, message: e.message(), duration_ms },
    }
}

} // verus!
