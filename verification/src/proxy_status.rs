//! What setting, clearing and reading the system proxy do on each platform
//! around the commands: the Windows registry commands and the parsing of
//! `reg query` output, the commands that read the macOS and GNOME settings,
//! and the status each platform reports. Running the commands, and reading
//! or writing the Linux environment file, stay with the caller.

use crate::error::AppError;
use crate::models::{SystemProxyStatus, SystemProxyTarget};
use crate::system_proxy::{
    bypass_lines, env_proxy_fields, gsettings_array_items, gsettings_unquote, parse_gsettings_string,
    parse_gsettings_string_array, parse_linux_env_proxy, parse_macos_bypass_output,
    parse_macos_services, service_lines, CommandSpec, CommandView,
};
use crate::text::{
    dec, dec_u64, find_seq, from_chars, is_whitespace, is_ws, join, join_strings, lines, lines_of,
    occurs_at, parse_u16, parse_unsigned, push_chars, push_str, rsplit_once, rsplit_once_char,
    str_views, string_from_utf8_lossy, string_views, strip_prefix, strip_prefix_of, to_chars,
    to_owned_string, trim, trim_ws, utf8_lossy, views,
};
use vstd::prelude::*;

verus! {

/// A status from its parts.
fn status(enabled: bool, host: String, port: Option<u16>, bypass: String, message: &str) -> (r:
    SystemProxyStatus)
    ensures
        r.enabled == enabled,
        r.proxy_host == host,
        r.proxy_port == port,
        r.bypass == bypass,
        r.message@ == message@,
{
    SystemProxyStatus {
        enabled,
        proxy_host: host,
        proxy_port: port,
        bypass,
        message: to_owned_string(message),
    }
}

/// The status with nothing set and the message.
pub open spec fn is_off(st: SystemProxyStatus, message: Seq<char>) -> bool {
    &&& !st.enabled
    &&& st.proxy_host@ == Seq::<char>::empty()
    &&& st.proxy_port is None
    &&& st.bypass@ == Seq::<char>::empty()
    &&& st.message@ == message
}

/// The status of a proxy that is set.
pub open spec fn is_on(st: SystemProxyStatus, host: Seq<char>, port: Option<u16>, bypass: Seq<char>, message: Seq<char>) -> bool {
    &&& st.enabled
    &&& st.proxy_host@ == host
    &&& st.proxy_port == port
    &&& st.bypass@ == bypass
    &&& st.message@ == message
}

fn off_status(message: &str) -> (r: SystemProxyStatus)
    ensures
        is_off(r, message@),
{
    let h = String::new();
    let b = String::new();
    proof {
        assert(h@ =~= Seq::<char>::empty());
        assert(b@ =~= Seq::<char>::empty());
    }
    status(false, h, None, b, message)
}

// ---------------------------------------------------------------------------
// Running commands
// ---------------------------------------------------------------------------

/// The text a command printed (bytes that are not UTF-8 replaced).
pub fn command_output(stdout: &[u8]) -> (r: String)
    ensures
        r@ == utf8_lossy(stdout@),
{
    string_from_utf8_lossy(stdout)
}

/// The error of a command that exited with a failure: the program and
/// what it printed on standard error, trimmed.
pub fn command_failure(program: &str, stderr: &[u8]) -> (r: AppError)
    ensures
        r matches AppError::Message(m) && m@ == program@ + " 执行失败: "@ + trim(utf8_lossy(stderr@)),
{
    let text = string_from_utf8_lossy(stderr);
    let tv = to_chars(text.as_str());
    let t = trim_ws(tv.as_slice());
    let mut acc = to_chars(program);
    push_str(&mut acc, " 执行失败: ");
    push_chars(&mut acc, t.as_slice());
    AppError::Message(from_chars(acc.as_slice()))
}

// ---------------------------------------------------------------------------
// Windows
// ---------------------------------------------------------------------------

/// The registry key of the Internet settings.
pub const WINDOWS_PROXY_KEY: &'static str = "HKCU\\Software\\Microsoft\\Windows\\CurrentVersion\\Internet Settings";

/// `reg.exe add <key> /v <name> /t <type> /d <data> /f`.
pub open spec fn reg_add(name: Seq<char>, typ: Seq<char>, data: Seq<char>) -> CommandView {
    (
        "reg.exe"@,
        seq!["add"@, WINDOWS_PROXY_KEY@, "/v"@, name, "/t"@, typ, "/d"@, data, "/f"@],
    )
}

fn reg_add_command(name: &str, typ: &str, data: String) -> (r: CommandSpec)
    ensures
        r@ == reg_add(name@, typ@, data@),
{
    let args = vec![
        to_owned_string("add"),
        to_owned_string(WINDOWS_PROXY_KEY),
        to_owned_string("/v"),
        to_owned_string(name),
        to_owned_string("/t"),
        to_owned_string(typ),
        to_owned_string("/d"),
        data,
        to_owned_string("/f"),
    ];
    let r = CommandSpec::with_args("reg.exe", args);
    assert(r@.1 =~= reg_add(name@, typ@, data@).1);
    r
}

/// The commands that set the proxy: enable it, name the server
/// `host:port`, and name the bypass list when it is not blank.
pub open spec fn windows_set_plan(host: Seq<char>, port: u16, bypass: Seq<char>) -> Seq<CommandView> {
    let base = seq![
        reg_add("ProxyEnable"@, "REG_DWORD"@, "1"@),
        reg_add("ProxyServer"@, "REG_SZ"@, host + ":"@ + dec(port as nat)),
    ];
    if trim(bypass).len() > 0 {
        base.push(reg_add("ProxyOverride"@, "REG_SZ"@, bypass))
    } else {
        base
    }
}

/// The registry commands that set the proxy, run in order; the first that
/// fails ends the attempt.
pub fn windows_set_proxy_commands(target: &SystemProxyTarget) -> (r: Vec<CommandSpec>)
    ensures
        crate::system_proxy::command_views(r@) == windows_set_plan(
            target.proxy_host@,
            target.proxy_port,
            target.bypass@,
        ),
{
    let mut server = to_chars(target.proxy_host.as_str());
    push_str(&mut server, ":");
    let p = dec_u64(target.proxy_port as u64);
    push_chars(&mut server, p.as_slice());
    let mut r = vec![
        reg_add_command("ProxyEnable", "REG_DWORD", to_owned_string("1")),
        reg_add_command("ProxyServer", "REG_SZ", from_chars(server.as_slice())),
    ];
    let bv = to_chars(target.bypass.as_str());
    let bt = trim_ws(bv.as_slice());
    if bt.len() > 0 {
        r.push(reg_add_command("ProxyOverride", "REG_SZ", target.bypass.clone()));
    }
    assert(crate::system_proxy::command_views(r@) =~= windows_set_plan(
        target.proxy_host@,
        target.proxy_port,
        target.bypass@,
    ));
    r
}

/// The status after the proxy was set.
pub fn windows_set_status(target: &SystemProxyTarget) -> (r: SystemProxyStatus)
    ensures
        is_on(r, target.proxy_host@, Some(target.proxy_port), target.bypass@, "Windows 系统代理已设置"@),
{
    status(true, target.proxy_host.clone(), Some(target.proxy_port), target.bypass.clone(), "Windows 系统代理已设置")
}

/// The commands that clear the proxy: the first (disable) must succeed;
/// the failure of the second (delete the server) is ignored.
pub fn windows_clear_proxy_commands() -> (r: (CommandSpec, CommandSpec))
    ensures
        r.0@ == reg_add("ProxyEnable"@, "REG_DWORD"@, "0"@),
        r.1@ == ("reg.exe"@, seq!["delete"@, WINDOWS_PROXY_KEY@, "/v"@, "ProxyServer"@, "/f"@]),
{
    let first = reg_add_command("ProxyEnable", "REG_DWORD", to_owned_string("0"));
    let second = CommandSpec::new("reg.exe", &["delete", WINDOWS_PROXY_KEY, "/v", "ProxyServer", "/f"]);
    assert(second@.1 =~= seq!["delete"@, WINDOWS_PROXY_KEY@, "/v"@, "ProxyServer"@, "/f"@]);
    (first, second)
}

/// The status after the proxy was cleared.
pub fn windows_clear_status() -> (r: SystemProxyStatus)
    ensures
        is_off(r, "Windows 系统代理已清理"@),
{
    off_status("Windows 系统代理已清理")
}

/// `reg.exe query <key> /v <name>`.
pub fn windows_query_command(name: &str) -> (r: CommandSpec)
    ensures
        r@ == ("reg.exe"@, seq!["query"@, WINDOWS_PROXY_KEY@, "/v"@, name@]),
{
    let r = CommandSpec::new("reg.exe", &["query", WINDOWS_PROXY_KEY, "/v", name]);
    assert(r@.1 =~= seq!["query"@, WINDOWS_PROXY_KEY@, "/v"@, name@]);
    r
}

/// The first position where `p` occurs in `s`.
pub open spec fn first_occurrence(s: Seq<char>, p: Seq<char>) -> Option<int> {
    if exists|i: int| occurs_at(s, p, i) && forall|j: int| 0 <= j < i ==> !occurs_at(s, p, j) {
        Some(choose|i: int| occurs_at(s, p, i) && forall|j: int| 0 <= j < i ==> !occurs_at(s, p, j))
    } else {
        None
    }
}

/// The first whitespace position of `s`.
pub open spec fn first_ws(s: Seq<char>) -> Option<int> {
    if exists|i: int| 0 <= i < s.len() && is_ws(s[i]) && forall|j: int| 0 <= j < i ==> !is_ws(s[j]) {
        Some(choose|i: int| 0 <= i < s.len() && is_ws(s[i]) && forall|j: int| 0 <= j < i ==> !is_ws(s[j]))
    } else {
        None
    }
}

/// The data of a `reg query` line: after the first `REG_`, past the type
/// name and the first whitespace, trimmed.
pub open spec fn reg_line_data(line: Seq<char>) -> Option<Seq<char>> {
    let t = trim(line);
    match first_occurrence(t, "REG_"@) {
        None => None,
        Some(i) => {
            let v = t.skip(i + 4);
            match first_ws(v) {
                None => None,
                Some(j) => Some(trim(v.skip(j + 1))),
            }
        },
    }
}

/// The data of the first line that has one.
pub open spec fn first_reg_data(ls: Seq<Seq<char>>) -> Option<Seq<char>>
    decreases ls.len(),
{
    if ls.len() == 0 {
        None
    } else {
        match reg_line_data(ls[0]) {
            Some(d) => Some(d),
            None => first_reg_data(ls.drop_first()),
        }
    }
}

/// The value a `reg query` output shows, if it is not empty.
pub open spec fn reg_value(raw: Seq<char>) -> Option<Seq<char>> {
    match first_reg_data(lines(raw)) {
        Some(d) => if d.len() > 0 {
            Some(d)
        } else {
            None
        },
        None => None,
    }
}

fn first_ws_index(v: &[char]) -> (r: Option<usize>)
    ensures
        match r {
            Some(i) => first_ws(v@) == Some(i as int),
            None => first_ws(v@) is None,
        },
{
    let mut i: usize = 0;
    while i < v.len()
        invariant
            i <= v@.len(),
            forall|j: int| 0 <= j < i ==> !is_ws(v@[j]),
        decreases v.len() - i,
    {
        if is_whitespace(v[i]) {
            let ghost w = choose|k: int|
                0 <= k < v@.len() && is_ws(v@[k]) && forall|j: int| 0 <= j < k ==> !is_ws(v@[j]);
            assert(0 <= i < v@.len() && is_ws(v@[i as int]) && forall|j: int| 0 <= j < i ==> !is_ws(v@[j]));
            proof {
                if w < i {
                } else if w > i {
                    assert(!is_ws(v@[i as int]));
                }
            }
            return Some(i);
        }
        i = i + 1;
    }
    None
}

fn first_occurrence_index(v: &[char], p: &[char]) -> (r: Option<usize>)
    ensures
        match r {
            Some(i) => first_occurrence(v@, p@) == Some(i as int) && occurs_at(v@, p@, i as int),
            None => first_occurrence(v@, p@) is None,
        },
{
    match find_seq(v, p) {
        Some(i) => {
            let ghost w = choose|k: int| occurs_at(v@, p@, k) && forall|j: int| 0 <= j < k ==> !occurs_at(v@, p@, j);
            assert(occurs_at(v@, p@, i as int) && forall|j: int| 0 <= j < i ==> !occurs_at(v@, p@, j));
            proof {
                if w < i {
                } else if w > i {
                    assert(!occurs_at(v@, p@, i as int));
                }
            }
            Some(i)
        },
        None => None,
    }
}

fn reg_line_data_of(line: &[char]) -> (r: Option<Vec<char>>)
    ensures
        match r {
            Some(d) => reg_line_data(line@) == Some(d@),
            None => reg_line_data(line@) is None,
        },
{
    let t = trim_ws(line);
    let reg = to_chars("REG_");
    proof {
        reveal_strlit("REG_");
    }
    let i = match first_occurrence_index(t.as_slice(), reg.as_slice()) {
        Some(i) => i,
        None => return None,
    };
    let tl = t.len();
    assert(reg@.len() == 4);
    let v = crate::text::slice_range(t.as_slice(), i + 4, tl);
    assert(v@ =~= t@.skip(i + 4));
    let j = match first_ws_index(v.as_slice()) {
        Some(j) => j,
        None => return None,
    };
    let rest = crate::text::slice_range(v.as_slice(), j + 1, v.len());
    assert(rest@ =~= v@.skip(j + 1));
    Some(trim_ws(rest.as_slice()))
}

/// The value a `reg query` output shows: the data of the first line that
/// has a `REG_` type and data, when that data is not empty.
pub fn parse_reg_value(raw: &str) -> (r: Option<String>)
    ensures
        match r {
            Some(s) => reg_value(raw@) == Some(s@),
            None => reg_value(raw@) is None,
        },
{
    let v = to_chars(raw);
    let ls = lines_of(v.as_slice());
    let ghost all = lines(raw@);
    assert(all.skip(0) =~= all);
    let mut i: usize = 0;
    while i < ls.len()
        invariant
            all == lines(raw@),
            views(ls@) == all,
            i <= ls@.len(),
            first_reg_data(all) == first_reg_data(all.skip(i as int)),
        decreases ls.len() - i,
    {
        assert(all.skip(i as int).drop_first() =~= all.skip(i + 1));
        assert(all.skip(i as int)[0] == ls@[i as int]@);
        match reg_line_data_of(ls[i].as_slice()) {
            Some(d) => {
                assert(first_reg_data(all) == Some(d@));
                if d.len() > 0 {
                    return Some(from_chars(d.as_slice()));
                }
                return None;
            },
            None => {},
        }
        i = i + 1;
    }
    assert(all.skip(i as int) =~= Seq::<Seq<char>>::empty());
    None
}

/// What the server value names: a leading `http=` or else `https=` is
/// dropped; the host is before the last `:` and the port after it, when
/// it is a number (no `:` gives the whole text and no port).
pub open spec fn proxy_server_parts(raw: Seq<char>) -> (Seq<char>, Option<u16>) {
    let value = match reg_value(raw) {
        Some(v) => v,
        None => Seq::empty(),
    };
    let plain = match strip_prefix(value, "http="@) {
        Some(p) => p,
        None => match strip_prefix(value, "https="@) {
            Some(p) => p,
            None => value,
        },
    };
    match rsplit_once(plain, ':') {
        Some((host, port)) => (host, match parse_unsigned(port, 65535) {
            Some(n) => Some(n as u16),
            None => None,
        }),
        None => (plain, None),
    }
}

/// The host and port of the `ProxyServer` value.
pub fn parse_proxy_server(raw: &str) -> (r: (String, Option<u16>))
    ensures
        r.0@ == proxy_server_parts(raw@).0,
        r.1 == proxy_server_parts(raw@).1,
{
    let value = match parse_reg_value(raw) {
        Some(v) => to_chars(v.as_str()),
        None => Vec::new(),
    };
    let http = to_chars("http=");
    let https = to_chars("https=");
    let plain = match strip_prefix_of(value.as_slice(), http.as_slice()) {
        Some(p) => p,
        None => match strip_prefix_of(value.as_slice(), https.as_slice()) {
            Some(p) => p,
            None => value,
        },
    };
    match rsplit_once_char(plain.as_slice(), ':') {
        Some((host, port)) => (from_chars(host.as_slice()), parse_u16(port.as_slice())),
        None => (from_chars(plain.as_slice()), None),
    }
}

/// Whether the `ProxyEnable` output says the proxy is on: it holds `0x1`,
/// or its last word is `1`.
pub open spec fn reg_enabled(raw: Seq<char>) -> bool {
    let t = trim(raw);
    ||| crate::text::contains_seq(raw, "0x1"@)
    ||| (t.len() > 0 && t.last() == '1' && (t.len() == 1 || is_ws(t[t.len() - 2])))
}

/// The status read from the registry: the outputs of the `ProxyEnable`
/// and `ProxyServer` queries (empty when a query failed) and of the
/// `ProxyOverride` query (`None` when it failed).
pub fn windows_proxy_status(enable_raw: &str, server_raw: &str, override_raw: Option<&str>) -> (r:
    SystemProxyStatus)
    ensures
        r.enabled == reg_enabled(enable_raw@),
        r.proxy_host@ == proxy_server_parts(server_raw@).0,
        r.proxy_port == proxy_server_parts(server_raw@).1,
        r.bypass@ == match override_raw {
            Some(o) => match reg_value(o@) {
                Some(v) => v,
                None => Seq::empty(),
            },
            None => Seq::<char>::empty(),
        },
        r.message@ == if reg_enabled(enable_raw@) {
            "Windows 系统代理已开启"@
        } else {
            "Windows 系统代理未开启"@
        },
{
    let ev = to_chars(enable_raw);
    let has_hex = crate::text::contains_str(ev.as_slice(), "0x1");
    let t = trim_ws(ev.as_slice());
    let n = t.len();
    let last_one = n > 0 && t[n - 1] == '1' && (n == 1 || is_whitespace(t[n - 2]));
    let enabled = has_hex || last_one;
    let (host, port) = parse_proxy_server(server_raw);
    let empty = String::new();
    proof {
        assert(empty@ =~= Seq::<char>::empty());
    }
    let bypass = match override_raw {
        Some(o) => match parse_reg_value(o) {
            Some(v) => v,
            None => empty,
        },
        None => empty,
    };
    if enabled {
        status(true, host, port, bypass, "Windows 系统代理已开启")
    } else {
        status(false, host, port, bypass, "Windows 系统代理未开启")
    }
}

// ---------------------------------------------------------------------------
// macOS
// ---------------------------------------------------------------------------

/// `networksetup` with one argument.
fn networksetup1(a: &str) -> (r: CommandSpec)
    ensures
        r@ == ("networksetup"@, seq![a@]),
{
    let r = CommandSpec::new("networksetup", &[a]);
    assert(r@.1 =~= seq![a@]);
    r
}

/// `networksetup` with two arguments.
fn networksetup2(a: &str, b: &str) -> (r: CommandSpec)
    ensures
        r@ == ("networksetup"@, seq![a@, b@]),
{
    let r = CommandSpec::new("networksetup", &[a, b]);
    assert(r@.1 =~= seq![a@, b@]);
    r
}

/// The command that lists the network services.
pub fn macos_list_services_command() -> (r: CommandSpec)
    ensures
        r@ == ("networksetup"@, seq!["-listallnetworkservices"@]),
{
    networksetup1("-listallnetworkservices")
}

/// The command that reads a service's web proxy.
pub fn macos_web_proxy_command(service: &str) -> (r: CommandSpec)
    ensures
        r@ == ("networksetup"@, seq!["-getwebproxy"@, service@]),
{
    networksetup2("-getwebproxy", service)
}

/// The command that reads a service's bypass domains.
pub fn macos_bypass_command(service: &str) -> (r: CommandSpec)
    ensures
        r@ == ("networksetup"@, seq!["-getproxybypassdomains"@, service@]),
{
    networksetup2("-getproxybypassdomains", service)
}

/// The enabled services of the list; none is an error.
pub fn macos_active_services(raw: &str) -> (r: Result<Vec<String>, AppError>)
    ensures
        service_lines(lines(raw@)).len() > 0 ==> (r matches Ok(v) && string_views(v@) == service_lines(
            lines(raw@),
        )),
        service_lines(lines(raw@)).len() == 0 ==> (r matches Err(AppError::Message(m)) && m@
            == "macOS 未找到可用网络服务"@),
{
    let services = parse_macos_services(raw);
    if services.len() == 0 {
        return Err(AppError::Message(to_owned_string("macOS 未找到可用网络服务")));
    }
    Ok(services)
}

/// The status after the proxy was set: the host trimmed.
pub fn macos_set_status(target: &SystemProxyTarget) -> (r: SystemProxyStatus)
    ensures
        is_on(
            r,
            trim(target.proxy_host@),
            Some(target.proxy_port),
            target.bypass@,
            "macOS HTTP/HTTPS 系统代理已设置"@,
        ),
{
    let hv = to_chars(target.proxy_host.as_str());
    let h = trim_ws(hv.as_slice());
    status(true, from_chars(h.as_slice()), Some(target.proxy_port), target.bypass.clone(), "macOS HTTP/HTTPS 系统代理已设置")
}

/// The status after the proxy was cleared.
pub fn macos_clear_status() -> (r: SystemProxyStatus)
    ensures
        is_off(r, "macOS HTTP/HTTPS 系统代理已清理"@),
{
    off_status("macOS HTTP/HTTPS 系统代理已清理")
}

/// The status of the first service whose web proxy is on: its host and
/// port, and its bypass domains (empty when they could not be read).
pub fn macos_enabled_status(service: &str, host: String, port: Option<u16>, bypass_raw: Option<&str>) -> (r:
    SystemProxyStatus)
    ensures
        r.enabled,
        r.proxy_host == host,
        r.proxy_port == port,
        r.bypass@ == match bypass_raw {
            Some(b) => join(bypass_lines(lines(b@)), ";"@),
            None => Seq::<char>::empty(),
        },
        r.message@ == "macOS 系统代理已开启: "@ + service@,
{
    let empty = String::new();
    proof {
        assert(empty@ =~= Seq::<char>::empty());
    }
    let bypass = match bypass_raw {
        Some(b) => parse_macos_bypass_output(b),
        None => empty,
    };
    let mut m = to_chars("macOS 系统代理已开启: ");
    push_str(&mut m, service);
    SystemProxyStatus {
        enabled: true,
        proxy_host: host,
        proxy_port: port,
        bypass,
        message: from_chars(m.as_slice()),
    }
}

/// The status when no service has its web proxy on.
pub fn macos_disabled_status() -> (r: SystemProxyStatus)
    ensures
        is_off(r, "macOS 系统代理未开启"@),
{
    off_status("macOS 系统代理未开启")
}

// ---------------------------------------------------------------------------
// Linux
// ---------------------------------------------------------------------------

/// `gsettings get <schema> <key>`.
pub fn gsettings_get_command(schema: &str, key: &str) -> (r: CommandSpec)
    ensures
        r@ == ("gsettings"@, seq!["get"@, schema@, key@]),
{
    let r = CommandSpec::new("gsettings", &["get", schema, key]);
    assert(r@.1 =~= seq!["get"@, schema@, key@]);
    r
}

/// The status after the proxy was set: the GNOME settings were changed
/// too, or `gsettings` was missing.
pub fn linux_set_status(target: &SystemProxyTarget, desktop_applied: bool) -> (r: SystemProxyStatus)
    ensures
        is_on(
            r,
            trim(target.proxy_host@),
            Some(target.proxy_port),
            target.bypass@,
            if desktop_applied {
                "Linux GNOME 系统代理和 shell 代理环境文件已设置"@
            } else {
                "Linux shell 代理环境文件已设置；未找到 gsettings，桌面代理未修改"@
            },
        ),
{
    let hv = to_chars(target.proxy_host.as_str());
    let h = trim_ws(hv.as_slice());
    let host = from_chars(h.as_slice());
    if desktop_applied {
        status(true, host, Some(target.proxy_port), target.bypass.clone(), "Linux GNOME 系统代理和 shell 代理环境文件已设置")
    } else {
        status(
            true,
            host,
            Some(target.proxy_port),
            target.bypass.clone(),
            "Linux shell 代理环境文件已设置；未找到 gsettings，桌面代理未修改",
        )
    }
}

/// The status after the proxy was cleared.
pub fn linux_clear_status(desktop_applied: bool) -> (r: SystemProxyStatus)
    ensures
        is_off(
            r,
            if desktop_applied {
                "Linux GNOME 系统代理和 shell 代理环境文件已清理"@
            } else {
                "Linux shell 代理环境文件已清理；未找到 gsettings，桌面代理未修改"@
            },
        ),
{
    if desktop_applied {
        off_status("Linux GNOME 系统代理和 shell 代理环境文件已清理")
    } else {
        off_status("Linux shell 代理环境文件已清理；未找到 gsettings，桌面代理未修改")
    }
}

/// The status the environment file gives: `None` when the file does not
/// exist; a file that names no proxy is reported as not recognised.
pub fn linux_env_status(raw: Option<&str>) -> (r: SystemProxyStatus)
    ensures
        raw is None ==> is_off(r, "Linux 系统代理未开启"@),
        raw matches Some(t) ==> match env_proxy_fields(t@) {
            Some((h, p, b)) => is_on(r, h, Some(p as u16), b, "Linux shell 代理环境文件已配置，新登录会话生效"@),
            None => is_off(r, "Linux shell 代理环境文件格式无法识别"@),
        },
{
    match raw {
        None => off_status("Linux 系统代理未开启"),
        Some(t) => match parse_linux_env_proxy(t) {
            Some(st) => st,
            None => off_status("Linux shell 代理环境文件格式无法识别"),
        },
    }
}

/// The status when the GNOME proxy mode is not `manual`: the environment
/// file's status when it is on, otherwise the GNOME proxy is off.
pub fn linux_not_manual_status(env: Option<SystemProxyStatus>) -> (r: SystemProxyStatus)
    ensures
        (env matches Some(st) && st.enabled) ==> r == env->0,
        !(env matches Some(st) && st.enabled) ==> is_off(r, "Linux GNOME 系统代理未开启"@),
{
    match env {
        Some(st) => {
            if st.enabled {
                return st;
            }
            off_status("Linux GNOME 系统代理未开启")
        },
        None => off_status("Linux GNOME 系统代理未开启"),
    }
}

/// The status when the GNOME proxy mode is `manual`: the host setting
/// unquoted, the port setting when it reads as a port, and the ignored
/// hosts joined with `;` (empty when they could not be read).
pub fn linux_manual_status(host_raw: &str, port_raw: Option<&str>, ignore_raw: Option<&str>) -> (r:
    SystemProxyStatus)
    ensures
        r.enabled,
        r.proxy_host@ == gsettings_unquote(host_raw@),
        r.proxy_port == match port_raw {
            Some(p) => match parse_unsigned(trim(p@), 65535) {
                Some(n) => Some(n as u16),
                None => None,
            },
            None => None,
        },
        r.bypass@ == match ignore_raw {
            Some(i) => join(gsettings_array_items(i@), ";"@),
            None => Seq::<char>::empty(),
        },
        r.message@ == "Linux GNOME 系统代理已开启"@,
{
    let host = parse_gsettings_string(host_raw);
    let port = match port_raw {
        Some(p) => {
            let pv = to_chars(p);
            let t = trim_ws(pv.as_slice());
            parse_u16(t.as_slice())
        },
        None => None,
    };
    let empty = String::new();
    proof {
        assert(empty@ =~= Seq::<char>::empty());
    }
    let bypass = match ignore_raw {
        Some(i) => {
            let items = parse_gsettings_string_array(i);
            join_strings(&items, ";")
        },
        None => empty,
    };
    status(true, host, port, bypass, "Linux GNOME 系统代理已开启")
}

// ---------------------------------------------------------------------------
// Other platforms
// ---------------------------------------------------------------------------

/// Setting the proxy is not available on this platform.
pub fn unsupported_set_error() -> (r: AppError)
    ensures
        r matches AppError::Unsupported(m) && m@ == "当前平台暂未接入系统代理设置"@,
{
    AppError::Unsupported(to_owned_string("当前平台暂未接入系统代理设置"))
}

/// Clearing the proxy is not available on this platform.
pub fn unsupported_clear_error() -> (r: AppError)
    ensures
        r matches AppError::Unsupported(m) && m@ == "当前平台暂未接入系统代理清理"@,
{
    AppError::Unsupported(to_owned_string("当前平台暂未接入系统代理清理"))
}

/// The status reported where no platform support exists.
pub fn unsupported_status() -> (r: SystemProxyStatus)
    ensures
        is_off(r, "当前平台暂未接入系统代理状态检测"@),
{
    off_status("当前平台暂未接入系统代理状态检测")
}

} // verus!
