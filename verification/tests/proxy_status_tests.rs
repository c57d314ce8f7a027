use net_power::error::AppError;
use net_power::models::SystemProxyTarget;
use net_power::proxy_status::{
    command_failure, command_output, gsettings_get_command, linux_clear_status, linux_env_status,
    linux_manual_status, linux_not_manual_status, linux_set_status, macos_active_services,
    macos_bypass_command, macos_clear_status, macos_disabled_status, macos_enabled_status,
    macos_set_status, macos_web_proxy_command, parse_proxy_server, parse_reg_value,
    unsupported_clear_error, unsupported_set_error, unsupported_status, windows_clear_proxy_commands,
    windows_clear_status, windows_proxy_status, windows_query_command, windows_set_proxy_commands,
    windows_set_status, WINDOWS_PROXY_KEY,
};

fn target(host: &str, port: u16, bypass: &str) -> SystemProxyTarget {
    SystemProxyTarget {
        proxy_host: host.to_string(),
        proxy_port: port,
        bypass: bypass.to_string(),
    }
}

fn args(c: &net_power::system_proxy::CommandSpec) -> Vec<&str> {
    c.args.iter().map(|a| a.as_str()).collect()
}

const SERVER_OUTPUT: &str = "\r\nHKEY_CURRENT_USER\\Software\\Microsoft\\Windows\\CurrentVersion\\Internet Settings\r\n    ProxyServer    REG_SZ    127.0.0.1:7890\r\n\r\n";

#[test]
fn windows_set_commands_write_enable_server_and_bypass() {
    let cmds = windows_set_proxy_commands(&target("127.0.0.1", 7890, "localhost;*.lan"));
    assert_eq!(cmds.len(), 3);
    assert!(cmds.iter().all(|c| c.program == "reg.exe"));
    assert_eq!(
        args(&cmds[0]),
        vec!["add", WINDOWS_PROXY_KEY, "/v", "ProxyEnable", "/t", "REG_DWORD", "/d", "1", "/f"]
    );
    assert_eq!(
        args(&cmds[1]),
        vec!["add", WINDOWS_PROXY_KEY, "/v", "ProxyServer", "/t", "REG_SZ", "/d", "127.0.0.1:7890", "/f"]
    );
    assert_eq!(args(&cmds[2])[7], "localhost;*.lan");
    assert_eq!(windows_set_proxy_commands(&target("h", 1, "  ")).len(), 2);
    let st = windows_set_status(&target("127.0.0.1", 7890, "x"));
    assert!(st.enabled);
    assert_eq!(st.proxy_port, Some(7890));
    assert_eq!(st.message, "Windows 系统代理已设置");
}

#[test]
fn windows_clear_disables_then_deletes_server() {
    let (first, second) = windows_clear_proxy_commands();
    assert_eq!(args(&first)[7], "0");
    assert_eq!(args(&second), vec!["delete", WINDOWS_PROXY_KEY, "/v", "ProxyServer", "/f"]);
    let st = windows_clear_status();
    assert!(!st.enabled);
    assert_eq!(st.message, "Windows 系统代理已清理");
    assert_eq!(
        args(&windows_query_command("ProxyEnable")),
        vec!["query", WINDOWS_PROXY_KEY, "/v", "ProxyEnable"]
    );
}

#[test]
fn reg_query_output_is_parsed() {
    assert_eq!(parse_reg_value(SERVER_OUTPUT).as_deref(), Some("127.0.0.1:7890"));
    assert_eq!(parse_reg_value("no value here"), None);
    assert_eq!(parse_reg_value("    ProxyOverride    REG_SZ    \n"), None);
    assert_eq!(parse_proxy_server(SERVER_OUTPUT), ("127.0.0.1".to_string(), Some(7890)));
    assert_eq!(
        parse_proxy_server("  ProxyServer REG_SZ http=proxy.lan:8080\n"),
        ("proxy.lan".to_string(), Some(8080))
    );
    assert_eq!(
        parse_proxy_server("  ProxyServer REG_SZ https=proxy.lan:x\n"),
        ("proxy.lan".to_string(), None)
    );
    assert_eq!(parse_proxy_server("  ProxyServer REG_SZ proxy.lan\n"), ("proxy.lan".to_string(), None));
    assert_eq!(parse_proxy_server(""), (String::new(), None));
}

#[test]
fn windows_status_reads_enable_server_and_override() {
    let st = windows_proxy_status(
        "    ProxyEnable    REG_DWORD    0x1\n",
        SERVER_OUTPUT,
        Some("    ProxyOverride    REG_SZ    <local>\n"),
    );
    assert!(st.enabled);
    assert_eq!(st.proxy_host, "127.0.0.1");
    assert_eq!(st.proxy_port, Some(7890));
    assert_eq!(st.bypass, "<local>");
    assert_eq!(st.message, "Windows 系统代理已开启");
    let st = windows_proxy_status("ProxyEnable REG_DWORD 1", "", None);
    assert!(st.enabled);
    let st = windows_proxy_status("    ProxyEnable    REG_DWORD    0x0\n", "", None);
    assert!(!st.enabled);
    assert_eq!(st.bypass, "");
    assert_eq!(st.message, "Windows 系统代理未开启");
    assert!(!windows_proxy_status("", "", None).enabled);
}

#[test]
fn macos_commands_and_statuses() {
    assert_eq!(args(&macos_web_proxy_command("Wi-Fi")), vec!["-getwebproxy", "Wi-Fi"]);
    assert_eq!(args(&macos_bypass_command("Wi-Fi")), vec!["-getproxybypassdomains", "Wi-Fi"]);
    let services = macos_active_services(
        "An asterisk (*) denotes that a network service is disabled.\nWi-Fi\n*Bluetooth PAN\n",
    )
    .unwrap();
    assert_eq!(services, vec!["Wi-Fi".to_string()]);
    match macos_active_services("An asterisk (*) denotes that a network service is disabled.\n") {
        Err(AppError::Message(m)) => assert_eq!(m, "macOS 未找到可用网络服务"),
        _ => panic!("expected no services"),
    }
    let st = macos_set_status(&target(" 127.0.0.1 ", 8080, "a"));
    assert_eq!(st.proxy_host, "127.0.0.1");
    assert_eq!(st.message, "macOS HTTP/HTTPS 系统代理已设置");
    assert_eq!(macos_clear_status().message, "macOS HTTP/HTTPS 系统代理已清理");
    let st = macos_enabled_status("Wi-Fi", "127.0.0.1".to_string(), Some(8080), Some("localhost\n*.local\n"));
    assert_eq!(st.bypass, "localhost;*.local");
    assert_eq!(st.message, "macOS 系统代理已开启: Wi-Fi");
    let st = macos_enabled_status("Wi-Fi", "h".to_string(), None, None);
    assert_eq!(st.bypass, "");
    assert!(!macos_disabled_status().enabled);
}

#[test]
fn linux_statuses_follow_gsettings_and_env_file() {
    assert_eq!(
        args(&gsettings_get_command("org.gnome.system.proxy", "mode")),
        vec!["get", "org.gnome.system.proxy", "mode"]
    );
    let st = linux_set_status(&target(" 127.0.0.1 ", 7890, "localhost"), true);
    assert_eq!(st.proxy_host, "127.0.0.1");
    assert_eq!(st.message, "Linux GNOME 系统代理和 shell 代理环境文件已设置");
    let st = linux_set_status(&target("h", 1, ""), false);
    assert_eq!(st.message, "Linux shell 代理环境文件已设置；未找到 gsettings，桌面代理未修改");
    assert_eq!(linux_clear_status(true).message, "Linux GNOME 系统代理和 shell 代理环境文件已清理");
    assert_eq!(
        linux_clear_status(false).message,
        "Linux shell 代理环境文件已清理；未找到 gsettings，桌面代理未修改"
    );
    assert_eq!(linux_env_status(None).message, "Linux 系统代理未开启");
    assert_eq!(linux_env_status(Some("garbage")).message, "Linux shell 代理环境文件格式无法识别");
    let env = linux_env_status(Some("http_proxy=http://127.0.0.1:7890\nno_proxy=localhost,127.0.0.1\n"));
    assert!(env.enabled);
    assert_eq!(env.proxy_port, Some(7890));
    assert_eq!(env.bypass, "localhost;127.0.0.1");
    assert_eq!(linux_not_manual_status(Some(env.clone())).proxy_host, "127.0.0.1");
    assert_eq!(linux_not_manual_status(None).message, "Linux GNOME 系统代理未开启");
    let st = linux_manual_status("'127.0.0.1'\n", Some(" 7890\n"), Some("['localhost', '127.0.0.0/8']\n"));
    assert!(st.enabled);
    assert_eq!(st.proxy_host, "127.0.0.1");
    assert_eq!(st.proxy_port, Some(7890));
    assert_eq!(st.bypass, "localhost;127.0.0.0/8");
    assert_eq!(st.message, "Linux GNOME 系统代理已开启");
    assert_eq!(linux_manual_status("''", Some("x"), None).proxy_port, None);
}

#[test]
fn command_results_and_other_platforms() {
    assert_eq!(command_output(b"ok\n"), "ok\n");
    assert_eq!(command_output(&[0x66, 0xff]), "f\u{fffd}");
    match command_failure("gsettings", b"  no schema\n") {
        AppError::Message(m) => assert_eq!(m, "gsettings 执行失败: no schema"),
        _ => panic!(),
    }
    assert!(matches!(unsupported_set_error(), AppError::Unsupported(m) if m == "当前平台暂未接入系统代理设置"));
    assert!(matches!(unsupported_clear_error(), AppError::Unsupported(m) if m == "当前平台暂未接入系统代理清理"));
    assert_eq!(unsupported_status().message, "当前平台暂未接入系统代理状态检测");
}
