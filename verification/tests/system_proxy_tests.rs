use net_power::models::SystemProxyTarget;
use net_power::system_proxy::{
    bypass_entries, gsettings_string_array, linux_clear_proxy_commands, linux_env_file_content,
    linux_set_proxy_commands, macos_clear_proxy_commands, macos_proxy_value,
    macos_set_proxy_commands, parse_gsettings_bool, parse_gsettings_string,
    parse_gsettings_string_array, parse_linux_env_proxy, parse_macos_bypass_output,
    parse_macos_proxy_output, parse_macos_services, quoted_gsettings_string, validate_target,
    CommandSpec,
};

fn target() -> SystemProxyTarget {
    SystemProxyTarget {
        proxy_host: "127.0.0.1".to_string(),
        proxy_port: 7890,
        bypass: "localhost;127.*,.local".to_string(),
    }
}

#[test]
fn bypass_entries_accept_semicolon_comma_and_newline() {
    assert_eq!(
        bypass_entries(" localhost;127.*,.local\n10.* "),
        vec!["localhost", "127.*", ".local", "10.*"]
    );
}

#[test]
fn macos_services_skip_disabled_and_banner_lines() {
    let raw = "An asterisk (*) denotes that a network service is disabled.\nWi-Fi\n*Bluetooth PAN\nUSB 10/100/1000 LAN\n";

    assert_eq!(
        parse_macos_services(raw),
        vec!["Wi-Fi".to_string(), "USB 10/100/1000 LAN".to_string()]
    );
}

#[test]
fn macos_set_commands_cover_http_https_and_bypass() {
    let services = vec!["Wi-Fi".to_string()];
    let commands = macos_set_proxy_commands(&target(), &services);

    assert_eq!(commands.len(), 3);
    assert_eq!(
        commands[0],
        CommandSpec::new(
            "networksetup",
            &["-setwebproxy", "Wi-Fi", "127.0.0.1", "7890"]
        )
    );
    assert_eq!(
        commands[1],
        CommandSpec::new(
            "networksetup",
            &["-setsecurewebproxy", "Wi-Fi", "127.0.0.1", "7890"]
        )
    );
    assert_eq!(
        commands[2],
        CommandSpec::new(
            "networksetup",
            &[
                "-setproxybypassdomains",
                "Wi-Fi",
                "localhost",
                "127.*",
                ".local"
            ]
        )
    );
}

#[test]
fn macos_clear_commands_turn_off_http_https_and_clear_bypass() {
    let services = vec!["Wi-Fi".to_string()];
    let commands = macos_clear_proxy_commands(&services);

    assert_eq!(commands.len(), 3);
    assert_eq!(
        commands[0],
        CommandSpec::new("networksetup", &["-setwebproxystate", "Wi-Fi", "off"])
    );
    assert_eq!(
        commands[1],
        CommandSpec::new("networksetup", &["-setsecurewebproxystate", "Wi-Fi", "off"])
    );
    assert_eq!(
        commands[2],
        CommandSpec::new("networksetup", &["-setproxybypassdomains", "Wi-Fi", "Empty"])
    );
}

#[test]
fn macos_status_parsers_read_proxy_and_bypass() {
    let (enabled, host, port) = parse_macos_proxy_output(
        "Enabled: Yes\nServer: 127.0.0.1\nPort: 7890\nAuthenticated Proxy Enabled: 0\n",
    );

    assert!(enabled);
    assert_eq!(host, "127.0.0.1");
    assert_eq!(port, Some(7890));
    assert_eq!(
        parse_macos_bypass_output("localhost\n127.*\n.local\n"),
        "localhost;127.*;.local"
    );
}

#[test]
fn linux_gsettings_commands_set_manual_http_https_and_ignore_hosts() {
    let commands = linux_set_proxy_commands(&target());

    assert_eq!(commands.len(), 6);
    assert_eq!(
        commands[0],
        CommandSpec::new(
            "gsettings",
            &["set", "org.gnome.system.proxy", "mode", "manual"]
        )
    );
    assert_eq!(
        commands[1],
        CommandSpec::new(
            "gsettings",
            &["set", "org.gnome.system.proxy.http", "host", "127.0.0.1"]
        )
    );
    assert_eq!(
        commands[5],
        CommandSpec::new(
            "gsettings",
            &[
                "set",
                "org.gnome.system.proxy",
                "ignore-hosts",
                "['localhost', '127.*', '.local']"
            ]
        )
    );
}

#[test]
fn linux_gsettings_clear_commands_disable_manual_mode() {
    let commands = linux_clear_proxy_commands();

    assert_eq!(commands.len(), 6);
    assert_eq!(
        commands[0],
        CommandSpec::new(
            "gsettings",
            &["set", "org.gnome.system.proxy", "mode", "none"]
        )
    );
    assert_eq!(
        commands[5],
        CommandSpec::new(
            "gsettings",
            &["set", "org.gnome.system.proxy", "ignore-hosts", "[]"]
        )
    );
}

#[test]
fn linux_env_file_content_exports_upper_and_lowercase_proxy_vars() {
    let content = linux_env_file_content(&target());

    assert!(content.contains("HTTP_PROXY=http://127.0.0.1:7890\n"));
    assert!(content.contains("https_proxy=http://127.0.0.1:7890\n"));
    assert!(content.contains("NO_PROXY=localhost,127.*,.local\n"));
    assert!(content.contains("no_proxy=localhost,127.*,.local\n"));
}

#[test]
fn linux_env_file_parser_reads_proxy_target() {
    let status =
        parse_linux_env_proxy("HTTP_PROXY=http://10.0.0.8:8080\nNO_PROXY=localhost,127.*\n")
            .expect("环境文件应可解析为系统代理状态");

    assert!(status.enabled);
    assert_eq!(status.proxy_host, "10.0.0.8");
    assert_eq!(status.proxy_port, Some(8080));
    assert_eq!(status.bypass, "localhost;127.*");
}

#[test]
fn linux_gsettings_parsers_read_strings_arrays_and_mode() {
    assert!(parse_gsettings_bool("'manual'", "manual"));
    assert_eq!(parse_gsettings_string("'proxy.local'"), "proxy.local");
    assert_eq!(
        parse_gsettings_string_array("['localhost', '127.*', '.local']"),
        vec![
            "localhost".to_string(),
            "127.*".to_string(),
            ".local".to_string()
        ]
    );
}

#[test]
fn gsettings_quoting_roundtrips_quotes_and_backslashes() {
    let quoted = quoted_gsettings_string("it's a\\b");
    assert_eq!(quoted, "'it\\'s a\\\\b'");
    assert_eq!(parse_gsettings_string(&quoted), "it's a\\b");
}

#[test]
fn gsettings_array_of_nothing_is_empty_brackets() {
    assert_eq!(gsettings_string_array(&Vec::new()), "[]");
    assert_eq!(parse_gsettings_string_array("[]"), Vec::<String>::new());
    assert_eq!(parse_gsettings_string_array("@as []"), vec!["@as [".to_string()]);
}

#[test]
fn macos_commands_write_empty_for_missing_bypass() {
    let target = SystemProxyTarget {
        proxy_host: "10.0.0.1".to_string(),
        proxy_port: 3128,
        bypass: " ; , ".to_string(),
    };
    let services = vec!["Wi-Fi".to_string(), "Ethernet".to_string()];
    let commands = macos_set_proxy_commands(&target, &services);
    assert_eq!(commands.len(), 6);
    assert_eq!(
        commands[5],
        CommandSpec::new("networksetup", &["-setproxybypassdomains", "Ethernet", "Empty"])
    );
    assert_eq!(
        commands[3],
        CommandSpec::new("networksetup", &["-setwebproxy", "Ethernet", "10.0.0.1", "3128"])
    );
}

#[test]
fn macos_value_missing_or_blank_is_none() {
    assert_eq!(macos_proxy_value("Server: \nPort: 80\n", "Server:"), None);
    assert_eq!(macos_proxy_value("Port: 80\n", "Server:"), None);
    assert_eq!(macos_proxy_value("  Port:  80 \r\n", "Port:"), Some("80".to_string()));
    let (enabled, host, port) = parse_macos_proxy_output("Enabled: no\nPort: 99999\n");
    assert!(!enabled);
    assert_eq!(host, "");
    assert_eq!(port, None);
}

#[test]
fn linux_env_parser_rejects_missing_port() {
    assert!(parse_linux_env_proxy("HTTP_PROXY=http://proxy.local\n").is_none());
    assert!(parse_linux_env_proxy("NO_PROXY=x\n").is_none());
    let status = parse_linux_env_proxy("http_proxy=10.1.1.1:+80").expect("plus sign accepted");
    assert_eq!(status.proxy_port, Some(80));
    assert_eq!(status.bypass, "");
}

#[test]
fn validate_target_rejects_blank_host_and_zero_port() {
    let blank = SystemProxyTarget {
        proxy_host: "  ".to_string(),
        proxy_port: 80,
        bypass: String::new(),
    };
    assert_eq!(
        validate_target(&blank).unwrap_err().message(),
        "参数无效: 系统代理主机不能为空"
    );
    let zero = SystemProxyTarget {
        proxy_host: "h".to_string(),
        proxy_port: 0,
        bypass: String::new(),
    };
    assert!(validate_target(&zero).is_err());
    assert!(validate_target(&target()).is_ok());
}

#[test]
fn linux_env_file_reads_back_what_was_written() {
    let written = SystemProxyTarget {
        proxy_host: "  proxy.lan ".to_string(),
        proxy_port: 3128,
        bypass: "localhost;\n10.*".to_string(),
    };
    let status = parse_linux_env_proxy(&linux_env_file_content(&written))
        .expect("写入的环境文件应可读回");

    assert!(status.enabled);
    assert_eq!(status.proxy_host, "proxy.lan");
    assert_eq!(status.proxy_port, Some(3128));
    assert_eq!(status.bypass, "localhost;10.*");
}

#[test]
fn gsettings_quoting_keeps_inner_spaces_and_quotes() {
    let value = "  it's \\ here ";
    assert_eq!(parse_gsettings_string(&quoted_gsettings_string(value)), value);
}

#[test]
fn gsettings_array_reads_back_bypass_entries() {
    let entries = bypass_entries(" localhost; 127.*,it's.local\n10.*\\ ");
    let written = gsettings_string_array(&entries);
    assert_eq!(parse_gsettings_string_array(&written), entries);
}
