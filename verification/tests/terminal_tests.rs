use net_power::error::AppError;
use net_power::models::{ServiceDetail, ServiceKind, SshAuthType, SshProfileRuntimeConfig, UdpForwardConfig};
use net_power::terminal::{
    apple_script_quote, build_autostart_status, choose_lan_ipv4, connect_timeout_error,
    macos_terminal_args, millis_to_ssh_seconds, posix_shell_command, posix_shell_quote,
    powershell_quote, powershell_ssh_command, service_test_plan, ssh_host_for_destination,
    ssh_terminal_args, terminal_dash_dash_args, terminal_e_args, terminal_opened_message,
    test_result, TestPlan,
};

fn ssh_runtime_profile(id: &str, host: &str, port: u16, username: &str) -> SshProfileRuntimeConfig {
    SshProfileRuntimeConfig {
        id: id.to_string(),
        name: id.to_string(),
        host: host.to_string(),
        port,
        username: username.to_string(),
        auth_type: SshAuthType::Agent,
        password_secret_id: None,
        private_key_path: None,
        private_key_passphrase_secret_id: None,
        known_hosts_mode: "accept_new".to_string(),
        known_hosts_path: None,
        connect_timeout_ms: 10_000,
        keepalive_interval_ms: 30_000,
        jump_profile_id: None,
    }
}

#[test]
fn choose_lan_ipv4_prefers_private_addresses() {
    let ip = choose_lan_ipv4(&[[203, 0, 113, 9], [192, 168, 1, 23], [10, 0, 0, 8]]);

    assert_eq!(ip, Some([192, 168, 1, 23]));
}

#[test]
fn choose_lan_ipv4_skips_loopback_unspecified_and_link_local() {
    let ip = choose_lan_ipv4(&[[127, 0, 0, 1], [0, 0, 0, 0], [169, 254, 1, 2], [10, 10, 0, 2]]);

    assert_eq!(ip, Some([10, 10, 0, 2]));
}

#[test]
fn choose_lan_ipv4_falls_back_to_public_address() {
    let ip = choose_lan_ipv4(&[[127, 0, 0, 1], [203, 0, 113, 9], [8, 8, 8, 8]]);
    assert_eq!(ip, Some([203, 0, 113, 9]));
    assert_eq!(choose_lan_ipv4(&[[224, 0, 0, 1], [255, 255, 255, 255]]), None);
}

#[test]
fn ssh_terminal_args_builds_direct_profile_command() {
    let mut profile = ssh_runtime_profile("prod", "prod.example.com", 2222, "deploy");
    profile.private_key_path = Some("C:/Users/test/.ssh/id_ed25519".to_string());
    profile.known_hosts_mode = "strict".to_string();
    profile.known_hosts_path = Some("C:/Users/test/.ssh/known_hosts".to_string());

    let args = ssh_terminal_args(&[profile]).expect("SSH 参数应生成成功");

    assert_eq!(
        args,
        vec![
            "-p",
            "2222",
            "-o",
            "StrictHostKeyChecking=yes",
            "-o",
            "UserKnownHostsFile=C:/Users/test/.ssh/known_hosts",
            "-o",
            "ConnectTimeout=10",
            "-o",
            "ServerAliveInterval=30",
            "-i",
            "C:/Users/test/.ssh/id_ed25519",
            "deploy@prod.example.com",
        ]
    );
}

#[test]
fn ssh_terminal_args_builds_proxy_jump_chain() {
    let mut jump = ssh_runtime_profile("jump", "bastion.example.com", 2200, "ops");
    jump.private_key_path = Some("/home/me/.ssh/jump".to_string());
    let mut target = ssh_runtime_profile("target", "app.internal", 22, "deploy");
    target.private_key_path = Some("/home/me/.ssh/app".to_string());

    let args = ssh_terminal_args(&[jump, target]).expect("跳板 SSH 参数应生成成功");

    assert!(args.windows(2).any(|pair| pair == ["-J", "ops@bastion.example.com:2200"]));
    assert!(args.windows(2).any(|pair| pair == ["-i", "/home/me/.ssh/jump"]));
    assert!(args.windows(2).any(|pair| pair == ["-i", "/home/me/.ssh/app"]));
    assert_eq!(args.last().map(String::as_str), Some("deploy@app.internal"));
}

#[test]
fn ssh_terminal_args_brackets_ipv6_hosts() {
    let profile = ssh_runtime_profile("ipv6", "2001:db8::1", 22, "deploy");

    let args = ssh_terminal_args(&[profile]).expect("IPv6 SSH 参数应生成成功");

    assert_eq!(args.last().map(String::as_str), Some("deploy@[2001:db8::1]"));
}

#[test]
fn ssh_terminal_args_report_what_is_missing() {
    match ssh_terminal_args(&[]) {
        Err(AppError::InvalidInput(m)) => assert_eq!(m, "SSH 连接链不能为空"),
        _ => panic!("expected error"),
    }
    let mut p = ssh_runtime_profile("x", "h", 22, "u");
    p.known_hosts_mode = "loose".to_string();
    match ssh_terminal_args(&[p]) {
        Err(AppError::InvalidInput(m)) => assert_eq!(m, "未知 known_hosts 校验模式: loose"),
        _ => panic!("expected error"),
    }
    let jump = ssh_runtime_profile("j", " ", 22, "u");
    let target = ssh_runtime_profile("t", "h", 22, "u");
    match ssh_terminal_args(&[jump, target]) {
        Err(AppError::InvalidInput(m)) => assert_eq!(m, "SSH 主机不能为空"),
        _ => panic!("expected error"),
    }
}

#[test]
fn ssh_seconds_round_up_and_bracket_hosts() {
    assert_eq!(millis_to_ssh_seconds(0), 1);
    assert_eq!(millis_to_ssh_seconds(1001), 2);
    assert_eq!(millis_to_ssh_seconds(u64::MAX), u64::MAX / 1000);
    assert_eq!(ssh_host_for_destination("[::1]"), "[::1]");
    assert_eq!(ssh_host_for_destination("::1"), "[::1]");
    assert_eq!(ssh_host_for_destination("host"), "host");
}

#[test]
fn shell_quoting_escapes_quotes() {
    assert_eq!(powershell_quote("it's"), "'it''s'");
    assert_eq!(apple_script_quote(r#"a "b" \c"#), r#""a \"b\" \\c""#);
    assert_eq!(posix_shell_quote(""), "''");
    assert_eq!(posix_shell_quote("it's"), "'it'\"'\"'s'");
    let args = vec!["-p".to_string(), "22".to_string()];
    assert_eq!(posix_shell_command("ssh", &args), "'ssh' '-p' '22'");
    assert_eq!(powershell_ssh_command(&args), "& 'ssh' '-p' '22'");
    assert_eq!(terminal_e_args(&args), vec!["-e", "ssh", "-p", "22"]);
    assert_eq!(terminal_dash_dash_args(&args), vec!["--", "ssh", "-p", "22"]);
    assert_eq!(
        macos_terminal_args(&args),
        vec![
            "-e",
            "tell application \"Terminal\" to do script \"'ssh' '-p' '22'\"",
            "-e",
            "tell application \"Terminal\" to activate",
        ]
    );
}

#[test]
fn autostart_and_test_messages() {
    let s = build_autostart_status(true);
    assert!(s.enabled && s.supported);
    assert_eq!(s.message, "已注册系统登录启动项。");
    assert_eq!(build_autostart_status(false).message, "未启用系统登录启动。");
    let p = ssh_runtime_profile("x", "h", 2222, "u");
    assert_eq!(terminal_opened_message(&p), "已请求系统终端连接 u@h:2222。");
    let r = test_result(Err(connect_timeout_error("h:1")), 5);
    assert!(!r.ok);
    assert_eq!(r.message, "连接 h:1 超时");
    assert_eq!(r.duration_ms, 5);
}

#[test]
fn service_tests_are_planned_by_settings() {
    let mut d = ServiceDetail {
        id: "s".to_string(),
        name: "n".to_string(),
        kind: ServiceKind::UdpForward,
        enabled: true,
        auto_start: false,
        listen_host: "127.0.0.1".to_string(),
        listen_port: 1,
        notes: String::new(),
        created_at: String::new(),
        updated_at: String::new(),
        http_reverse: None,
        http_forward: None,
        tcp_forward: None,
        udp_forward: Some(UdpForwardConfig { target_host: "1.1.1.1".to_string(), target_port: 53, idle_timeout_ms: 1 }),
        ssh_tunnel: None,
        header_rules: vec![],
        body_rewrite_rules: vec![],
    };
    match service_test_plan(&d) {
        Ok(TestPlan::Report(m)) => assert_eq!(m, "UDP 目标 1.1.1.1:53 已通过配置校验"),
        _ => panic!("expected report"),
    }
    d.udp_forward = None;
    assert!(matches!(service_test_plan(&d), Err(AppError::InvalidInput(_))));
}
