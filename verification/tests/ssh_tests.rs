use net_power::error::AppError;
use net_power::models::{SshAuthType, SshProfileRuntimeConfig};
use net_power::ssh::{
    auth_secret_plan, auth_step, checks_host_key, configured_known_hosts_path, missing_host_key,
    no_home_for_known_hosts, password_auth_failed, prompt_answers, unresolved_ssh_host, AuthStep,
    decide_known_host, format_host_port, known_host_name, should_read_known_hosts_file,
    ssh_reconnect_delay, KnownHostCheck, KnownHostDecision, RemoteForwardSpec,
    SocksConnectRequest,
};
use std::time::Duration;

#[test]
fn ssh_known_host_name_uses_openssh_port_format() {
    assert_eq!(known_host_name("example.com", 22), "example.com");
    assert_eq!(known_host_name("example.com", 2222), "[example.com]:2222");
}

#[test]
fn utils_tests_known_host_name_uses_openssh_port_format() {
    assert_eq!(known_host_name("example.com", 22), "example.com");
    assert_eq!(known_host_name("example.com", 2222), "[example.com]:2222");
}

#[test]
fn host_port_labels_wrap_ipv6_addresses() {
    assert_eq!(format_host_port("127.0.0.1", 8080), "127.0.0.1:8080");
    assert_eq!(format_host_port("2001:db8::1", 8080), "[2001:db8::1]:8080");
    assert_eq!(
        RemoteForwardSpec {
            service_id: "svc".to_string(),
            remote_bind_host: "0.0.0.0".to_string(),
            remote_bind_port: 18080,
            target_host: "127.0.0.1".to_string(),
            target_port: 8080,
        }
        .log_target_addr(),
        "0.0.0.0:18080 -> 127.0.0.1:8080"
    );
}

#[test]
fn ssh_reconnect_delay_exponentially_backs_off_and_caps() {
    assert_eq!(Duration::from_secs(ssh_reconnect_delay(0)), Duration::from_secs(1));
    assert_eq!(Duration::from_secs(ssh_reconnect_delay(1)), Duration::from_secs(2));
    assert_eq!(Duration::from_secs(ssh_reconnect_delay(5)), Duration::from_secs(30));
    assert_eq!(Duration::from_secs(ssh_reconnect_delay(12)), Duration::from_secs(30));
}

#[test]
fn ssh_reconnect_delay_doubles_until_the_cap() {
    assert_eq!(ssh_reconnect_delay(2), 4);
    assert_eq!(ssh_reconnect_delay(3), 8);
    assert_eq!(ssh_reconnect_delay(4), 16);
    assert_eq!(ssh_reconnect_delay(u32::MAX), 30);
}

#[test]
fn socks_target_addr_brackets_ipv6_once() {
    let v6 = SocksConnectRequest { host: "::1".to_string(), port: 443 };
    assert_eq!(v6.target_addr(), "[::1]:443");
    let bracketed = SocksConnectRequest { host: "[::1]".to_string(), port: 443 };
    assert_eq!(bracketed.target_addr(), "[::1]:443");
    let domain = SocksConnectRequest { host: "example.com".to_string(), port: 443 };
    assert_eq!(domain.target_addr(), "example.com:443");
}

#[test]
fn strict_known_hosts_rejects_missing_file() {
    let error = should_read_known_hosts_file("strict", false, "/tmp/missing-known-hosts")
        .expect_err("strict 模式必须拒绝缺失文件");
    assert!(error.message().contains("known_hosts 文件不存在"));
}

#[test]
fn accept_new_known_hosts_allows_missing_file() {
    let should_read = should_read_known_hosts_file("accept_new", false, "/tmp/missing")
        .expect("accept_new 可等待首次写入");
    assert!(!should_read);
    assert!(should_read_known_hosts_file("strict", true, "/tmp/present").unwrap());
}

#[test]
fn strict_known_hosts_rejects_unknown_host_and_mismatch() {
    let missing = decide_known_host("strict", KnownHostCheck::NotFound, "example.com", 2222)
        .expect_err("strict 模式必须拒绝 known_hosts 中不存在的主机");
    assert!(missing
        .message()
        .contains("known_hosts 中不存在 example.com:2222"));

    let mismatch = decide_known_host("strict", KnownHostCheck::Mismatch, "example.com", 2222)
        .expect_err("strict 模式必须拒绝 host key mismatch");
    assert!(mismatch
        .message()
        .contains("SSH host key 与 known_hosts 不匹配: example.com:2222"));
}

#[test]
fn accept_new_known_hosts_adds_unknown_host_but_rejects_mismatch() {
    let decision = decide_known_host("accept_new", KnownHostCheck::NotFound, "example.com", 2222)
        .expect("accept_new 应允许首次写入 known_hosts");
    assert_eq!(decision, KnownHostDecision::AddNew);

    let mismatch = decide_known_host("accept_new", KnownHostCheck::Mismatch, "example.com", 2222)
        .expect_err("accept_new 后续也必须拒绝 mismatch");
    assert!(mismatch
        .message()
        .contains("SSH host key 与 known_hosts 不匹配: example.com:2222"));
}

#[test]
fn matching_known_hosts_entry_is_trusted() {
    let decision = decide_known_host("strict", KnownHostCheck::Match, "example.com", 22)
        .expect("匹配的 known_hosts 记录应通过");
    assert_eq!(decision, KnownHostDecision::Trusted);
}

#[test]
fn failed_known_hosts_check_is_refused() {
    let failure = decide_known_host("insecure_skip", KnownHostCheck::Failure, "h", 1)
        .expect_err("校验失败必须拒绝");
    assert_eq!(failure.message(), "参数无效: known_hosts 校验失败: h:1");
}

fn runtime_profile(auth: SshAuthType) -> SshProfileRuntimeConfig {
    SshProfileRuntimeConfig {
        id: "p1".to_string(),
        name: "跳板".to_string(),
        host: "10.0.0.1".to_string(),
        port: 22,
        username: "ops".to_string(),
        auth_type: auth,
        password_secret_id: None,
        private_key_path: None,
        private_key_passphrase_secret_id: Some("s2".to_string()),
        known_hosts_mode: "strict".to_string(),
        known_hosts_path: Some("  ".to_string()),
        connect_timeout_ms: 1000,
        keepalive_interval_ms: 0,
        jump_profile_id: None,
    }
}

#[test]
fn auth_plans_follow_the_profile() {
    let p = runtime_profile(SshAuthType::Password);
    assert!(matches!(auth_secret_plan(&p), Err(AppError::InvalidInput(m)) if m == "SSH Profile 跳板(p1) 缺少密码 secret"));
    let mut p = runtime_profile(SshAuthType::Password);
    p.password_secret_id = Some("s1".to_string());
    let plan = auth_secret_plan(&p).unwrap();
    assert_eq!(plan.password_secret_id.as_deref(), Some("s1"));
    assert_eq!(plan.passphrase_secret_id.as_deref(), Some("s2"));
    let agent = runtime_profile(SshAuthType::Agent);
    assert!(auth_secret_plan(&agent).unwrap().password_secret_id.is_none());
    assert!(matches!(auth_step(&agent, None, None), Ok(AuthStep::Agent { username }) if username == "ops"));
    assert!(matches!(auth_step(&p, None, None), Err(AppError::InvalidInput(m)) if m == "密码认证缺少密码"));
    assert!(matches!(auth_step(&p, Some("pw".to_string()), None), Ok(AuthStep::Password { password, .. }) if password == "pw"));
    let mut k = runtime_profile(SshAuthType::PrivateKey);
    assert!(matches!(auth_step(&k, None, None), Err(AppError::InvalidInput(m)) if m == "私钥认证缺少私钥路径"));
    k.private_key_path = Some("~/.ssh/id_ed25519".to_string());
    assert!(matches!(
        auth_step(&k, None, Some("pp".to_string())),
        Ok(AuthStep::PublicKey { key_path, passphrase: Some(pp), .. }) if key_path == "~/.ssh/id_ed25519" && pp == "pp"
    ));
    assert!(matches!(password_auth_failed("a", "b"), AppError::InvalidInput(m) if m == "SSH 密码认证失败: a; keyboard-interactive 失败: b"));
    assert_eq!(prompt_answers("pw", 2), vec!["pw".to_string(), "pw".to_string()]);
    assert!(!checks_host_key("insecure_skip"));
    assert!(checks_host_key("strict"));
    assert_eq!(configured_known_hosts_path(&k), None);
    k.known_hosts_path = Some("/etc/kh".to_string());
    assert_eq!(configured_known_hosts_path(&k).as_deref(), Some("/etc/kh"));
    assert!(matches!(missing_host_key(), AppError::InvalidInput(_)));
    assert!(matches!(no_home_for_known_hosts(), AppError::InvalidInput(_)));
    assert!(matches!(unresolved_ssh_host("h", 22), AppError::InvalidInput(m) if m == "无法解析 SSH 主机: h:22"));
}
