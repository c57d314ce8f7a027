use net_power::models::{
    AppSetting, CreateServiceInput, HttpReverseConfig, LogRow, ServiceDetail, ServiceKind,
    SshTunnelConfig, TcpForwardConfig, ToolServiceConfig, ToolServiceContentSource,
    ToolServiceRouteInput, ToolServiceStaticMode, RuntimeStatus,
};
use net_power::records::{
    bool_to_i64, connection_log_id, connection_log_message, connection_log_meta_json,
    connection_log_row, detail_row, i64_to_bool, i64_to_u16, i64_to_u64, keyword_pattern,
    log_limit, normalize_db_http_path, order_logs, retention_modifier, service_log_id,
    setting_u32, target_label, tool_service_summary_from_config, u64_to_i64, ConnectionEventRow,
    DetailRow, default_settings, duplicate_input, ssh_profile_in_use, ssh_profile_not_found,
    system_proxy_target_from_service, ssh_profile_secret_ids, ssh_profile_secrets, log_query,
};
use net_power::models::{BodyRewriteRule, HeaderRule, LogFilter, SshAuthType, SshProfileInput};
use net_power::error::AppError;

#[test]
fn integers_convert_with_clamping() {
    assert_eq!(bool_to_i64(true), 1);
    assert_eq!(bool_to_i64(false), 0);
    assert!(i64_to_bool(-3));
    assert!(!i64_to_bool(0));
    assert_eq!(i64_to_u16(-1), 0);
    assert_eq!(i64_to_u16(70_000), 65_535);
    assert_eq!(i64_to_u16(443), 443);
    assert_eq!(i64_to_u64(-5), 0);
    assert_eq!(u64_to_i64(u64::MAX), i64::MAX);
    assert_eq!(u64_to_i64(7), 7);
}

#[test]
fn stored_http_paths_are_normalised() {
    assert_eq!(normalize_db_http_path(" api/ "), "/api");
    assert_eq!(normalize_db_http_path(""), "/");
}

fn detail() -> ServiceDetail {
    ServiceDetail {
        id: "s".to_string(),
        name: "n".to_string(),
        kind: ServiceKind::TcpForward,
        enabled: true,
        auto_start: false,
        listen_host: "127.0.0.1".to_string(),
        listen_port: 1,
        notes: String::new(),
        created_at: String::new(),
        updated_at: String::new(),
        http_reverse: None,
        http_forward: None,
        tcp_forward: None,
        udp_forward: None,
        ssh_tunnel: None,
        header_rules: vec![],
        body_rewrite_rules: vec![],
    }
}

#[test]
fn target_labels_describe_each_kind() {
    let mut d = detail();
    assert_eq!(target_label(&d), "");
    d.tcp_forward = Some(TcpForwardConfig {
        target_host: "10.0.0.1".to_string(),
        target_port: 80,
        connect_timeout_ms: 1,
        idle_timeout_ms: 1,
    });
    assert_eq!(target_label(&d), "10.0.0.1:80");
    let mut d = detail();
    d.ssh_tunnel = Some(SshTunnelConfig {
        ssh_profile_id: "p".to_string(),
        tunnel_type: "remote".to_string(),
        target_host: Some("127.0.0.1".to_string()),
        target_port: Some(3000),
        remote_bind_host: Some("0.0.0.0".to_string()),
        remote_bind_port: Some(9000),
    });
    assert_eq!(target_label(&d), "SSH remote 0.0.0.0:9000 -> 127.0.0.1:3000");
    d.ssh_tunnel.as_mut().unwrap().tunnel_type = "local".to_string();
    assert_eq!(target_label(&d), "SSH -> 127.0.0.1:3000");
    d.ssh_tunnel.as_mut().unwrap().tunnel_type = "socks".to_string();
    assert_eq!(target_label(&d), "SOCKS5 动态代理");
}

#[test]
fn settings_are_read_with_default_and_range() {
    let settings = vec![
        AppSetting { key: "logs.max_rows".to_string(), value_json: "5000000".to_string() },
        AppSetting { key: "logs.retention_days".to_string(), value_json: "\"x\"".to_string() },
    ];
    assert_eq!(setting_u32(&settings, "logs.max_rows", 20_000, 1, 1_000_000), 1_000_000);
    assert_eq!(setting_u32(&settings, "logs.retention_days", 7, 1, 3650), 7);
    assert_eq!(setting_u32(&settings, "missing", 0, 1, 10), 1);
}

fn event() -> ConnectionEventRow {
    ConnectionEventRow {
        id: 3,
        service_id: Some("svc".to_string()),
        protocol: "http".to_string(),
        remote_addr: "1.2.3.4:5".to_string(),
        target_addr: "http://up".to_string(),
        event_type: "request".to_string(),
        method: "GET".to_string(),
        host: "example.com".to_string(),
        path: "/a".to_string(),
        status_code: Some(200),
        bytes_in: 10,
        bytes_out: -1,
        duration_ms: 5,
        error: String::new(),
        created_at: "2024-01-01 00:00:00".to_string(),
    }
}

#[test]
fn connection_events_become_log_lines() {
    assert_eq!(
        connection_log_message(&event()),
        "http GET example.com/a -> 200 (10B in, -1B out, 5ms)"
    );
    let mut e = event();
    e.error = "boom".to_string();
    e.method = String::new();
    e.host = String::new();
    assert_eq!(connection_log_message(&e), "http request http://up failed: boom");
    let meta = connection_log_meta_json(&event()).unwrap();
    assert_eq!(
        meta,
        r#"{"bytesIn":10,"bytesOut":-1,"durationMs":5,"error":"","eventType":"request","host":"example.com","method":"GET","path":"/a","protocol":"http","remoteAddr":"1.2.3.4:5","source":"connection_events","statusCode":200,"targetAddr":"http://up"}"#
    );
    let row = connection_log_row(event()).unwrap();
    assert_eq!(row.id, 7);
    assert_eq!(row.level, "info");
}

#[test]
fn log_ids_keep_sources_apart() {
    assert_eq!(service_log_id(3), 6);
    assert_eq!(connection_log_id(3), 7);
    assert_eq!(service_log_id(i64::MAX), i64::MAX);
    assert_eq!(connection_log_id(i64::MAX), i64::MAX);
    assert_eq!(service_log_id(i64::MIN), i64::MIN);
}

fn log(id: i64, at: &str) -> LogRow {
    LogRow {
        id,
        service_id: None,
        level: "info".to_string(),
        message: String::new(),
        meta_json: String::new(),
        created_at: at.to_string(),
    }
}

#[test]
fn logs_are_ordered_newest_first_and_limited() {
    let rows = vec![log(2, "2024-01-01"), log(5, "2024-01-02"), log(3, "2024-01-01"), log(1, "2024-01-03")];
    let ordered: Vec<i64> = order_logs(rows, 3).into_iter().map(|l| l.id).collect();
    assert_eq!(ordered, vec![1, 5, 3]);
    assert_eq!(log_limit(None), 300);
    assert_eq!(log_limit(Some(0)), 1);
    assert_eq!(log_limit(Some(9999)), 2000);
    assert_eq!(keyword_pattern("ab"), "%ab%");
    assert_eq!(retention_modifier(7), "-7 days");
}

#[test]
fn detail_rows_trim_and_convert() {
    let input = CreateServiceInput {
        name: "n".to_string(),
        kind: ServiceKind::HttpReverse,
        enabled: true,
        auto_start: false,
        listen_host: "h".to_string(),
        listen_port: 1,
        notes: String::new(),
        http_reverse: Some(HttpReverseConfig {
            target_url: " http://x ".to_string(),
            preserve_host: true,
            request_timeout_ms: u64::MAX,
            max_rewrite_body_bytes: 10,
            skip_compressed_body: false,
        }),
        http_forward: None,
        tcp_forward: None,
        udp_forward: None,
        ssh_tunnel: None,
        header_rules: vec![],
        body_rewrite_rules: vec![],
    };
    match detail_row(&input).unwrap() {
        DetailRow::HttpReverse { target_url, preserve_host, request_timeout_ms, max_rewrite_body_bytes, skip_compressed_body } => {
            assert_eq!(target_url, "http://x");
            assert_eq!(preserve_host, 1);
            assert_eq!(request_timeout_ms, i64::MAX);
            assert_eq!(max_rewrite_body_bytes, 10);
            assert_eq!(skip_compressed_body, 0);
        }
        _ => panic!("wrong row"),
    }
}

#[test]
fn stopped_tool_service_summary_points_at_first_route() {
    let config = ToolServiceConfig {
        id: "t".to_string(),
        name: "tool".to_string(),
        host: "127.0.0.1".to_string(),
        port: 8080,
        static_root_dir: None,
        static_mode: ToolServiceStaticMode::Directory,
        static_path_prefix: "/static".to_string(),
        routes: vec![ToolServiceRouteInput {
            method: "GET".to_string(),
            path: "/api".to_string(),
            response_status: 200,
            content_type: String::new(),
            content_source: ToolServiceContentSource::Inline,
            body: None,
            file_path: None,
        }],
        created_at: String::new(),
        updated_at: String::new(),
    };
    let s = tool_service_summary_from_config(config);
    assert_eq!(s.url, "http://127.0.0.1:8080/api");
    assert_eq!(s.route_count, 1);
    assert_eq!(s.runtime_status, RuntimeStatus::Stopped);
}

#[test]
fn duplicated_service_is_a_stopped_copy_on_the_next_port() {
    let mut d = detail();
    d.name = "代理".to_string();
    d.auto_start = true;
    d.listen_port = 8080;
    d.header_rules = vec![HeaderRule {
        id: "h1".to_string(),
        phase: "request".to_string(),
        action: "set".to_string(),
        name: "X-A".to_string(),
        value: Some("1".to_string()),
        enabled: true,
        sort_order: 3,
    }];
    d.body_rewrite_rules = vec![BodyRewriteRule {
        id: "b1".to_string(),
        body_type: "json".to_string(),
        path: "a.b".to_string(),
        value_json: "1".to_string(),
        enabled: false,
        sort_order: 0,
    }];
    let copy = duplicate_input(d.clone());
    assert_eq!(copy.name, "代理 副本");
    assert!(!copy.auto_start);
    assert_eq!(copy.listen_port, 8081);
    assert_eq!(copy.header_rules.len(), 1);
    assert_eq!(copy.header_rules[0].name, "X-A");
    assert_eq!(copy.header_rules[0].sort_order, 3);
    assert_eq!(copy.body_rewrite_rules[0].path, "a.b");
    assert!(!copy.body_rewrite_rules[0].enabled);
    d.listen_port = 65535;
    assert_eq!(duplicate_input(d).listen_port, 65535);
}

#[test]
fn store_defaults_and_refusals() {
    let defaults = default_settings();
    assert_eq!(defaults.len(), 4);
    assert_eq!(defaults[0], ("app.initialized", "true"));
    assert_eq!(defaults[2], ("logs.max_rows", "20000"));
    let mut d = detail();
    assert!(matches!(system_proxy_target_from_service(d.clone()), Err(AppError::InvalidInput(_))));
    d.kind = ServiceKind::HttpForward;
    let t = system_proxy_target_from_service(d).unwrap();
    assert_eq!((t.proxy_host.as_str(), t.proxy_port, t.bypass.as_str()), ("127.0.0.1", 1, ""));
    assert!(matches!(ssh_profile_in_use(), AppError::Conflict(_)));
    assert!(matches!(ssh_profile_not_found("p9"), AppError::NotFound(m) if m == "SSH Profile 不存在: p9"));
}

fn sample_ssh_profile_input() -> SshProfileInput {
    SshProfileInput {
        name: "测试 SSH".to_string(),
        host: "ssh.example.test".to_string(),
        port: 22,
        username: "tester".to_string(),
        auth_type: SshAuthType::Agent,
        password: None,
        private_key_path: None,
        private_key_passphrase: None,
        known_hosts_mode: "insecure_skip".to_string(),
        known_hosts_path: None,
        connect_timeout_ms: 10_000,
        keepalive_interval_ms: 30_000,
        jump_profile_id: None,
    }
}

#[test]
fn password_ssh_profile_requires_saved_secret() {
    let mut input = sample_ssh_profile_input();
    input.auth_type = SshAuthType::Password;
    input.password = Some("secret".to_string());

    let failed = ssh_profile_secret_ids(input.auth_type, None, None, None, None);
    assert!(matches!(failed, Err(AppError::InvalidInput(m)) if m == "密码认证需要保存密码 secret"));

    let created = ssh_profile_secret_ids(
        input.auth_type,
        Some("password-secret-id".to_string()),
        None,
        None,
        None,
    )
    .expect("带 secret id 的密码配置应可创建");
    assert!(created.0.is_some());
}

#[test]
fn saved_secret_ids_keep_old_unless_replaced() {
    let kept = ssh_profile_secret_ids(
        SshAuthType::Password,
        None,
        Some("old-pw".to_string()),
        None,
        Some("old-key".to_string()),
    )
    .unwrap();
    assert_eq!(kept, (Some("old-pw".to_string()), Some("old-key".to_string())));
    let replaced = ssh_profile_secret_ids(
        SshAuthType::Password,
        Some("new-pw".to_string()),
        Some("old-pw".to_string()),
        Some("new-key".to_string()),
        None,
    )
    .unwrap();
    assert_eq!(replaced, (Some("new-pw".to_string()), Some("new-key".to_string())));
    let agent = ssh_profile_secret_ids(SshAuthType::Agent, None, Some("old-pw".to_string()), None, None).unwrap();
    assert_eq!(agent, (Some("old-pw".to_string()), None));
}

#[test]
fn profile_secrets_are_labelled_by_name_and_skip_empty_values() {
    let mut input = sample_ssh_profile_input();
    input.password = Some("pw".to_string());
    input.private_key_passphrase = Some(String::new());
    let (password, passphrase) = ssh_profile_secrets(&input);
    let password = password.expect("非空密码应保存");
    assert_eq!(password.label, "测试 SSH password");
    assert_eq!(password.kind, "ssh_password");
    assert_eq!(password.value, "pw");
    assert!(passphrase.is_none());
    input.private_key_passphrase = Some("pp".to_string());
    let (_, passphrase) = ssh_profile_secrets(&input);
    let passphrase = passphrase.unwrap();
    assert_eq!(passphrase.label, "测试 SSH key passphrase");
    assert_eq!(passphrase.kind, "ssh_key_passphrase");
}

#[test]
fn database_migration_creates_default_settings() {
    let settings = default_settings();
    assert!(settings.iter().any(|(key, _)| *key == "app.initialized"));
}

#[test]
fn tests_migration_creates_default_settings() {
    let settings = default_settings();
    assert!(settings.iter().any(|(key, _)| *key == "app.initialized"));
}

#[test]
fn log_query_reads_service_events_only_without_protocol_filter() {
    let q = log_query(&LogFilter {
        service_id: Some("svc".to_string()),
        level: None,
        protocol: Some("http".to_string()),
        keyword: Some("api".to_string()),
        created_after: None,
        created_before: None,
        limit: Some(5000),
    });
    assert_eq!(q.service_id, "svc");
    assert_eq!(q.level, "");
    assert_eq!(q.like, "%api%");
    assert_eq!(q.limit, 2000);
    assert!(!q.include_service_events);
    let all = log_query(&LogFilter {
        service_id: None,
        level: None,
        protocol: None,
        keyword: None,
        created_after: None,
        created_before: None,
        limit: None,
    });
    assert!(all.include_service_events);
    assert_eq!(all.like, "%%");
    assert_eq!(all.limit, 300);
}
