use net_power::error::AppError;
use net_power::records::ssh_profile_in_use;
use std::collections::HashMap;
use net_power::jumps::{normalized_optional, JumpReferenceCheck, RuntimeChain};
use net_power::models::{
    BodyRewriteRuleInput, CreateServiceInput, HeaderRuleInput, HttpReverseConfig, ServiceKind,
    SshAuthType, SshProfileInput, SshProfileRuntimeConfig, SshTunnelConfig,
    SystemProxyProfileInput, ToolServiceContentSource, ToolServiceInput, ToolServiceRouteInput,
    ToolServiceStaticMode,
};
use net_power::validation::{
    validate_remote_bind, validate_service_input, validate_setting_update, validate_ssh_profile,
    validate_system_proxy_profile_input, validate_target, validate_tool_service_input,
};

fn sample_http_service() -> CreateServiceInput {
    CreateServiceInput {
        name: "测试反向代理".to_string(),
        kind: ServiceKind::HttpReverse,
        enabled: true,
        auto_start: false,
        listen_host: "127.0.0.1".to_string(),
        listen_port: 18080,
        notes: String::new(),
        http_reverse: Some(HttpReverseConfig {
            target_url: "http://127.0.0.1:19090".to_string(),
            preserve_host: false,
            request_timeout_ms: 30_000,
            max_rewrite_body_bytes: 10_485_760,
            skip_compressed_body: true,
        }),
        http_forward: None,
        tcp_forward: None,
        udp_forward: None,
        ssh_tunnel: None,
        header_rules: vec![HeaderRuleInput {
            phase: "request".to_string(),
            action: "set".to_string(),
            name: "x-test".to_string(),
            value: Some("ok".to_string()),
            enabled: true,
            sort_order: 0,
        }],
        body_rewrite_rules: vec![BodyRewriteRuleInput {
            body_type: "json".to_string(),
            path: "user.name".to_string(),
            value_json: "\"kong\"".to_string(),
            enabled: true,
            sort_order: 0,
        }],
    }
}

fn invalid_message(r: Result<(), AppError>) -> String {
    match r {
        Err(AppError::InvalidInput(m)) => m,
        other => panic!("expected invalid input, got {other:?}"),
    }
}

#[test]
fn sample_service_is_valid() {
    assert!(validate_service_input(&sample_http_service(), None).is_ok());
}

#[test]
fn service_checks_name_host_and_port_first() {
    let mut s = sample_http_service();
    s.name = "  ".to_string();
    s.listen_port = 0;
    assert_eq!(invalid_message(validate_service_input(&s, None)), "服务名称不能为空");
    let mut s = sample_http_service();
    s.listen_port = 0;
    assert_eq!(invalid_message(validate_service_input(&s, Some("id"))), "监听端口必须在 1 到 65535 之间");
}

#[test]
fn reverse_proxy_target_must_be_http_url() {
    let mut s = sample_http_service();
    s.http_reverse.as_mut().unwrap().target_url = "ftp://example.com".to_string();
    assert_eq!(
        invalid_message(validate_service_input(&s, None)),
        "HTTP 反向代理目标 URL 必须是 http 或 https"
    );
    s.http_reverse.as_mut().unwrap().target_url = "::nope".to_string();
    assert!(matches!(validate_service_input(&s, None), Err(AppError::Url(_))));
    s.http_reverse = None;
    assert_eq!(invalid_message(validate_service_input(&s, None)), "HTTP 反向代理缺少目标配置");
}

#[test]
fn rules_are_checked_in_order() {
    let mut s = sample_http_service();
    s.header_rules[0].action = "drop".to_string();
    s.body_rewrite_rules[0].value_json = "{".to_string();
    assert_eq!(invalid_message(validate_service_input(&s, None)), "Header action 必须是 set 或 remove");
    let mut s = sample_http_service();
    s.body_rewrite_rules[0].value_json = "{".to_string();
    assert_eq!(
        invalid_message(validate_service_input(&s, None)),
        "Body 改写值不是合法 JSON: user.name"
    );
}

#[test]
fn ssh_remote_service_needs_target_and_bind() {
    let mut s = sample_http_service();
    s.kind = ServiceKind::SshRemote;
    s.http_reverse = None;
    s.ssh_tunnel = Some(SshTunnelConfig {
        ssh_profile_id: "p".to_string(),
        tunnel_type: "remote".to_string(),
        target_host: Some("127.0.0.1".to_string()),
        target_port: Some(80),
        remote_bind_host: None,
        remote_bind_port: Some(9000),
    });
    assert_eq!(invalid_message(validate_service_input(&s, None)), "远程绑定 host 不能为空");
    s.ssh_tunnel.as_mut().unwrap().tunnel_type = "local".to_string();
    assert_eq!(invalid_message(validate_service_input(&s, None)), "SSH remote 隧道类型必须是 remote");
}

#[test]
fn targets_and_binds_need_host_and_port() {
    assert_eq!(invalid_message(validate_target(" ", 1)), "目标 host 不能为空");
    assert_eq!(invalid_message(validate_target("h", 0)), "目标端口必须在 1 到 65535 之间");
    assert!(validate_target("h", 1).is_ok());
    assert_eq!(invalid_message(validate_remote_bind("h", 0)), "远程绑定端口必须在 1 到 65535 之间");
}

fn tool_input() -> ToolServiceInput {
    ToolServiceInput {
        name: "tool".to_string(),
        host: "127.0.0.1".to_string(),
        port: 8080,
        static_root_dir: None,
        static_mode: ToolServiceStaticMode::Directory,
        static_path_prefix: "/".to_string(),
        routes: vec![ToolServiceRouteInput {
            method: "get".to_string(),
            path: "/a".to_string(),
            response_status: 200,
            content_type: String::new(),
            content_source: ToolServiceContentSource::Inline,
            body: Some("ok".to_string()),
            file_path: None,
        }],
    }
}

#[test]
fn tool_service_routes_are_labelled_by_position() {
    assert!(validate_tool_service_input(&tool_input()).is_ok());
    let mut t = tool_input();
    t.routes.push(ToolServiceRouteInput { response_status: 600, ..t.routes[0].clone() });
    assert_eq!(
        invalid_message(validate_tool_service_input(&t)),
        "接口 #2 的响应状态码必须是 100-599"
    );
    let mut t = tool_input();
    t.routes[0].content_source = ToolServiceContentSource::File;
    assert_eq!(invalid_message(validate_tool_service_input(&t)), "接口 #1 需要选择响应文件");
    let mut t = tool_input();
    t.routes.clear();
    assert_eq!(invalid_message(validate_tool_service_input(&t)), "请至少配置静态目录或一个接口");
}

fn ssh_profile() -> SshProfileInput {
    SshProfileInput {
        name: "测试 SSH".to_string(),
        host: "127.0.0.1".to_string(),
        port: 22,
        username: "tester".to_string(),
        auth_type: SshAuthType::Agent,
        password: None,
        private_key_path: None,
        private_key_passphrase: None,
        known_hosts_mode: "insecure_skip".to_string(),
        known_hosts_path: None,
        connect_timeout_ms: 10_000,
        keepalive_interval_ms: 30_000,
        jump_profile_id: None,
    }
}

#[test]
fn ssh_profiles_need_mode_and_key_path() {
    assert!(validate_ssh_profile(&ssh_profile()).is_ok());
    let mut p = ssh_profile();
    p.known_hosts_mode = "loose".to_string();
    assert_eq!(
        invalid_message(validate_ssh_profile(&p)),
        "known_hosts 模式必须是 strict/accept_new/insecure_skip"
    );
    let mut p = ssh_profile();
    p.auth_type = SshAuthType::PrivateKey;
    assert_eq!(invalid_message(validate_ssh_profile(&p)), "私钥认证需要填写私钥路径");
}

#[test]
fn system_proxy_profiles_and_settings_are_checked() {
    let p = SystemProxyProfileInput {
        name: "p".to_string(),
        proxy_host: "".to_string(),
        proxy_port: 1,
        bypass: String::new(),
    };
    assert_eq!(
        invalid_message(validate_system_proxy_profile_input(&p)),
        "系统代理配置档主机不能为空"
    );
    assert!(validate_setting_update("logs.max_rows", "100").is_ok());
    assert_eq!(invalid_message(validate_setting_update("k", "nope")), "设置值必须是合法 JSON");
    assert_eq!(invalid_message(validate_setting_update(" ", "1")), "设置 key 不能为空");
}

#[test]
fn jump_reference_refuses_self_and_cycles() {
    assert!(matches!(JumpReferenceCheck::start(Some("a"), Some("  ")), Ok(None)));
    assert!(matches!(JumpReferenceCheck::start(Some("a"), Some(" a ")), Err(AppError::InvalidInput(_))));
    // a -> b -> c -> a: saving a with jump b walks b, c, then reaches a.
    let mut check = JumpReferenceCheck::start(Some("a"), Some("b")).unwrap().unwrap();
    let chain = [("b", Some("c")), ("c", Some("a"))];
    let mut error = None;
    for (id, next) in chain {
        assert_eq!(check.next_id(), Some(id));
        check.visit().unwrap();
        check.after_lookup(Some(next.map(str::to_string))).unwrap();
    }
    if let Err(AppError::InvalidInput(m)) = check.visit() {
        error = Some(m);
    }
    assert_eq!(error.as_deref(), Some("SSH 跳板链不能形成循环引用"));
}

#[test]
fn jump_reference_reports_missing_profile_and_depth() {
    let mut check = JumpReferenceCheck::start(None, Some("b")).unwrap().unwrap();
    check.visit().unwrap();
    match check.after_lookup(None) {
        Err(AppError::InvalidInput(m)) => assert_eq!(m, "跳板 SSH Profile 不存在: b"),
        _ => panic!("expected missing profile"),
    }
    let mut check = JumpReferenceCheck::start(None, Some("p0")).unwrap().unwrap();
    let mut outcome = Ok(());
    for i in 0..9 {
        outcome = check.visit();
        if outcome.is_err() {
            break;
        }
        check.after_lookup(Some(Some(format!("p{}", i + 1)))).unwrap();
    }
    match outcome {
        Err(AppError::InvalidInput(m)) => assert_eq!(m, "SSH 跳板链最多支持 8 级"),
        _ => panic!("expected depth limit"),
    }
}

fn runtime(id: &str, jump: Option<&str>) -> SshProfileRuntimeConfig {
    SshProfileRuntimeConfig {
        id: id.to_string(),
        name: id.to_string(),
        host: "h".to_string(),
        port: 22,
        username: "u".to_string(),
        auth_type: SshAuthType::Agent,
        password_secret_id: None,
        private_key_path: None,
        private_key_passphrase_secret_id: None,
        known_hosts_mode: "strict".to_string(),
        known_hosts_path: None,
        connect_timeout_ms: 1,
        keepalive_interval_ms: 1,
        jump_profile_id: jump.map(str::to_string),
    }
}

#[test]
fn runtime_chain_lists_first_hop_first() {
    let profiles = [runtime("target", Some("middle")), runtime("middle", Some(" bastion ")), runtime("bastion", None)];
    let mut chain = RuntimeChain::start("target");
    for p in profiles {
        assert_eq!(chain.next_id(), Some(p.id.as_str()));
        chain.enter().unwrap();
        chain.push(p);
    }
    assert_eq!(chain.next_id(), None);
    let ids: Vec<String> = chain.finish().into_iter().map(|p| p.id).collect();
    assert_eq!(ids, vec!["bastion", "middle", "target"]);
}

#[test]
fn blank_optionals_normalise_to_none() {
    assert_eq!(normalized_optional(Some("  x ")), Some("x".to_string()));
    assert_eq!(normalized_optional(Some("   ")), None);
    assert_eq!(normalized_optional(None), None);
}

/// Saved profiles by id, each with its jump profile id, as the store keeps
/// them.
type JumpStore = HashMap<String, Option<String>>;

fn check_jump_reference(store: &JumpStore, current: Option<&str>, jump: Option<&str>) -> Result<(), AppError> {
    let Some(mut check) = JumpReferenceCheck::start(current, jump)? else {
        return Ok(());
    };
    while let Some(id) = check.next_id().map(str::to_string) {
        check.visit()?;
        check.after_lookup(store.get(&id).cloned())?;
    }
    Ok(())
}

fn save_profile(store: &mut JumpStore, id: &str, jump: Option<&str>) -> Result<(), AppError> {
    check_jump_reference(store, Some(id), jump)?;
    store.insert(id.to_string(), normalized_optional(jump));
    Ok(())
}

fn resolve_chain(store: &JumpStore, id: &str) -> Result<Vec<String>, AppError> {
    let mut chain = RuntimeChain::start(id);
    while let Some(next) = chain.next_id().map(str::to_string) {
        chain.enter()?;
        let jump = store.get(&next).cloned().flatten();
        chain.push(runtime(&next, jump.as_deref()));
    }
    Ok(chain.finish().into_iter().map(|p| p.id).collect())
}

#[test]
fn ssh_profile_jump_chain_roundtrip_resolves_first_hop_order() {
    let mut store = JumpStore::new();
    save_profile(&mut store, "bastion", None).expect("一级跳板 Profile 应创建成功");
    save_profile(&mut store, "middle", Some("bastion")).expect("二级跳板 Profile 应创建成功");
    save_profile(&mut store, "target", Some("middle")).expect("目标 Profile 应创建成功");
    assert_eq!(store.get("target").cloned().flatten().as_deref(), Some("middle"));

    let ids = resolve_chain(&store, "target").expect("跳板链应可解析");
    assert_eq!(ids, vec!["bastion", "middle", "target"]);
}

#[test]
fn ssh_profile_jump_reference_rejects_self_cycle_and_delete() {
    let mut store = JumpStore::new();
    save_profile(&mut store, "first", None).expect("first Profile 应创建成功");
    save_profile(&mut store, "second", Some("first")).expect("second Profile 应创建成功");
    save_profile(&mut store, "third", Some("second")).expect("third Profile 应创建成功");

    let self_reference = save_profile(&mut store, "first", Some("first"));
    assert!(matches!(self_reference, Err(AppError::InvalidInput(_))));

    let cycle = save_profile(&mut store, "first", Some("third"));
    assert!(matches!(cycle, Err(AppError::InvalidInput(_))));

    let referenced = store.values().any(|jump| jump.as_deref() == Some("first"));
    assert!(referenced);
    assert!(matches!(ssh_profile_in_use(), AppError::Conflict(_)));
}
