use net_power::error::AppError;
use net_power::manager::{
    port_unavailable, runtime_binding, ServiceCounters, ServiceManager, StartDecision, StopOutcome,
};
use net_power::models::{RuntimeStatus, ServiceDetail, ServiceKind, SshTunnelConfig};

fn tcp_detail(id: &str, port: u16) -> ServiceDetail {
    ServiceDetail {
        id: id.to_string(),
        name: id.to_string(),
        kind: ServiceKind::TcpForward,
        enabled: true,
        auto_start: false,
        listen_host: "127.0.0.1".to_string(),
        listen_port: port,
        notes: String::new(),
        created_at: String::new(),
        updated_at: String::new(),
        http_reverse: None,
        http_forward: None,
        tcp_forward: None,
        udp_forward: None,
        ssh_tunnel: None,
        header_rules: Vec::new(),
        body_rewrite_rules: Vec::new(),
    }
}

fn remote_detail(id: &str, profile: &str, port: u16) -> ServiceDetail {
    let mut d = tcp_detail(id, port);
    d.kind = ServiceKind::SshRemote;
    d.ssh_tunnel = Some(SshTunnelConfig {
        ssh_profile_id: profile.to_string(),
        tunnel_type: "remote".to_string(),
        target_host: Some("127.0.0.1".to_string()),
        target_port: Some(8080),
        remote_bind_host: Some(" 127.0.0.1 ".to_string()),
        remote_bind_port: Some(port),
    });
    d
}

/// Runs the start steps the caller performs: reap, check, record.
fn start(m: &mut ServiceManager, d: &ServiceDetail, finished: bool) -> Result<RuntimeStatus, AppError> {
    m.reap_finished(&d.id, finished);
    match m.start_check(d)? {
        StartDecision::AlreadyRunning => Ok(RuntimeStatus::Running),
        StartDecision::Start(b) => {
            m.record_started(d.kind, d.id.clone(), b, "2024-01-01T00:00:00Z".to_string());
            Ok(RuntimeStatus::Running)
        }
    }
}

fn stop(m: &mut ServiceManager, id: &str, outcome: StopOutcome) -> RuntimeStatus {
    match m.take_running(id) {
        None => RuntimeStatus::Stopped,
        Some(_) => m.record_stop(id, outcome),
    }
}

#[test]
fn bindings_use_local_or_remote_conflict_domains() {
    let b = runtime_binding(&tcp_detail("a", 8080)).unwrap();
    assert_eq!(b.listen_addr, "127.0.0.1:8080");
    assert_eq!(b.conflict_key, "local:127.0.0.1:8080");
    assert!(b.check_local_port);
    let b = runtime_binding(&remote_detail("r", "p1", 18080)).unwrap();
    assert_eq!(b.listen_addr, "127.0.0.1:18080");
    assert_eq!(b.conflict_key, "ssh_remote:p1:127.0.0.1:18080");
    assert!(!b.check_local_port);
    let mut d = remote_detail("r", "p1", 18080);
    d.ssh_tunnel.as_mut().unwrap().remote_bind_port = Some(0);
    assert!(matches!(runtime_binding(&d), Err(AppError::InvalidInput(m)) if m == "SSH remote 缺少远程绑定端口"));
    let mut d = remote_detail("r", "p1", 18080);
    d.ssh_tunnel.as_mut().unwrap().remote_bind_host = Some("  ".to_string());
    assert!(matches!(runtime_binding(&d), Err(AppError::InvalidInput(m)) if m == "SSH remote 缺少远程绑定 host"));
    let mut d = remote_detail("r", "p1", 18080);
    d.ssh_tunnel = None;
    assert!(matches!(runtime_binding(&d), Err(AppError::InvalidInput(m)) if m == "SSH remote 缺少隧道配置"));
}

#[test]
fn start_stop_reports_running_then_stopped() {
    let mut m = ServiceManager::new();
    let d = tcp_detail("svc", 18081);
    assert_eq!(start(&mut m, &d, false).unwrap(), RuntimeStatus::Running);
    assert_eq!(m.runtime_status("svc", false), RuntimeStatus::Running);
    assert_eq!(start(&mut m, &d, false).unwrap(), RuntimeStatus::Running);
    assert_eq!(stop(&mut m, "svc", StopOutcome::Finished), RuntimeStatus::Stopped);
    assert_eq!(m.runtime_status("svc", false), RuntimeStatus::Stopped);
    assert_eq!(stop(&mut m, "svc", StopOutcome::Finished), RuntimeStatus::Stopped);
}

#[test]
fn ssh_remote_start_skips_local_port_probe_and_conflicts_by_profile() {
    let mut m = ServiceManager::new();
    let first = remote_detail("remote-one", "p1", 18080);
    match m.start_check(&first).unwrap() {
        StartDecision::Start(b) => {
            assert!(!b.check_local_port);
            m.record_started(first.kind, first.id.clone(), b, "t".to_string());
        }
        StartDecision::AlreadyRunning => panic!("not running yet"),
    }
    let conflict = start(&mut m, &remote_detail("remote-two", "p1", 18080), false);
    assert!(matches!(conflict, Err(AppError::Conflict(msg)) if msg == "监听地址已被其他服务占用: 127.0.0.1:18080"));
    assert_eq!(start(&mut m, &remote_detail("remote-three", "p2", 18080), false).unwrap(), RuntimeStatus::Running);
    assert_eq!(start(&mut m, &tcp_detail("local", 18080), false).unwrap(), RuntimeStatus::Running);
}

#[test]
fn disabled_services_do_not_start() {
    let mut m = ServiceManager::new();
    let mut d = tcp_detail("off", 1);
    d.enabled = false;
    assert!(matches!(start(&mut m, &d, false), Err(AppError::InvalidInput(msg)) if msg == "服务已禁用，不能启动"));
}

#[test]
fn finished_task_is_reported_failed_and_can_start_again() {
    let mut m = ServiceManager::new();
    let d = tcp_detail("svc-finished", 18082);
    start(&mut m, &d, false).unwrap();
    assert_eq!(
        m.runtime_status(&d.id, true),
        RuntimeStatus::Failed { message: "服务任务已退出".to_string() }
    );
    m.reap_finished(&d.id, true);
    assert!(!m.is_running(&d.id));
    assert_eq!(
        m.runtime_status(&d.id, false),
        RuntimeStatus::Failed { message: "服务任务已退出".to_string() }
    );
    assert_eq!(start(&mut m, &d, false).unwrap(), RuntimeStatus::Running);
    assert_eq!(m.runtime_status(&d.id, false), RuntimeStatus::Running);
}

#[test]
fn stop_failures_are_recorded() {
    let mut m = ServiceManager::new();
    start(&mut m, &tcp_detail("a", 1), false).unwrap();
    start(&mut m, &tcp_detail("b", 2), false).unwrap();
    assert_eq!(
        stop(&mut m, "a", StopOutcome::TimedOut),
        RuntimeStatus::Failed { message: "服务停止超时，后台任务可能仍在退出".to_string() }
    );
    assert_eq!(
        stop(&mut m, "b", StopOutcome::Panicked("boom".to_string())),
        RuntimeStatus::Failed { message: "服务停止时任务异常: boom".to_string() }
    );
    assert_eq!(
        m.runtime_status("b", false),
        RuntimeStatus::Failed { message: "服务停止时任务异常: boom".to_string() }
    );
}

#[test]
fn summaries_list_running_then_failed() {
    let mut m = ServiceManager::new();
    start(&mut m, &tcp_detail("a", 1), false).unwrap();
    start(&mut m, &tcp_detail("b", 2), false).unwrap();
    start(&mut m, &tcp_detail("c", 3), false).unwrap();
    stop(&mut m, "c", StopOutcome::TimedOut);
    let ids = m.running_ids();
    assert_eq!(ids, vec!["a".to_string(), "b".to_string()]);
    let counters = ServiceCounters { active_connections: 1, total_connections: 5, bytes_in: 10, bytes_out: 20 };
    let probes = vec![(false, counters), (true, ServiceCounters::new())];
    let list = m.list_runtime_status(&probes);
    assert_eq!(list.len(), 3);
    assert_eq!(list[0].service_id, "a");
    assert_eq!(list[0].listen_addr, "127.0.0.1:1");
    assert_eq!(list[0].runtime_status, RuntimeStatus::Running);
    assert_eq!(list[0].total_connections, 5);
    assert_eq!(list[0].started_at.as_deref(), Some("2024-01-01T00:00:00Z"));
    assert_eq!(list[1].runtime_status, RuntimeStatus::Failed { message: "服务任务已退出".to_string() });
    assert_eq!(list[2].service_id, "c");
    assert_eq!(list[2].kind, ServiceKind::HttpForward);
    assert_eq!(list[2].listen_addr, "");
    assert_eq!(list[2].started_at, None);
    assert_eq!(m.counters("a", counters), (1, 5));
    assert_eq!(m.counters("c", counters), (0, 0));
}

#[test]
fn port_probe_failures_name_the_protocol() {
    assert!(matches!(
        port_unavailable(ServiceKind::UdpForward, "127.0.0.1:53", "in use"),
        AppError::Conflict(m) if m == "UDP 端口不可用 127.0.0.1:53: in use"
    ));
    assert!(matches!(
        port_unavailable(ServiceKind::HttpForward, "127.0.0.1:80", "denied"),
        AppError::Conflict(m) if m == "TCP 端口不可用 127.0.0.1:80: denied"
    ));
}
