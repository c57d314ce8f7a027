use net_power::error::AppError;
use net_power::forwarding::{
    connect_timed_out, forward_listening_message, tcp_forward_plan, udp_bind_addr, udp_forward_plan,
    udp_target_unresolved, UdpClientTable,
};
use net_power::models::{ServiceDetail, ServiceKind, TcpForwardConfig, UdpForwardConfig};

fn detail() -> ServiceDetail {
    ServiceDetail {
        id: "svc".to_string(),
        name: "fwd".to_string(),
        kind: ServiceKind::TcpForward,
        enabled: true,
        auto_start: false,
        listen_host: "127.0.0.1".to_string(),
        listen_port: 15000,
        notes: String::new(),
        created_at: String::new(),
        updated_at: String::new(),
        http_reverse: None,
        http_forward: None,
        tcp_forward: None,
        udp_forward: None,
        ssh_tunnel: None,
        header_rules: Vec::new(),
        body_rewrite_rules: Vec::new(),
    }
}

#[test]
fn tcp_and_udp_plans_read_the_settings() {
    let mut d = detail();
    assert!(matches!(tcp_forward_plan(&d), Err(AppError::InvalidInput(m)) if m == "TCP 转发缺少配置"));
    assert!(matches!(udp_forward_plan(&d), Err(AppError::InvalidInput(m)) if m == "UDP 转发缺少配置"));
    d.tcp_forward = Some(TcpForwardConfig {
        target_host: "10.0.0.2".to_string(),
        target_port: 80,
        connect_timeout_ms: 0,
        idle_timeout_ms: 1,
    });
    let p = tcp_forward_plan(&d).unwrap();
    assert_eq!(p.listen_addr, "127.0.0.1:15000");
    assert_eq!(p.target_addr, "10.0.0.2:80");
    assert_eq!(p.connect_timeout_ms, 1);
    d.udp_forward = Some(UdpForwardConfig { target_host: "10.0.0.3".to_string(), target_port: 53, idle_timeout_ms: 30000 });
    let u = udp_forward_plan(&d).unwrap();
    assert_eq!(u.target_addr, "10.0.0.3:53");
    assert_eq!(u.idle_timeout_ms, 30000);
    assert_eq!(forward_listening_message("TCP", "127.0.0.1:15000"), "TCP 转发已监听 127.0.0.1:15000");
    assert!(matches!(connect_timed_out("10.0.0.2:80"), AppError::Message(m) if m == "连接目标 10.0.0.2:80 超时"));
    assert!(matches!(udp_target_unresolved("x:1"), AppError::InvalidInput(m) if m == "无法解析 UDP 目标: x:1"));
    assert_eq!(udp_bind_addr(true), "0.0.0.0:0");
    assert_eq!(udp_bind_addr(false), "[::]:0");
}

#[test]
fn udp_clients_reuse_their_mapping() {
    let mut t = UdpClientTable::new();
    assert!(!t.refresh("127.0.0.1:10001", 0));
    assert!(t.insert_if_absent("127.0.0.1:10001", 0));
    assert!(!t.insert_if_absent("127.0.0.1:10001", 5));
    assert!(t.insert_if_absent("127.0.0.1:10002", 1));
    assert!(t.refresh("127.0.0.1:10001", 7));
    assert_eq!(t.len(), 2);
}

#[test]
fn cleanup_idle_clients_removes_only_expired_mappings() {
    let mut t = UdpClientTable::new();
    t.insert_if_absent("127.0.0.1:10001", 1000);
    t.insert_if_absent("127.0.0.1:10002", 1100);
    let removed = t.cleanup_idle(1100, 10);
    assert_eq!(removed, vec!["127.0.0.1:10001".to_string()]);
    assert_eq!(t.len(), 1);
    assert!(t.refresh("127.0.0.1:10002", 1100));
    assert!(!t.refresh("127.0.0.1:10001", 1100));
    assert!(t.cleanup_idle(1110, 10).is_empty());
    assert!(t.cleanup_idle(5000, 0).is_empty());
    assert_eq!(t.clear(), vec!["127.0.0.1:10002".to_string()]);
    assert_eq!(t.len(), 0);
}
