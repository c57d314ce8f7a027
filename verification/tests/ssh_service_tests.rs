use net_power::error::AppError;
use net_power::models::{ServiceDetail, ServiceKind, SshTunnelConfig};
use net_power::ssh::SocksConnectRequest;
use net_power::ssh_service::{
    bridge_outcome, ipv4_text, keepalive_due, listening_message, remote_forward_metrics,
    remote_forward_spec, remote_listening_message, socks5_domain, socks5_domain_length,
    socks5_greeting, socks5_method_reply, socks5_port, socks5_reply, socks5_request_header,
    ssh_local_target, ssh_socks_settings, BridgeMetrics, BridgeState, PendingBytes,
    SocksAddress, MAX_PENDING_BYTES, SOCKS_ATYP_DOMAIN, SOCKS_ATYP_IPV4, SOCKS_CMD_CONNECT,
    SOCKS_METHOD_NO_AUTH, SOCKS_REP_ADDRESS_TYPE_NOT_SUPPORTED,
    SOCKS_REP_COMMAND_NOT_SUPPORTED, SOCKS_REP_GENERAL_FAILURE, SOCKS_VERSION,
};

fn tunnel(kind: &str) -> SshTunnelConfig {
    SshTunnelConfig {
        ssh_profile_id: "p1".to_string(),
        tunnel_type: kind.to_string(),
        target_host: Some("10.0.0.2".to_string()),
        target_port: Some(8080),
        remote_bind_host: Some("0.0.0.0".to_string()),
        remote_bind_port: Some(18080),
    }
}

fn detail(t: Option<SshTunnelConfig>) -> ServiceDetail {
    ServiceDetail {
        id: "svc".to_string(),
        name: "tunnel".to_string(),
        kind: ServiceKind::SshLocal,
        enabled: true,
        auto_start: false,
        listen_host: "127.0.0.1".to_string(),
        listen_port: 1080,
        notes: String::new(),
        created_at: String::new(),
        updated_at: String::new(),
        http_reverse: None,
        http_forward: None,
        tcp_forward: None,
        udp_forward: None,
        ssh_tunnel: t,
        header_rules: Vec::new(),
        body_rewrite_rules: Vec::new(),
    }
}

fn invalid_text(e: &AppError) -> String {
    match e {
        AppError::InvalidInput(m) => m.clone(),
        _ => panic!("expected InvalidInput"),
    }
}

/// The handshake of a client asking for `example.com:443`, step by step.
#[test]
fn ssh_socks5_parser_accepts_domain_connect_request() {
    let n = socks5_greeting([SOCKS_VERSION, 1]).expect("greeting");
    assert_eq!(n, 1);
    let (reply, go_on) = socks5_method_reply(&[SOCKS_METHOD_NO_AUTH]);
    assert_eq!(reply, [SOCKS_VERSION, SOCKS_METHOD_NO_AUTH]);
    assert!(go_on.is_ok());
    let kind = socks5_request_header([SOCKS_VERSION, SOCKS_CMD_CONNECT, 0, SOCKS_ATYP_DOMAIN])
        .ok()
        .expect("header");
    assert_eq!(kind, SocksAddress::Domain);
    let domain = b"example.com";
    let len = socks5_domain_length(domain.len() as u8).ok().expect("length");
    assert_eq!(len, 11);
    let host = socks5_domain(domain.to_vec()).expect("domain");
    let port = socks5_port(443_u16.to_be_bytes()).ok().expect("port");
    let parsed = SocksConnectRequest { host, port };
    assert_eq!(parsed.host, "example.com");
    assert_eq!(parsed.port, 443);
    assert_eq!(parsed.target_addr(), "example.com:443");
}

#[test]
fn ssh_socks5_parser_rejects_unsupported_command_with_reply() {
    let refusal = match socks5_request_header([SOCKS_VERSION, 2, 0, SOCKS_ATYP_IPV4]) {
        Err(f) => f,
        Ok(_) => panic!("BIND must be refused"),
    };
    assert!(matches!(refusal.error, AppError::Unsupported(_)));
    let code = refusal.reply.expect("a reply is sent");
    let reply = socks5_reply(code);
    assert_eq!(reply[0], SOCKS_VERSION);
    assert_eq!(reply[1], SOCKS_REP_COMMAND_NOT_SUPPORTED);
    assert_eq!(reply, vec![5, 7, 0, 1, 0, 0, 0, 0, 0, 0]);
}

#[test]
fn socks5_greeting_rejects_wrong_version() {
    let e = socks5_greeting([4, 1]).unwrap_err();
    assert_eq!(invalid_text(&e), "SOCKS5 版本无效: 4");
    assert_eq!(socks5_greeting([5, 3]).unwrap(), 3);
}

#[test]
fn socks5_method_reply_refuses_without_no_auth() {
    let (reply, go_on) = socks5_method_reply(&[1, 2]);
    assert_eq!(reply, [5, 0xff]);
    assert_eq!(invalid_text(&go_on.unwrap_err()), "SOCKS5 客户端不支持 no-auth");
    let (reply, go_on) = socks5_method_reply(&[2, 0]);
    assert_eq!(reply, [5, 0]);
    assert!(go_on.is_ok());
    let (reply, _) = socks5_method_reply(&[]);
    assert_eq!(reply, [5, 0xff]);
}

#[test]
fn socks5_request_header_refusals_carry_reply_codes() {
    let f = match socks5_request_header([4, 1, 0, 1]) {
        Err(f) => f,
        Ok(_) => panic!(),
    };
    assert_eq!(f.reply, Some(SOCKS_REP_GENERAL_FAILURE));
    assert_eq!(invalid_text(&f.error), "SOCKS5 请求版本无效: 4");
    let f = match socks5_request_header([5, 1, 1, 1]) {
        Err(f) => f,
        Ok(_) => panic!(),
    };
    assert_eq!(f.reply, Some(SOCKS_REP_GENERAL_FAILURE));
    assert_eq!(invalid_text(&f.error), "SOCKS5 RSV 字段无效");
    let f = match socks5_request_header([5, 1, 0, 9]) {
        Err(f) => f,
        Ok(_) => panic!(),
    };
    assert_eq!(f.reply, Some(SOCKS_REP_ADDRESS_TYPE_NOT_SUPPORTED));
    assert!(matches!(f.error, AppError::Unsupported(_)));
    assert_eq!(socks5_request_header([5, 1, 0, 1]).ok(), Some(SocksAddress::Ipv4));
    assert_eq!(socks5_request_header([5, 1, 0, 4]).ok(), Some(SocksAddress::Ipv6));
}

#[test]
fn socks5_address_parts_are_checked() {
    assert_eq!(ipv4_text([127, 0, 0, 1]), "127.0.0.1");
    assert_eq!(ipv4_text([192, 168, 10, 255]), "192.168.10.255");
    let f = match socks5_domain_length(0) {
        Err(f) => f,
        Ok(_) => panic!(),
    };
    assert_eq!(f.reply, Some(SOCKS_REP_GENERAL_FAILURE));
    assert_eq!(invalid_text(&f.error), "SOCKS5 域名不能为空");
    let e = socks5_domain(vec![0xff, 0xfe]).unwrap_err();
    assert_eq!(invalid_text(&e), "SOCKS5 域名不是 UTF-8");
    let f = match socks5_port([0, 0]) {
        Err(f) => f,
        Ok(_) => panic!(),
    };
    assert_eq!(invalid_text(&f.error), "SOCKS5 目标端口必须在 1 到 65535 之间");
    assert_eq!(socks5_port([0x1f, 0x90]).ok(), Some(8080));
    assert_eq!(socks5_port([0xff, 0xff]).ok(), Some(65535));
}

#[test]
fn tunnel_settings_are_read_from_the_service() {
    let (h, p) = ssh_local_target(&detail(Some(tunnel("local")))).unwrap();
    assert_eq!((h.as_str(), p), ("10.0.0.2", 8080));
    assert_eq!(invalid_text(&ssh_local_target(&detail(None)).unwrap_err()), "SSH 隧道缺少配置");
    assert!(matches!(
        ssh_local_target(&detail(Some(tunnel("remote")))),
        Err(AppError::Unsupported(_))
    ));
    let mut t = tunnel("local");
    t.target_port = None;
    assert_eq!(invalid_text(&ssh_local_target(&detail(Some(t))).unwrap_err()), "SSH local 缺少目标 port");

    assert!(ssh_socks_settings(&detail(Some(tunnel("socks")))).is_ok());
    assert_eq!(
        invalid_text(&ssh_socks_settings(&detail(Some(tunnel("local")))).unwrap_err()),
        "SSH SOCKS 隧道类型必须是 socks"
    );

    let spec = remote_forward_spec(&detail(Some(tunnel("remote")))).unwrap();
    assert_eq!(spec.service_id, "svc");
    assert_eq!(spec.log_target_addr(), "0.0.0.0:18080 -> 10.0.0.2:8080");
    assert_eq!(
        remote_listening_message(&spec),
        "SSH remote forward 已在远端监听 0.0.0.0:18080，转发到 10.0.0.2:8080"
    );
    let mut t = tunnel("remote");
    t.remote_bind_host = None;
    assert_eq!(
        invalid_text(&remote_forward_spec(&detail(Some(t))).unwrap_err()),
        "SSH remote 缺少远程绑定 host"
    );
}

#[test]
fn pending_bytes_keep_order_across_partial_writes() {
    let mut p = PendingBytes::new();
    p.extend(b"hello ");
    p.extend(b"world");
    assert_eq!(p.as_slice(), b"hello world");
    p.consume(4);
    assert_eq!(p.as_slice(), b"o world");
    assert_eq!(p.len(), 7);
    p.extend(b"!");
    assert_eq!(p.as_slice(), b"o world!");
    p.consume(8);
    assert_eq!(p.len(), 0);
}

#[test]
fn bridge_state_counts_bytes_and_ends_in_order() {
    let mut s = BridgeState::new();
    assert!(s.wants_client_read() && s.wants_channel_read());
    s.client_read(b"GET /");
    s.channel_read(b"HTTP/1.1 200", false);
    assert_eq!(s.metrics, BridgeMetrics { bytes_in: 5, bytes_out: 12 });
    s.client_read(b"");
    assert!(s.client_eof);
    assert!(!s.wants_channel_eof());
    s.to_channel.consume(5);
    assert!(s.wants_channel_eof());
    s.channel_read(b"", false);
    assert!(!s.channel_eof);
    s.channel_read(b"", true);
    assert!(!s.finished());
    s.to_client.consume(12);
    assert!(s.finished());
    assert_eq!(
        remote_forward_metrics(s.metrics),
        BridgeMetrics { bytes_in: 12, bytes_out: 5 }
    );
    assert!(MAX_PENDING_BYTES > 0);
}

#[test]
fn keepalive_and_outcome_helpers() {
    assert!(!keepalive_due(0, 100_000));
    assert!(!keepalive_due(30_000, 29_999));
    assert!(keepalive_due(30_000, 30_000));
    assert_eq!(
        bridge_outcome(Ok(BridgeMetrics { bytes_in: 3, bytes_out: 4 })),
        (3, 4, String::new())
    );
    let (i, o, m) = bridge_outcome(Err(AppError::Ssh("boom".to_string())));
    assert_eq!((i, o), (0, 0));
    assert!(m.contains("boom"));
    assert_eq!(listening_message("SSH SOCKS", "127.0.0.1", 1080), "SSH SOCKS 已监听 127.0.0.1:1080");
}
