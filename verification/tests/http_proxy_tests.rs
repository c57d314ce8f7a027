use net_power::error::AppError;
use net_power::headers::HeaderMap;
use net_power::http_proxy::{
    build_forward_url, build_reverse_url, connect_event, content_length, is_chunked_request,
    mark_body_decoded, parse_chunk_size, plain_event, read_request_head, reason_phrase,
    request_keep_alive, should_skip_request_header, should_skip_response_header, simple_response,
    split_path_query, upstream_response_head, ChunkPhase, ChunkStep, ChunkedDecoder, ClientRequest,
    plan_plain_http, UpstreamPlan,
};
use net_power::models::{
    BodyRewriteRule, HeaderRule, HttpForwardConfig, HttpReverseConfig, ServiceDetail, ServiceKind,
};

fn headers(pairs: &[(&str, &str)]) -> HeaderMap {
    HeaderMap::from_pairs(pairs.iter().map(|(k, v)| (k.to_string(), v.to_string())).collect())
}

#[test]
fn reverse_url_preserves_path_query() {
    let url = build_reverse_url("https://example.com/api", "/v1/chat?x=1").expect("URL 应可构造");
    assert_eq!(url, "https://example.com/api/v1/chat?x=1");
}

#[test]
fn reverse_url_joins_relative_paths_with_one_slash() {
    assert_eq!(
        build_reverse_url("https://example.com/api/", "v1").unwrap(),
        "https://example.com/api/v1"
    );
    assert_eq!(build_reverse_url("https://example.com", "/").unwrap(), "https://example.com/");
    assert!(matches!(build_reverse_url("not a url", "/"), Err(AppError::Url(_))));
}

#[test]
fn forward_url_requires_absolute_http_url() {
    assert_eq!(build_forward_url("http://Example.com").unwrap(), "http://example.com/");
    match build_forward_url("/relative") {
        Err(AppError::InvalidInput(m)) => assert_eq!(m, "HTTP forward 请求行必须包含完整 URL"),
        _ => panic!("expected an error"),
    }
}

#[test]
fn path_and_query_split_at_first_question_mark() {
    assert_eq!(split_path_query("/a?b=1?c"), ("/a".to_string(), Some("b=1?c".to_string())));
    assert_eq!(split_path_query("/a"), ("/a".to_string(), None));
}

#[test]
fn hop_by_hop_headers_are_not_forwarded() {
    assert!(should_skip_request_header("connection"));
    assert!(should_skip_request_header("host"));
    assert!(should_skip_request_header("content-length"));
    assert!(!should_skip_request_header("x-custom"));
    assert!(should_skip_response_header("transfer-encoding"));
    assert!(!should_skip_response_header("host"));
}

#[test]
fn keep_alive_follows_version_and_connection_header() {
    assert!(request_keep_alive(1, &headers(&[])));
    assert!(!request_keep_alive(1, &headers(&[("connection", "Keep-Alive, CLOSE")])));
    assert!(!request_keep_alive(0, &headers(&[])));
    assert!(request_keep_alive(0, &headers(&[("connection", " keep-alive ")])));
}

#[test]
fn chunked_transfer_encoding_is_detected() {
    assert!(is_chunked_request(&headers(&[("transfer-encoding", "gzip, Chunked")])));
    assert!(!is_chunked_request(&headers(&[("transfer-encoding", "gzip")])));
    assert!(!is_chunked_request(&headers(&[])));
}

#[test]
fn request_head_is_read_with_lowercase_trimmed_headers() {
    let head = read_request_head(b"POST /api HTTP/1.1\r\nHost: example.com\r\nX-Test:  value  \r\nContent-Length: 4\r\n\r\n")
        .expect("head");
    assert_eq!(head.method, "POST");
    assert_eq!(head.target, "/api");
    assert_eq!(head.version, 1);
    assert_eq!(head.headers.get("x-test"), Some(&"value".to_string()));
    assert_eq!(head.headers.get("host"), Some(&"example.com".to_string()));
    assert!(head.keep_alive);
    assert!(!head.chunked);
    assert_eq!(content_length(&head.headers), 4);
}

#[test]
fn malformed_head_is_invalid_input() {
    assert!(matches!(read_request_head(b"\x01\x02 nope\r\n\r\n"), Err(AppError::InvalidInput(_))));
}

#[test]
fn chunk_sizes_are_hexadecimal() {
    let c: Vec<char> = "1A".chars().collect();
    assert_eq!(parse_chunk_size(&c), Some(26));
    let c: Vec<char> = "+f".chars().collect();
    assert_eq!(parse_chunk_size(&c), Some(15));
    let c: Vec<char> = "zz".chars().collect();
    assert_eq!(parse_chunk_size(&c), None);
    let c: Vec<char> = "".chars().collect();
    assert_eq!(parse_chunk_size(&c), None);
}

fn decode_all(mut buffer: Vec<u8>) -> Result<(Vec<u8>, Vec<u8>), String> {
    let mut decoder = ChunkedDecoder::new();
    loop {
        match decoder.step(&buffer) {
            ChunkStep::Consumed(n) => {
                buffer.drain(..n);
            }
            ChunkStep::Finished(n) => {
                buffer.drain(..n);
                return Ok((decoder.body, buffer));
            }
            ChunkStep::NeedMore => return Err("need more".to_string()),
            ChunkStep::Invalid(m) => return Err(m),
        }
    }
}

#[test]
fn chunked_body_decodes_chunks_and_trailer() {
    let (body, rest) = decode_all(b"4\r\nWiki\r\n5;ext=1\r\npedia\r\n0\r\n\r\nNEXT".to_vec()).unwrap();
    assert_eq!(body, b"Wikipedia".to_vec());
    assert_eq!(rest, b"NEXT".to_vec());
}

#[test]
fn chunked_body_errors_are_reported() {
    assert_eq!(
        decode_all(b"zz\r\n".to_vec()).unwrap_err(),
        "chunked 请求体 chunk size 无效"
    );
    assert_eq!(
        decode_all(b"2\r\nabXX".to_vec()).unwrap_err(),
        "chunked 请求体 chunk 缺少结尾 CRLF"
    );
    assert_eq!(decode_all(b"4\r\nWi".to_vec()).unwrap_err(), "need more");
    assert_eq!(
        decode_all(vec![b'1'; 2000]).unwrap_err(),
        "chunked 请求体 size 行过长"
    );
}

#[test]
fn decoder_phases_advance() {
    let mut d = ChunkedDecoder::new();
    assert!(matches!(d.step(b"3\r\n"), ChunkStep::Consumed(3)));
    assert!(matches!(d.phase, ChunkPhase::Data(3)));
}

#[test]
fn decoded_chunked_body_replaces_transfer_encoding() {
    let mut h = headers(&[("transfer-encoding", "chunked")]);
    mark_body_decoded(&mut h, 27);
    assert!(!h.contains_key("transfer-encoding"));
    assert_eq!(h.get("content-length"), Some(&"27".to_string()));
}

fn request() -> ClientRequest {
    ClientRequest {
        method: "GET".to_string(),
        target: "/x".to_string(),
        headers: headers(&[("host", "h.example")]),
        body: Vec::new(),
        keep_alive: true,
    }
}

#[test]
fn events_record_request_details() {
    let r = request();
    let e = plain_event(&r, "http://up/x", 200, 3, 4, "");
    assert_eq!(e.protocol, "http");
    assert_eq!(e.host, "h.example");
    assert_eq!(e.path, "/x");
    assert_eq!(e.status, Some(200));
    let c = connect_event(&r, 502, 0, 0, "failed");
    assert_eq!(c.protocol, "https");
    assert_eq!(c.host, "/x");
    assert_eq!(c.error, "failed");
}

#[test]
fn response_heads_list_kept_headers_and_length() {
    let h = headers(&[("x-a", "1"), ("connection", "close"), ("content-length", "99")]);
    assert_eq!(
        upstream_response_head(200, &h, 5, true),
        "HTTP/1.1 200 OK\r\nx-a: 1\r\ncontent-length: 5\r\nconnection: keep-alive\r\n\r\n"
    );
    assert_eq!(
        simple_response(403, "HTTP disabled"),
        "HTTP/1.1 403 Forbidden\r\ncontent-length: 13\r\nconnection: close\r\n\r\nHTTP disabled"
    );
    assert_eq!(reason_phrase(418), "Proxy Response");
}

#[test]
fn header_map_reads_back_what_was_set_and_removed() {
    let mut headers = HeaderMap::new();
    headers.insert("host".to_string(), "a.test".to_string());
    headers.insert("accept".to_string(), "*/*".to_string());
    headers.insert("host".to_string(), "b.test".to_string());
    assert_eq!(headers.get("host").map(String::as_str), Some("b.test"));
    assert_eq!(headers.get("accept").map(String::as_str), Some("*/*"));
    headers.remove("host");
    assert!(headers.get("host").is_none());
    assert!(!headers.contains_key("host"));
    assert_eq!(headers.get("accept").map(String::as_str), Some("*/*"));
    assert_eq!(headers.len(), 1);
}

#[test]
fn chunked_body_written_by_an_encoder_reads_back() {
    let chunks: Vec<&[u8]> = vec![b"abcdefghijklmnopqrstuvwxyz", b"{\"user\":", b"x"];
    let mut encoded = Vec::new();
    for chunk in &chunks {
        encoded.extend_from_slice(format!("{:X}\r\n", chunk.len()).as_bytes());
        encoded.extend_from_slice(chunk);
        encoded.extend_from_slice(b"\r\n");
    }
    encoded.extend_from_slice(b"0\r\n\r\n");
    let (body, rest) = decode_all(encoded).unwrap();
    assert_eq!(body, chunks.concat());
    assert!(rest.is_empty());
}

fn proxy_detail(kind: ServiceKind, target_url: &str, preserve_host: bool) -> ServiceDetail {
    ServiceDetail {
        id: "svc".to_string(),
        name: "HTTP".to_string(),
        kind,
        enabled: true,
        auto_start: false,
        listen_host: "127.0.0.1".to_string(),
        listen_port: 18080,
        notes: String::new(),
        created_at: String::new(),
        updated_at: String::new(),
        http_reverse: Some(HttpReverseConfig {
            target_url: target_url.to_string(),
            preserve_host,
            request_timeout_ms: 30_000,
            max_rewrite_body_bytes: 1024,
            skip_compressed_body: true,
        }),
        http_forward: Some(HttpForwardConfig {
            allow_http: true,
            allow_connect: true,
            connect_timeout_ms: 1000,
            idle_timeout_ms: 0,
        }),
        tcp_forward: None,
        udp_forward: None,
        ssh_tunnel: None,
        header_rules: vec![HeaderRule {
            id: "h1".to_string(),
            phase: "request".to_string(),
            action: "set".to_string(),
            name: "X-Env".to_string(),
            value: Some("test".to_string()),
            enabled: true,
            sort_order: 0,
        }],
        body_rewrite_rules: vec![BodyRewriteRule {
            id: "r1".to_string(),
            body_type: "json".to_string(),
            path: "user.name".to_string(),
            value_json: "\"new\"".to_string(),
            enabled: true,
            sort_order: 0,
        }],
    }
}

fn client_request(target: &str, body: &[u8]) -> ClientRequest {
    ClientRequest {
        method: "POST".to_string(),
        target: target.to_string(),
        headers: headers(&[("host", "local.test"), ("content-type", "application/json")]),
        body: body.to_vec(),
        keep_alive: true,
    }
}

#[test]
fn reverse_plan_applies_header_rules_drops_host_and_rewrites_body() {
    let detail = proxy_detail(ServiceKind::HttpReverse, "http://127.0.0.1:19090/base", false);
    let plan = plan_plain_http(client_request("/api?x=1", br#"{"user":{"name":"old"}}"#), &detail).unwrap();
    let UpstreamPlan::Send(u) = plan else { panic!("expected a request to send") };
    assert_eq!(u.url, "http://127.0.0.1:19090/base/api?x=1");
    assert_eq!(u.request.headers.get("x-env").map(String::as_str), Some("test"));
    assert!(u.request.headers.get("host").is_none());
    assert_eq!(u.request.body, br#"{"user":{"name":"new"}}"#.to_vec());
    assert_eq!(
        u.request.headers.get("content-length").map(String::as_str),
        Some(u.request.body.len().to_string().as_str())
    );
    assert!(u.warning.is_none());
    assert_eq!(u.request.method, "POST");
}

#[test]
fn reverse_plan_keeps_host_when_preserved_and_reports_bad_target() {
    let detail = proxy_detail(ServiceKind::HttpReverse, "http://127.0.0.1:19090", true);
    let plan = plan_plain_http(client_request("/", b"{}"), &detail).unwrap();
    let UpstreamPlan::Send(u) = plan else { panic!("expected a request to send") };
    assert_eq!(u.request.headers.get("host").map(String::as_str), Some("local.test"));
    let bad = proxy_detail(ServiceKind::HttpReverse, "not a url", true);
    assert!(matches!(plan_plain_http(client_request("/", b"{}"), &bad), Err(AppError::Url(_))));
}

#[test]
fn forward_plan_sends_full_urls_and_refuses_relative_targets() {
    let detail = proxy_detail(ServiceKind::HttpForward, "http://unused", false);
    let plan = plan_plain_http(client_request("http://example.test/a", b"body"), &detail).unwrap();
    let UpstreamPlan::Send(u) = plan else { panic!("expected a request to send") };
    assert_eq!(u.url, "http://example.test/a");
    assert_eq!(u.request.body, b"body".to_vec());
    assert_eq!(u.request.headers.get("x-env").map(String::as_str), Some("test"));
    match plan_plain_http(client_request("/a", b""), &detail) {
        Err(AppError::InvalidInput(m)) => assert_eq!(m, "HTTP forward 请求行必须包含完整 URL"),
        _ => panic!("expected a refusal"),
    }
}

#[test]
fn forward_plan_refuses_plain_http_when_disabled() {
    let mut detail = proxy_detail(ServiceKind::HttpForward, "http://unused", false);
    if let Some(cfg) = detail.http_forward.as_mut() {
        cfg.allow_http = false;
    }
    let plan = plan_plain_http(client_request("http://example.test/a", b"body"), &detail).unwrap();
    let UpstreamPlan::Refuse { response, keep_alive, event } = plan else { panic!("expected a refusal") };
    assert_eq!(
        response,
        "HTTP/1.1 403 Forbidden\r\ncontent-length: 13\r\nconnection: close\r\n\r\nHTTP disabled"
    );
    assert!(!keep_alive);
    assert_eq!(event.status, Some(403));
    assert_eq!(event.target_addr, "");
    assert_eq!(event.bytes_in, 0);
    assert_eq!(event.bytes_out, 0);
    assert_eq!(event.error, "HTTP disabled");
}
