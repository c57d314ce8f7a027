use net_power::tool_runtime::{directory_listing_response, read_timed_out};
use net_power::error::AppError;
use net_power::models::{
    RuntimeStatus, ToolServiceContentSource, ToolServiceInput, ToolServiceRouteInput, ToolServiceStaticMode,
};
use net_power::tool_manager::{listen_failed, tool_stop_status, ToolServiceManager, ToolStopOutcome};
use net_power::tool_runtime::{
    body_too_large, build_listing_entries, head_progress, listing_relative_path, not_found_response,
    parse_tool_request_head, render_directory_listing_html, route_response, static_after_metadata,
    static_file_response, static_precheck, static_target_segments, tool_dispatch, validate_route,
    validate_static_root_dir, is_within_root, HeadProgress, ListingItem, PathProbe, StaticNext,
    ToolDispatch, ToolServiceRouteContent, ToolServiceRuntimeConfig,
};
use net_power::tool_services::HttpRequest;

fn inline_route(method: &str, path: &str, status: u16, body: &str) -> ToolServiceRouteInput {
    ToolServiceRouteInput {
        method: method.to_string(),
        path: path.to_string(),
        response_status: status,
        content_type: "application/json; charset=utf-8".to_string(),
        content_source: ToolServiceContentSource::Inline,
        body: Some(body.to_string()),
        file_path: None,
    }
}

fn input(root: Option<&str>, mode: ToolServiceStaticMode, prefix: &str, routes: Vec<ToolServiceRouteInput>) -> ToolServiceInput {
    ToolServiceInput {
        name: " HTTP ".to_string(),
        host: " 127.0.0.1 ".to_string(),
        port: 18090,
        static_root_dir: root.map(|r| r.to_string()),
        static_mode: mode,
        static_path_prefix: prefix.to_string(),
        routes,
    }
}

fn dir_probe(path: &str) -> PathProbe {
    PathProbe::Found { is_dir: true, is_file: false, canonical: Ok(path.to_string()) }
}

fn file_probe(path: &str) -> PathProbe {
    PathProbe::Found { is_dir: false, is_file: true, canonical: Ok(path.to_string()) }
}

fn req(method: &str, path: &str) -> HttpRequest {
    HttpRequest { method: method.to_string(), path: path.to_string() }
}

fn invalid(e: AppError) -> String {
    match e {
        AppError::InvalidInput(m) => m,
        other => panic!("expected invalid input, got {:?}", other),
    }
}

fn parts(p: &str) -> Vec<String> {
    p.split('/').filter(|s| !s.is_empty()).map(|s| s.to_string()).collect()
}

#[test]
fn http_service_returns_inline_route_body() {
    let config = ToolServiceRuntimeConfig::try_from(
        input(None, ToolServiceStaticMode::Directory, "/", vec![inline_route("GET", "/api/hello", 201, "{\"ok\":true}")]),
        None,
        vec![None],
    )
    .unwrap();
    assert_eq!(config.name, "HTTP");
    assert_eq!(config.host, "127.0.0.1");
    let head = b"GET /api/hello HTTP/1.1\r\nHost: local\r\n\r\n";
    assert_eq!(head_progress(head), HeadProgress::Complete(head.len()));
    let parsed = parse_tool_request_head(head).unwrap();
    let request = req(&parsed.method, &parsed.path);
    assert_eq!(tool_dispatch(&config, &request), ToolDispatch::Route(0));
    let response = route_response(&config.routes[0], None);
    assert_eq!(response.status, 201);
    assert_eq!(response.body, b"{\"ok\":true}".to_vec());
    assert_eq!(tool_dispatch(&config, &req("HEAD", "/api/hello?x=1")), ToolDispatch::Route(0));
    assert_eq!(tool_dispatch(&config, &req("POST", "/api/hello")), ToolDispatch::NotFound);
    let nf = not_found_response();
    assert_eq!(nf.status, 404);
    assert_eq!(nf.body, "请求路径未匹配".as_bytes().to_vec());
}

#[test]
fn http_service_returns_file_route_body() {
    let mut route = inline_route("post", "api/file", 200, "");
    route.content_source = ToolServiceContentSource::File;
    route.body = None;
    route.file_path = Some(" /tmp/response.json ".to_string());
    let config = ToolServiceRuntimeConfig::try_from(
        input(None, ToolServiceStaticMode::Directory, "/", vec![route]),
        None,
        vec![Some(file_probe("/tmp/response.json"))],
    )
    .unwrap();
    assert_eq!(config.routes[0].method, "POST");
    assert_eq!(config.routes[0].path, "/api/file");
    assert!(matches!(&config.routes[0].content, ToolServiceRouteContent::File(p) if p == "/tmp/response.json"));
    let head = b"POST /api/file HTTP/1.1\r\nHost: local\r\nContent-Length: 2\r\n\r\n";
    let parsed = parse_tool_request_head(head).unwrap();
    assert_eq!(parsed.content_length, 2);
    assert!(body_too_large(parsed.content_length).is_none());
    assert_eq!(tool_dispatch(&config, &req(&parsed.method, &parsed.path)), ToolDispatch::Route(0));
    let ok = route_response(&config.routes[0], Some(b"{\"fromFile\":true}".to_vec()));
    assert_eq!(ok.status, 200);
    assert_eq!(ok.body, b"{\"fromFile\":true}".to_vec());
    let failed = route_response(&config.routes[0], None);
    assert_eq!(failed.status, 500);
    assert_eq!(failed.body, "响应文件读取失败".as_bytes().to_vec());
}

#[test]
fn http_service_serves_static_file_after_route_miss() {
    let config = ToolServiceRuntimeConfig::try_from(
        input(Some("/srv/site"), ToolServiceStaticMode::Directory, "/public", vec![]),
        Some(dir_probe("/srv/site")),
        vec![],
    )
    .unwrap();
    let request = req("GET", "/public/assets/hello.txt");
    assert_eq!(tool_dispatch(&config, &request), ToolDispatch::Static);
    assert!(static_precheck(&config, "GET").is_none());
    let segments = static_target_segments("/public", ToolServiceStaticMode::Directory, &request.path).unwrap();
    assert_eq!(segments, vec!["assets".to_string(), "hello.txt".to_string()]);
    assert_eq!(static_after_metadata(ToolServiceStaticMode::Directory, false), StaticNext::File { append_index: false });
    assert!(is_within_root(&parts("/srv/site"), &parts("/srv/site/assets/hello.txt")));
    let response = static_file_response("hello.txt", Some(b"hello".to_vec()));
    assert_eq!(response.status, 200);
    assert_eq!(response.content_type, "text/plain; charset=utf-8");
    assert_eq!(response.body, b"hello".to_vec());
    assert_eq!(static_file_response("hello.txt", None).status, 404);
    assert_eq!(tool_dispatch(&config, &req("GET", "/other")), ToolDispatch::NotFound);
}

#[test]
fn http_service_lists_static_directory_and_download_links() {
    let segments = static_target_segments("/files", ToolServiceStaticMode::Directory, "/files/").unwrap();
    assert!(segments.is_empty());
    assert_eq!(static_after_metadata(ToolServiceStaticMode::Directory, true), StaticNext::Listing);
    let entries = build_listing_entries(
        "/files/",
        vec![
            ListingItem { name: "hello world.txt".to_string(), is_dir: false, size_text: "5 B".to_string() },
            ListingItem { name: "nested".to_string(), is_dir: true, size_text: String::new() },
        ],
    );
    assert_eq!(entries[0].name, "nested");
    assert_eq!(entries[0].href, "/files/nested/");
    assert_eq!(entries[1].href, "/files/hello%20world.txt");
    let rel = listing_relative_path(&parts("/srv/files"), &parts("/srv/files"));
    assert_eq!(rel, "/");
    let html = render_directory_listing_html("Files", "/files/", "/files", &rel, &entries);
    assert!(html.starts_with("<!doctype html>"));
    assert!(html.contains("<title>目录列表 - /files/</title>"));
    assert!(html.contains("hello world.txt"));
    assert!(html.contains("href=\"/files/hello%20world.txt\" download=\"hello world.txt\""));
    assert!(html.contains("nested/"));
    assert!(html.contains("<td class=\"size\">5 B</td>"));
    assert!(html.ends_with("</tbody></table></main></body></html>"));
    let file = static_target_segments("/files", ToolServiceStaticMode::Directory, "/files/hello%20world.txt").unwrap();
    assert_eq!(file, vec!["hello world.txt".to_string()]);
}

#[test]
fn http_service_site_mode_serves_index_for_directory() {
    let segments = static_target_segments("/", ToolServiceStaticMode::Site, "/").unwrap();
    assert_eq!(segments, vec!["index.html".to_string()]);
    assert_eq!(static_after_metadata(ToolServiceStaticMode::Site, true), StaticNext::File { append_index: true });
    let response = static_file_response("index.html", Some(b"<h1>home</h1>".to_vec()));
    assert_eq!(response.content_type, "text/html; charset=utf-8");
}

#[test]
fn static_paths_refuse_escapes_and_other_methods() {
    assert!(static_target_segments("/", ToolServiceStaticMode::Directory, "/a/../b").is_none());
    assert!(static_target_segments("/", ToolServiceStaticMode::Directory, "/a/%2e%2e/b").is_none());
    assert!(static_target_segments("/", ToolServiceStaticMode::Directory, "/a%2Fb").is_none());
    assert!(static_target_segments("/", ToolServiceStaticMode::Directory, "/%ff").is_none());
    assert!(static_target_segments("/pub", ToolServiceStaticMode::Directory, "/public").is_none());
    assert_eq!(
        static_target_segments("/", ToolServiceStaticMode::Directory, "/a//b?x=1").unwrap(),
        vec!["a".to_string(), "b".to_string()]
    );
    assert!(!is_within_root(&parts("/srv/site"), &parts("/srv/other/file")));
    assert!(!is_within_root(&parts("/srv/site"), &parts("/srv")));
    let config = ToolServiceRuntimeConfig::try_from(
        input(Some("/srv"), ToolServiceStaticMode::Directory, "/", vec![]),
        Some(dir_probe("/srv")),
        vec![],
    )
    .unwrap();
    assert_eq!(static_precheck(&config, "POST").unwrap().status, 405);
    assert!(static_precheck(&config, "head").is_none());
    assert_eq!(listing_relative_path(&parts("/srv"), &parts("/srv/a/b")), "/a/b");
    assert_eq!(static_file_response("archive.tar.GZ", Some(vec![])).content_type, "application/octet-stream");
    assert_eq!(static_file_response(".bashrc", Some(vec![])).content_type, "application/octet-stream");
    assert_eq!(static_file_response("Logo.PNG", Some(vec![])).content_type, "image/png");
}

#[test]
fn runtime_config_errors_come_in_order() {
    let e = ToolServiceRuntimeConfig::try_from(
        ToolServiceInput { name: " ".to_string(), ..input(None, ToolServiceStaticMode::Directory, "/", vec![]) },
        None,
        vec![],
    )
    .unwrap_err();
    assert_eq!(invalid(e), "服务名称不能为空");
    let e = ToolServiceRuntimeConfig::try_from(input(None, ToolServiceStaticMode::Directory, "/", vec![]), None, vec![])
        .unwrap_err();
    assert_eq!(invalid(e), "请至少配置静态目录或一个接口");
    let e = ToolServiceRuntimeConfig::try_from(
        input(Some("/x"), ToolServiceStaticMode::Directory, "/", vec![]),
        Some(PathProbe::Inaccessible("No such file".to_string())),
        vec![],
    )
    .unwrap_err();
    assert_eq!(invalid(e), "静态目录不可访问: No such file");
    let e = ToolServiceRuntimeConfig::try_from(
        input(None, ToolServiceStaticMode::Directory, "/", vec![inline_route("GET", "/a", 200, ""), inline_route("FETCH", "/b", 200, "")]),
        None,
        vec![None, None],
    )
    .unwrap_err();
    assert_eq!(invalid(e), "接口 #2 的请求方法无效");
    assert_eq!(
        invalid(validate_route(0, &inline_route("GET", "/a", 99, ""), None).unwrap_err()),
        "接口 #1 的响应状态码必须是 100-599"
    );
    let mut file_route = inline_route("GET", "/f", 200, "");
    file_route.content_source = ToolServiceContentSource::File;
    assert_eq!(invalid(validate_route(2, &file_route, None).unwrap_err()), "接口 #3 需要选择响应文件");
    file_route.file_path = Some("/dir".to_string());
    assert_eq!(
        invalid(validate_route(0, &file_route, Some(dir_probe("/dir"))).unwrap_err()),
        "接口 #1 响应文件必须是文件"
    );
    assert!(matches!(
        validate_static_root_dir(PathProbe::Found { is_dir: true, is_file: false, canonical: Err("denied".to_string()) }),
        Err(AppError::Io(m)) if m == "denied"
    ));
    assert_eq!(
        invalid(validate_static_root_dir(file_probe("/f")).unwrap_err()),
        "静态目录必须是文件夹"
    );
    let mut blank_type = inline_route("GET", "/a", 200, "");
    blank_type.content_type = "  ".to_string();
    assert_eq!(validate_route(0, &blank_type, None).unwrap().content_type, "application/json; charset=utf-8");
}

#[test]
fn request_heads_are_checked() {
    assert_eq!(head_progress(b"GET / HTTP/1.1\r\n"), HeadProgress::NeedMore);
    assert_eq!(head_progress(&vec![b'a'; 65537]), HeadProgress::TooLarge);
    assert_eq!(invalid(parse_tool_request_head(b"GET / HTTP/1.1\r\nHost: x\r\n").unwrap_err()), "HTTP 请求头不完整");
    assert!(invalid(parse_tool_request_head(b"\x01\x02 / HTTP/1.1\r\n\r\n").unwrap_err()).starts_with("HTTP 请求解析失败: "));
    let h = parse_tool_request_head(b"PUT /x HTTP/1.1\r\ncontent-length: x\r\nContent-Length: 7\r\n\r\n").unwrap();
    assert_eq!(h.content_length, 0);
    assert_eq!(invalid(body_too_large(1048577).unwrap()), "请求体超过 1048576 字节");
    assert!(body_too_large(1048576).is_none());
}

#[test]
fn tool_manager_tracks_running_services() {
    let mut m = ToolServiceManager::new();
    let config = ToolServiceRuntimeConfig::try_from(
        input(Some("\\\\?\\C:\\site"), ToolServiceStaticMode::Site, "/web/", vec![]),
        Some(dir_probe("\\\\?\\C:\\site")),
        vec![],
    )
    .unwrap();
    assert!(m.address_conflict(&config).is_none());
    m.record_started("t1".to_string(), config.clone(), "2024-01-01T00:00:00Z".to_string());
    let summary = m.running_summary("t1", 3).unwrap();
    assert_eq!(summary.url, "http://127.0.0.1:18090/web");
    assert_eq!(summary.static_root_dir.as_deref(), Some("C:\\site"));
    assert_eq!(summary.total_requests, 3);
    assert_eq!(summary.static_mode, ToolServiceStaticMode::Site);
    assert_eq!(summary.runtime_status, RuntimeStatus::Running);
    assert!(matches!(m.address_conflict(&config), Some(AppError::Conflict(msg)) if msg == "工具服务端口已被占用: 127.0.0.1:18090"));
    assert!(m.running_summary("t2", 0).is_none());
    assert!(m.begin_stop("t1").is_some());
    assert!(m.begin_stop("t1").is_none());
    assert_eq!(tool_stop_status(ToolStopOutcome::Finished), RuntimeStatus::Stopped);
    assert_eq!(
        tool_stop_status(ToolStopOutcome::Panicked("x".to_string())),
        RuntimeStatus::Failed { message: "工具服务停止异常: x".to_string() }
    );
    assert_eq!(
        tool_stop_status(ToolStopOutcome::TimedOut),
        RuntimeStatus::Failed { message: "工具服务停止超时，后台任务可能仍在退出".to_string() }
    );
    assert!(matches!(listen_failed("127.0.0.1:1", "denied"), AppError::Conflict(m) if m == "HTTP 服务监听失败 127.0.0.1:1: denied"));
}

#[test]
fn directory_listing_answers_page_or_unreadable() {
    let ok = directory_listing_response(Some("<p>x</p>".to_string()));
    assert_eq!(ok.status, 200);
    assert_eq!(ok.content_type, "text/html; charset=utf-8");
    assert_eq!(ok.body, b"<p>x</p>".to_vec());
    let missing = directory_listing_response(None);
    assert_eq!(missing.status, 404);
    assert_eq!(missing.body, "目录不可访问".as_bytes().to_vec());
}

#[test]
fn read_timeouts_name_head_or_body() {
    assert!(matches!(read_timed_out(false), AppError::InvalidInput(m) if m == "读取 HTTP 请求超时"));
    assert!(matches!(read_timed_out(true), AppError::InvalidInput(m) if m == "读取 HTTP 请求体超时"));
}

#[test]
fn tool_service_stop_gives_back_the_started_record_and_frees_the_address() {
    let mut m = ToolServiceManager::new();
    let config = ToolServiceRuntimeConfig::try_from(
        input(Some("/srv"), ToolServiceStaticMode::Directory, "/", vec![]),
        Some(dir_probe("/srv")),
        vec![],
    )
    .unwrap();
    m.record_started("t1".to_string(), config.clone(), "2024-01-01T00:00:00Z".to_string());
    assert!(m.address_conflict(&config).is_some());
    let taken = m.begin_stop("t1").expect("运行中的工具服务应可停止");
    assert_eq!(taken.started_at, "2024-01-01T00:00:00Z");
    assert_eq!(taken.addr, "127.0.0.1:18090");
    assert_eq!(taken.config.static_root_dir.as_deref(), Some("/srv"));
    assert!(m.address_conflict(&config).is_none());
    assert!(m.running_summary("t1", 0).is_none());
}
