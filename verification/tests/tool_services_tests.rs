use net_power::tool_services::{
    decode_url_path_segment, display_path_for_summary, escape_html, escape_html_attr,
    hex_value, listing_base_path, listing_child_href, normalize_method, normalize_service_path,
    parent_listing_href, path_matches, percent_encode_path_segment, relative_request_path,
    request_path_without_query, status_reason, write_status_line,
};

#[test]
fn display_summary_path_strips_windows_verbatim_prefix() {
    assert_eq!(display_path_for_summary(r"\\?\C:\dev\site"), r"C:\dev\site");
    assert_eq!(
        display_path_for_summary(r"\\?\UNC\server\share"),
        r"\\server\share"
    );
}

#[test]
fn display_summary_path_keeps_ordinary_paths() {
    assert_eq!(display_path_for_summary("/srv/site"), "/srv/site");
    assert_eq!(display_path_for_summary(r"C:\dev"), r"C:\dev");
}

#[test]
fn service_paths_are_normalised_with_single_leading_slash() {
    assert_eq!(normalize_service_path(""), "/");
    assert_eq!(normalize_service_path("  api/v1/ "), "/api/v1");
    assert_eq!(normalize_service_path("/"), "/");
    assert_eq!(normalize_service_path("/static/"), "/static");
}

#[test]
fn path_prefix_matching_respects_segment_boundaries() {
    assert!(path_matches("/", "/anything"));
    assert!(path_matches("/static", "/static"));
    assert!(path_matches("/static", "/static/a.txt"));
    assert!(!path_matches("/static", "/staticx"));
    assert_eq!(
        relative_request_path("/static", "/static/a/b.txt"),
        Some("a/b.txt".to_string())
    );
    assert_eq!(relative_request_path("/static", "/other"), None);
}

#[test]
fn query_is_dropped_from_request_path() {
    assert_eq!(request_path_without_query("/a/b?x=1"), "/a/b");
    assert_eq!(request_path_without_query("/a/b"), "/a/b");
}

#[test]
fn methods_are_normalised_to_upper_case() {
    assert_eq!(normalize_method(" get "), Some("GET".to_string()));
    assert_eq!(normalize_method("any"), Some("ANY".to_string()));
    assert_eq!(normalize_method("FETCH"), None);
}

#[test]
fn status_lines_use_known_reasons() {
    assert_eq!(status_reason(404), "Not Found");
    assert_eq!(write_status_line(200), "HTTP/1.1 200 OK\r\n");
}

#[test]
fn html_escaping_covers_markup_characters() {
    assert_eq!(escape_html("<a & b>"), "&lt;a &amp; b&gt;");
    assert_eq!(escape_html_attr("\"x'"), "&quot;x&#39;");
}

#[test]
fn path_segments_roundtrip_through_percent_encoding() {
    let encoded = percent_encode_path_segment("a b/中");
    assert_eq!(encoded, "a%20b%2F%E4%B8%AD");
    assert_eq!(decode_url_path_segment(&encoded), Some("a b/中".to_string()));
    assert_eq!(hex_value(b'f'), Some(15));
    assert_eq!(hex_value(b'g'), None);
    assert_eq!(decode_url_path_segment("%zz"), None);
}

#[test]
fn directory_listing_links_are_built_from_the_request_path() {
    assert_eq!(listing_base_path("/files"), "/files/");
    assert_eq!(listing_base_path("/files/"), "/files/");
    assert_eq!(listing_child_href("/files/", "docs", true), "/files/docs/");
    assert_eq!(listing_child_href("/files/", "a.txt", false), "/files/a.txt");
    assert_eq!(parent_listing_href("/files/docs/", "/files"), Some("/files/".to_string()));
    assert_eq!(parent_listing_href("/files", "/files"), None);
}
