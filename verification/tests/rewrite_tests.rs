use net_power::error::AppError;
use net_power::headers::HeaderMap;
use net_power::json::{parse_json, set_json_path, json_text};
use net_power::models::{BodyRewriteRule, HeaderRule};
use net_power::rewrite::{apply_header_rules, looks_like_json, rewrite_body, RewriteOutcome};

fn header_rule(phase: &str, action: &str, name: &str, value: Option<&str>) -> HeaderRule {
    HeaderRule {
        id: "h1".to_string(),
        phase: phase.to_string(),
        action: action.to_string(),
        name: name.to_string(),
        value: value.map(ToOwned::to_owned),
        enabled: true,
        sort_order: 0,
    }
}

fn rule(path: &str, value_json: &str, body_type: &str) -> BodyRewriteRule {
    BodyRewriteRule {
        id: "r1".to_string(),
        body_type: body_type.to_string(),
        path: path.to_string(),
        value_json: value_json.to_string(),
        enabled: true,
        sort_order: 0,
    }
}

#[test]
fn applies_header_set_and_remove_for_matching_phase() {
    let mut headers = HeaderMap::from_pairs(vec![
        ("x-old".to_string(), "1".to_string()),
        ("x-keep".to_string(), "ok".to_string()),
    ]);
    apply_header_rules(
        &mut headers,
        &[
            header_rule("request", "set", "X-New", Some("2")),
            header_rule("request", "remove", "X-Old", None),
            header_rule("response", "set", "X-Skip", Some("3")),
        ],
        "request",
    );

    assert_eq!(headers.get("x-new"), Some(&"2".to_string()));
    assert!(!headers.contains_key("x-old"));
    assert_eq!(headers.get("x-keep"), Some(&"ok".to_string()));
    assert!(!headers.contains_key("x-skip"));
}

#[test]
fn rewrites_nested_json_path() {
    let outcome = rewrite_body(
        br#"{"user":{"name":"old"},"items":[{"status":"old"}]}"#,
        Some("application/json"),
        None,
        1024,
        true,
        &[
            rule("user.name", "\"new\"", "json"),
            rule("items.0.status", "\"ok\"", "json"),
        ],
    )
    .expect("JSON body 应可改写");
    assert_eq!(
        String::from_utf8(outcome.body).expect("应是 UTF-8"),
        r#"{"items":[{"status":"ok"}],"user":{"name":"new"}}"#
    );
}

#[test]
fn rewrites_json_without_content_type_when_body_looks_like_json() {
    let outcome = rewrite_body(br#"{"a":1}"#, None, None, 1024, true, &[rule("a", "2", "auto")])
        .expect("缺失 Content-Type 但像 JSON 时应可改写");
    assert_eq!(String::from_utf8(outcome.body).expect("应是 UTF-8"), r#"{"a":2}"#);
}

#[test]
fn skips_json_array_out_of_range_without_expanding() {
    let outcome = rewrite_body(
        br#"{"items":[{"status":"old"}]}"#,
        Some("application/json"),
        None,
        1024,
        true,
        &[rule("items.3.status", "\"new\"", "json")],
    )
    .expect("数组越界应跳过而不是报错");
    assert!(!outcome.changed);
    assert_eq!(
        outcome.warning.as_deref(),
        Some("Body 改写规则路径未命中: items.3.status")
    );
}

#[test]
fn rewrites_form_body() {
    let outcome = rewrite_body(
        b"a=1&b=2",
        Some("application/x-www-form-urlencoded"),
        None,
        1024,
        true,
        &[rule("b", "\"changed\"", "form"), rule("c", "3", "form")],
    )
    .expect("form body 应可改写");
    assert_eq!(String::from_utf8(outcome.body).expect("应是 UTF-8"), "a=1&b=changed&c=3");
}

#[test]
fn form_content_type_wins_when_json_rules_are_also_present() {
    let outcome = rewrite_body(
        b"a=1&b=2",
        Some("application/x-www-form-urlencoded; charset=utf-8"),
        None,
        1024,
        true,
        &[rule("json.only", "\"ignored\"", "json"), rule("b", "\"ok\"", "form")],
    )
    .expect("form Content-Type 不应被 JSON 规则误导");
    assert_eq!(String::from_utf8(outcome.body).expect("应是 UTF-8"), "a=1&b=ok");
}

#[test]
fn skips_compressed_body() {
    let outcome = rewrite_body(
        br#"{"a":1}"#,
        Some("application/json"),
        Some("gzip"),
        1024,
        true,
        &[rule("a", "2", "json")],
    )
    .expect("跳过压缩 body 不应报错");
    assert!(!outcome.changed);
    assert!(outcome.warning.is_some());
}

#[test]
fn skips_body_larger_than_rewrite_limit() {
    let outcome = rewrite_body(
        br#"{"a":1}"#,
        Some("application/json"),
        None,
        4,
        true,
        &[rule("a", "2", "json")],
    )
    .expect("超过大小限制应跳过");
    assert!(!outcome.changed);
    assert_eq!(outcome.warning.as_deref(), Some("body 超过最大可改写大小"));
}

#[test]
fn disabled_rules_leave_body_unchanged() {
    let mut r = rule("a", "2", "json");
    r.enabled = false;
    let outcome = rewrite_body(br#"{"a":1}"#, Some("application/json"), None, 1024, true, &[r])
        .expect("no rule");
    assert_eq!(outcome, RewriteOutcome::unchanged());
}

#[test]
fn blank_content_encoding_is_not_compressed() {
    let outcome = rewrite_body(
        br#"{"a":1}"#,
        Some("application/json"),
        Some("  "),
        1024,
        true,
        &[rule("a", "2", "json")],
    )
    .expect("rewrite");
    assert!(outcome.changed);
    assert_eq!(outcome.body, br#"{"a":2}"#.to_vec());
}

#[test]
fn unknown_body_kind_is_left_alone() {
    let outcome = rewrite_body(b"plain", Some("text/plain"), None, 1024, true, &[rule("a", "2", "auto")])
        .expect("unknown");
    assert!(!outcome.changed);
    assert!(outcome.warning.is_none());
}

#[test]
fn invalid_json_body_is_a_json_error() {
    let err = rewrite_body(b"{oops", Some("application/json"), None, 1024, true, &[rule("a", "2", "json")])
        .unwrap_err();
    assert!(matches!(err, AppError::Json(_)));
}

#[test]
fn invalid_rule_value_is_a_json_error() {
    let err = rewrite_body(br#"{"a":1}"#, Some("application/json"), None, 1024, true, &[rule("a", "nope", "json")])
        .unwrap_err();
    assert!(matches!(err, AppError::Json(_)));
}

#[test]
fn index_step_on_object_is_invalid_input() {
    let err = rewrite_body(
        br#"{"a":{"b":1}}"#,
        Some("application/json"),
        None,
        1024,
        true,
        &[rule("a.0.c", "2", "json")],
    )
    .unwrap_err();
    match err {
        AppError::InvalidInput(m) => assert_eq!(m, "路径 a.0.c 需要数组节点 0"),
        other => panic!("unexpected {other:?}"),
    }
}

#[test]
fn empty_path_is_rejected() {
    let doc = parse_json(br#"{"a":1}"#).unwrap();
    let repl = parse_json(b"2").unwrap();
    match set_json_path(doc, "..", repl) {
        Err(AppError::InvalidInput(m)) => assert_eq!(m, "JSON 改写路径不能为空"),
        _ => panic!("expected an error"),
    }
}

#[test]
fn json_path_creates_missing_objects() {
    let doc = parse_json(br#"{"a":1}"#).unwrap();
    let repl = parse_json(b"true").unwrap();
    let (t, hit) = set_json_path(doc, "x.y", repl).unwrap();
    assert!(hit);
    assert_eq!(json_text(t).unwrap(), r#"{"a":1,"x":{"y":true}}"#);
}

#[test]
fn json_detection_skips_leading_whitespace() {
    assert!(looks_like_json(b"  \n[1]"));
    assert!(!looks_like_json(b"  x"));
    assert!(!looks_like_json(b""));
}

#[test]
fn header_map_keeps_names_sorted_and_last_value() {
    let headers = HeaderMap::from_pairs(vec![
        ("b".to_string(), "1".to_string()),
        ("a".to_string(), "2".to_string()),
        ("b".to_string(), "3".to_string()),
    ]);
    let names: Vec<&str> = headers.entries().iter().map(|(k, _)| k.as_str()).collect();
    assert_eq!(names, vec!["a", "b"]);
    assert_eq!(headers.get("b"), Some(&"3".to_string()));
    assert_eq!(headers.len(), 2);
}

#[test]
fn header_rules_applied_twice_change_nothing_more() {
    let rules = [
        header_rule("request", "set", "X-New", Some("2")),
        header_rule("request", "remove", "X-Old", None),
        header_rule("request", "set", "x-new", Some("3")),
        header_rule("response", "set", "X-Skip", Some("4")),
    ];
    let mut once = HeaderMap::from_pairs(vec![
        ("x-old".to_string(), "1".to_string()),
        ("x-keep".to_string(), "ok".to_string()),
    ]);
    apply_header_rules(&mut once, &rules, "request");
    let first: Vec<(String, String)> = once.entries().to_vec();
    apply_header_rules(&mut once, &rules, "request");
    assert_eq!(once.entries().to_vec(), first);
    assert_eq!(once.get("x-new"), Some(&"3".to_string()));
    assert!(!once.contains_key("x-old"));
}

#[test]
fn new_json_names_go_in_name_order() {
    let outcome = rewrite_body(
        br#"{"c":3,"a":1}"#,
        Some("application/json"),
        None,
        1024,
        true,
        &[rule("b", "2", "json")],
    )
    .unwrap();
    assert!(outcome.changed);
    assert_eq!(String::from_utf8(outcome.body).unwrap(), r#"{"a":1,"b":2,"c":3}"#);
}
