use net_power::models::{AppSetting, ServiceDetail, ServiceKind};
use net_power::startup::{service_auto_start_enabled, services_selected_for_auto_start};
use net_power::tray::{
    should_show_window_from_tray, tray_menu_action, tray_menu_items, TrayButtonState, TrayEvent,
    TrayMenuAction, TrayMouseButton,
};

#[test]
fn service_auto_start_requires_global_setting_true() {
    assert!(!service_auto_start_enabled(&[]));
    assert!(!service_auto_start_enabled(&[setting(
        "services.auto_start_enabled",
        "false",
    )]));
    assert!(service_auto_start_enabled(&[setting(
        "services.auto_start_enabled",
        "true",
    )]));
}

#[test]
fn service_auto_start_ignores_whitespace_and_other_keys() {
    assert!(service_auto_start_enabled(&[
        setting("other", "true"),
        setting("services.auto_start_enabled", " true\n"),
    ]));
    assert!(!service_auto_start_enabled(&[setting("other", "true")]));
}

#[test]
fn services_selected_for_auto_start_filters_disabled_and_manual_services() {
    let selected = services_selected_for_auto_start(vec![
        service("manual", true, false),
        service("disabled", false, true),
        service("ready", true, true),
    ]);

    assert_eq!(selected.len(), 1);
    assert_eq!(selected[0].id, "ready");
}

#[test]
fn tray_menu_uses_stable_chinese_items() {
    let items = tray_menu_items();

    assert_eq!(items.len(), 3);
    assert_eq!(items[0].id, "show-main");
    assert_eq!(items[0].label, "显示窗口");
    assert_eq!(items[0].action, TrayMenuAction::Show);
    assert_eq!(items[1].id, "hide-main");
    assert_eq!(items[1].label, "隐藏到托盘");
    assert_eq!(items[1].action, TrayMenuAction::Hide);
    assert_eq!(items[2].id, "quit-app");
    assert_eq!(items[2].label, "退出 net-power");
    assert_eq!(items[2].action, TrayMenuAction::Quit);
}

#[test]
fn tray_menu_action_ignores_unknown_ids() {
    assert_eq!(tray_menu_action("show-main"), TrayMenuAction::Show);
    assert_eq!(tray_menu_action("hide-main"), TrayMenuAction::Hide);
    assert_eq!(tray_menu_action("quit-app"), TrayMenuAction::Quit);
    assert_eq!(tray_menu_action("unknown"), TrayMenuAction::Ignore);
}

fn setting(key: &str, value_json: &str) -> AppSetting {
    AppSetting {
        key: key.to_string(),
        value_json: value_json.to_string(),
    }
}

fn service(id: &str, enabled: bool, auto_start: bool) -> ServiceDetail {
    ServiceDetail {
        id: id.to_string(),
        name: id.to_string(),
        kind: ServiceKind::HttpForward,
        enabled,
        auto_start,
        listen_host: "127.0.0.1".to_string(),
        listen_port: 0,
        notes: String::new(),
        created_at: String::new(),
        updated_at: String::new(),
        http_reverse: None,
        http_forward: None,
        tcp_forward: None,
        udp_forward: None,
        ssh_tunnel: None,
        header_rules: Vec::new(),
        body_rewrite_rules: Vec::new(),
    }
}

#[test]
fn left_click_release_shows_main_window() {
    let event = TrayEvent::Click { button: TrayMouseButton::Left, state: TrayButtonState::Up };
    assert!(should_show_window_from_tray(&event));
}

#[test]
fn right_click_does_not_show_main_window() {
    let event = TrayEvent::Click { button: TrayMouseButton::Right, state: TrayButtonState::Up };
    assert!(!should_show_window_from_tray(&event));
}

#[test]
fn left_double_click_shows_main_window() {
    let event = TrayEvent::DoubleClick { button: TrayMouseButton::Left };
    assert!(should_show_window_from_tray(&event));
}

#[test]
fn left_press_and_hover_do_not_show_main_window() {
    assert!(!should_show_window_from_tray(&TrayEvent::Click { button: TrayMouseButton::Left, state: TrayButtonState::Down }));
    assert!(!should_show_window_from_tray(&TrayEvent::Hover));
    assert!(!should_show_window_from_tray(&TrayEvent::DoubleClick { button: TrayMouseButton::Right }));
}
