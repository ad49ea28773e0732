use tunnel::config::{AppConfig, TunnelConfig, TunnelMetric, TunnelStatus};
use tunnel::icon::make_tray_icon_pixels;
use tunnel::manager::TunnelManager;
use tunnel::tray::{aggregate_status, build_menu, on_menu_event, refresh_tray};
use tunnel::tray::{status_marker, status_text, MenuAction, MenuEntry};

fn error() -> TunnelStatus {
    TunnelStatus::Error("refused".to_string())
}

fn tunnel(id: &str, name: &str) -> TunnelConfig {
    let mut t = TunnelConfig::with_id(id.to_string());
    t.name = name.to_string();
    t
}

fn list(ids: &[&str]) -> Vec<TunnelConfig> {
    ids.iter().map(|id| tunnel(id, id)).collect()
}

fn aggregate(shown: &[(&str, TunnelStatus)], ids: &[&str]) -> TunnelStatus {
    let statuses = shown.iter().map(|(id, s)| (id.to_string(), s.clone())).collect();
    aggregate_status(&list(ids), &statuses)
}

fn item(id: &str, label: &str) -> MenuEntry {
    MenuEntry::Item { id: id.to_string(), label: label.to_string() }
}

#[test]
fn signs_and_words() {
    assert_eq!(status_marker(&TunnelStatus::Connected), "●");
    assert_eq!(status_marker(&TunnelStatus::Connecting), "◐");
    assert_eq!(status_marker(&error()), "●");
    assert_eq!(status_marker(&TunnelStatus::Disconnected), "○");
    assert_eq!(status_text(&TunnelStatus::Connected), "已连接");
    assert_eq!(status_text(&TunnelStatus::Connecting), "连接中");
    assert_eq!(status_text(&error()), "错误");
    assert_eq!(status_text(&TunnelStatus::Disconnected), "未连接");
}

#[test]
fn any_error_is_red() {
    let shown = [("a", TunnelStatus::Connecting), ("b", error()), ("c", TunnelStatus::Connected)];
    assert_eq!(aggregate(&shown, &["a", "b", "c"]), TunnelStatus::Error(String::new()));
}

#[test]
fn else_any_connecting_is_yellow() {
    let shown = [("a", TunnelStatus::Connecting), ("c", TunnelStatus::Connected)];
    assert_eq!(aggregate(&shown, &["a", "b", "c"]), TunnelStatus::Connecting);
}

#[test]
fn all_connected_is_green() {
    let shown = [("a", TunnelStatus::Connected), ("c", TunnelStatus::Connected)];
    assert_eq!(aggregate(&shown, &["a", "c"]), TunnelStatus::Connected);
    assert_eq!(aggregate(&shown, &["a", "b", "c"]), TunnelStatus::Disconnected);
}

#[test]
fn otherwise_grey() {
    assert_eq!(aggregate(&[], &[]), TunnelStatus::Disconnected);
    assert_eq!(aggregate(&[], &["a"]), TunnelStatus::Disconnected);
    assert_eq!(aggregate(&[("zz", error())], &["a"]), TunnelStatus::Disconnected);
    let published = [("a", TunnelStatus::Disconnected), ("b", TunnelStatus::Connected)];
    assert_eq!(aggregate(&published, &["a", "b"]), TunnelStatus::Disconnected);
}

#[test]
fn menu_has_a_row_for_each_tunnel() {
    let tunnels = vec![tunnel("1", "生产库"), tunnel("2", "测试环境")];
    let statuses = vec![("1".to_string(), TunnelStatus::Connected)];
    assert_eq!(
        build_menu(&tunnels, &statuses),
        vec![
            item("tunnel_1", "● 生产库  已连接"),
            item("tunnel_2", "○ 测试环境  未连接"),
            MenuEntry::Separator,
            item("all_start", "全部连接"),
            item("all_stop", "全部断开"),
            MenuEntry::Separator,
            item("open_config", "配置"),
            item("quit", "退出"),
        ]
    );
}

#[test]
fn menu_without_tunnels_has_no_leading_separator() {
    assert_eq!(
        build_menu(&vec![], &vec![]),
        vec![
            item("all_start", "全部连接"),
            item("all_stop", "全部断开"),
            MenuEntry::Separator,
            item("open_config", "配置"),
            item("quit", "退出"),
        ]
    );
}

#[test]
fn tray_shows_the_registry() {
    let mut m = TunnelManager::new(AppConfig { tunnels: list(&["a", "b"]), tunnel: None });
    let before = refresh_tray(&m);
    assert_eq!(before.status, TunnelStatus::Disconnected);
    assert_eq!(before.icon, make_tray_icon_pixels(&TunnelStatus::Disconnected));
    assert_eq!(before.menu[0], item("tunnel_a", "○ a  未连接"));

    m.start_tunnel("a").unwrap();
    let during = refresh_tray(&m);
    assert_eq!(during.status, TunnelStatus::Connecting);
    assert_eq!(during.menu[0], item("tunnel_a", "◐ a  连接中"));

    m.publish_metric(&TunnelMetric {
        id: "a".to_string(),
        name: "a".to_string(),
        status: error(),
        rx_bytes_per_sec: 0,
        tx_bytes_per_sec: 0,
    });
    let after = refresh_tray(&m);
    assert_eq!(after.status, TunnelStatus::Error(String::new()));
    assert_eq!(after.icon, make_tray_icon_pixels(&error()));
    assert_eq!(after.menu[0], item("tunnel_a", "● a  错误"));

    m.stop_tunnel("a");
    assert_eq!(refresh_tray(&m).status, TunnelStatus::Disconnected);
}

#[test]
fn clicks() {
    assert_eq!(on_menu_event("all_start"), MenuAction::StartAll);
    assert_eq!(on_menu_event("all_stop"), MenuAction::StopAll);
    assert_eq!(on_menu_event("open_config"), MenuAction::OpenConfig);
    assert_eq!(on_menu_event("quit"), MenuAction::Quit);
    assert_eq!(on_menu_event("tunnel_42"), MenuAction::Toggle("42".to_string()));
    assert_eq!(on_menu_event("tunnel_quit"), MenuAction::Toggle("quit".to_string()));
    assert_eq!(on_menu_event("tunnel_"), MenuAction::Toggle(String::new()));
    assert_eq!(on_menu_event("other"), MenuAction::Nothing);
    assert_eq!(on_menu_event(""), MenuAction::Nothing);
}

#[test]
fn click_on_a_row_finds_its_tunnel() {
    for id in ["a", "tunnel_a", "", "隧道"] {
        let menu = build_menu(&vec![tunnel(id, "x")], &vec![]);
        match &menu[0] {
            MenuEntry::Item { id: line, .. } => {
                assert_eq!(on_menu_event(line), MenuAction::Toggle(id.to_string()));
            }
            MenuEntry::Separator => panic!("no row"),
        }
    }
}

#[test]
fn what_is_not_configured_does_not_show() {
    let tunnels = list(&["a"]);
    let connected = ("a".to_string(), TunnelStatus::Connected);
    let only = vec![connected.clone()];
    let more = vec![("zz".to_string(), error()), connected];
    assert_eq!(build_menu(&tunnels, &only), build_menu(&tunnels, &more));
    assert_eq!(aggregate_status(&tunnels, &more), TunnelStatus::Connected);
}
