use tunnel::commands::{load_config, save_config, save_config_to_file, toggle_tunnel};
use tunnel::commands::{SavedFile, Toggle};
use tunnel::config::{AppConfig, AuthMethod, TunnelConfig};
use tunnel::manager::{StartStep, TunnelManager};

fn tunnel(id: &str, name: &str) -> TunnelConfig {
    let mut t = TunnelConfig::with_id(id.to_string());
    t.name = name.to_string();
    t
}

fn with_password(id: &str, text: &str) -> TunnelConfig {
    let mut t = tunnel(id, id);
    t.auth_method = AuthMethod::Password { password: text.to_string() };
    t
}

fn password(t: &TunnelConfig) -> String {
    match &t.auth_method {
        AuthMethod::Password { password } => password.clone(),
        AuthMethod::Key { .. } => panic!("a key"),
    }
}

fn running() -> TunnelManager {
    let mut m = TunnelManager::new(AppConfig {
        tunnels: vec![tunnel("a", "home"), tunnel("b", "work")],
        tunnel: None,
    });
    m.start_tunnel("a").unwrap();
    m.start_tunnel("b").unwrap();
    m
}

#[test]
fn saved_list_replaces_the_old_one() {
    let mut m = running();
    let c = save_config(&mut m, vec![tunnel("b", "office"), tunnel("", "new")]);
    assert_eq!(c.tunnels.len(), 2);
    assert!(c.tunnel.is_none());
    assert_eq!(c.tunnels[0].id, "b");
    assert_eq!(c.tunnels[1].id.len(), 36);
    assert_eq!(m.config().ids(), c.ids());
}

#[test]
fn saving_stops_deleted_tunnels_only() {
    let mut m = running();
    save_config(&mut m, vec![tunnel("b", "office")]);
    assert!(!m.is_running("a"));
    assert!(m.stop_requested("a", 0));
    assert!(m.is_running("b"));
    assert!(!m.stop_requested("b", 1));
    assert_eq!(m.status_metrics()[0].name, "office");
}

#[test]
fn edits_take_effect_on_the_next_start() {
    let mut m = running();
    let mut edited = tunnel("a", "home");
    edited.ssh_host = "elsewhere".to_string();
    save_config(&mut m, vec![edited, tunnel("b", "work")]);
    assert!(m.is_running("a"));
    m.stop_tunnel("a");
    m.unregister_runtime("a", 0);
    match m.start_tunnel("a") {
        Ok(StartStep::Started(config, _)) => assert_eq!(config.ssh_host, "elsewhere"),
        other => panic!("{:?}", other),
    }
}

#[test]
fn without_a_usable_file_there_is_one_new_tunnel() {
    for file in [SavedFile::Missing, SavedFile::Damaged] {
        let c = load_config(file);
        assert_eq!(c.tunnels.len(), 1);
        assert_eq!(c.tunnels[0].name, "新建隧道");
        assert_eq!(c.tunnels[0].id.len(), 36);
    }
}

#[test]
fn what_was_saved_is_loaded() {
    let config = AppConfig {
        tunnels: vec![with_password("a", "hunter2"), with_password("b", "")],
        tunnel: None,
    };
    let written = save_config_to_file(&config).unwrap();
    assert_ne!(password(&written.tunnels[0]), "hunter2");
    assert_eq!(password(&config.tunnels[0]), "hunter2");
    let loaded = load_config(SavedFile::Found(written));
    assert_eq!(loaded.ids(), vec!["a", "b"]);
    assert_eq!(password(&loaded.tunnels[0]), "hunter2");
    assert_eq!(password(&loaded.tunnels[1]), "");
    assert_eq!(loaded.tunnels[0].name, "a");
}

#[test]
fn old_file_with_one_tunnel_is_taken_over() {
    let old = AppConfig { tunnels: vec![], tunnel: Some(with_password("", "plain")) };
    let c = load_config(SavedFile::Found(old));
    assert!(c.tunnel.is_none());
    assert_eq!(c.tunnels.len(), 1);
    assert_eq!(c.tunnels[0].id.len(), 36);
    assert_eq!(password(&c.tunnels[0]), "plain");
}

#[test]
fn empty_file_stays_empty() {
    let c = load_config(SavedFile::Found(AppConfig { tunnels: vec![], tunnel: None }));
    assert!(c.tunnels.is_empty());
}

#[test]
fn click_toggles() {
    let mut m = running();
    assert!(matches!(toggle_tunnel(&mut m, "a"), Toggle::Stopping));
    assert!(!m.is_running("a"));
    assert!(matches!(toggle_tunnel(&mut m, "a"), Toggle::Starting(Ok(StartStep::Wait(_)))));
    m.unregister_runtime("a", 0);
    assert!(matches!(toggle_tunnel(&mut m, "a"), Toggle::Starting(Ok(StartStep::Started(_, _)))));
    assert!(m.is_running("a"));
    match toggle_tunnel(&mut m, "zz") {
        Toggle::Starting(Err(message)) => assert_eq!(message, "未找到隧道: zz"),
        other => panic!("{:?}", other),
    }
}
