use tunnel::config::{AppConfig, AuthMethod, ForwardRule, TunnelConfig, TunnelMetric};
use tunnel::config::TunnelStatus;

fn is_random_uuid(s: &str) -> bool {
    let b = s.as_bytes();
    b.len() == 36
        && (0..36).all(|i| match i {
            8 | 13 | 18 | 23 => b[i] == b'-',
            14 => b[i] == b'4',
            19 => b"89ab".contains(&b[i]),
            _ => b"0123456789abcdef".contains(&b[i]),
        })
}

fn password(t: &TunnelConfig) -> String {
    match &t.auth_method {
        AuthMethod::Password { password } => password.clone(),
        AuthMethod::Key { .. } => panic!("a key"),
    }
}

fn with_password(id: &str, text: &str) -> TunnelConfig {
    let mut t = TunnelConfig::with_id(id.to_string());
    t.auth_method = AuthMethod::Password { password: text.to_string() };
    t
}

fn with_key(id: &str) -> TunnelConfig {
    let mut t = TunnelConfig::with_id(id.to_string());
    t.auth_method = AuthMethod::Key {
        private_key_path: "/keys/id".to_string(),
        passphrase: Some("words".to_string()),
    };
    t
}

#[test]
fn new_tunnel_has_its_defaults() {
    let t = TunnelConfig::default();
    assert!(is_random_uuid(&t.id), "{}", t.id);
    assert_eq!(t.name, "New Tunnel");
    assert_eq!(t.ssh_host, "127.0.0.1");
    assert_eq!(t.ssh_port, 22);
    assert_eq!(t.ssh_user, "root");
    assert_eq!(password(&t), "");
    assert_eq!(t.local_port, 15432);
    assert_eq!(t.target_host, "127.0.0.1");
    assert_eq!(t.target_port, 5432);
    assert!(!t.enabled);
    assert_eq!(t.forwards.len(), 1);
    assert_eq!(t.forwards[0].local_port, 15432);
    assert_eq!(t.forwards[0].target_host, "127.0.0.1");
    assert_eq!(t.forwards[0].target_port, 5432);
}

#[test]
fn first_start_has_one_tunnel() {
    let c = AppConfig::defaults();
    assert_eq!(c.tunnels.len(), 1);
    assert!(c.tunnel.is_none());
    let t = &c.tunnels[0];
    assert!(is_random_uuid(&t.id));
    assert_eq!(t.name, "新建隧道");
    assert_eq!(t.ssh_host, "127.0.0.1");
    assert_eq!(t.ssh_port, 22);
    assert_eq!(t.ssh_user, "root");
    assert_eq!(password(t), "");
    assert_eq!(t.local_port, 5432);
    assert_eq!(t.target_host, "127.0.0.1");
    assert_eq!(t.target_port, 5432);
    assert!(!t.enabled);
    assert_eq!(t.forwards.len(), 1);
    assert_eq!(t.forwards[0].local_port, 5432);
}

#[test]
fn ids_are_left_to_chance() {
    assert_ne!(TunnelConfig::default().id, TunnelConfig::default().id);
}

#[test]
fn rules_come_from_the_list_or_from_the_tunnel() {
    let mut t = TunnelConfig::with_id("a".to_string());
    t.local_port = 1;
    t.target_host = "db".to_string();
    t.target_port = 2;
    let own = t.clone().with_rules(None);
    assert_eq!(own.forwards.len(), 1);
    assert_eq!(own.forwards[0].local_port, 1);
    assert_eq!(own.forwards[0].target_host, "db");
    assert_eq!(own.forwards[0].target_port, 2);

    let listed = vec![
        ForwardRule { local_port: 3, target_host: "x".to_string(), target_port: 4 },
        ForwardRule { local_port: 5, target_host: "y".to_string(), target_port: 6 },
    ];
    let t = t.with_rules(Some(listed));
    assert_eq!(t.forwards.len(), 2);
    assert_eq!(t.forwards[1].target_host, "y");
    assert_eq!(t.with_rules(Some(vec![])).forwards.len(), 0);
}

#[test]
fn only_missing_ids_are_filled_in() {
    let mut c = AppConfig {
        tunnels: vec![
            TunnelConfig::with_id("kept".to_string()),
            TunnelConfig::with_id(String::new()),
            TunnelConfig::with_id(String::new()),
        ],
        tunnel: None,
    };
    c.tunnels[1].name = "second".to_string();
    c.ensure_ids();
    assert_eq!(c.tunnels[0].id, "kept");
    assert!(is_random_uuid(&c.tunnels[1].id));
    assert!(is_random_uuid(&c.tunnels[2].id));
    assert_ne!(c.tunnels[1].id, c.tunnels[2].id);
    assert_eq!(c.tunnels[1].name, "second");
    assert_eq!(c.ids(), vec!["kept", &c.tunnels[1].id, &c.tunnels[2].id]);
}

#[test]
fn an_id_is_filled_in_once() {
    let mut t = TunnelConfig::with_id(String::new());
    t.fill_id("one".to_string());
    t.fill_id("two".to_string());
    assert_eq!(t.id, "one");
}

#[test]
fn single_tunnel_moves_into_the_list() {
    let mut c = AppConfig {
        tunnels: vec![TunnelConfig::with_id("first".to_string())],
        tunnel: Some(TunnelConfig::with_id(String::new())),
    };
    c.migrate_and_ensure_ids();
    assert!(c.tunnel.is_none());
    assert_eq!(c.tunnels.len(), 2);
    assert_eq!(c.tunnels[0].id, "first");
    assert!(is_random_uuid(&c.tunnels[1].id));

    let before = c.ids();
    c.migrate_and_ensure_ids();
    assert_eq!(c.ids(), before);
}

#[test]
fn passwords_are_encrypted_and_come_back() {
    let mut c = AppConfig {
        tunnels: vec![with_password("a", "hunter2"), with_key("b"), with_password("c", "")],
        tunnel: Some(with_password("d", "密码")),
    };
    assert!(c.encrypt_passwords());
    assert!(password(&c.tunnels[0]).starts_with("aes256gcm:"));
    assert!(password(&c.tunnels[2]).starts_with("aes256gcm:"));
    assert_eq!(c.tunnels[0].id, "a");
    c.decrypt_passwords();
    assert_eq!(password(&c.tunnels[0]), "hunter2");
    assert_eq!(password(&c.tunnels[2]), "");
    assert_eq!(password(c.tunnel.as_ref().unwrap()), "密码");
    match &c.tunnels[1].auth_method {
        AuthMethod::Key { private_key_path, passphrase } => {
            assert_eq!(private_key_path, "/keys/id");
            assert_eq!(passphrase.as_deref(), Some("words"));
        }
        AuthMethod::Password { .. } => panic!("a password"),
    }
}

#[test]
fn passwords_in_the_clear_are_read_as_they_are() {
    let mut c = AppConfig { tunnels: vec![with_password("a", "hunter2")], tunnel: None };
    c.decrypt_passwords();
    assert_eq!(password(&c.tunnels[0]), "hunter2");
}

#[test]
fn saved_rules_need_a_list_or_a_whole_rule() {
    let new = || TunnelConfig::with_id("a".to_string());
    let host = || Some("db".to_string());
    let t = new().restore_rules(None, Some(1), host(), Some(2)).unwrap();
    assert_eq!((t.local_port, t.target_host.as_str(), t.target_port), (1, "db", 2));
    assert_eq!(t.forwards.len(), 1);
    assert_eq!(t.forwards[0].local_port, 1);

    let listed = vec![ForwardRule { local_port: 3, target_host: "x".to_string(), target_port: 4 }];
    let t = new().restore_rules(Some(listed), None, None, None).unwrap();
    assert_eq!((t.local_port, t.target_host.as_str(), t.target_port), (0, "", 0));
    assert_eq!(t.forwards[0].target_host, "x");
    let t = new().restore_rules(Some(vec![]), Some(1), host(), Some(2)).unwrap();
    assert_eq!(t.local_port, 1);
    assert!(t.forwards.is_empty());

    let message = |r: Result<TunnelConfig, String>| r.unwrap_err();
    assert_eq!(message(new().restore_rules(None, None, None, None)), "missing field `local_port`");
    assert_eq!(
        message(new().restore_rules(None, Some(1), None, Some(2))),
        "missing field `target_host`"
    );
    assert_eq!(
        message(new().restore_rules(None, Some(1), host(), None)),
        "missing field `target_port`"
    );
}

#[test]
fn metrics_can_be_copied() {
    let m = TunnelMetric {
        id: "a".to_string(),
        name: "home".to_string(),
        status: TunnelStatus::Error("refused".to_string()),
        rx_bytes_per_sec: 1,
        tx_bytes_per_sec: 2,
    };
    let c = m.clone();
    assert_eq!((c.id, c.name), ("a".to_string(), "home".to_string()));
    assert_eq!(c.status, TunnelStatus::Error("refused".to_string()));
    assert_eq!((c.rx_bytes_per_sec, c.tx_bytes_per_sec), (1, 2));
}
