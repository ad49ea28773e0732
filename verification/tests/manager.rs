use tunnel::config::{AppConfig, TunnelConfig, TunnelMetric, TunnelStatus};
use tunnel::manager::{PendingStart, StartNext, StartStep, TunnelManager};
use tunnel::manager::{START_WAIT_MAX, START_WAIT_MS};

fn tunnel(id: &str, name: &str) -> TunnelConfig {
    let mut t = TunnelConfig::with_id(id.to_string());
    t.name = name.to_string();
    t
}

fn manager() -> TunnelManager {
    TunnelManager::new(AppConfig {
        tunnels: vec![tunnel("a", "home"), tunnel("b", "work")],
        tunnel: None,
    })
}

fn metric(id: &str, name: &str, status: TunnelStatus) -> TunnelMetric {
    TunnelMetric {
        id: id.to_string(),
        name: name.to_string(),
        status,
        rx_bytes_per_sec: 0,
        tx_bytes_per_sec: 0,
    }
}

fn started(r: Result<StartStep, String>) -> TunnelConfig {
    match r {
        Ok(StartStep::Started(config, _)) => config,
        other => panic!("not started: {:?}", other),
    }
}

fn waiting(r: Result<StartStep, String>) -> PendingStart {
    match r {
        Ok(StartStep::Wait(pending)) => pending,
        other => panic!("not waiting: {:?}", other),
    }
}

fn sorted(mut v: Vec<(String, TunnelStatus)>) -> Vec<(String, TunnelStatus)> {
    v.sort_by(|x, y| x.0.cmp(&y.0));
    v
}

#[test]
fn nothing_runs_at_first() {
    let m = manager();
    assert!(m.active_statuses().is_empty());
    assert!(m.status_metrics().is_empty());
    assert!(!m.is_running("a"));
    assert_eq!(m.config().ids(), vec!["a", "b"]);
}

#[test]
fn started_tunnel_connects() {
    let mut m = manager();
    let config = started(m.start_tunnel("a"));
    assert_eq!(config.id, "a");
    assert_eq!(config.name, "home");
    assert!(m.is_running("a"));
    assert!(!m.is_running("b"));
    assert_eq!(m.active_statuses(), vec![("a".to_string(), TunnelStatus::Connecting)]);
    let shown = m.status_metrics();
    assert_eq!(shown.len(), 1);
    assert_eq!((shown[0].id.as_str(), shown[0].name.as_str()), ("a", "home"));
    assert_eq!((shown[0].rx_bytes_per_sec, shown[0].tx_bytes_per_sec), (0, 0));
}

#[test]
fn unknown_tunnel_is_not_started() {
    let mut m = manager();
    assert_eq!(m.start_tunnel("zz").unwrap_err(), "未找到隧道: zz");
    assert!(m.active_statuses().is_empty());
}

#[test]
fn tunnel_without_rules_is_not_started() {
    let mut m = TunnelManager::new(AppConfig {
        tunnels: vec![tunnel("a", "home").with_rules(Some(vec![]))],
        tunnel: None,
    });
    assert_eq!(m.start_tunnel("a").unwrap_err(), "隧道 'home' 没有转发规则");
    assert!(!m.is_running("a"));
}

#[test]
fn running_tunnel_is_not_started_again() {
    let mut m = manager();
    started(m.start_tunnel("a"));
    assert_eq!(m.start_tunnel("a").unwrap_err(), "隧道 'home' 已在运行");
    assert!(!m.stop_requested("a", 0));
    assert!(m.stop_requested("a", 1));
}

#[test]
fn start_waits_for_the_last_runtime() {
    let mut m = manager();
    started(m.start_tunnel("a"));
    m.stop_tunnel("a");
    let pending = waiting(m.start_tunnel("a"));
    let pending = waiting(m.resume_start(pending));
    m.unregister_runtime("a", 0);
    assert_eq!(started(m.resume_start(pending)).id, "a");
    assert!(m.is_running("a"));
    assert!(!m.stop_requested("a", 1));
}

#[test]
fn start_gives_up_after_three_seconds() {
    assert_eq!(START_WAIT_MS * START_WAIT_MAX as u64, 3000);
    let mut m = manager();
    started(m.start_tunnel("a"));
    m.stop_tunnel("a");
    let mut step = m.start_tunnel("a");
    for _ in 0..START_WAIT_MAX {
        let pending = waiting(step);
        step = m.resume_start(pending);
    }
    assert_eq!(step.unwrap_err(), "隧道 'home' 仍在停止中,请稍后重试");
}

#[test]
fn waiting_start_meets_one_that_was_faster() {
    let mut m = manager();
    started(m.start_tunnel("a"));
    m.stop_tunnel("a");
    let pending = waiting(m.start_tunnel("a"));
    m.unregister_runtime("a", 0);
    started(m.start_tunnel("a"));
    assert_eq!(m.resume_start(pending).unwrap_err(), "隧道 'home' 已在运行");
}

#[test]
fn stopped_tunnel_no_longer_counts() {
    let mut m = manager();
    started(m.start_tunnel("a"));
    started(m.start_tunnel("b"));
    m.stop_tunnel("a");
    assert!(!m.is_running("a"));
    assert!(m.stop_requested("a", 0));
    assert_eq!(m.active_statuses(), vec![("b".to_string(), TunnelStatus::Connecting)]);
    m.publish_metric(&metric("a", "home", TunnelStatus::Disconnected));
    assert!(!m.is_running("a"));
    m.unregister_runtime("a", 0);
    assert!(!m.is_running("a"));
    assert!(m.is_running("b"));
    m.stop_tunnel("zz");
    assert!(m.is_running("b"));
}

#[test]
fn replaced_runtime_leaves_its_successor() {
    let mut m = manager();
    started(m.start_tunnel("a"));
    m.unregister_runtime("a", 9);
    assert!(m.is_running("a"));
    m.unregister_runtime("a", 0);
    assert!(!m.is_running("a"));
    started(m.start_tunnel("a"));
    m.unregister_runtime("a", 0);
    assert!(m.is_running("a"));
}

#[test]
fn stop_all_stops_all() {
    let mut m = manager();
    started(m.start_tunnel("a"));
    started(m.start_tunnel("b"));
    m.stop_all();
    assert!(m.active_statuses().is_empty());
    assert!(m.status_metrics().is_empty());
    assert!(m.stop_requested("a", 0));
    assert!(m.stop_requested("b", 1));
}

#[test]
fn published_status_is_what_is_shown() {
    let mut m = manager();
    started(m.start_tunnel("a"));
    started(m.start_tunnel("b"));
    m.publish_metric(&metric("a", "home", TunnelStatus::Connected));
    m.publish_metric(&metric("b", "work!", TunnelStatus::Error("refused".to_string())));
    m.publish_metric(&metric("zz", "none", TunnelStatus::Connected));
    assert_eq!(
        sorted(m.active_statuses()),
        vec![
            ("a".to_string(), TunnelStatus::Connected),
            ("b".to_string(), TunnelStatus::Error("refused".to_string())),
        ]
    );
    let names: Vec<String> = m.status_metrics().into_iter().map(|x| x.name).collect();
    assert!(names.contains(&"work!".to_string()));
}

#[test]
fn start_all_goes_on_after_failures() {
    let mut m = TunnelManager::new(AppConfig {
        tunnels: vec![
            tunnel("a", "home"),
            tunnel("n", "none").with_rules(Some(vec![])),
            tunnel("b", "work"),
        ],
        tunnel: None,
    });
    started(m.start_tunnel("a"));
    let mut all = m.start_all();
    match m.start_next(&mut all) {
        StartNext::Failed(message) => assert_eq!(message, "隧道 'home' 已在运行"),
        other => panic!("{:?}", other),
    }
    match m.start_next(&mut all) {
        StartNext::Failed(message) => assert_eq!(message, "隧道 'none' 没有转发规则"),
        other => panic!("{:?}", other),
    }
    match m.start_next(&mut all) {
        StartNext::Started(config, token) => assert_eq!((config.id.as_str(), token), ("b", 1)),
        other => panic!("{:?}", other),
    }
    assert!(matches!(m.start_next(&mut all), StartNext::Done));
    assert!(matches!(m.start_next(&mut all), StartNext::Done));
    assert!(!m.stop_requested("a", 0));
    assert!(!m.stop_requested("b", 1));
}

#[test]
fn start_all_waits_and_then_goes_on() {
    let mut m = manager();
    started(m.start_tunnel("a"));
    m.stop_tunnel("a");
    let mut all = m.start_all();
    for _ in 0..START_WAIT_MAX {
        assert!(matches!(m.start_next(&mut all), StartNext::Wait));
    }
    assert!(matches!(m.start_next(&mut all), StartNext::Failed(_)));
    assert!(matches!(m.start_next(&mut all), StartNext::Started(_, _)));
    assert!(matches!(m.start_next(&mut all), StartNext::Done));
    assert!(m.is_running("b"));
}

#[test]
fn prune_stops_what_is_not_kept() {
    let mut m = manager();
    started(m.start_tunnel("a"));
    started(m.start_tunnel("b"));
    m.prune(&["b".to_string(), "zz".to_string()]);
    assert!(!m.is_running("a"));
    assert!(m.is_running("b"));
    m.prune(&[]);
    assert!(!m.is_running("b"));
}

#[test]
fn names_follow_the_list() {
    let mut m = manager();
    started(m.start_tunnel("a"));
    started(m.start_tunnel("b"));
    m.refresh_names(&[tunnel("b", "office"), tunnel("b", "second")]);
    let mut names: Vec<String> = m.status_metrics().into_iter().map(|x| x.name).collect();
    names.sort();
    assert_eq!(names, vec!["home", "office"]);
}

#[test]
fn the_first_of_two_equal_ids_is_started() {
    let mut m = TunnelManager::new(AppConfig {
        tunnels: vec![tunnel("a", "one"), tunnel("a", "two")],
        tunnel: None,
    });
    assert_eq!(started(m.start_tunnel("a")).name, "one");
}

#[test]
fn configuration_is_replaced_as_a_whole() {
    let mut m = manager();
    started(m.start_tunnel("a"));
    m.set_config(AppConfig { tunnels: vec![tunnel("c", "new")], tunnel: None });
    assert_eq!(m.config().ids(), vec!["c"]);
    assert!(m.is_running("a"));
}

#[test]
fn each_runtime_has_its_own_token() {
    let mut m = manager();
    let mut seen = Vec::new();
    for round in 0..3 {
        for id in ["a", "b"] {
            match m.start_tunnel(id) {
                Ok(StartStep::Started(config, token)) => {
                    assert_eq!(config.id, id);
                    assert!(!seen.contains(&token), "round {}", round);
                    assert!(!m.stop_requested(id, token));
                    for earlier in &seen {
                        m.unregister_runtime(id, *earlier);
                    }
                    assert!(m.is_running(id));
                    m.stop_tunnel(id);
                    m.unregister_runtime(id, token);
                    seen.push(token);
                }
                other => panic!("{:?}", other),
            }
        }
    }
    assert_eq!(seen, vec![0, 1, 2, 3, 4, 5]);
}

#[test]
fn failed_starts_use_up_no_token() {
    let mut m = manager();
    started(m.start_tunnel("a"));
    assert!(m.start_tunnel("a").is_err());
    assert!(m.start_tunnel("zz").is_err());
    match m.start_tunnel("b") {
        Ok(StartStep::Started(_, token)) => assert_eq!(token, 1),
        other => panic!("{:?}", other),
    }
}

#[test]
fn start_all_starts_everything_that_has_a_rule() {
    let mut m = TunnelManager::new(AppConfig {
        tunnels: vec![
            tunnel("a", "home"),
            tunnel("n", "none").with_rules(Some(vec![])),
            tunnel("b", "work"),
            tunnel("c", "lab"),
        ],
        tunnel: None,
    });
    started(m.start_tunnel("b"));
    let mut all = m.start_all();
    for _ in 0..4 {
        m.start_next(&mut all);
    }
    assert!(matches!(m.start_next(&mut all), StartNext::Done));
    assert!(m.is_running("a") && m.is_running("b") && m.is_running("c"));
    assert!(!m.is_running("n"));
}

#[test]
fn tunnel_that_is_torn_down_holds_up_no_other() {
    let mut m = manager();
    started(m.start_tunnel("a"));
    m.stop_tunnel("a");
    let mut all = m.start_all();
    loop {
        if matches!(m.start_next(&mut all), StartNext::Done) {
            break;
        }
    }
    assert!(!m.is_running("a"));
    assert!(m.is_running("b"));
}
