use tunnel::config::{AuthMethod, ForwardRule, TunnelConfig, TunnelStatus};
use tunnel::runtime::{Await, RuntimeEvent, RuntimeStep, SessionEffect, TunnelRuntime};
use tunnel::runtime::{BIND_FAILED_DELAY_MS, BIND_RETRY_DELAY_MS, BIND_RETRY_MAX};
use tunnel::runtime::{METRIC_EMIT_MS, POLL_MS, RETRY_DELAY_MS, SLEEP_STEP_MS, WATCH_MS};
use tunnel::session::{SessionAction, SessionEvent, SessionPhase};
use tunnel::session::{ATTEMPT_TIMEOUT_SECS, KEEPALIVE_INTERVAL_SECS, KEEPALIVE_MAX};

fn rule(port: u16) -> ForwardRule {
    ForwardRule { local_port: port, target_host: "db".to_string(), target_port: 3306 }
}

fn config(ports: &[u16]) -> TunnelConfig {
    let mut t = TunnelConfig::with_id("a".to_string());
    t.name = "home".to_string();
    t.ssh_host = "jump.example".to_string();
    t.ssh_port = 2222;
    t.ssh_user = "me".to_string();
    t.with_rules(Some(ports.iter().map(|p| rule(*p)).collect()))
}

fn check(step: RuntimeStep, session: SessionEffect, publish: Option<TunnelStatus>, next: Await) {
    assert_eq!(step.session, session);
    assert_eq!(step.publish, publish);
    assert_eq!(step.next, next);
}

fn connecting() -> Await {
    Await::Connect("jump.example:2222".to_string())
}

fn bind(port: u16) -> Await {
    Await::Bind(format!("127.0.0.1:{}", port))
}

fn serving(ports: &[u16]) -> TunnelRuntime {
    let mut r = TunnelRuntime::new(config(ports));
    r.run(RuntimeEvent::Started, false);
    r.run(RuntimeEvent::SessionReady, false);
    for _ in ports {
        r.run(RuntimeEvent::Bound, false);
    }
    r
}

#[test]
fn tunnel_connects_binds_and_serves() {
    let mut r = TunnelRuntime::new(config(&[15432, 15433]));
    check(
        r.run(RuntimeEvent::Started, false),
        SessionEffect::Keep,
        Some(TunnelStatus::Connecting),
        connecting(),
    );
    check(r.run(RuntimeEvent::SessionReady, false), SessionEffect::Keep, None, bind(15432));
    check(r.run(RuntimeEvent::Bound, false), SessionEffect::Keep, None, bind(15433));
    check(
        r.run(RuntimeEvent::Bound, false),
        SessionEffect::Serve,
        Some(TunnelStatus::Connected),
        Await::StopOrLoss,
    );
    check(
        r.run(RuntimeEvent::StopSeen, true),
        SessionEffect::Cancel,
        Some(TunnelStatus::Disconnected),
        Await::Exit,
    );
}

#[test]
fn tunnel_without_rules_ends_at_once() {
    let mut r = TunnelRuntime::new(config(&[]));
    check(
        r.run(RuntimeEvent::Started, false),
        SessionEffect::Keep,
        Some(TunnelStatus::Disconnected),
        Await::Exit,
    );
}

#[test]
fn stop_before_the_first_connection() {
    let mut r = TunnelRuntime::new(config(&[1]));
    check(
        r.run(RuntimeEvent::Started, true),
        SessionEffect::Keep,
        Some(TunnelStatus::Disconnected),
        Await::Exit,
    );
}

#[test]
fn failed_connection_is_shown_and_tried_again_after_five_seconds() {
    let mut r = TunnelRuntime::new(config(&[1]));
    r.run(RuntimeEvent::Started, false);
    check(
        r.run(RuntimeEvent::SessionFailed("refused".to_string()), false),
        SessionEffect::Keep,
        Some(TunnelStatus::Error("refused".to_string())),
        Await::Look,
    );
    check(r.run(RuntimeEvent::Looked, false), SessionEffect::Keep, None, Await::Sleep(500));
    for _ in 0..9 {
        check(r.run(RuntimeEvent::Slept, false), SessionEffect::Keep, None, Await::Sleep(500));
    }
    check(
        r.run(RuntimeEvent::Slept, false),
        SessionEffect::Keep,
        Some(TunnelStatus::Connecting),
        connecting(),
    );
}

#[test]
fn stop_hides_the_failure() {
    let mut r = TunnelRuntime::new(config(&[1]));
    r.run(RuntimeEvent::Started, false);
    check(
        r.run(RuntimeEvent::SessionFailed("refused".to_string()), true),
        SessionEffect::Keep,
        Some(TunnelStatus::Disconnected),
        Await::Exit,
    );
}

#[test]
fn stop_cuts_a_pause_short() {
    let mut r = TunnelRuntime::new(config(&[1]));
    r.run(RuntimeEvent::Started, false);
    r.run(RuntimeEvent::SessionFailed("refused".to_string()), false);
    r.run(RuntimeEvent::Looked, false);
    r.run(RuntimeEvent::Slept, false);
    check(
        r.run(RuntimeEvent::Slept, true),
        SessionEffect::Keep,
        Some(TunnelStatus::Disconnected),
        Await::Exit,
    );
}

#[test]
fn stop_while_connecting_closes_the_session() {
    let mut r = TunnelRuntime::new(config(&[1]));
    r.run(RuntimeEvent::Started, false);
    check(
        r.run(RuntimeEvent::SessionReady, true),
        SessionEffect::CloseStopped,
        Some(TunnelStatus::Disconnected),
        Await::Exit,
    );
}

#[test]
fn taken_port_is_tried_five_times() {
    let mut r = TunnelRuntime::new(config(&[15432, 15433]));
    r.run(RuntimeEvent::Started, false);
    r.run(RuntimeEvent::SessionReady, false);
    r.run(RuntimeEvent::Bound, false);
    for _ in 0..4 {
        check(
            r.run(RuntimeEvent::BindFailed("in use".to_string()), false),
            SessionEffect::Keep,
            None,
            Await::Sleep(500),
        );
        check(r.run(RuntimeEvent::Slept, false), SessionEffect::Keep, None, bind(15433));
    }
    check(
        r.run(RuntimeEvent::BindFailed("in use".to_string()), false),
        SessionEffect::CloseUnbound,
        None,
        Await::Look,
    );
    check(
        r.run(RuntimeEvent::Looked, false),
        SessionEffect::Keep,
        Some(TunnelStatus::Error("port 15433 bind failed: in use".to_string())),
        Await::Look,
    );
    check(r.run(RuntimeEvent::Looked, false), SessionEffect::Keep, None, Await::Sleep(500));
    for _ in 0..5 {
        check(r.run(RuntimeEvent::Slept, false), SessionEffect::Keep, None, Await::Sleep(500));
    }
    check(
        r.run(RuntimeEvent::Slept, false),
        SessionEffect::Keep,
        Some(TunnelStatus::Connecting),
        connecting(),
    );
    check(r.run(RuntimeEvent::SessionReady, false), SessionEffect::Keep, None, bind(15432));
}

#[test]
fn port_that_becomes_free_is_bound() {
    let mut r = TunnelRuntime::new(config(&[15432]));
    r.run(RuntimeEvent::Started, false);
    r.run(RuntimeEvent::SessionReady, false);
    r.run(RuntimeEvent::BindFailed("in use".to_string()), false);
    r.run(RuntimeEvent::Slept, false);
    check(
        r.run(RuntimeEvent::Bound, false),
        SessionEffect::Serve,
        Some(TunnelStatus::Connected),
        Await::StopOrLoss,
    );
}

#[test]
fn stop_after_a_failed_bind() {
    let mut r = TunnelRuntime::new(config(&[15432]));
    r.run(RuntimeEvent::Started, false);
    r.run(RuntimeEvent::SessionReady, false);
    for _ in 0..4 {
        r.run(RuntimeEvent::BindFailed("in use".to_string()), true);
        r.run(RuntimeEvent::Slept, true);
    }
    check(
        r.run(RuntimeEvent::BindFailed("in use".to_string()), true),
        SessionEffect::CloseUnbound,
        None,
        Await::Look,
    );
    check(
        r.run(RuntimeEvent::Looked, true),
        SessionEffect::Keep,
        Some(TunnelStatus::Disconnected),
        Await::Exit,
    );
}

#[test]
fn lost_connection_is_made_again() {
    let mut r = serving(&[15432]);
    check(
        r.run(RuntimeEvent::ConnectionLost, false),
        SessionEffect::Cancel,
        Some(TunnelStatus::Connecting),
        Await::Look,
    );
    check(r.run(RuntimeEvent::Looked, false), SessionEffect::Keep, None, Await::Sleep(500));
    for _ in 0..9 {
        check(r.run(RuntimeEvent::Slept, false), SessionEffect::Keep, None, Await::Sleep(500));
    }
    check(
        r.run(RuntimeEvent::Slept, false),
        SessionEffect::Keep,
        Some(TunnelStatus::Connecting),
        connecting(),
    );
}

#[test]
fn stop_during_the_close_hides_the_error() {
    let mut r = TunnelRuntime::new(config(&[15432]));
    r.run(RuntimeEvent::Started, false);
    r.run(RuntimeEvent::SessionReady, false);
    for _ in 0..4 {
        r.run(RuntimeEvent::BindFailed("in use".to_string()), false);
        r.run(RuntimeEvent::Slept, false);
    }
    r.run(RuntimeEvent::BindFailed("in use".to_string()), false);
    check(
        r.run(RuntimeEvent::Looked, true),
        SessionEffect::Keep,
        Some(TunnelStatus::Disconnected),
        Await::Exit,
    );
}

#[test]
fn stop_while_a_status_is_shown_ends_the_run_at_once() {
    let mut r = TunnelRuntime::new(config(&[1]));
    r.run(RuntimeEvent::Started, false);
    r.run(RuntimeEvent::SessionFailed("refused".to_string()), false);
    check(
        r.run(RuntimeEvent::Looked, true),
        SessionEffect::Keep,
        Some(TunnelStatus::Disconnected),
        Await::Exit,
    );
    let mut r = serving(&[1]);
    r.run(RuntimeEvent::ConnectionLost, false);
    check(
        r.run(RuntimeEvent::Looked, true),
        SessionEffect::Keep,
        Some(TunnelStatus::Disconnected),
        Await::Exit,
    );
}

#[test]
fn loss_and_stop_together_end_the_run() {
    let mut r = serving(&[15432]);
    check(
        r.run(RuntimeEvent::ConnectionLost, true),
        SessionEffect::Cancel,
        Some(TunnelStatus::Disconnected),
        Await::Exit,
    );
}

#[test]
fn unexpected_events_change_nothing() {
    let mut r = serving(&[15432]);
    check(r.run(RuntimeEvent::Slept, false), SessionEffect::Keep, None, Await::Again);
    check(r.run(RuntimeEvent::Bound, true), SessionEffect::Keep, None, Await::Again);
    check(
        r.run(RuntimeEvent::StopSeen, true),
        SessionEffect::Cancel,
        Some(TunnelStatus::Disconnected),
        Await::Exit,
    );
    check(r.run(RuntimeEvent::Started, false), SessionEffect::Keep, None, Await::Again);
}

#[test]
fn published_status_carries_no_rates() {
    let r = TunnelRuntime::new(config(&[1]));
    let m = r.publish_status(TunnelStatus::Connected);
    assert_eq!((m.id.as_str(), m.name.as_str()), ("a", "home"));
    assert_eq!(m.status, TunnelStatus::Connected);
    assert_eq!((m.rx_bytes_per_sec, m.tx_bytes_per_sec), (0, 0));
}

#[test]
fn times_and_limits() {
    assert_eq!(RETRY_DELAY_MS, 5000);
    assert_eq!(BIND_FAILED_DELAY_MS, 3000);
    assert_eq!(BIND_RETRY_DELAY_MS, 500);
    assert_eq!(BIND_RETRY_MAX, 5);
    assert_eq!(SLEEP_STEP_MS, 500);
    assert_eq!(POLL_MS, 200);
    assert_eq!(WATCH_MS, 2000);
    assert_eq!(METRIC_EMIT_MS, 1000);
    assert_eq!(ATTEMPT_TIMEOUT_SECS, 15);
    assert_eq!(KEEPALIVE_INTERVAL_SECS, 15);
    assert_eq!(KEEPALIVE_MAX, 3);
}

fn with_password() -> TunnelRuntime {
    let mut t = config(&[1]);
    t.auth_method = AuthMethod::Password { password: "hunter2".to_string() };
    TunnelRuntime::new(t)
}

fn with_key(passphrase: Option<&str>) -> TunnelRuntime {
    let mut t = config(&[1]);
    t.auth_method = AuthMethod::Key {
        private_key_path: "/keys/id".to_string(),
        passphrase: passphrase.map(str::to_string),
    };
    TunnelRuntime::new(t)
}

fn fail(message: &str) -> SessionAction {
    SessionAction::Fail(message.to_string())
}

/// What an attempt does at each of a series of events.
fn attempt(r: &TunnelRuntime, events: Vec<SessionEvent>) -> Vec<SessionAction> {
    let mut phase = SessionPhase::Connecting;
    events.into_iter().map(|event| r.build_session(&mut phase, event)).collect()
}

fn why() -> String {
    "cause".to_string()
}

#[test]
fn login_with_a_password() {
    let actions = attempt(
        &with_password(),
        vec![SessionEvent::Connected, SessionEvent::AuthAnswered(true)],
    );
    let send =
        SessionAction::SendPassword { user: "me".to_string(), password: "hunter2".to_string() };
    assert_eq!(actions, vec![send, SessionAction::Ready]);
}

#[test]
fn login_with_a_key() {
    for passphrase in [None, Some("words")] {
        let actions = attempt(
            &with_key(passphrase),
            vec![
                SessionEvent::Connected,
                SessionEvent::KeyLoaded,
                SessionEvent::AuthAnswered(true),
            ],
        );
        let load = SessionAction::LoadKey {
            path: "/keys/id".to_string(),
            passphrase: passphrase.map(str::to_string),
        };
        let send = SessionAction::SendKey { user: "me".to_string() };
        assert_eq!(actions, vec![load, send, SessionAction::Ready]);
    }
}

fn last(r: &TunnelRuntime, events: Vec<SessionEvent>) -> SessionAction {
    attempt(r, events).pop().unwrap()
}

#[test]
fn failures_say_what_failed_and_why() {
    let r = with_password();
    assert_eq!(
        last(&r, vec![SessionEvent::ConnectFailed(why())]),
        fail("SSH connection failed: cause")
    );
    assert_eq!(
        last(&r, vec![SessionEvent::Connected, SessionEvent::AuthFailed(why())]),
        fail("Password authentication failed: cause")
    );
    assert_eq!(
        last(&r, vec![SessionEvent::Connected, SessionEvent::AuthAnswered(false)]),
        fail("SSH authentication rejected")
    );
    let k = with_key(None);
    assert_eq!(
        last(&k, vec![SessionEvent::Connected, SessionEvent::KeyFailed(why())]),
        fail("Failed to load private key: cause")
    );
    let loaded = || vec![SessionEvent::Connected, SessionEvent::KeyLoaded];
    let mut events = loaded();
    events.push(SessionEvent::AuthFailed(why()));
    assert_eq!(last(&k, events), fail("Public key authentication failed: cause"));
    let mut events = loaded();
    events.push(SessionEvent::AuthAnswered(false));
    assert_eq!(last(&k, events), fail("SSH authentication rejected"));
}

#[test]
fn time_limit_ends_an_attempt_at_every_stage() {
    let expected = fail("SSH connection timed out: cause");
    let k = with_key(None);
    assert_eq!(last(&k, vec![SessionEvent::TimedOut(why())]), expected);
    assert_eq!(last(&k, vec![SessionEvent::Connected, SessionEvent::TimedOut(why())]), expected);
    let events =
        vec![SessionEvent::Connected, SessionEvent::KeyLoaded, SessionEvent::TimedOut(why())];
    assert_eq!(last(&k, events), expected);
    let r = with_password();
    assert_eq!(last(&r, vec![SessionEvent::Connected, SessionEvent::TimedOut(why())]), expected);
}

#[test]
fn login_keeps_its_order() {
    let r = with_password();
    assert_eq!(last(&r, vec![SessionEvent::AuthAnswered(true)]), SessionAction::Again);
    assert_eq!(last(&r, vec![SessionEvent::KeyLoaded]), SessionAction::Again);
    let events = vec![SessionEvent::Connected, SessionEvent::KeyLoaded];
    assert_eq!(last(&r, events), SessionAction::Again);
    let k = with_key(None);
    let events = vec![SessionEvent::Connected, SessionEvent::AuthAnswered(true)];
    assert_eq!(last(&k, events), SessionAction::Again);
}

#[test]
fn decided_attempt_does_nothing_more() {
    let r = with_password();
    for answer in [true, false] {
        let events = vec![
            SessionEvent::Connected,
            SessionEvent::AuthAnswered(answer),
            SessionEvent::TimedOut(why()),
        ];
        assert_eq!(last(&r, events), SessionAction::Again);
    }
}
