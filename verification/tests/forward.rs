use tunnel::config::ForwardRule;
use tunnel::forward::{forward_connection, meter_session, run_forward_listener};
use tunnel::forward::{wait_until, watch_session};
use tunnel::forward::{ChannelTarget, ListenAction, ListenEvent, PumpAction, PumpEvent};
use tunnel::forward::{WatchStep, READ_SIZE};
use tunnel::traffic::Traffic;

fn rule() -> ForwardRule {
    ForwardRule { local_port: 15432, target_host: "192.168.1.50".to_string(), target_port: 3306 }
}

#[test]
fn connection_is_led_to_the_target() {
    let expected = ChannelTarget {
        host: "192.168.1.50".to_string(),
        port: 3306,
        origin_host: "127.0.0.1".to_string(),
        origin_port: 0,
    };
    let action = run_forward_listener(&rule(), ListenEvent::Accepted);
    assert_eq!(action, ListenAction::Forward(expected));
}

#[test]
fn listener_ends_with_the_tunnel_or_the_session() {
    assert_eq!(run_forward_listener(&rule(), ListenEvent::AcceptFailed), ListenAction::Listen);
    assert_eq!(run_forward_listener(&rule(), ListenEvent::StopSeen), ListenAction::Leave);
    assert_eq!(run_forward_listener(&rule(), ListenEvent::Cancelled), ListenAction::Leave);
}

#[test]
fn flags_are_polled() {
    assert_eq!(wait_until(true), None);
    assert_eq!(wait_until(false), Some(200));
}

#[test]
fn rates_are_shown_until_the_session_is_over() {
    assert_eq!(meter_session(false, false), Some(1000));
    assert_eq!(meter_session(true, false), None);
    assert_eq!(meter_session(false, true), None);
    assert_eq!(meter_session(true, true), None);
}

#[test]
fn loss_is_reported_unless_the_session_is_over() {
    assert_eq!(watch_session(false, false, false), WatchStep::Wait);
    assert_eq!(watch_session(false, false, true), WatchStep::Report);
    assert_eq!(watch_session(true, false, true), WatchStep::Leave);
    assert_eq!(watch_session(false, true, true), WatchStep::Leave);
    assert_eq!(watch_session(true, true, false), WatchStep::Leave);
}

/// Runs a connection to its end, or through all events: what went up, what came
/// down, how often the end of each side was passed on, and whether it ended.
fn connection(t: &mut Traffic, events: Vec<PumpEvent>) -> (Vec<u8>, Vec<u8>, usize, usize, bool) {
    let mut done = false;
    let (mut up, mut down, mut up_ends, mut down_ends) = (Vec::new(), Vec::new(), 0, 0);
    for event in events {
        match forward_connection(t, &mut done, event) {
            PumpAction::ToServer(data) => up.extend(data),
            PumpAction::ToClient(data) => down.extend(data),
            PumpAction::FinishToServer => up_ends += 1,
            PumpAction::FinishToClient => down_ends += 1,
            PumpAction::Continue => {}
            PumpAction::End => return (up, down, up_ends, down_ends, true),
        }
    }
    (up, down, up_ends, down_ends, false)
}

#[test]
fn bytes_pass_unchanged_and_are_counted() {
    let mut t = Traffic::new();
    let events = vec![
        PumpEvent::LocalRead(vec![1, 2, 3]),
        PumpEvent::RemoteData(vec![9]),
        PumpEvent::RemoteOther,
        PumpEvent::LocalRead(vec![4]),
        PumpEvent::RemoteData(vec![8, 7]),
    ];
    let passed = connection(&mut t, events);
    assert_eq!(passed, (vec![1, 2, 3, 4], vec![9, 8, 7], 0, 0, false));
    assert_eq!((t.rx, t.tx), (3, 4));
}

#[test]
fn download_is_rx_and_upload_is_tx() {
    let mut t = Traffic::new();
    let events = vec![
        PumpEvent::LocalRead(b"ab".to_vec()),
        PumpEvent::RemoteData(b"xyz".to_vec()),
        PumpEvent::RemoteClosed,
    ];
    connection(&mut t, events);
    assert_eq!((t.rx, t.tx), (3, 2));
    let m = t.emit(&"a".to_string(), &"home".to_string());
    assert_eq!((m.rx_bytes_per_sec, m.tx_bytes_per_sec), (3, 2));
}

#[test]
fn answer_after_the_end_of_input_arrives() {
    let mut t = Traffic::new();
    let events = vec![
        PumpEvent::LocalRead(b"request".to_vec()),
        PumpEvent::LocalRead(vec![]),
        PumpEvent::RemoteData(b"ans".to_vec()),
        PumpEvent::RemoteData(b"wer".to_vec()),
        PumpEvent::RemoteEnded,
        PumpEvent::RemoteClosed,
        PumpEvent::RemoteData(b"late".to_vec()),
    ];
    let passed = connection(&mut t, events);
    assert_eq!(passed, (b"request".to_vec(), b"answer".to_vec(), 1, 1, true));
    assert_eq!((t.rx, t.tx), (6, 7));
}

#[test]
fn end_of_input_is_passed_on_once() {
    let mut t = Traffic::new();
    let mut done = false;
    let mut next = |event| forward_connection(&mut t, &mut done, event);
    assert_eq!(next(PumpEvent::LocalRead(vec![])), PumpAction::FinishToServer);
    assert_eq!(next(PumpEvent::LocalRead(vec![])), PumpAction::Continue);
    assert_eq!(next(PumpEvent::LocalRead(vec![1])), PumpAction::Continue);
    assert!(done);
    assert_eq!(t, Traffic::new());
}

#[test]
fn end_of_the_answer_leaves_the_way_up_open() {
    let mut t = Traffic::new();
    let events = vec![
        PumpEvent::RemoteEnded,
        PumpEvent::LocalRead(vec![5]),
        PumpEvent::LocalRead(vec![]),
        PumpEvent::RemoteClosed,
    ];
    assert_eq!(connection(&mut t, events), (vec![5], vec![], 1, 1, true));
}

#[test]
fn failures_end_a_connection() {
    for done in [false, true] {
        let mut t = Traffic::new();
        for event in [PumpEvent::LocalFailed, PumpEvent::RemoteClosed, PumpEvent::WriteFailed] {
            let mut local_done = done;
            assert_eq!(forward_connection(&mut t, &mut local_done, event), PumpAction::End);
            assert_eq!(local_done, done);
        }
        assert_eq!(t, Traffic::new());
    }
}

#[test]
fn empty_data_is_still_data() {
    let mut t = Traffic::new();
    let mut done = false;
    let action = forward_connection(&mut t, &mut done, PumpEvent::RemoteData(vec![]));
    assert_eq!(action, PumpAction::ToClient(vec![]));
    assert!(!done);
}

#[test]
fn reads_are_sixteen_kibibytes() {
    assert_eq!(READ_SIZE, 16 * 1024);
}
