use tunnel::config::TunnelStatus;
use tunnel::traffic::Traffic;

#[test]
fn rates_are_what_came_since_the_last_look() {
    let mut t = Traffic::new();
    t.add_rx(100);
    t.add_tx(7);
    t.add_rx(50);
    let m = t.emit(&"a".to_string(), &"home".to_string());
    assert_eq!(m.id, "a");
    assert_eq!(m.name, "home");
    assert_eq!(m.status, TunnelStatus::Connected);
    assert_eq!((m.rx_bytes_per_sec, m.tx_bytes_per_sec), (150, 7));
    let m = t.emit(&"a".to_string(), &"home".to_string());
    assert_eq!((m.rx_bytes_per_sec, m.tx_bytes_per_sec), (0, 0));
}

#[test]
fn rates_sum_to_the_total() {
    let mut t = Traffic::new();
    let mut sum = 0;
    for n in [3, 0, 16384, 1] {
        t.add_tx(n);
        sum += t.emit(&String::new(), &String::new()).tx_bytes_per_sec;
    }
    assert_eq!(sum, t.tx);
    assert_eq!(sum, 16388);
}

#[test]
fn counters_wrap_and_rates_do_not() {
    let mut t = Traffic { rx: u64::MAX, tx: 5, last_rx: u64::MAX, last_tx: 9 };
    t.add_rx(3);
    assert_eq!(t.rx, 2);
    let m = t.emit(&String::new(), &String::new());
    assert_eq!((m.rx_bytes_per_sec, m.tx_bytes_per_sec), (0, 0));
    assert_eq!((t.last_rx, t.last_tx), (2, 5));
}

#[test]
fn new_session_counts_from_zero() {
    let mut t = Traffic { rx: 1, tx: 2, last_rx: 3, last_tx: 4 };
    t.reset();
    assert_eq!(t, Traffic::new());
    assert_eq!(t, Traffic { rx: 0, tx: 0, last_rx: 0, last_tx: 0 });
}
