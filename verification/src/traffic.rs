//! Bytes counted and rates shown.
use crate::config::{TunnelMetric, TunnelMetricView, TunnelStatus, TunnelStatusView};
use vstd::prelude::*;

verus! {

/// The bytes of a session so far, and how many there were when rates were last
/// shown. `rx` is the way down, what came for local clients; `tx` is the way up,
/// what they sent.
#[derive(Debug, Clone, Copy, PartialEq, Eq, Structural)]
pub struct Traffic {
    pub rx: u64,
    pub tx: u64,
    pub last_rx: u64,
    pub last_tx: u64,
}

/// A count after `n` more; it starts again at zero past its largest value.
pub open spec fn counted(count: u64, n: nat) -> u64 {
    ((count + n) % 0x1_0000_0000_0000_0000) as u64
}

/// Counting twice is counting the sum.
pub proof fn lemma_counted_twice(count: u64, a: nat, b: nat)
    ensures
        counted(counted(count, a), b) == counted(count, a + b),
        counted(count, 0) == count,
{
}

/// The counters once `n` more bytes came down.
pub open spec fn received(t: Traffic, n: nat) -> Traffic {
    Traffic { rx: counted(t.rx, n), ..t }
}

/// The counters once `n` more bytes went up.
pub open spec fn sent(t: Traffic, n: nat) -> Traffic {
    Traffic { tx: counted(t.tx, n), ..t }
}

/// What came in between two looks at a count; nothing if it went down.
pub open spec fn gained(now: u64, before: u64) -> u64 {
    if now > before {
        (now - before) as u64
    } else {
        0
    }
}

/// The rates of a tunnel since they were last shown.
pub open spec fn rates(t: Traffic, id: Seq<char>, name: Seq<char>) -> TunnelMetricView {
    TunnelMetricView {
        id,
        name,
        status: TunnelStatusView::Connected,
        rx_bytes_per_sec: gained(t.rx, t.last_rx),
        tx_bytes_per_sec: gained(t.tx, t.last_tx),
    }
}

/// The counters once the rates were shown.
pub open spec fn after_showing(t: Traffic) -> Traffic {
    Traffic { last_rx: t.rx, last_tx: t.tx, ..t }
}

impl Traffic {
    /// Nothing counted.
    pub fn new() -> (t: Traffic)
        ensures
            t == (Traffic { rx: 0, tx: 0, last_rx: 0, last_tx: 0 }),
    {
        Traffic { rx: 0, tx: 0, last_rx: 0, last_tx: 0 }
    }

    /// A new session counts from zero, so that no rate spans two sessions.
    pub fn reset(&mut self)
        ensures
            *final(self) == (Traffic { rx: 0, tx: 0, last_rx: 0, last_tx: 0 }),
    {
        *self = Traffic::new();
    }

    pub fn add_rx(&mut self, n: usize)
        ensures
            *final(self) == received(*old(self), n as nat),
    {
        self.rx = self.rx.wrapping_add(n as u64);
    }

    pub fn add_tx(&mut self, n: usize)
        ensures
            *final(self) == sent(*old(self), n as nat),
    {
        self.tx = self.tx.wrapping_add(n as u64);
    }

    /// The rates since they were last shown, for a tunnel that is connected.
    pub fn emit(&mut self, id: &String, name: &String) -> (m: TunnelMetric)
        ensures
            m@ == rates(*old(self), id@, name@),
            *final(self) == after_showing(*old(self)),
    {
        let rx: u64 = self.rx.saturating_sub(self.last_rx);
        let tx: u64 = self.tx.saturating_sub(self.last_tx);
        self.last_rx = self.rx;
        self.last_tx = self.tx;
        TunnelMetric {
            id: id.clone(),
            name: name.clone(),
            status: TunnelStatus::Connected,
            rx_bytes_per_sec: rx,
            tx_bytes_per_sec: tx,
        }
    }
}

/// The sum of the rates shown at a series of counts.
pub open spec fn rates_sum(counts: Seq<u64>) -> int
    decreases counts.len(),
{
    if counts.len() < 2 {
        0
    } else {
        rates_sum(counts.drop_last()) + gained(
            counts[counts.len() - 1],
            counts[counts.len() - 2],
        )
    }
}

/// No byte is shown twice and none is lost: as long as a count does not start
/// again at zero, the rates shown add up to what was counted.
pub proof fn rates_add_up(counts: Seq<u64>)
    requires
        counts.len() >= 1,
        forall|i: int, j: int| 0 <= i <= j < counts.len() ==> counts[i] <= counts[j],
    ensures
        rates_sum(counts) == counts.last() - counts[0],
    decreases counts.len(),
{
    if counts.len() > 1 {
        rates_add_up(counts.drop_last());
    }
}

/// A count grows by what is counted, and past its largest value starts again at
/// zero.
pub proof fn counting_adds(count: u64, n: nat)
    ensures
        count + n <= u64::MAX ==> counted(count, n) == count + n,
        (counted(count, n) - count - n) % 0x1_0000_0000_0000_0000 == 0,
{
}

/// What comes down counts as received and what goes up as sent, and as nothing else;
/// counting in parts counts the whole.
pub proof fn each_way_is_counted_for_itself(t: Traffic, n: nat, m: nat)
    ensures
        received(t, n).rx as int == (t.rx + n) % 0x1_0000_0000_0000_0000,
        received(t, n).tx == t.tx,
        received(t, n).last_rx == t.last_rx,
        received(t, n).last_tx == t.last_tx,
        sent(t, n).tx as int == (t.tx + n) % 0x1_0000_0000_0000_0000,
        sent(t, n).rx == t.rx,
        sent(t, n).last_rx == t.last_rx,
        sent(t, n).last_tx == t.last_tx,
        received(received(t, n), m) == received(t, n + m),
        sent(sent(t, n), m) == sent(t, n + m),
        received(sent(t, m), n) == sent(received(t, n), m),
{
    lemma_counted_twice(t.rx, n, m);
    lemma_counted_twice(t.tx, n, m);
}

/// Rates are shown of the tunnel itself, as connected, and are exactly what came
/// since they were last shown; showing them again at once shows nothing; and it
/// changes no count.
pub proof fn rates_are_what_came_since(t: Traffic, id: Seq<char>, name: Seq<char>)
    ensures
        rates(t, id, name).id == id,
        rates(t, id, name).name == name,
        rates(t, id, name).status is Connected,
        t.rx >= t.last_rx ==> t.last_rx + rates(t, id, name).rx_bytes_per_sec == t.rx,
        t.tx >= t.last_tx ==> t.last_tx + rates(t, id, name).tx_bytes_per_sec == t.tx,
        t.rx <= t.last_rx ==> rates(t, id, name).rx_bytes_per_sec == 0,
        t.tx <= t.last_tx ==> rates(t, id, name).tx_bytes_per_sec == 0,
        after_showing(t).rx == t.rx,
        after_showing(t).tx == t.tx,
        after_showing(t).last_rx == t.rx,
        after_showing(t).last_tx == t.tx,
        rates(after_showing(t), id, name).rx_bytes_per_sec == 0,
        rates(after_showing(t), id, name).tx_bytes_per_sec == 0,
{
}

} // verus!
