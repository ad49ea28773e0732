//! Forwarding: listeners on local ports, and connections pumped both ways.
use crate::config::{ForwardRule, ForwardRuleView};
use crate::runtime::{METRIC_EMIT_MS, POLL_MS, WATCH_MS};
use crate::traffic::{counted, lemma_counted_twice, Traffic};
use vstd::prelude::*;

verus! {

/// How much is read from a local client at once.
pub const READ_SIZE: usize = 16384;

/// What a channel through the server is opened with: where it leads, and where
/// it is said to come from.
#[derive(Debug, PartialEq, Eq)]
pub struct ChannelTarget {
    pub host: String,
    pub port: u32,
    pub origin_host: String,
    pub origin_port: u32,
}

#[verifier::ext_equal]
pub struct ChannelTargetView {
    pub host: Seq<char>,
    pub port: u32,
    pub origin_host: Seq<char>,
    pub origin_port: u32,
}

impl View for ChannelTarget {
    type V = ChannelTargetView;

    open spec fn view(&self) -> ChannelTargetView {
        ChannelTargetView {
            host: self.host@,
            port: self.port,
            origin_host: self.origin_host@,
            origin_port: self.origin_port,
        }
    }
}

/// The channel of a connection to the local port of `rule`.
pub open spec fn channel_of(rule: ForwardRuleView) -> ChannelTargetView {
    ChannelTargetView {
        host: rule.target_host,
        port: rule.target_port as u32,
        origin_host: "127.0.0.1"@,
        origin_port: 0,
    }
}

/// What happened to a listener.
#[derive(Debug, Clone, Copy, PartialEq, Eq, Structural)]
pub enum ListenEvent {
    Accepted,
    AcceptFailed,
    /// A stop of the tunnel was asked for.
    StopSeen,
    /// The session was given up.
    Cancelled,
}

/// What a listener does next.
#[derive(Debug, PartialEq, Eq)]
pub enum ListenAction {
    /// Forward the connection through a channel, and listen on.
    Forward(ChannelTarget),
    Listen,
    Leave,
}

#[verifier::ext_equal]
pub enum ListenActionView {
    Forward(ChannelTargetView),
    Listen,
    Leave,
}

impl View for ListenAction {
    type V = ListenActionView;

    open spec fn view(&self) -> ListenActionView {
        match *self {
            ListenAction::Forward(target) => ListenActionView::Forward(target@),
            ListenAction::Listen => ListenActionView::Listen,
            ListenAction::Leave => ListenActionView::Leave,
        }
    }
}

/// What the listener of `rule` does after an event.
pub open spec fn listen_step(rule: ForwardRuleView, event: ListenEvent) -> ListenActionView {
    match event {
        ListenEvent::Accepted => ListenActionView::Forward(channel_of(rule)),
        ListenEvent::AcceptFailed => ListenActionView::Listen,
        ListenEvent::StopSeen | ListenEvent::Cancelled => ListenActionView::Leave,
    }
}

/// What the listener of `rule` does after an event: a connection that cannot be
/// accepted does not end it, only a stop or the end of the session does.
pub fn run_forward_listener(rule: &ForwardRule, event: ListenEvent) -> (a: ListenAction)
    ensures
        a@ == listen_step(rule@, event),
{
    match event {
        ListenEvent::Accepted => ListenAction::Forward(
            ChannelTarget {
                host: rule.target_host.clone(),
                port: rule.target_port as u32,
                origin_host: "127.0.0.1".to_owned(),
                origin_port: 0,
            },
        ),
        ListenEvent::AcceptFailed => ListenAction::Listen,
        ListenEvent::StopSeen | ListenEvent::Cancelled => ListenAction::Leave,
    }
}

/// How long to sleep before a flag is looked at again, if at all.
pub open spec fn poll_delay(flag: bool) -> Option<u64> {
    if flag {
        None
    } else {
        Some(POLL_MS)
    }
}

/// How long to sleep before a flag is looked at again; `None` once it is set.
pub fn wait_until(flag: bool) -> (r: Option<u64>)
    ensures
        r == poll_delay(flag),
{
    if flag {
        None
    } else {
        Some(POLL_MS)
    }
}

/// What one who watches a session does next.
#[derive(Debug, Clone, Copy, PartialEq, Eq, Structural)]
pub enum WatchStep {
    /// The session is over for other reasons.
    Leave,
    /// Report that the connection was lost, and leave.
    Report,
    /// Look again later.
    Wait,
}

/// What one who watches a session does next.
pub open spec fn watch_step(stopped: bool, cancelled: bool, closed: bool) -> WatchStep {
    if stopped || cancelled {
        WatchStep::Leave
    } else if closed {
        WatchStep::Report
    } else {
        WatchStep::Wait
    }
}

/// What one who watches a session for the loss of its connection does next.
pub fn watch_session(stopped: bool, cancelled: bool, closed: bool) -> (w: WatchStep)
    ensures
        w == watch_step(stopped, cancelled, closed),
{
    if stopped || cancelled {
        WatchStep::Leave
    } else if closed {
        WatchStep::Report
    } else {
        WatchStep::Wait
    }
}

/// How long to sleep before the rates of a session are shown, if at all.
pub open spec fn meter_delay(stopped: bool, cancelled: bool) -> Option<u64> {
    if stopped || cancelled {
        None
    } else {
        Some(METRIC_EMIT_MS)
    }
}

/// How long to sleep before the rates of a session are shown; `None` once the
/// session is over. It is asked before the sleep and again after it.
pub fn meter_session(stopped: bool, cancelled: bool) -> (r: Option<u64>)
    ensures
        r == meter_delay(stopped, cancelled),
{
    if stopped || cancelled {
        None
    } else {
        Some(METRIC_EMIT_MS)
    }
}

/// What happened on a connection.
#[derive(Debug)]
pub enum PumpEvent {
    /// The local client sent this; nothing at all where it will send no more.
    LocalRead(Vec<u8>),
    LocalFailed,
    /// The server sent this.
    RemoteData(Vec<u8>),
    /// The server will send no more, but still takes what comes.
    RemoteEnded,
    /// The channel was closed.
    RemoteClosed,
    /// The channel said something that carries no data.
    RemoteOther,
    /// What was to be passed on last could not be.
    WriteFailed,
}

#[verifier::ext_equal]
pub enum PumpEventView {
    LocalRead(Seq<u8>),
    LocalFailed,
    RemoteData(Seq<u8>),
    RemoteEnded,
    RemoteClosed,
    RemoteOther,
    WriteFailed,
}

impl View for PumpEvent {
    type V = PumpEventView;

    open spec fn view(&self) -> PumpEventView {
        match *self {
            PumpEvent::LocalRead(data) => PumpEventView::LocalRead(data@),
            PumpEvent::LocalFailed => PumpEventView::LocalFailed,
            PumpEvent::RemoteData(data) => PumpEventView::RemoteData(data@),
            PumpEvent::RemoteEnded => PumpEventView::RemoteEnded,
            PumpEvent::RemoteClosed => PumpEventView::RemoteClosed,
            PumpEvent::RemoteOther => PumpEventView::RemoteOther,
            PumpEvent::WriteFailed => PumpEventView::WriteFailed,
        }
    }
}

/// What to do on a connection.
#[derive(Debug, PartialEq, Eq)]
pub enum PumpAction {
    ToServer(Vec<u8>),
    ToClient(Vec<u8>),
    /// Tell the server that nothing more comes, and go on with what it sends.
    FinishToServer,
    /// Tell the client that nothing more comes, and go on with what it sends.
    FinishToClient,
    Continue,
    End,
}

#[verifier::ext_equal]
pub enum PumpActionView {
    ToServer(Seq<u8>),
    ToClient(Seq<u8>),
    FinishToServer,
    FinishToClient,
    Continue,
    End,
}

impl View for PumpAction {
    type V = PumpActionView;

    open spec fn view(&self) -> PumpActionView {
        match *self {
            PumpAction::ToServer(data) => PumpActionView::ToServer(data@),
            PumpAction::ToClient(data) => PumpActionView::ToClient(data@),
            PumpAction::FinishToServer => PumpActionView::FinishToServer,
            PumpAction::FinishToClient => PumpActionView::FinishToClient,
            PumpAction::Continue => PumpActionView::Continue,
            PumpAction::End => PumpActionView::End,
        }
    }
}

/// Whether `event` says that the local client will send no more.
pub open spec fn ends_input(event: PumpEventView) -> bool {
    event == PumpEventView::LocalRead(seq![])
}

/// Whether the local client has ended its input after an event.
pub open spec fn done_after(local_done: bool, event: PumpEventView) -> bool {
    local_done || ends_input(event)
}

/// What to do on a connection after an event, where `local_done` says whether the
/// local client has ended its input before.
pub open spec fn pump(local_done: bool, event: PumpEventView) -> PumpActionView {
    match event {
        PumpEventView::LocalRead(data) => if local_done {
            PumpActionView::Continue
        } else if data.len() == 0 {
            PumpActionView::FinishToServer
        } else {
            PumpActionView::ToServer(data)
        },
        PumpEventView::LocalFailed => PumpActionView::End,
        PumpEventView::RemoteData(data) => PumpActionView::ToClient(data),
        PumpEventView::RemoteEnded => PumpActionView::FinishToClient,
        PumpEventView::RemoteClosed => PumpActionView::End,
        PumpEventView::RemoteOther => PumpActionView::Continue,
        PumpEventView::WriteFailed => PumpActionView::End,
    }
}

/// The counters after an event: down to the client `rx`, up to the server `tx`.
pub open spec fn metered(t: Traffic, local_done: bool, event: PumpEventView) -> Traffic {
    match pump(local_done, event) {
        PumpActionView::ToServer(data) => Traffic { tx: counted(t.tx, data.len()), ..t },
        PumpActionView::ToClient(data) => Traffic { rx: counted(t.rx, data.len()), ..t },
        _ => t,
    }
}

/// What to do on a connection after an event; what passes is counted. The end of
/// the client's input is passed on and remembered in `local_done`, and the
/// connection goes on until the channel is closed or something fails.
pub fn forward_connection(
    traffic: &mut Traffic,
    local_done: &mut bool,
    event: PumpEvent,
) -> (a: PumpAction)
    ensures
        a@ == pump(*old(local_done), event@),
        *final(local_done) == done_after(*old(local_done), event@),
        *final(traffic) == metered(*old(traffic), *old(local_done), event@),
{
    match event {
        PumpEvent::LocalRead(data) => if data.len() == 0 {
            assert(data@ =~= seq![]);
            if *local_done {
                PumpAction::Continue
            } else {
                *local_done = true;
                PumpAction::FinishToServer
            }
        } else if *local_done {
            PumpAction::Continue
        } else {
            traffic.add_tx(data.len());
            PumpAction::ToServer(data)
        },
        PumpEvent::LocalFailed => PumpAction::End,
        PumpEvent::RemoteData(data) => {
            traffic.add_rx(data.len());
            PumpAction::ToClient(data)
        },
        PumpEvent::RemoteEnded => PumpAction::FinishToClient,
        PumpEvent::RemoteClosed => PumpAction::End,
        PumpEvent::RemoteOther => PumpAction::Continue,
        PumpEvent::WriteFailed => PumpAction::End,
    }
}

/// Whether the local client has ended its input in a series of events.
pub open spec fn input_ended(events: Seq<PumpEventView>) -> bool
    decreases events.len(),
{
    events.len() > 0 && done_after(input_ended(events.drop_last()), events.last())
}

/// What is done at the last of a series of events.
pub open spec fn last_action(events: Seq<PumpEventView>) -> PumpActionView {
    pump(input_ended(events.drop_last()), events.last())
}

/// Whether a connection has ended in a series of events.
pub open spec fn ended(events: Seq<PumpEventView>) -> bool
    decreases events.len(),
{
    events.len() > 0 && (ended(events.drop_last()) || last_action(events) is End)
}

/// Whether the events are those of one connection: nothing follows its end.
pub open spec fn one_connection(events: Seq<PumpEventView>) -> bool {
    events.len() > 0 ==> !ended(events.drop_last())
}

/// What the local client sent in a series of events, up to the end of its input.
pub open spec fn read_locally(events: Seq<PumpEventView>) -> Seq<u8>
    decreases events.len(),
{
    if events.len() == 0 {
        seq![]
    } else {
        read_locally(events.drop_last()) + match events.last() {
            PumpEventView::LocalRead(data) => if input_ended(events.drop_last()) {
                seq![]
            } else {
                data
            },
            _ => seq![],
        }
    }
}

/// What the server sent in a series of events.
pub open spec fn read_remotely(events: Seq<PumpEventView>) -> Seq<u8>
    decreases events.len(),
{
    if events.len() == 0 {
        seq![]
    } else {
        read_remotely(events.drop_last()) + match events.last() {
            PumpEventView::RemoteData(data) => data,
            _ => seq![],
        }
    }
}

/// What is handed on towards the server in the course of a series of events,
/// until the connection ends.
pub open spec fn sent_to_server(events: Seq<PumpEventView>) -> Seq<u8>
    decreases events.len(),
{
    if events.len() == 0 {
        seq![]
    } else {
        sent_to_server(events.drop_last()) + match last_action(events) {
            PumpActionView::ToServer(data) => if ended(events.drop_last()) {
                seq![]
            } else {
                data
            },
            _ => seq![],
        }
    }
}

/// What is handed on towards the local client in the course of a series of
/// events, until the connection ends.
pub open spec fn sent_to_client(events: Seq<PumpEventView>) -> Seq<u8>
    decreases events.len(),
{
    if events.len() == 0 {
        seq![]
    } else {
        sent_to_client(events.drop_last()) + match last_action(events) {
            PumpActionView::ToClient(data) => if ended(events.drop_last()) {
                seq![]
            } else {
                data
            },
            _ => seq![],
        }
    }
}

/// How much of a series of events was carried out: where a connection ends
/// because something could not be passed on, all but that and the failure.
pub open spec fn carried_out(events: Seq<PumpEventView>) -> Seq<PumpEventView> {
    if events.len() > 0 && events.last() is WriteFailed {
        if events.len() > 1 {
            events.take(events.len() - 2)
        } else {
            seq![]
        }
    } else {
        events
    }
}

/// What has reached the server at the end of the events of a connection.
pub open spec fn delivered_to_server(events: Seq<PumpEventView>) -> Seq<u8> {
    sent_to_server(carried_out(events))
}

/// What has reached the local client at the end of the events of a connection.
pub open spec fn delivered_to_client(events: Seq<PumpEventView>) -> Seq<u8> {
    sent_to_client(carried_out(events))
}

/// How often the server is told that nothing more comes.
pub open spec fn finishes(events: Seq<PumpEventView>) -> nat
    decreases events.len(),
{
    if events.len() == 0 {
        0
    } else {
        finishes(events.drop_last()) + if last_action(events) is FinishToServer && !ended(
            events.drop_last(),
        ) {
            1nat
        } else {
            0nat
        }
    }
}

/// The counters after a series of events.
pub open spec fn metered_all(t: Traffic, events: Seq<PumpEventView>) -> Traffic
    decreases events.len(),
{
    if events.len() == 0 {
        t
    } else {
        metered(
            metered_all(t, events.drop_last()),
            input_ended(events.drop_last()),
            events.last(),
        )
    }
}

/// What did not end a connection earlier did not end it before either.
proof fn lemma_shorter_connection(events: Seq<PumpEventView>)
    requires
        events.len() > 0,
        one_connection(events),
    ensures
        one_connection(events.drop_last()),
{
}

/// While a connection lasts, everything that is read is handed on.
proof fn lemma_handed_on(events: Seq<PumpEventView>)
    requires
        one_connection(events),
    ensures
        sent_to_server(events) == read_locally(events),
        sent_to_client(events) == read_remotely(events),
        finishes(events) == if input_ended(events) {
            1nat
        } else {
            0nat
        },
    decreases events.len(),
{
    if events.len() > 0 {
        lemma_shorter_connection(events);
        lemma_handed_on(events.drop_last());
        match events.last() {
            PumpEventView::LocalRead(data) => {
                if data.len() == 0 {
                    assert(data =~= seq![]);
                }
            },
            _ => {},
        }
    }
}

/// A forwarded connection is like a direct one: until it ends, every byte that
/// one side sent reaches the other, once, unchanged and in order. What the server
/// sends after the client has ended its input reaches the client like the rest,
/// and the server is told of that end, once. Where something cannot be passed on
/// the connection ends, and what had been read before that has arrived.
pub proof fn forwarding_is_transparent(events: Seq<PumpEventView>)
    requires
        one_connection(events),
    ensures
        !(events.len() > 0 && events.last() is WriteFailed) ==> {
            &&& delivered_to_server(events) == read_locally(events)
            &&& delivered_to_client(events) == read_remotely(events)
        },
        finishes(events) == if input_ended(events) {
            1nat
        } else {
            0nat
        },
        delivered_to_server(events) == read_locally(carried_out(events)),
        delivered_to_client(events) == read_remotely(carried_out(events)),
{
    lemma_handed_on(events);
    if events.len() > 1 && events.last() is WriteFailed {
        lemma_shorter_connection(events);
        lemma_shorter_connection(events.drop_last());
        assert(events.take(events.len() - 2) =~= events.drop_last().drop_last());
        lemma_handed_on(carried_out(events));
    }
}

/// A connection ends where the channel is closed, where the client cannot be read
/// or where something cannot be passed on, and nowhere else: not where one side
/// ends its input.
pub proof fn connection_ends_only_when_closed(local_done: bool, event: PumpEventView)
    ensures
        pump(local_done, event) is End <==> event is RemoteClosed || event is LocalFailed
            || event is WriteFailed,
{
}

/// What the server sends after the client has ended its input is passed on to the
/// client, and nothing more is sent to the server.
pub proof fn answer_after_the_end_is_delivered(events: Seq<PumpEventView>, data: Seq<u8>)
    requires
        !ended(events),
        input_ended(events),
    ensures
        delivered_to_client(events.push(PumpEventView::RemoteData(data))) == read_remotely(events)
            + data,
        sent_to_server(events.push(PumpEventView::LocalRead(data))) == sent_to_server(events),
{
    let answered = events.push(PumpEventView::RemoteData(data));
    let more = events.push(PumpEventView::LocalRead(data));
    assert(answered.drop_last() =~= events);
    assert(more.drop_last() =~= events);
    lemma_handed_on(answered);
}

/// The counters grow by exactly what was handed on each way: down to the client
/// `rx`, up to the server `tx`.
pub proof fn traffic_counts_what_is_forwarded(t: Traffic, events: Seq<PumpEventView>)
    requires
        one_connection(events),
    ensures
        metered_all(t, events) == (Traffic {
            rx: counted(t.rx, sent_to_client(events).len()),
            tx: counted(t.tx, sent_to_server(events).len()),
            ..t
        }),
    decreases events.len(),
{
    lemma_counted_twice(t.rx, 0, 0);
    lemma_counted_twice(t.tx, 0, 0);
    if events.len() > 0 {
        let before = events.drop_last();
        lemma_shorter_connection(events);
        traffic_counts_what_is_forwarded(t, before);
        let down = sent_to_client(before);
        let up = sent_to_server(before);
        match last_action(events) {
            PumpActionView::ToClient(data) => {
                lemma_counted_twice(t.rx, down.len(), data.len());
                assert(sent_to_client(events) == down + data);
                assert(sent_to_server(events) == up + seq![]);
            },
            PumpActionView::ToServer(data) => {
                lemma_counted_twice(t.tx, up.len(), data.len());
                assert(sent_to_server(events) == up + data);
                assert(sent_to_client(events) == down + seq![]);
            },
            _ => {
                assert(sent_to_server(events) == up + seq![]);
                assert(sent_to_client(events) == down + seq![]);
            },
        }
    }
}

/// An accepted connection is led to exactly the target of the rule whose port it
/// came to, and is said to come from this machine; nothing else leads anywhere.
pub proof fn connection_is_led_to_the_rules_target(rule: ForwardRuleView, event: ListenEvent)
    ensures
        listen_step(rule, event) is Forward <==> event == ListenEvent::Accepted,
        listen_step(rule, event) matches ListenActionView::Forward(target) ==> {
            &&& target.host == rule.target_host
            &&& target.port as int == rule.target_port as int
            &&& target.origin_host == "127.0.0.1"@
            &&& target.origin_port == 0
        },
        listen_step(rule, event) is Leave <==> event == ListenEvent::StopSeen || event
            == ListenEvent::Cancelled,
        listen_step(rule, event) is Listen <==> event == ListenEvent::AcceptFailed,
{
}

/// Rules with different targets lead to different targets.
pub proof fn different_targets_are_kept_apart(a: ForwardRuleView, b: ForwardRuleView)
    requires
        listen_step(a, ListenEvent::Accepted) == listen_step(b, ListenEvent::Accepted),
    ensures
        a.target_host == b.target_host,
        a.target_port == b.target_port,
{
    connection_is_led_to_the_rules_target(a, ListenEvent::Accepted);
    connection_is_led_to_the_rules_target(b, ListenEvent::Accepted);
}

/// Flags are looked at every fifth of a second until they are set; a session is
/// watched, every two seconds, until it is over or its loss is reported; and its
/// rates are shown every second until it is over. No more than 16 KiB are read at
/// once.
pub proof fn waiting_ends_when_it_should(stopped: bool, cancelled: bool, closed: bool)
    ensures
        poll_delay(stopped) is None <==> stopped,
        poll_delay(false) == Some(200u64),
        watch_step(stopped, cancelled, closed) == WatchStep::Leave <==> stopped || cancelled,
        watch_step(false, false, closed) == WatchStep::Report <==> closed,
        meter_delay(stopped, cancelled) is None <==> stopped || cancelled,
        meter_delay(false, false) == Some(1000u64),
        2 * METRIC_EMIT_MS == WATCH_MS,
        READ_SIZE == 16 * 1024,
{
}

/// What one event does, byte for byte. What the client sends goes to the server
/// and is counted as going up, what the server sends goes to the client and is
/// counted as coming down, whether or not the client has ended its input; and
/// nothing else is passed on or counted.
pub proof fn each_event_passes_on_what_it_carries(
    t: Traffic,
    done: bool,
    event: PumpEventView,
    data: Seq<u8>,
)
    ensures
        data.len() > 0 ==> pump(false, PumpEventView::LocalRead(data)) == PumpActionView::ToServer(
            data,
        ),
        pump(false, PumpEventView::LocalRead(seq![])) is FinishToServer,
        pump(true, PumpEventView::LocalRead(data)) is Continue,
        pump(done, PumpEventView::RemoteData(data)) == PumpActionView::ToClient(data),
        pump(done, PumpEventView::RemoteEnded) is FinishToClient,
        pump(done, PumpEventView::RemoteOther) is Continue,
        pump(done, PumpEventView::RemoteClosed) is End,
        pump(done, PumpEventView::LocalFailed) is End,
        pump(done, PumpEventView::WriteFailed) is End,
        metered(t, false, PumpEventView::LocalRead(data)).tx as int == (t.tx + data.len())
            % 0x1_0000_0000_0000_0000,
        metered(t, false, PumpEventView::LocalRead(data)).rx == t.rx,
        metered(t, true, PumpEventView::LocalRead(data)) == t,
        metered(t, done, PumpEventView::RemoteData(data)).rx as int == (t.rx + data.len())
            % 0x1_0000_0000_0000_0000,
        metered(t, done, PumpEventView::RemoteData(data)).tx == t.tx,
        !(event is LocalRead) && !(event is RemoteData) ==> metered(t, done, event) == t,
        metered(t, done, event).last_rx == t.last_rx,
        metered(t, done, event).last_tx == t.last_tx,
        ends_input(event) <==> event is LocalRead && event->LocalRead_0.len() == 0,
        done_after(done, event) <==> done || (event is LocalRead && event->LocalRead_0.len() == 0),
{
    if event is LocalRead && event->LocalRead_0.len() == 0 {
        assert(event->LocalRead_0 =~= seq![]);
    }
    if data.len() == 0 {
        assert(data =~= seq![]);
    }
}

/// What stands for an event, an action or a target holds all that it says.
pub proof fn nothing_is_lost_in_forwarding(
    event: PumpEvent,
    action: PumpAction,
    listen: ListenAction,
)
    ensures
        match event {
            PumpEvent::LocalRead(data) => event@ == PumpEventView::LocalRead(data@),
            PumpEvent::RemoteData(data) => event@ == PumpEventView::RemoteData(data@),
            PumpEvent::LocalFailed => event@ is LocalFailed,
            PumpEvent::RemoteEnded => event@ is RemoteEnded,
            PumpEvent::RemoteClosed => event@ is RemoteClosed,
            PumpEvent::RemoteOther => event@ is RemoteOther,
            PumpEvent::WriteFailed => event@ is WriteFailed,
        },
        match action {
            PumpAction::ToServer(data) => action@ == PumpActionView::ToServer(data@),
            PumpAction::ToClient(data) => action@ == PumpActionView::ToClient(data@),
            PumpAction::FinishToServer => action@ is FinishToServer,
            PumpAction::FinishToClient => action@ is FinishToClient,
            PumpAction::Continue => action@ is Continue,
            PumpAction::End => action@ is End,
        },
        match listen {
            ListenAction::Forward(target) => {
                &&& listen@ is Forward
                &&& listen@->Forward_0.host == target.host@
                &&& listen@->Forward_0.port == target.port
                &&& listen@->Forward_0.origin_host == target.origin_host@
                &&& listen@->Forward_0.origin_port == target.origin_port
            },
            ListenAction::Listen => listen@ is Listen,
            ListenAction::Leave => listen@ is Leave,
        },
{
}

} // verus!
