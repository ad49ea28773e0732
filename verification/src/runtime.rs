//! One run of a tunnel: connect, bind the local ports, serve, and connect again
//! after a failure until a stop is asked for.
//!
//! [`TunnelRuntime::run`] takes what happened and says what to do next; its
//! caller does the work and the waiting.
use crate::config::{TunnelConfig, TunnelConfigView, TunnelMetric, TunnelMetricView};
use crate::config::{TunnelStatus, TunnelStatusView};
use crate::text::{decimal, decimal_reads_back, decimal_value, port_text};
use vstd::prelude::*;

verus! {

/// The pause before a new connection after a failure or a loss, in
/// milliseconds.
pub const RETRY_DELAY_MS: u64 = 5000;

/// The pause before a new connection where a port could not be bound.
pub const BIND_FAILED_DELAY_MS: u64 = 3000;

/// The pause between two attempts at one port.
pub const BIND_RETRY_DELAY_MS: u64 = 500;

/// How often one port is tried.
pub const BIND_RETRY_MAX: u32 = 5;

/// A pause that a stop can cut short is slept in steps of this.
pub const SLEEP_STEP_MS: u64 = 500;

/// How often a flag is looked at while something waits for it.
pub const POLL_MS: u64 = 200;

/// How often a session is looked at for a loss.
pub const WATCH_MS: u64 = 2000;

/// How often rates are shown.
pub const METRIC_EMIT_MS: u64 = 1000;

/// Where a run stands.
#[derive(Debug)]
pub enum Phase {
    /// Not begun.
    Fresh,
    /// A session is being established.
    Connecting,
    /// The port of rule `index` is being bound; `attempt` attempts have failed.
    Binding { index: usize, attempt: u32 },
    /// Between two attempts at the port of rule `index`.
    Rebinding { index: usize, attempt: u32 },
    /// A port could not be bound and the session was closed: an error is to be
    /// shown, unless a stop came meanwhile.
    Unbound(String),
    /// All ports are bound and forwarded.
    Serving,
    /// Before a pause of `total` milliseconds, unless a stop came meanwhile.
    Settling { total: u64 },
    /// A pause of `total` milliseconds, of which `waited` have passed.
    Pausing { waited: u64, total: u64 },
    /// Over.
    Finished,
}

#[verifier::ext_equal]
pub enum PhaseView {
    Fresh,
    Connecting,
    Binding { index: usize, attempt: u32 },
    Rebinding { index: usize, attempt: u32 },
    Unbound(Seq<char>),
    Serving,
    Settling { total: u64 },
    Pausing { waited: u64, total: u64 },
    Finished,
}

impl View for Phase {
    type V = PhaseView;

    open spec fn view(&self) -> PhaseView {
        match *self {
            Phase::Fresh => PhaseView::Fresh,
            Phase::Connecting => PhaseView::Connecting,
            Phase::Binding { index, attempt } => PhaseView::Binding { index, attempt },
            Phase::Rebinding { index, attempt } => PhaseView::Rebinding { index, attempt },
            Phase::Unbound(error) => PhaseView::Unbound(error@),
            Phase::Serving => PhaseView::Serving,
            Phase::Settling { total } => PhaseView::Settling { total },
            Phase::Pausing { waited, total } => PhaseView::Pausing { waited, total },
            Phase::Finished => PhaseView::Finished,
        }
    }
}

/// What happened.
#[derive(Debug)]
pub enum RuntimeEvent {
    Started,
    SessionReady,
    SessionFailed(String),
    Bound,
    BindFailed(String),
    Slept,
    /// What was to be done is done, and the stop flag was looked at again.
    Looked,
    ConnectionLost,
    StopSeen,
}

#[verifier::ext_equal]
pub enum RuntimeEventView {
    Started,
    SessionReady,
    SessionFailed(Seq<char>),
    Bound,
    BindFailed(Seq<char>),
    Slept,
    Looked,
    ConnectionLost,
    StopSeen,
}

impl View for RuntimeEvent {
    type V = RuntimeEventView;

    open spec fn view(&self) -> RuntimeEventView {
        match *self {
            RuntimeEvent::Started => RuntimeEventView::Started,
            RuntimeEvent::SessionReady => RuntimeEventView::SessionReady,
            RuntimeEvent::SessionFailed(reason) => RuntimeEventView::SessionFailed(reason@),
            RuntimeEvent::Bound => RuntimeEventView::Bound,
            RuntimeEvent::BindFailed(reason) => RuntimeEventView::BindFailed(reason@),
            RuntimeEvent::Slept => RuntimeEventView::Slept,
            RuntimeEvent::Looked => RuntimeEventView::Looked,
            RuntimeEvent::ConnectionLost => RuntimeEventView::ConnectionLost,
            RuntimeEvent::StopSeen => RuntimeEventView::StopSeen,
        }
    }
}

/// What becomes of the session, first of all.
#[derive(Debug, Clone, Copy, PartialEq, Eq, Structural)]
pub enum SessionEffect {
    Keep,
    /// Reset the counters and forward every bound port.
    Serve,
    /// Close a session that nothing uses: a stop came first.
    CloseStopped,
    /// Close a session that nothing uses: a port could not be bound.
    CloseUnbound,
    /// End everything that was begun for the session.
    Cancel,
}

/// What to wait for, last of all.
#[derive(Debug, PartialEq, Eq)]
pub enum Await {
    /// What was waited for before.
    Again,
    /// A session with the server at an address.
    Connect(String),
    /// A listener on a local address.
    Bind(String),
    /// A number of milliseconds to pass.
    Sleep(u64),
    /// Nothing: look at the stop flag again at once.
    Look,
    /// A stop, or the loss of the connection.
    StopOrLoss,
    /// Nothing: the run is over.
    Exit,
}

#[verifier::ext_equal]
pub enum AwaitView {
    Again,
    Connect(Seq<char>),
    Bind(Seq<char>),
    Sleep(u64),
    Look,
    StopOrLoss,
    Exit,
}

impl View for Await {
    type V = AwaitView;

    open spec fn view(&self) -> AwaitView {
        match *self {
            Await::Again => AwaitView::Again,
            Await::Connect(addr) => AwaitView::Connect(addr@),
            Await::Bind(addr) => AwaitView::Bind(addr@),
            Await::Sleep(ms) => AwaitView::Sleep(ms),
            Await::Look => AwaitView::Look,
            Await::StopOrLoss => AwaitView::StopOrLoss,
            Await::Exit => AwaitView::Exit,
        }
    }
}

/// What to do next: the session, then a status to publish, then a wait.
#[derive(Debug)]
pub struct RuntimeStep {
    pub session: SessionEffect,
    pub publish: Option<TunnelStatus>,
    pub next: Await,
}

#[verifier::ext_equal]
pub struct RuntimeStepView {
    pub session: SessionEffect,
    pub publish: Option<TunnelStatusView>,
    pub next: AwaitView,
}

impl View for RuntimeStep {
    type V = RuntimeStepView;

    open spec fn view(&self) -> RuntimeStepView {
        RuntimeStepView {
            session: self.session,
            publish: match self.publish {
                Some(status) => Some(status@),
                None => None,
            },
            next: self.next@,
        }
    }
}

/// The SSH server's address.
pub open spec fn ssh_addr(config: TunnelConfigView) -> Seq<char> {
    config.ssh_host + ":"@ + decimal(config.ssh_port as nat)
}

/// The local address of a port.
pub open spec fn local_addr(port: u16) -> Seq<char> {
    "127.0.0.1:"@ + decimal(port as nat)
}

/// What is shown where a port could not be bound.
pub open spec fn bind_error(port: u16, reason: Seq<char>) -> Seq<char> {
    "port "@ + decimal(port as nat) + " bind failed: "@ + reason
}

/// The end of a run.
pub open spec fn finish(session: SessionEffect) -> (PhaseView, RuntimeStepView) {
    (
        PhaseView::Finished,
        RuntimeStepView {
            session,
            publish: Some(TunnelStatusView::Disconnected),
            next: AwaitView::Exit,
        },
    )
}

/// A new connection, unless a stop was asked for.
pub open spec fn connect(config: TunnelConfigView, stopped: bool) -> (PhaseView, RuntimeStepView) {
    if stopped {
        finish(SessionEffect::Keep)
    } else {
        (
            PhaseView::Connecting,
            RuntimeStepView {
                session: SessionEffect::Keep,
                publish: Some(TunnelStatusView::Connecting),
                next: AwaitView::Connect(ssh_addr(config)),
            },
        )
    }
}

/// A status to be shown before a pause of `total`. The stop flag is looked at
/// again once it is shown.
pub open spec fn show(
    session: SessionEffect,
    status: TunnelStatusView,
    total: u64,
) -> (PhaseView, RuntimeStepView) {
    (
        PhaseView::Settling { total },
        RuntimeStepView { session, publish: Some(status), next: AwaitView::Look },
    )
}

/// An attempt at the port of rule `index`.
pub open spec fn bind(
    config: TunnelConfigView,
    index: usize,
    attempt: u32,
) -> (PhaseView, RuntimeStepView) {
    (
        PhaseView::Binding { index, attempt },
        RuntimeStepView {
            session: SessionEffect::Keep,
            publish: None,
            next: AwaitView::Bind(local_addr(config.forwards[index as int].local_port)),
        },
    )
}

/// What a run does when `event` happens in `phase`, where `stopped` says whether
/// a stop was asked for by then.
pub open spec fn transition(
    config: TunnelConfigView,
    phase: PhaseView,
    event: RuntimeEventView,
    stopped: bool,
) -> (PhaseView, RuntimeStepView) {
    match (phase, event) {
        (PhaseView::Fresh, RuntimeEventView::Started) => if config.forwards.len() == 0 {
            finish(SessionEffect::Keep)
        } else {
            connect(config, stopped)
        },
        (PhaseView::Connecting, RuntimeEventView::SessionFailed(reason)) => if stopped {
            finish(SessionEffect::Keep)
        } else {
            show(SessionEffect::Keep, TunnelStatusView::Error(reason), RETRY_DELAY_MS)
        },
        (PhaseView::Connecting, RuntimeEventView::SessionReady) => if stopped {
            finish(SessionEffect::CloseStopped)
        } else {
            bind(config, 0, 0)
        },
        (PhaseView::Binding { index, attempt }, RuntimeEventView::Bound) => if index + 1
            < config.forwards.len() {
            bind(config, (index + 1) as usize, 0)
        } else {
            (
                PhaseView::Serving,
                RuntimeStepView {
                    session: SessionEffect::Serve,
                    publish: Some(TunnelStatusView::Connected),
                    next: AwaitView::StopOrLoss,
                },
            )
        },
        (PhaseView::Binding { index, attempt }, RuntimeEventView::BindFailed(reason)) => if attempt + 1
            < BIND_RETRY_MAX {
            (
                PhaseView::Rebinding { index, attempt: (attempt + 1) as u32 },
                RuntimeStepView {
                    session: SessionEffect::Keep,
                    publish: None,
                    next: AwaitView::Sleep(BIND_RETRY_DELAY_MS),
                },
            )
        } else {
            (
                PhaseView::Unbound(bind_error(config.forwards[index as int].local_port, reason)),
                RuntimeStepView {
                    session: SessionEffect::CloseUnbound,
                    publish: None,
                    next: AwaitView::Look,
                },
            )
        },
        (PhaseView::Unbound(error), RuntimeEventView::Looked) => if stopped {
            finish(SessionEffect::Keep)
        } else {
            show(SessionEffect::Keep, TunnelStatusView::Error(error), BIND_FAILED_DELAY_MS)
        },
        (PhaseView::Rebinding { index, attempt }, RuntimeEventView::Slept) => bind(
            config,
            index,
            attempt,
        ),
        (PhaseView::Serving, RuntimeEventView::StopSeen) => finish(SessionEffect::Cancel),
        (PhaseView::Serving, RuntimeEventView::ConnectionLost) => if stopped {
            finish(SessionEffect::Cancel)
        } else {
            show(SessionEffect::Cancel, TunnelStatusView::Connecting, RETRY_DELAY_MS)
        },
        (PhaseView::Settling { total }, RuntimeEventView::Looked) => if stopped {
            finish(SessionEffect::Keep)
        } else {
            (
                PhaseView::Pausing { waited: 0, total },
                RuntimeStepView {
                    session: SessionEffect::Keep,
                    publish: None,
                    next: AwaitView::Sleep(SLEEP_STEP_MS),
                },
            )
        },
        (PhaseView::Pausing { waited, total }, RuntimeEventView::Slept) => if stopped {
            finish(SessionEffect::Keep)
        } else if waited + SLEEP_STEP_MS < total {
            (
                PhaseView::Pausing { waited: (waited + SLEEP_STEP_MS) as u64, total },
                RuntimeStepView {
                    session: SessionEffect::Keep,
                    publish: None,
                    next: AwaitView::Sleep(SLEEP_STEP_MS),
                },
            )
        } else {
            connect(config, stopped)
        },
        _ => (
            phase,
            RuntimeStepView { session: SessionEffect::Keep, publish: None, next: AwaitView::Again },
        ),
    }
}

/// Whether `event` is one that a run in `phase` waits for.
pub open spec fn expected(phase: PhaseView, event: RuntimeEventView) -> bool {
    match phase {
        PhaseView::Fresh => event is Started,
        PhaseView::Connecting => event is SessionReady || event is SessionFailed,
        PhaseView::Binding { .. } => event is Bound || event is BindFailed,
        PhaseView::Rebinding { .. } => event is Slept,
        PhaseView::Unbound(_) | PhaseView::Settling { .. } => event is Looked,
        PhaseView::Serving => event is StopSeen || event is ConnectionLost,
        PhaseView::Pausing { .. } => event is Slept,
        PhaseView::Finished => false,
    }
}

/// Whether a run of `config` can stand in `phase`.
pub open spec fn valid(config: TunnelConfigView, phase: PhaseView) -> bool {
    match phase {
        PhaseView::Fresh | PhaseView::Finished => true,
        PhaseView::Connecting | PhaseView::Serving | PhaseView::Unbound(_) => config.forwards.len()
            > 0,
        PhaseView::Binding { index, attempt } => index < config.forwards.len() && attempt
            < BIND_RETRY_MAX,
        PhaseView::Rebinding { index, attempt } => index < config.forwards.len() && 0 < attempt
            < BIND_RETRY_MAX,
        PhaseView::Settling { total } => config.forwards.len() > 0 && 0 < total <= RETRY_DELAY_MS,
        PhaseView::Pausing { waited, total } => config.forwards.len() > 0 && waited < total
            <= RETRY_DELAY_MS,
    }
}

/// What is published for a status of a tunnel.
pub open spec fn status_metric(
    config: TunnelConfigView,
    status: TunnelStatusView,
) -> TunnelMetricView {
    TunnelMetricView {
        id: config.id,
        name: config.name,
        status,
        rx_bytes_per_sec: 0,
        tx_bytes_per_sec: 0,
    }
}

/// One run of a tunnel.
pub struct TunnelRuntime {
    config: TunnelConfig,
    phase: Phase,
}

fn keep(next: Await) -> (s: RuntimeStep)
    ensures
        s@ == (RuntimeStepView { session: SessionEffect::Keep, publish: None, next: next@ }),
{
    RuntimeStep { session: SessionEffect::Keep, publish: None, next }
}

impl TunnelRuntime {
    /// The tunnel that is run.
    pub closed spec fn tunnel(&self) -> TunnelConfigView {
        self.config@
    }

    /// Where the run stands.
    pub closed spec fn phase(&self) -> PhaseView {
        self.phase@
    }

    pub open spec fn wf(&self) -> bool {
        valid(self.tunnel(), self.phase())
    }

    /// A run that has not begun.
    pub fn new(config: TunnelConfig) -> (r: TunnelRuntime)
        ensures
            r.wf(),
            r.tunnel() == config@,
            r.phase() == PhaseView::Fresh,
    {
        TunnelRuntime { config, phase: Phase::Fresh }
    }

    /// The tunnel that is run.
    pub fn config(&self) -> (c: &TunnelConfig)
        ensures
            c@ == self.tunnel(),
    {
        &self.config
    }

    /// What to publish for a status: it carries no rates.
    pub fn publish_status(&self, status: TunnelStatus) -> (m: TunnelMetric)
        ensures
            m@ == status_metric(self.tunnel(), status@),
    {
        TunnelMetric {
            id: self.config.id.clone(),
            name: self.config.name.clone(),
            status,
            rx_bytes_per_sec: 0,
            tx_bytes_per_sec: 0,
        }
    }

    fn finish(&mut self, session: SessionEffect) -> (s: RuntimeStep)
        ensures
            (final(self).phase(), s@) == finish(session),
            final(self).tunnel() == old(self).tunnel(),
    {
        self.phase = Phase::Finished;
        RuntimeStep { session, publish: Some(TunnelStatus::Disconnected), next: Await::Exit }
    }

    fn connect(&mut self, stopped: bool) -> (s: RuntimeStep)
        ensures
            (final(self).phase(), s@) == connect(old(self).tunnel(), stopped),
            final(self).tunnel() == old(self).tunnel(),
    {
        if stopped {
            return self.finish(SessionEffect::Keep);
        }
        self.phase = Phase::Connecting;
        let addr = self.config.ssh_host.clone().concat(":").concat(
            port_text(self.config.ssh_port).as_str(),
        );
        RuntimeStep {
            session: SessionEffect::Keep,
            publish: Some(TunnelStatus::Connecting),
            next: Await::Connect(addr),
        }
    }

    /// Shows a status before a pause.
    fn show(&mut self, session: SessionEffect, status: TunnelStatus, total: u64) -> (s: RuntimeStep)
        ensures
            (final(self).phase(), s@) == show(session, status@, total),
            final(self).tunnel() == old(self).tunnel(),
    {
        self.phase = Phase::Settling { total };
        RuntimeStep { session, publish: Some(status), next: Await::Look }
    }

    fn bind(&mut self, index: usize, attempt: u32) -> (s: RuntimeStep)
        requires
            index < old(self).tunnel().forwards.len(),
        ensures
            (final(self).phase(), s@) == bind(old(self).tunnel(), index, attempt),
            final(self).tunnel() == old(self).tunnel(),
    {
        self.phase = Phase::Binding { index, attempt };
        let port: u16 = self.config.forwards[index].local_port;
        keep(Await::Bind("127.0.0.1:".to_owned().concat(port_text(port).as_str())))
    }

    /// Takes what happened, and whether a stop was asked for by then, and says
    /// what to do next. What the run does not wait for changes nothing.
    pub fn run(&mut self, event: RuntimeEvent, stopped: bool) -> (s: RuntimeStep)
        requires
            old(self).wf(),
        ensures
            final(self).wf(),
            (final(self).phase(), s@) == transition(
                old(self).tunnel(),
                old(self).phase(),
                event@,
                stopped,
            ),
            final(self).tunnel() == old(self).tunnel(),
    {
        let mut phase = Phase::Finished;
        std::mem::swap(&mut self.phase, &mut phase);
        match (phase, event) {
            (Phase::Fresh, RuntimeEvent::Started) => if self.config.forwards.len() == 0 {
                self.finish(SessionEffect::Keep)
            } else {
                self.connect(stopped)
            },
            (Phase::Connecting, RuntimeEvent::SessionFailed(reason)) => if stopped {
                self.finish(SessionEffect::Keep)
            } else {
                self.show(SessionEffect::Keep, TunnelStatus::Error(reason), RETRY_DELAY_MS)
            },
            (Phase::Connecting, RuntimeEvent::SessionReady) => if stopped {
                self.finish(SessionEffect::CloseStopped)
            } else {
                self.bind(0, 0)
            },
            (Phase::Binding { index, attempt }, RuntimeEvent::Bound) => if index
                < self.config.forwards.len() - 1 {
                self.bind(index + 1, 0)
            } else {
                self.phase = Phase::Serving;
                RuntimeStep {
                    session: SessionEffect::Serve,
                    publish: Some(TunnelStatus::Connected),
                    next: Await::StopOrLoss,
                }
            },
            (Phase::Binding { index, attempt }, RuntimeEvent::BindFailed(reason)) => if attempt + 1
                < BIND_RETRY_MAX {
                self.phase = Phase::Rebinding { index, attempt: attempt + 1 };
                keep(Await::Sleep(BIND_RETRY_DELAY_MS))
            } else {
                let port: u16 = self.config.forwards[index].local_port;
                let error = "port ".to_owned().concat(port_text(port).as_str()).concat(
                    " bind failed: ",
                ).concat(reason.as_str());
                self.phase = Phase::Unbound(error);
                RuntimeStep {
                    session: SessionEffect::CloseUnbound,
                    publish: None,
                    next: Await::Look,
                }
            },
            (Phase::Unbound(error), RuntimeEvent::Looked) => if stopped {
                self.finish(SessionEffect::Keep)
            } else {
                self.show(SessionEffect::Keep, TunnelStatus::Error(error), BIND_FAILED_DELAY_MS)
            },
            (Phase::Rebinding { index, attempt }, RuntimeEvent::Slept) => self.bind(
                index,
                attempt,
            ),
            (Phase::Serving, RuntimeEvent::StopSeen) => self.finish(SessionEffect::Cancel),
            (Phase::Serving, RuntimeEvent::ConnectionLost) => if stopped {
                self.finish(SessionEffect::Cancel)
            } else {
                self.show(SessionEffect::Cancel, TunnelStatus::Connecting, RETRY_DELAY_MS)
            },
            (Phase::Settling { total }, RuntimeEvent::Looked) => if stopped {
                self.finish(SessionEffect::Keep)
            } else {
                self.phase = Phase::Pausing { waited: 0, total };
                keep(Await::Sleep(SLEEP_STEP_MS))
            },
            (Phase::Pausing { waited, total }, RuntimeEvent::Slept) => if stopped {
                self.finish(SessionEffect::Keep)
            } else if waited + SLEEP_STEP_MS < total {
                self.phase = Phase::Pausing { waited: waited + SLEEP_STEP_MS, total };
                keep(Await::Sleep(SLEEP_STEP_MS))
            } else {
                self.connect(stopped)
            },
            (unchanged, _) => {
                self.phase = unchanged;
                keep(Await::Again)
            },
        }
    }
}

/// Where a run that stood in `phase` stands after a series of events, each with
/// whether a stop was asked for by then.
pub open spec fn after(
    config: TunnelConfigView,
    phase: PhaseView,
    inputs: Seq<(RuntimeEventView, bool)>,
) -> PhaseView
    decreases inputs.len(),
{
    if inputs.len() == 0 {
        phase
    } else {
        transition(
            config,
            after(config, phase, inputs.drop_last()),
            inputs.last().0,
            inputs.last().1,
        ).0
    }
}

/// The ports that a run has bound since its last session was established.
pub open spec fn bound_ports(
    config: TunnelConfigView,
    inputs: Seq<(RuntimeEventView, bool)>,
) -> Seq<u16>
    decreases inputs.len(),
{
    if inputs.len() == 0 {
        seq![]
    } else {
        let before = inputs.drop_last();
        match (after(config, PhaseView::Fresh, before), inputs.last().0) {
            (PhaseView::Connecting, RuntimeEventView::SessionReady) => seq![],
            (PhaseView::Binding { index, .. }, RuntimeEventView::Bound) => bound_ports(
                config,
                before,
            ).push(config.forwards[index as int].local_port),
            _ => bound_ports(config, before),
        }
    }
}

/// The local ports of all rules.
pub open spec fn local_ports(config: TunnelConfigView) -> Seq<u16> {
    config.forwards.map_values(|r: crate::config::ForwardRuleView| r.local_port)
}

/// Whether a run holds a session in `phase`.
pub open spec fn holds_session(phase: PhaseView) -> bool {
    phase is Binding || phase is Rebinding || phase is Serving
}

/// Every step keeps a run where a run can stand.
pub proof fn run_stays_valid(
    config: TunnelConfigView,
    phase: PhaseView,
    event: RuntimeEventView,
    stopped: bool,
)
    requires
        valid(config, phase),
        config.forwards.len() <= usize::MAX,
    ensures
        valid(config, transition(config, phase, event, stopped).0),
{
}

/// A run of a tunnel that has a rule ends only where a stop was asked for, and
/// one that ends says so.
pub proof fn run_ends_only_when_stopped(
    config: TunnelConfigView,
    phase: PhaseView,
    event: RuntimeEventView,
    stopped: bool,
)
    ensures
        ({
            let (next, step) = transition(config, phase, event, stopped);
            &&& step.next is Exit ==> stopped || event is StopSeen || config.forwards.len() == 0
            &&& step.next is Exit ==> next is Finished && step.publish == Some(
                TunnelStatusView::Disconnected,
            )
            &&& next is Finished && !(phase is Finished) ==> step.next is Exit
        }),
{
}

/// An upper bound on the events that a run waits for once a stop was asked for.
pub open spec fn events_left(config: TunnelConfigView, phase: PhaseView) -> int {
    match phase {
        PhaseView::Finished => 0,
        PhaseView::Binding { index, attempt } => 10 * (config.forwards.len() - index) - 2 * attempt + 1,
        PhaseView::Rebinding { index, attempt } => 10 * (config.forwards.len() - index) - 2 * attempt
            + 2,
        _ => 1,
    }
}

/// Once a stop was asked for, each event that the run waits for brings it nearer
/// to its end; unless it is binding ports, the first one ends it.
pub proof fn stop_ends_the_run(
    config: TunnelConfigView,
    phase: PhaseView,
    event: RuntimeEventView,
)
    requires
        valid(config, phase),
        expected(phase, event),
        config.forwards.len() <= usize::MAX,
    ensures
        0 <= events_left(config, transition(config, phase, event, true).0) < events_left(
            config,
            phase,
        ),
        !(phase is Binding) && !(phase is Rebinding) ==> transition(config, phase, event, true).0
            is Finished,
{
}

/// Without a stop a run of a tunnel that has a rule goes on for ever.
pub proof fn run_goes_on_until_stopped(
    config: TunnelConfigView,
    phase: PhaseView,
    event: RuntimeEventView,
)
    requires
        config.forwards.len() > 0,
        !(phase is Finished),
        !(event is StopSeen),
    ensures
        !(transition(config, phase, event, false).0 is Finished),
{
}

/// No session is left behind: a run that gives one up closes it or ends what was
/// begun for it, and only then; and a run that serves has just taken it up.
pub proof fn sessions_are_closed(
    config: TunnelConfigView,
    phase: PhaseView,
    event: RuntimeEventView,
    stopped: bool,
)
    requires
        valid(config, phase),
        expected(phase, event),
    ensures
        ({
            let (next, step) = transition(config, phase, event, stopped);
            let held = holds_session(phase) || event is SessionReady;
            let released = step.session is CloseStopped || step.session is CloseUnbound
                || step.session is Cancel;
            &&& released <==> held && !holds_session(next)
            &&& step.session is Serve <==> next is Serving
            &&& step.session is Cancel <==> phase is Serving
        }),
{
}

/// A connection that fails is shown with its reason, and tried again after a
/// pause.
pub proof fn failure_is_shown_and_retried(config: TunnelConfigView, reason: Seq<char>)
    ensures
        ({
            let (next, step) = transition(
                config,
                PhaseView::Connecting,
                RuntimeEventView::SessionFailed(reason),
                false,
            );
            &&& step.publish == Some(TunnelStatusView::Error(reason))
            &&& step.next is Look
            &&& transition(config, next, RuntimeEventView::Looked, false).0 == PhaseView::Pausing {
                waited: 0,
                total: RETRY_DELAY_MS,
            }
        }),
{
}

/// `n` steps of a pause that no stop cuts short.
pub open spec fn steps_of_sleep(n: nat) -> Seq<(RuntimeEventView, bool)> {
    Seq::new(n, |i: int| (RuntimeEventView::Slept, false))
}

/// A pause lasts as long as it should, to the step, and then a new connection is
/// made.
pub proof fn pause_lasts_its_time(config: TunnelConfigView, total: u64, n: nat)
    requires
        n >= 1,
        total <= RETRY_DELAY_MS,
        SLEEP_STEP_MS * n <= total,
    ensures
        after(config, PhaseView::Pausing { waited: 0, total }, steps_of_sleep(n)) == if SLEEP_STEP_MS
            * n < total {
            PhaseView::Pausing { waited: (SLEEP_STEP_MS * n) as u64, total }
        } else {
            PhaseView::Connecting
        },
    decreases n,
{
    let inputs = steps_of_sleep(n);
    assert(inputs.drop_last() =~= steps_of_sleep((n - 1) as nat));
    if n > 1 {
        pause_lasts_its_time(config, total, (n - 1) as nat);
    } else {
        assert(after(config, PhaseView::Pausing { waited: 0, total }, steps_of_sleep(0))
            == PhaseView::Pausing { waited: 0, total });
    }
}

proof fn lemma_ports_bound_so_far(
    config: TunnelConfigView,
    inputs: Seq<(RuntimeEventView, bool)>,
)
    requires
        config.forwards.len() <= usize::MAX,
    ensures
        valid(config, after(config, PhaseView::Fresh, inputs)),
        match after(config, PhaseView::Fresh, inputs) {
            PhaseView::Binding { index, .. } => bound_ports(config, inputs) == local_ports(
                config,
            ).take(index as int),
            PhaseView::Rebinding { index, .. } => bound_ports(config, inputs) == local_ports(
                config,
            ).take(index as int),
            PhaseView::Serving => bound_ports(config, inputs) == local_ports(config),
            _ => true,
        },
    decreases inputs.len(),
{
    if inputs.len() > 0 {
        let before = inputs.drop_last();
        lemma_ports_bound_so_far(config, before);
        let all = local_ports(config);
        assert(all.take(0) =~= seq![]);
        match after(config, PhaseView::Fresh, before) {
            PhaseView::Binding { index, .. } => {
                assert(all.take(index + 1) =~= all.take(index as int).push(all[index as int]));
                assert(all.take(all.len() as int) =~= all);
            },
            _ => {},
        }
    }
}

/// A tunnel serves only with the local port of every rule bound, in the order of
/// the rules, whatever has happened before.
pub proof fn serves_only_with_every_port_bound(
    config: TunnelConfigView,
    inputs: Seq<(RuntimeEventView, bool)>,
)
    requires
        config.forwards.len() <= usize::MAX,
        after(config, PhaseView::Fresh, inputs) is Serving,
    ensures
        bound_ports(config, inputs) == local_ports(config),
{
    lemma_ports_bound_so_far(config, inputs);
}

/// `n` failures to bind a port, with a pause between each two.
pub open spec fn failures(reason: Seq<char>, n: nat) -> Seq<(RuntimeEventView, bool)> {
    Seq::new(
        (2 * n - 1) as nat,
        |i: int|
            if i % 2 == 0 {
                (RuntimeEventView::BindFailed(reason), false)
            } else {
                (RuntimeEventView::Slept, false)
            },
    )
}

/// A port is tried five times; then the whole session is given up.
pub proof fn port_is_tried_five_times(
    config: TunnelConfigView,
    index: usize,
    reason: Seq<char>,
    n: nat,
)
    requires
        index < config.forwards.len(),
        1 <= n <= BIND_RETRY_MAX,
    ensures
        after(config, PhaseView::Binding { index, attempt: 0 }, failures(reason, n)) == if n
            < BIND_RETRY_MAX {
            PhaseView::Rebinding { index, attempt: n as u32 }
        } else {
            PhaseView::Unbound(bind_error(config.forwards[index as int].local_port, reason))
        },
    decreases n,
{
    let start = PhaseView::Binding { index, attempt: 0 };
    let inputs = failures(reason, n);
    if n == 1 {
        assert(inputs.drop_last() =~= seq![]);
        assert(after(config, start, inputs.drop_last()) == start);
    } else {
        port_is_tried_five_times(config, index, reason, (n - 1) as nat);
        let before = inputs.drop_last();
        assert(before.drop_last() =~= failures(reason, (n - 1) as nat));
        assert(before.last() == (RuntimeEventView::Slept, false));
        assert(after(config, start, before) == PhaseView::Binding { index, attempt: (n - 1) as u32 });
    }
}

/// Connected is shown only while ports are forwarded: the step that gives them up
/// shows that the tunnel connects again, or that it is disconnected.
pub proof fn connected_means_forwarding(
    config: TunnelConfigView,
    phase: PhaseView,
    event: RuntimeEventView,
    stopped: bool,
)
    ensures
        ({
            let (next, step) = transition(config, phase, event, stopped);
            &&& step.publish == Some(TunnelStatusView::Connected) ==> next is Serving
            &&& phase is Serving && !(next is Serving) ==> step.publish == Some(
                TunnelStatusView::Connecting,
            ) || step.publish == Some(TunnelStatusView::Disconnected)
        }),
{
}

/// A stop that comes while a session is closed or a status is shown is seen before
/// anything else is shown and before the pause begins.
pub proof fn stop_is_seen_before_a_pause(config: TunnelConfigView, phase: PhaseView)
    requires
        phase is Unbound || phase is Settling,
    ensures
        transition(config, phase, RuntimeEventView::Looked, true) == finish(SessionEffect::Keep),
{
}

/// Whether a text is a decimal number, in digits and with no zero in front.
pub open spec fn is_number(s: Seq<char>, n: int) -> bool {
    &&& s.len() > 0
    &&& forall|i: int| 0 <= i < s.len() ==> '0' <= #[trigger] s[i] <= '9'
    &&& s.len() > 1 ==> s[0] != '0'
    &&& decimal_value(s) == n
}

/// Wherever a run connects to, it is the configured server: the address is the
/// configured host, a colon, and a number that is the configured port.
pub proof fn address_is_that_of_the_server(
    config: TunnelConfigView,
    phase: PhaseView,
    event: RuntimeEventView,
    stopped: bool,
)
    ensures
        transition(config, phase, event, stopped).1.next matches AwaitView::Connect(addr) ==> {
            let n = config.ssh_host.len() as int;
            &&& addr.len() > n + 1
            &&& addr.take(n) == config.ssh_host
            &&& addr[n] == ':'
            &&& is_number(addr.skip(n + 1), config.ssh_port as int)
        },
{
    if let AwaitView::Connect(addr) = transition(config, phase, event, stopped).1.next {
        let n = config.ssh_host.len() as int;
        let digits = decimal(config.ssh_port as nat);
        decimal_reads_back(config.ssh_port as nat);
        reveal_strlit(":");
        assert(addr.take(n) =~= config.ssh_host);
        assert(addr.skip(n + 1) =~= digits);
    }
}

/// Two tunnels that connect to the same address have the same host and the same
/// port: different ports are never one address.
pub proof fn different_ports_are_different_servers(
    a: TunnelConfigView,
    b: TunnelConfigView,
    phase: PhaseView,
    event: RuntimeEventView,
    other_phase: PhaseView,
    other_event: RuntimeEventView,
)
    requires
        transition(a, phase, event, false).1.next is Connect,
        transition(a, phase, event, false).1.next == transition(
            b,
            other_phase,
            other_event,
            false,
        ).1.next,
    ensures
        a.ssh_host == b.ssh_host,
        a.ssh_port == b.ssh_port,
{
    address_is_that_of_the_server(a, phase, event, false);
    address_is_that_of_the_server(b, other_phase, other_event, false);
    let addr = transition(a, phase, event, false).1.next->Connect_0;
    let m = a.ssh_host.len() as int;
    let n = b.ssh_host.len() as int;
    if m < n {
        assert(addr.skip(m + 1)[n - m - 1] == ':');
    } else if n < m {
        assert(addr.skip(n + 1)[m - n - 1] == ':');
    }
}

/// Whatever a run binds is the local port of one of its rules, on this machine
/// alone: the one that it then stands at.
pub proof fn bound_address_is_the_rules_port(
    config: TunnelConfigView,
    phase: PhaseView,
    event: RuntimeEventView,
    stopped: bool,
)
    requires
        valid(config, phase),
        config.forwards.len() <= usize::MAX,
    ensures
        ({
            let (next, step) = transition(config, phase, event, stopped);
            step.next matches AwaitView::Bind(addr) ==> {
                &&& next is Binding
                &&& next->Binding_index < config.forwards.len()
                &&& addr.len() > 10
                &&& addr.take(10) == "127.0.0.1:"@
                &&& is_number(
                    addr.skip(10),
                    config.forwards[next->Binding_index as int].local_port as int,
                )
            }
        }),
{
    let (next, step) = transition(config, phase, event, stopped);
    if let AwaitView::Bind(addr) = step.next {
        let port = config.forwards[next->Binding_index as int].local_port;
        decimal_reads_back(port as nat);
        reveal_strlit("127.0.0.1:");
        assert("127.0.0.1:"@.len() == 10);
        assert(addr.take(10) =~= "127.0.0.1:"@);
        assert(addr.skip(10) =~= decimal(port as nat));
    }
}

/// How a run begins: with a rule and no stop it shows that it connects, and
/// connects; else it shows that it is disconnected, and is over.
pub proof fn run_begins_by_connecting(config: TunnelConfigView, stopped: bool)
    ensures
        ({
            let (next, step) = transition(
                config,
                PhaseView::Fresh,
                RuntimeEventView::Started,
                stopped,
            );
            &&& step.session is Keep
            &&& config.forwards.len() > 0 && !stopped ==> next is Connecting && step.publish
                == Some(TunnelStatusView::Connecting) && step.next is Connect
            &&& config.forwards.len() == 0 || stopped ==> next is Finished && step.publish == Some(
                TunnelStatusView::Disconnected,
            ) && step.next is Exit
        }),
{
}

/// What an attempt at a session leads to. Without a stop a failure is shown with
/// its reason before a pause of five seconds, and a session is followed by the
/// first port; with one, the run is over and a session that was made is closed.
pub proof fn attempt_is_followed_up(config: TunnelConfigView, reason: Seq<char>, stopped: bool)
    ensures
        ({
            let (next, step) = transition(
                config,
                PhaseView::Connecting,
                RuntimeEventView::SessionFailed(reason),
                stopped,
            );
            &&& step.session is Keep
            &&& !stopped ==> next == (PhaseView::Settling { total: 5000 }) && step.publish == Some(
                TunnelStatusView::Error(reason),
            ) && step.next is Look
            &&& stopped ==> next is Finished && step.publish == Some(TunnelStatusView::Disconnected)
                && step.next is Exit
        }),
        ({
            let (next, step) = transition(
                config,
                PhaseView::Connecting,
                RuntimeEventView::SessionReady,
                stopped,
            );
            &&& !stopped ==> next == (PhaseView::Binding { index: 0, attempt: 0 }) && step.publish
                is None && step.next is Bind && step.session is Keep
            &&& stopped ==> next is Finished && step.publish == Some(TunnelStatusView::Disconnected)
                && step.next is Exit && step.session is CloseStopped
        }),
{
}

/// What an attempt at a port leads to, whether or not a stop came: the port of the
/// next rule, or service after the last; and after a failure another attempt half a
/// second later, or, the fifth time, the end of the session.
pub proof fn binding_is_followed_up(
    config: TunnelConfigView,
    index: usize,
    attempt: u32,
    reason: Seq<char>,
    stopped: bool,
)
    requires
        index < config.forwards.len() <= usize::MAX,
        attempt < 5,
    ensures
        ({
            let (next, step) = transition(
                config,
                PhaseView::Binding { index, attempt },
                RuntimeEventView::Bound,
                stopped,
            );
            &&& index + 1 < config.forwards.len() ==> next == (PhaseView::Binding {
                index: (index + 1) as usize,
                attempt: 0,
            }) && step.publish is None && step.next is Bind && step.session is Keep
            &&& index + 1 == config.forwards.len() ==> next is Serving && step.publish == Some(
                TunnelStatusView::Connected,
            ) && step.next is StopOrLoss && step.session is Serve
        }),
        ({
            let (next, step) = transition(
                config,
                PhaseView::Binding { index, attempt },
                RuntimeEventView::BindFailed(reason),
                stopped,
            );
            &&& step.publish is None
            &&& attempt < 4 ==> next == (PhaseView::Rebinding {
                index,
                attempt: (attempt + 1) as u32,
            }) && step.next == AwaitView::Sleep(500) && step.session is Keep
            &&& attempt == 4 ==> {
                &&& next matches PhaseView::Unbound(error)
                &&& step.next is Look
                &&& step.session is CloseUnbound
                &&& exists|digits: Seq<char>| #[trigger]
                    is_number(digits, config.forwards[index as int].local_port as int) && error
                        == "port "@ + digits + " bind failed: "@ + reason
            }
        }),
        ({
            let (next, step) = transition(
                config,
                PhaseView::Rebinding { index, attempt },
                RuntimeEventView::Slept,
                stopped,
            );
            &&& next == (PhaseView::Binding { index, attempt })
            &&& step.publish is None && step.next is Bind && step.session is Keep
        }),
{
    let port = config.forwards[index as int].local_port;
    decimal_reads_back(port as nat);
    assert(is_number(decimal(port as nat), port as int));
}

/// What a look at the stop flag leads to. Where a port could not be bound, the
/// error is shown before a pause of three seconds; where something was shown, the
/// pause begins. A stop ends the run instead.
pub proof fn look_is_followed_up(
    config: TunnelConfigView,
    error: Seq<char>,
    total: u64,
    stopped: bool,
)
    ensures
        ({
            let (next, step) = transition(
                config,
                PhaseView::Unbound(error),
                RuntimeEventView::Looked,
                stopped,
            );
            &&& step.session is Keep
            &&& !stopped ==> next == (PhaseView::Settling { total: 3000 }) && step.publish == Some(
                TunnelStatusView::Error(error),
            ) && step.next is Look
            &&& stopped ==> next is Finished && step.publish == Some(TunnelStatusView::Disconnected)
                && step.next is Exit
        }),
        ({
            let (next, step) = transition(
                config,
                PhaseView::Settling { total },
                RuntimeEventView::Looked,
                stopped,
            );
            &&& step.session is Keep
            &&& !stopped ==> next == (PhaseView::Pausing { waited: 0, total }) && step.publish
                is None && step.next == AwaitView::Sleep(500)
            &&& stopped ==> next is Finished && step.publish == Some(TunnelStatusView::Disconnected)
                && step.next is Exit
        }),
{
}

/// What follows while a tunnel serves and while it pauses. A loss is shown as
/// connecting, before a pause of five seconds; a stop ends the run; and a pause
/// goes on in steps of half a second until its time has passed, and then the run
/// connects again.
pub proof fn service_and_pauses_are_followed_up(
    config: TunnelConfigView,
    waited: u64,
    total: u64,
    stopped: bool,
)
    requires
        waited < total <= 5000,
    ensures
        ({
            let (next, step) = transition(
                config,
                PhaseView::Serving,
                RuntimeEventView::ConnectionLost,
                stopped,
            );
            &&& step.session is Cancel
            &&& !stopped ==> next == (PhaseView::Settling { total: 5000 }) && step.publish == Some(
                TunnelStatusView::Connecting,
            ) && step.next is Look
            &&& stopped ==> next is Finished && step.publish == Some(TunnelStatusView::Disconnected)
                && step.next is Exit
        }),
        ({
            let (next, step) = transition(
                config,
                PhaseView::Serving,
                RuntimeEventView::StopSeen,
                stopped,
            );
            &&& step.session is Cancel
            &&& next is Finished && step.publish == Some(TunnelStatusView::Disconnected)
                && step.next is Exit
        }),
        ({
            let (next, step) = transition(
                config,
                PhaseView::Pausing { waited, total },
                RuntimeEventView::Slept,
                stopped,
            );
            &&& step.session is Keep
            &&& !stopped && waited + 500 < total ==> next == (PhaseView::Pausing {
                waited: (waited + 500) as u64,
                total,
            }) && step.publish is None && step.next == AwaitView::Sleep(500)
            &&& !stopped && waited + 500 >= total ==> next is Connecting && step.publish == Some(
                TunnelStatusView::Connecting,
            ) && step.next is Connect
            &&& stopped ==> next is Finished && step.publish == Some(TunnelStatusView::Disconnected)
                && step.next is Exit
        }),
{
}

/// What a run does not wait for leaves it where it stands, and nothing is done.
pub proof fn unexpected_events_change_nothing(
    config: TunnelConfigView,
    phase: PhaseView,
    event: RuntimeEventView,
    stopped: bool,
)
    requires
        match phase {
            PhaseView::Fresh => !(event is Started),
            PhaseView::Connecting => !(event is SessionReady) && !(event is SessionFailed),
            PhaseView::Binding { .. } => !(event is Bound) && !(event is BindFailed),
            PhaseView::Rebinding { .. } => !(event is Slept),
            PhaseView::Unbound(_) => !(event is Looked),
            PhaseView::Serving => !(event is StopSeen) && !(event is ConnectionLost),
            PhaseView::Settling { .. } => !(event is Looked),
            PhaseView::Pausing { .. } => !(event is Slept),
            PhaseView::Finished => true,
        },
    ensures
        ({
            let (next, step) = transition(config, phase, event, stopped);
            &&& next == phase
            &&& step.session is Keep && step.publish is None && step.next is Again
        }),
        !expected(phase, event),
{
}

/// A run depends on nothing of its tunnel but the server and the local ports: two
/// tunnels that agree on those run alike.
pub proof fn only_server_and_ports_matter(
    a: TunnelConfigView,
    b: TunnelConfigView,
    phase: PhaseView,
    event: RuntimeEventView,
    stopped: bool,
)
    requires
        a.ssh_host == b.ssh_host,
        a.ssh_port == b.ssh_port,
        a.forwards.len() == b.forwards.len() <= usize::MAX,
        forall|i: int|
            0 <= i < a.forwards.len() ==> (#[trigger] a.forwards[i]).local_port
                == b.forwards[i].local_port,
        valid(a, phase),
    ensures
        transition(a, phase, event, stopped) == transition(b, phase, event, stopped),
{
}

/// What is published for a status is said of the tunnel itself, and carries no
/// rates.
pub proof fn published_status_is_the_tunnels(config: TunnelConfigView, status: TunnelStatusView)
    ensures
        status_metric(config, status).id == config.id,
        status_metric(config, status).name == config.name,
        status_metric(config, status).status == status,
        status_metric(config, status).rx_bytes_per_sec == 0,
        status_metric(config, status).tx_bytes_per_sec == 0,
{
}

/// What stands for an event, a step or a phase holds all that it says.
pub proof fn nothing_is_lost_in_a_run(event: RuntimeEvent, step: RuntimeStep, phase: Phase)
    ensures
        match event {
            RuntimeEvent::SessionFailed(reason) => event@ == RuntimeEventView::SessionFailed(
                reason@,
            ),
            RuntimeEvent::BindFailed(reason) => event@ == RuntimeEventView::BindFailed(reason@),
            RuntimeEvent::Started => event@ is Started,
            RuntimeEvent::SessionReady => event@ is SessionReady,
            RuntimeEvent::Bound => event@ is Bound,
            RuntimeEvent::Slept => event@ is Slept,
            RuntimeEvent::Looked => event@ is Looked,
            RuntimeEvent::ConnectionLost => event@ is ConnectionLost,
            RuntimeEvent::StopSeen => event@ is StopSeen,
        },
        step@.session == step.session,
        step.publish is Some <==> step@.publish is Some,
        step.publish matches Some(status) ==> step@.publish == Some(status@),
        match step.next {
            Await::Connect(addr) => step@.next == AwaitView::Connect(addr@),
            Await::Bind(addr) => step@.next == AwaitView::Bind(addr@),
            Await::Sleep(ms) => step@.next == AwaitView::Sleep(ms),
            Await::Again => step@.next is Again,
            Await::Look => step@.next is Look,
            Await::StopOrLoss => step@.next is StopOrLoss,
            Await::Exit => step@.next is Exit,
        },
        phase matches Phase::Unbound(error) ==> phase@ == PhaseView::Unbound(error@),
{
}

} // verus!
