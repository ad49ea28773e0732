//! The registry of running tunnels: at most one runtime for each tunnel id.
use crate::config::{AppConfig, AppConfigView, TunnelConfig, TunnelConfigView, TunnelMetric};
use crate::config::{ids, texts, tunnel_views, TunnelMetricView, TunnelStatus, TunnelStatusView};
use crate::keyed::{distinct, has_key, keyed, place};
use crate::traffic::{counted, lemma_counted_twice};
use crate::keyed::{
    lemma_keyed_at, lemma_keyed_map, lemma_keyed_push, lemma_keyed_remove, lemma_keyed_update,
};
use vstd::prelude::*;

verus! {

/// How long a start waits between two looks at a runtime that is being torn
/// down, in milliseconds.
pub const START_WAIT_MS: u64 = 50;

/// How many times it waits before it gives up.
pub const START_WAIT_MAX: u32 = 60;

/// A runtime that runs or is being torn down.
#[derive(Debug)]
struct RunningTunnel {
    id: String,
    /// Tells this runtime from others that the same tunnel had or will have.
    token: u64,
    /// Set once a stop was asked for; the runtime no longer counts as running.
    stopped: bool,
    /// The latest status.
    status: TunnelStatus,
    /// The tunnel's name, kept up to date with the configuration.
    name: String,
}

#[verifier::ext_equal]
pub struct RunningView {
    pub token: u64,
    pub stopped: bool,
    pub status: TunnelStatusView,
    pub name: Seq<char>,
}

impl View for RunningTunnel {
    type V = RunningView;

    closed spec fn view(&self) -> RunningView {
        RunningView {
            token: self.token,
            stopped: self.stopped,
            status: self.status@,
            name: self.name@,
        }
    }
}

/// The running tunnels by id.
pub type Running = Map<Seq<char>, RunningView>;

/// The entries with their keys.
spec fn entries(s: Seq<RunningTunnel>) -> Seq<(Seq<char>, RunningView)> {
    s.map_values(|e: RunningTunnel| (e.id@, e@))
}

/// The registry, with the configuration that tunnels are started from.
pub struct TunnelManager {
    running: Vec<RunningTunnel>,
    config: AppConfig,
    next_token: u64,
}

#[verifier::ext_equal]
pub struct ManagerView {
    pub running: Running,
    pub config: AppConfigView,
    /// The token of the next runtime.
    pub next_token: u64,
}

impl View for TunnelManager {
    type V = ManagerView;

    closed spec fn view(&self) -> ManagerView {
        ManagerView {
            running: keyed(entries(self.running@)),
            config: self.config@,
            next_token: self.next_token,
        }
    }
}

/// The first tunnel in the list with the id `id`.
pub open spec fn first_with_id(
    tunnels: Seq<TunnelConfigView>,
    id: Seq<char>,
) -> Option<TunnelConfigView>
    decreases tunnels.len(),
{
    if tunnels.len() == 0 {
        None
    } else if tunnels[0].id == id {
        Some(tunnels[0])
    } else {
        first_with_id(tunnels.drop_first(), id)
    }
}

/// An entry once its stop was asked for.
pub open spec fn halted(e: RunningView) -> RunningView {
    RunningView { stopped: true, ..e }
}

/// The registry once a stop of `id` was asked for.
pub open spec fn with_stop(running: Running, id: Seq<char>) -> Running {
    if running.contains_key(id) {
        running.insert(id, halted(running[id]))
    } else {
        running
    }
}

/// The registry once a stop of everything was asked for.
pub open spec fn with_all_stopped(running: Running) -> Running {
    running.map_entries(|id: Seq<char>, e: RunningView| halted(e))
}

/// The registry once a stop of everything but `keep` was asked for.
pub open spec fn pruned(running: Running, keep: Seq<Seq<char>>) -> Running {
    running.map_entries(
        |id: Seq<char>, e: RunningView| if keep.contains(id) { e } else { halted(e) },
    )
}

/// The registry with the names that the tunnels have in a list.
pub open spec fn renamed(running: Running, tunnels: Seq<TunnelConfigView>) -> Running {
    running.map_entries(
        |id: Seq<char>, e: RunningView|
            match first_with_id(tunnels, id) {
                Some(t) => RunningView { name: t.name, ..e },
                None => e,
            },
    )
}

/// The registry once a status was published.
pub open spec fn published(running: Running, metric: TunnelMetricView) -> Running {
    if running.contains_key(metric.id) {
        running.insert(
            metric.id,
            RunningView { status: metric.status, name: metric.name, ..running[metric.id] },
        )
    } else {
        running
    }
}

/// The registry once the runtime `token` has left. An entry of another runtime
/// stays.
pub open spec fn unregistered(running: Running, id: Seq<char>, token: u64) -> Running {
    if running.contains_key(id) && running[id].token == token {
        running.remove(id)
    } else {
        running
    }
}

/// Whether `id` counts as running.
pub open spec fn runs(running: Running, id: Seq<char>) -> bool {
    running.contains_key(id) && !running[id].stopped
}

/// Whether the runtime `token` of `id` has to stop.
pub open spec fn must_stop(running: Running, id: Seq<char>, token: u64) -> bool {
    !(runs(running, id) && running[id].token == token)
}

/// The statuses of what counts as running.
pub open spec fn active(running: Running) -> Map<Seq<char>, TunnelStatusView> {
    Map::new(|id: Seq<char>| runs(running, id), |id: Seq<char>| running[id].status)
}

/// What a window that opens is told of what counts as running.
pub open spec fn active_metrics(running: Running) -> Map<Seq<char>, TunnelMetricView> {
    Map::new(
        |id: Seq<char>| runs(running, id),
        |id: Seq<char>|
            TunnelMetricView {
                id,
                name: running[id].name,
                status: running[id].status,
                rx_bytes_per_sec: 0,
                tx_bytes_per_sec: 0,
            },
    )
}

/// Pairs of an id and a status as values.
pub open spec fn status_pairs(
    s: Seq<(String, TunnelStatus)>,
) -> Seq<(Seq<char>, TunnelStatusView)> {
    s.map_values(|p: (String, TunnelStatus)| (p.0@, p.1@))
}

/// Metrics as values, each with its id.
pub open spec fn metric_pairs(s: Seq<TunnelMetric>) -> Seq<(Seq<char>, TunnelMetricView)> {
    s.map_values(|m: TunnelMetric| (m.id@, m@))
}

/// What a start comes to.
#[derive(Debug)]
pub enum StartStep {
    /// The runtime is registered: run it with this configuration, under this
    /// token.
    Started(TunnelConfig, u64),
    /// The last runtime is still being torn down: wait, then resume.
    Wait(PendingStart),
}

/// A start that waits for the last runtime to leave.
#[derive(Debug)]
pub struct PendingStart {
    config: TunnelConfig,
    waited: u32,
}

impl PendingStart {
    /// The tunnel to be started.
    pub closed spec fn tunnel(&self) -> TunnelConfigView {
        self.config@
    }

    /// How often it has waited.
    pub closed spec fn waits(&self) -> nat {
        self.waited as nat
    }
}

/// What a start comes to, as a value.
#[verifier::ext_equal]
pub enum StartView {
    Started(TunnelConfigView, u64),
    Wait(TunnelConfigView, nat),
    Failed(Seq<char>),
}

/// The result of a start as a value.
pub open spec fn start_view(r: Result<StartStep, String>) -> StartView {
    match r {
        Ok(StartStep::Started(config, token)) => StartView::Started(config@, token),
        Ok(StartStep::Wait(pending)) => StartView::Wait(pending.tunnel(), pending.waits()),
        Err(message) => StartView::Failed(message@),
    }
}

/// A message about the tunnel `name`.
pub open spec fn about(name: Seq<char>, what: Seq<char>) -> Seq<char> {
    "隧道 '"@ + name + what
}

/// The token after `token`. Tokens begin again at zero once there are no more.
pub open spec fn token_after(token: u64) -> u64 {
    counted(token, 1)
}

/// One look at the registry for a start of `config` that has waited `waits`
/// times. A runtime that is registered gets the next token.
pub open spec fn attempt(
    m: ManagerView,
    config: TunnelConfigView,
    waits: nat,
) -> (ManagerView, StartView) {
    if !m.running.contains_key(config.id) {
        (
            ManagerView {
                running: m.running.insert(
                    config.id,
                    RunningView {
                        token: m.next_token,
                        stopped: false,
                        status: TunnelStatusView::Connecting,
                        name: config.name,
                    },
                ),
                next_token: token_after(m.next_token),
                ..m
            },
            StartView::Started(config, m.next_token),
        )
    } else if !m.running[config.id].stopped {
        (m, StartView::Failed(about(config.name, "' 已在运行"@)))
    } else if waits >= START_WAIT_MAX {
        (m, StartView::Failed(about(config.name, "' 仍在停止中,请稍后重试"@)))
    } else {
        (m, StartView::Wait(config, waits + 1))
    }
}

/// A start of `id`: it must be in the configuration and have a rule.
pub open spec fn start(m: ManagerView, id: Seq<char>) -> (ManagerView, StartView) {
    match first_with_id(m.config.tunnels, id) {
        None => (m, StartView::Failed("未找到隧道: "@ + id)),
        Some(config) => if config.forwards.len() == 0 {
            (m, StartView::Failed(about(config.name, "' 没有转发规则"@)))
        } else {
            attempt(m, config, 0)
        },
    }
}

/// A start of all tunnels under way.
#[derive(Debug)]
pub struct StartAll {
    queue: Vec<String>,
    next: usize,
    pending: Option<PendingStart>,
}

#[verifier::ext_equal]
pub struct StartAllView {
    /// The tunnel that waits for its last runtime to leave, and how often it has
    /// waited.
    pub waiting: Option<(TunnelConfigView, nat)>,
    /// The ids that are still to be started.
    pub left: Seq<Seq<char>>,
}

impl View for StartAll {
    type V = StartAllView;

    closed spec fn view(&self) -> StartAllView {
        StartAllView {
            waiting: match self.pending {
                Some(pending) => Some((pending.tunnel(), pending.waits())),
                None => None,
            },
            left: texts(self.queue@).skip(self.next as int),
        }
    }
}

impl StartAll {
    pub closed spec fn wf(&self) -> bool {
        self.next <= self.queue@.len()
    }
}

/// What one step of a start of all tunnels comes to.
#[derive(Debug)]
pub enum StartNext {
    /// A runtime is registered: run it with this configuration, under this token.
    Started(TunnelConfig, u64),
    /// A last runtime is still being torn down: wait, then go on.
    Wait,
    /// One tunnel could not be started: go on.
    Failed(String),
    Done,
}

#[verifier::ext_equal]
pub enum StartNextView {
    Started(TunnelConfigView, u64),
    Wait,
    Failed(Seq<char>),
    Done,
}

impl View for StartNext {
    type V = StartNextView;

    open spec fn view(&self) -> StartNextView {
        match *self {
            StartNext::Started(config, token) => StartNextView::Started(config@, token),
            StartNext::Wait => StartNextView::Wait,
            StartNext::Failed(message) => StartNextView::Failed(message@),
            StartNext::Done => StartNextView::Done,
        }
    }
}

/// What becomes of a start of all tunnels when one of them came to `outcome`,
/// with `left` still to be started.
pub open spec fn settle(
    outcome: (ManagerView, StartView),
    left: Seq<Seq<char>>,
) -> (ManagerView, StartAllView, StartNextView) {
    match outcome.1 {
        StartView::Started(config, token) => (
            outcome.0,
            StartAllView { waiting: None, left },
            StartNextView::Started(config, token),
        ),
        StartView::Wait(config, waits) => (
            outcome.0,
            StartAllView { waiting: Some((config, waits)), left },
            StartNextView::Wait,
        ),
        StartView::Failed(message) => (
            outcome.0,
            StartAllView { waiting: None, left },
            StartNextView::Failed(message),
        ),
    }
}

/// A start of all tunnels of a list that has not begun.
pub open spec fn all_to_start(tunnels: Seq<TunnelConfigView>) -> StartAllView {
    StartAllView { waiting: None, left: ids(tunnels) }
}

/// One step of a start of all tunnels.
pub open spec fn next_start(
    m: ManagerView,
    all: StartAllView,
) -> (ManagerView, StartAllView, StartNextView) {
    match all.waiting {
        Some((config, waits)) => settle(attempt(m, config, waits), all.left),
        None => if all.left.len() == 0 {
            (m, all, StartNextView::Done)
        } else {
            settle(start(m, all.left[0]), all.left.skip(1))
        },
    }
}

proof fn lemma_first_with_id(tunnels: Seq<TunnelConfigView>, id: Seq<char>, n: int)
    requires
        0 <= n <= tunnels.len(),
        forall|i: int| 0 <= i < n ==> (#[trigger] tunnels[i]).id != id,
    ensures
        n == tunnels.len() ==> first_with_id(tunnels, id) is None,
        n < tunnels.len() && tunnels[n].id == id ==> first_with_id(tunnels, id) == Some(tunnels[n]),
    decreases n,
{
    if n > 0 {
        let rest = tunnels.drop_first();
        assert forall|i: int| 0 <= i < n - 1 implies (#[trigger] rest[i]).id != id by {
            assert(rest[i] == tunnels[i + 1]);
        }
        lemma_first_with_id(rest, id, n - 1);
    }
}

/// Where the first tunnel with the id `id` stands.
fn find_tunnel(tunnels: &[TunnelConfig], id: &String) -> (r: Option<usize>)
    ensures
        match r {
            Some(i) => i < tunnels@.len() && tunnels@[i as int].id@ == id@ && first_with_id(
                tunnel_views(tunnels@),
                id@,
            ) == Some(tunnels@[i as int]@),
            None => first_with_id(tunnel_views(tunnels@), id@) is None,
        },
{
    let ghost views = tunnel_views(tunnels@);
    let mut i: usize = 0;
    while i < tunnels.len()
        invariant
            i <= tunnels.len(),
            views == tunnel_views(tunnels@),
            forall|j: int| 0 <= j < i ==> (#[trigger] views[j]).id != id@,
        decreases tunnels.len() - i,
    {
        assert(views[i as int] == tunnels@[i as int]@);
        if tunnels[i].id == *id {
            proof {
                lemma_first_with_id(views, id@, i as int);
            }
            return Some(i);
        }
        i = i + 1;
    }
    proof {
        lemma_first_with_id(views, id@, i as int);
    }
    None
}

/// `'`-quoted message about a tunnel.
fn message_about(name: &String, what: &str) -> (r: String)
    ensures
        r@ == about(name@, what@),
{
    "隧道 '".to_owned().concat(name.as_str()).concat(what)
}

impl TunnelManager {
    /// Whether each id is registered once.
    pub closed spec fn wf(&self) -> bool {
        distinct(entries(self.running@))
    }

    /// A registry with nothing in it.
    pub fn new(config: AppConfig) -> (m: TunnelManager)
        ensures
            m.wf(),
            m@.running == Map::<Seq<char>, RunningView>::empty(),
            m@.config == config@,
            m@.next_token == 0,
    {
        let m = TunnelManager { running: Vec::new(), config, next_token: 0 };
        assert(keyed(entries(m.running@)) =~= Map::<Seq<char>, RunningView>::empty());
        m
    }

    /// Where the entry `id` stands.
    fn find(&self, id: &String) -> (r: Option<usize>)
        requires
            self.wf(),
        ensures
            match r {
                Some(i) => i < self.running@.len() && self.running@[i as int].id@ == id@
                    && self@.running.contains_key(id@) && self@.running[id@]
                    == self.running@[i as int]@,
                None => !self@.running.contains_key(id@) && !has_key(
                    entries(self.running@),
                    id@,
                ),
            },
    {
        let ghost all = entries(self.running@);
        let mut i: usize = 0;
        while i < self.running.len()
            invariant
                i <= self.running.len(),
                all == entries(self.running@),
                distinct(all),
                forall|j: int| 0 <= j < i ==> (#[trigger] all[j]).0 != id@,
            decreases self.running.len() - i,
        {
            assert(all[i as int] == (self.running@[i as int].id@, self.running@[i as int]@));
            if self.running[i].id == *id {
                proof {
                    lemma_keyed_at(all, i as int);
                }
                return Some(i);
            }
            i = i + 1;
        }
        None
    }

    /// Replaces the entry at `i` by one with the same id.
    fn replace(&mut self, i: usize, e: RunningTunnel)
        requires
            old(self).wf(),
            i < old(self).running@.len(),
            e.id@ == old(self).running@[i as int].id@,
        ensures
            final(self).wf(),
            final(self)@.running == old(self)@.running.insert(e.id@, e@),
            final(self)@.config == old(self)@.config,
            final(self)@.next_token == old(self)@.next_token,
    {
        proof {
            lemma_keyed_update(entries(self.running@), i as int, e@);
            assert(entries(self.running@.update(i as int, e)) =~= entries(self.running@).update(
                i as int,
                (e.id@, e@),
            ));
        }
        self.running.set(i, e);
    }

    /// The configuration.
    pub fn config(&self) -> (c: AppConfig)
        ensures
            c@ == self@.config,
    {
        self.config.clone()
    }

    /// Replaces the configuration. What runs is untouched.
    pub fn set_config(&mut self, config: AppConfig)
        requires
            old(self).wf(),
        ensures
            final(self).wf(),
            final(self)@ == (ManagerView { config: config@, ..old(self)@ }),
    {
        self.config = config;
    }

    /// One look at the registry for a start.
    fn try_start(&mut self, pending: PendingStart) -> (r: Result<StartStep, String>)
        requires
            old(self).wf(),
        ensures
            final(self).wf(),
            (final(self)@, start_view(r)) == attempt(
                old(self)@,
                pending.tunnel(),
                pending.waits(),
            ),
    {
        let config = pending.config;
        match self.find(&config.id) {
            None => {
                let token: u64 = self.next_token;
                let e = RunningTunnel {
                    id: config.id.clone(),
                    token,
                    stopped: false,
                    status: TunnelStatus::Connecting,
                    name: config.name.clone(),
                };
                proof {
                    lemma_keyed_push(entries(self.running@), e.id@, e@);
                    assert(entries(self.running@.push(e)) =~= entries(self.running@).push(
                        (e.id@, e@),
                    ));
                }
                self.running.push(e);
                self.next_token = token.wrapping_add(1);
                Ok(StartStep::Started(config, token))
            },
            Some(i) => if !self.running[i].stopped {
                Err(message_about(&config.name, "' 已在运行"))
            } else if pending.waited >= START_WAIT_MAX {
                Err(message_about(&config.name, "' 仍在停止中,请稍后重试"))
            } else {
                Ok(StartStep::Wait(PendingStart { config, waited: pending.waited + 1 }))
            },
        }
    }

    /// Starts the tunnel `id`. The tunnel must be in the configuration and have a
    /// rule; one that runs is not started again. The runtime gets a token that no
    /// earlier one had, until there are no more of them. While
    /// the last runtime is being torn down the result is a start to resume after
    /// [`START_WAIT_MS`], so that two runtimes never compete for the same ports.
    /// Unless the result says that the runtime is registered, nothing changes.
    pub fn start_tunnel(&mut self, id: &str) -> (r: Result<StartStep, String>)
        requires
            old(self).wf(),
        ensures
            final(self).wf(),
            (final(self)@, start_view(r)) == start(old(self)@, id@),
    {
        let id = id.to_owned();
        match find_tunnel(self.config.tunnels.as_slice(), &id) {
            None => Err("未找到隧道: ".to_owned().concat(id.as_str())),
            Some(i) => {
                let config = self.config.tunnels[i].clone();
                if config.forwards.len() == 0 {
                    Err(message_about(&config.name, "' 没有转发规则"))
                } else {
                    self.try_start(PendingStart { config, waited: 0 })
                }
            },
        }
    }

    /// Goes on with a start after a wait.
    pub fn resume_start(&mut self, pending: PendingStart) -> (r: Result<StartStep, String>)
        requires
            old(self).wf(),
        ensures
            final(self).wf(),
            (final(self)@, start_view(r)) == attempt(
                old(self)@,
                pending.tunnel(),
                pending.waits(),
            ),
    {
        self.try_start(pending)
    }

    /// A start of all tunnels, one after the other in the order of the
    /// configuration, whether or not one fails. Each is started by
    /// [`TunnelManager::start_next`].
    pub fn start_all(&self) -> (all: StartAll)
        ensures
            all.wf(),
            all@ == all_to_start(self@.config.tunnels),
    {
        let queue = self.config.ids();
        let all = StartAll { queue, next: 0, pending: None };
        assert(texts(queue@).skip(0) =~= texts(queue@));
        all
    }

    /// Goes on with a start of all tunnels: with the one that waits, or else with
    /// the next one.
    pub fn start_next(&mut self, all: &mut StartAll) -> (r: StartNext)
        requires
            old(self).wf(),
            old(all).wf(),
        ensures
            final(self).wf(),
            final(all).wf(),
            (final(self)@, final(all)@, r@) == next_start(old(self)@, old(all)@),
    {
        let ghost before = all@;
        let outcome = match all.pending.take() {
            Some(pending) => self.try_start(pending),
            None => {
                if all.next >= all.queue.len() {
                    return StartNext::Done;
                }
                let i: usize = all.next;
                all.next = i + 1;
                proof {
                    assert(before.left[0] == all.queue@[i as int]@);
                    assert(texts(all.queue@).skip(i + 1) =~= before.left.skip(1));
                }
                self.start_tunnel(all.queue[i].as_str())
            },
        };
        match outcome {
            Ok(StartStep::Started(config, token)) => StartNext::Started(config, token),
            Ok(StartStep::Wait(pending)) => {
                all.pending = Some(pending);
                StartNext::Wait
            },
            Err(message) => StartNext::Failed(message),
        }
    }

    /// Asks for a stop of `id`. The entry stays until its runtime leaves.
    pub fn stop_tunnel(&mut self, id: &str)
        requires
            old(self).wf(),
        ensures
            final(self).wf(),
            final(self)@.running == with_stop(old(self)@.running, id@),
            final(self)@.config == old(self)@.config,
            final(self)@.next_token == old(self)@.next_token,
    {
        let id = id.to_owned();
        if let Some(i) = self.find(&id) {
            let e = RunningTunnel {
                id: self.running[i].id.clone(),
                token: self.running[i].token,
                stopped: true,
                status: self.running[i].status.clone(),
                name: self.running[i].name.clone(),
            };
            self.replace(i, e);
        }
    }

    /// Asks for a stop of everything.
    pub fn stop_all(&mut self)
        requires
            old(self).wf(),
        ensures
            final(self).wf(),
            final(self)@.running == with_all_stopped(old(self)@.running),
            final(self)@.config == old(self)@.config,
            final(self)@.next_token == old(self)@.next_token,
    {
        let ghost before = self.running@;
        let n: usize = self.running.len();
        let mut i: usize = 0;
        while i < n
            invariant
                i <= n,
                n == before.len(),
                n == self.running@.len(),
                self.config == old(self).config,
                self.next_token == old(self).next_token,
                forall|j: int| i <= j < n ==> #[trigger] self.running@[j] == before[j],
                forall|j: int|
                    0 <= j < i ==> (#[trigger] self.running@[j]).id == before[j].id
                        && self.running@[j]@ == halted(before[j]@),
            decreases n - i,
        {
            self.running[i].stopped = true;
            i = i + 1;
        }
        proof {
            lemma_keyed_map(
                entries(before),
                entries(self.running@),
                |id: Seq<char>, e: RunningView| halted(e),
            );
        }
    }

    /// Whether `id` counts as running.
    pub fn is_running(&self, id: &str) -> (b: bool)
        requires
            self.wf(),
        ensures
            b == runs(self@.running, id@),
    {
        let id = id.to_owned();
        match self.find(&id) {
            Some(i) => !self.running[i].stopped,
            None => false,
        }
    }

    /// Whether the runtime `token` of `id` has to stop: a stop was asked for, or
    /// it is no longer the one that is registered.
    pub fn stop_requested(&self, id: &str, token: u64) -> (b: bool)
        requires
            self.wf(),
        ensures
            b == must_stop(self@.running, id@, token),
    {
        let id = id.to_owned();
        match self.find(&id) {
            Some(i) => self.running[i].stopped || self.running[i].token != token,
            None => true,
        }
    }

    /// Records a status that is about to be shown.
    pub fn publish_metric(&mut self, metric: &TunnelMetric)
        requires
            old(self).wf(),
        ensures
            final(self).wf(),
            final(self)@.running == published(old(self)@.running, metric@),
            final(self)@.config == old(self)@.config,
            final(self)@.next_token == old(self)@.next_token,
    {
        if let Some(i) = self.find(&metric.id) {
            let e = RunningTunnel {
                id: self.running[i].id.clone(),
                token: self.running[i].token,
                stopped: self.running[i].stopped,
                status: metric.status.clone(),
                name: metric.name.clone(),
            };
            self.replace(i, e);
        }
    }

    /// Takes out the runtime `token` once it has left. One that has been
    /// replaced does not take out its successor.
    pub fn unregister_runtime(&mut self, id: &str, token: u64)
        requires
            old(self).wf(),
        ensures
            final(self).wf(),
            final(self)@.running == unregistered(old(self)@.running, id@, token),
            final(self)@.config == old(self)@.config,
            final(self)@.next_token == old(self)@.next_token,
    {
        let id = id.to_owned();
        if let Some(i) = self.find(&id) {
            if self.running[i].token == token {
                proof {
                    lemma_keyed_remove(entries(self.running@), i as int);
                    assert(entries(self.running@.remove(i as int)) =~= entries(
                        self.running@,
                    ).remove(i as int));
                }
                let _ = self.running.remove(i);
            }
        }
    }

    /// The statuses of what counts as running, each id once, in no given order.
    pub fn active_statuses(&self) -> (r: Vec<(String, TunnelStatus)>)
        requires
            self.wf(),
        ensures
            distinct(status_pairs(r@)),
            keyed(status_pairs(r@)) == active(self@.running),
    {
        let mut r: Vec<(String, TunnelStatus)> = Vec::new();
        let mut i: usize = 0;
        proof {
            lemma_nothing_active(self.running@, status_pairs(r@));
        }
        while i < self.running.len()
            invariant
                self.wf(),
                i <= self.running.len(),
                distinct(status_pairs(r@)),
                keyed(status_pairs(r@)) == active(keyed(entries(self.running@.take(i as int)))),
            decreases self.running.len() - i,
        {
            proof {
                lemma_next_entry(self.running@, i as int);
            }
            let ghost before = status_pairs(r@);
            let ghost e = self.running@[i as int];
            let ghost seen = keyed(entries(self.running@.take(i as int)));
            if !self.running[i].stopped {
                r.push((self.running[i].id.clone(), self.running[i].status.clone()));
                proof {
                    assert(!active(seen).contains_key(e.id@));
                    assert(!has_key(before, e.id@));
                    lemma_keyed_push(before, e.id@, e@.status);
                    assert(status_pairs(r@) =~= before.push((e.id@, e@.status)));
                    assert(active(seen.insert(e.id@, e@)) =~= active(seen).insert(
                        e.id@,
                        e@.status,
                    ));
                }
            } else {
                assert(active(seen.insert(e.id@, e@)) =~= active(seen));
            }
            i = i + 1;
        }
        assert(self.running@.take(i as int) =~= self.running@);
        r
    }

    /// What a window that opens is told of what counts as running, each id once,
    /// in no given order.
    pub fn status_metrics(&self) -> (r: Vec<TunnelMetric>)
        requires
            self.wf(),
        ensures
            distinct(metric_pairs(r@)),
            keyed(metric_pairs(r@)) == active_metrics(self@.running),
    {
        let mut r: Vec<TunnelMetric> = Vec::new();
        let mut i: usize = 0;
        proof {
            assert(self.running@.take(0) =~= Seq::empty());
            assert(keyed(metric_pairs(r@)) =~= active_metrics(
                keyed(entries(self.running@.take(0))),
            ));
        }
        while i < self.running.len()
            invariant
                self.wf(),
                i <= self.running.len(),
                distinct(metric_pairs(r@)),
                keyed(metric_pairs(r@)) == active_metrics(
                    keyed(entries(self.running@.take(i as int))),
                ),
            decreases self.running.len() - i,
        {
            proof {
                lemma_next_entry(self.running@, i as int);
            }
            let ghost before = metric_pairs(r@);
            let ghost e = self.running@[i as int];
            let ghost seen = keyed(entries(self.running@.take(i as int)));
            if !self.running[i].stopped {
                let metric = TunnelMetric {
                    id: self.running[i].id.clone(),
                    name: self.running[i].name.clone(),
                    status: self.running[i].status.clone(),
                    rx_bytes_per_sec: 0,
                    tx_bytes_per_sec: 0,
                };
                r.push(metric);
                proof {
                    assert(!active_metrics(seen).contains_key(e.id@));
                    assert(!has_key(before, e.id@));
                    lemma_keyed_push(before, e.id@, metric@);
                    assert(metric_pairs(r@) =~= before.push((e.id@, metric@)));
                    assert(active_metrics(seen.insert(e.id@, e@)) =~= active_metrics(seen).insert(
                        e.id@,
                        metric@,
                    ));
                }
            } else {
                assert(active_metrics(seen.insert(e.id@, e@)) =~= active_metrics(seen));
            }
            i = i + 1;
        }
        assert(self.running@.take(i as int) =~= self.running@);
        r
    }

    /// Asks for a stop of everything that is not in `keep_ids`.
    pub fn prune(&mut self, keep_ids: &[String])
        requires
            old(self).wf(),
        ensures
            final(self).wf(),
            final(self)@.running == pruned(old(self)@.running, texts(keep_ids@)),
            final(self)@.config == old(self)@.config,
            final(self)@.next_token == old(self)@.next_token,
    {
        let ghost before = self.running@;
        let ghost keep = texts(keep_ids@);
        let n: usize = self.running.len();
        let mut i: usize = 0;
        while i < n
            invariant
                i <= n,
                n == before.len(),
                n == self.running@.len(),
                self.config == old(self).config,
                self.next_token == old(self).next_token,
                keep == texts(keep_ids@),
                forall|j: int| i <= j < n ==> #[trigger] self.running@[j] == before[j],
                forall|j: int|
                    0 <= j < i ==> (#[trigger] self.running@[j]).id == before[j].id
                        && self.running@[j]@ == if keep.contains(before[j].id@) {
                        before[j]@
                    } else {
                        halted(before[j]@)
                    },
            decreases n - i,
        {
            if !contains_text(keep_ids, &self.running[i].id) {
                self.running[i].stopped = true;
            }
            i = i + 1;
        }
        proof {
            lemma_keyed_map(
                entries(before),
                entries(self.running@),
                |id: Seq<char>, e: RunningView| if keep.contains(id) { e } else { halted(e) },
            );
        }
    }

    /// Takes over the names that running tunnels have in `tunnels`.
    pub fn refresh_names(&mut self, tunnels: &[TunnelConfig])
        requires
            old(self).wf(),
        ensures
            final(self).wf(),
            final(self)@.running == renamed(old(self)@.running, tunnel_views(tunnels@)),
            final(self)@.config == old(self)@.config,
            final(self)@.next_token == old(self)@.next_token,
    {
        let ghost before = self.running@;
        let ghost views = tunnel_views(tunnels@);
        let ghost f = |id: Seq<char>, e: RunningView|
            match first_with_id(views, id) {
                Some(t) => RunningView { name: t.name, ..e },
                None => e,
            };
        let n: usize = self.running.len();
        let mut i: usize = 0;
        while i < n
            invariant
                i <= n,
                n == before.len(),
                n == self.running@.len(),
                self.config == old(self).config,
                self.next_token == old(self).next_token,
                views == tunnel_views(tunnels@),
                f == |id: Seq<char>, e: RunningView|
                    match first_with_id(views, id) {
                        Some(t) => RunningView { name: t.name, ..e },
                        None => e,
                    },
                forall|j: int| i <= j < n ==> #[trigger] self.running@[j] == before[j],
                forall|j: int|
                    0 <= j < i ==> (#[trigger] self.running@[j]).id == before[j].id
                        && self.running@[j]@ == f(before[j].id@, before[j]@),
            decreases n - i,
        {
            if let Some(k) = find_tunnel(tunnels, &self.running[i].id) {
                self.running[i].name = tunnels[k].name.clone();
            }
            i = i + 1;
        }
        proof {
            lemma_keyed_map(entries(before), entries(self.running@), f);
        }
    }
}

/// Whether `s` is one of the strings.
fn contains_text(strings: &[String], s: &String) -> (b: bool)
    ensures
        b == texts(strings@).contains(s@),
{
    let mut i: usize = 0;
    while i < strings.len()
        invariant
            i <= strings.len(),
            forall|j: int| 0 <= j < i ==> (#[trigger] strings@[j])@ != s@,
        decreases strings.len() - i,
    {
        if strings[i] == *s {
            assert(texts(strings@)[i as int] == s@);
            return true;
        }
        i = i + 1;
    }
    false
}

proof fn lemma_nothing_active(
    s: Seq<RunningTunnel>,
    none: Seq<(Seq<char>, TunnelStatusView)>,
)
    requires
        none.len() == 0,
    ensures
        keyed(none) == active(keyed(entries(s.take(0)))),
{
    assert(keyed(none) =~= active(keyed(entries(s.take(0)))));
}

/// One entry more is one key more.
proof fn lemma_next_entry(s: Seq<RunningTunnel>, i: int)
    requires
        distinct(entries(s)),
        0 <= i < s.len(),
    ensures
        keyed(entries(s.take(i + 1))) == keyed(entries(s.take(i))).insert(s[i].id@, s[i]@),
        !keyed(entries(s.take(i))).contains_key(s[i].id@),
{
    let all = entries(s);
    let front = entries(s.take(i));
    assert(front =~= all.take(i));
    assert(entries(s.take(i + 1)) =~= front.push((s[i].id@, s[i]@)));
    assert(distinct(front));
    assert(!has_key(front, s[i].id@)) by {
        if has_key(front, s[i].id@) {
            let j = place(front, s[i].id@);
            assert(all[j].0 != all[i].0);
        }
    }
    lemma_keyed_push(front, s[i].id@, s[i]@);
}

/// At most one runtime for each tunnel: a start of one that is registered, be it
/// running or being torn down, registers nothing, and reports that it runs where
/// it does. So does a start that goes on after a wait.
pub proof fn one_runtime_for_each_tunnel(
    m: ManagerView,
    id: Seq<char>,
    config: TunnelConfigView,
    waits: nat,
)
    requires
        m.running.contains_key(id),
        config.id == id,
    ensures
        start(m, id).0 == m,
        !(start(m, id).1 is Started),
        runs(m.running, id) ==> start(m, id).1 is Failed,
        attempt(m, config, waits).0 == m,
        !(attempt(m, config, waits).1 is Started),
        runs(m.running, id) ==> attempt(m, config, waits).1 is Failed,
{
    lemma_found_id(m.config.tunnels, id);
}

/// The tunnel that is found under an id has that id.
proof fn lemma_found_id(tunnels: Seq<TunnelConfigView>, id: Seq<char>)
    ensures
        first_with_id(tunnels, id) matches Some(t) ==> t.id == id,
    decreases tunnels.len(),
{
    if tunnels.len() > 0 {
        lemma_found_id(tunnels.drop_first(), id);
    }
}

/// A start that does not succeed changes nothing, so that one tunnel that cannot
/// be started holds up no other. Nor does one that goes on after a wait.
pub proof fn failed_start_changes_nothing(
    m: ManagerView,
    id: Seq<char>,
    config: TunnelConfigView,
    waits: nat,
)
    ensures
        !(start(m, id).1 is Started) ==> start(m, id).0 == m,
        !(attempt(m, config, waits).1 is Started) ==> attempt(m, config, waits).0 == m,
{
}

/// A tunnel that is in the configuration, has a rule and is not registered
/// starts, and counts as running and connecting from then on.
pub proof fn start_succeeds(m: ManagerView, id: Seq<char>)
    requires
        first_with_id(m.config.tunnels, id) is Some,
        first_with_id(m.config.tunnels, id)->0.forwards.len() > 0,
        !m.running.contains_key(id),
    ensures
        start(m, id).1 == StartView::Started(
            first_with_id(m.config.tunnels, id)->0,
            m.next_token,
        ),
        runs(start(m, id).0.running, id),
        start(m, id).0.running[id].token == m.next_token,
        start(m, id).0.running[id].status is Connecting,
{
    lemma_found_id(m.config.tunnels, id);
}

/// A start waits for the last runtime only so often.
pub proof fn start_gives_up(m: ManagerView, config: TunnelConfigView, waits: nat)
    ensures
        attempt(m, config, waits).1 matches StartView::Wait(c, n) ==> c == config && n == waits + 1
            && n <= START_WAIT_MAX,
        waits >= START_WAIT_MAX ==> !(attempt(m, config, waits).1 is Wait),
{
}

/// How many steps a start of all tunnels takes at most.
pub open spec fn steps_left(all: StartAllView) -> int {
    (START_WAIT_MAX + 2) * all.left.len() + match all.waiting {
        Some((config, waits)) => START_WAIT_MAX + 1 - waits,
        None => 0,
    }
}

/// A start of all tunnels gets through the whole list, in order, whatever
/// becomes of each.
pub proof fn start_all_reaches_every_tunnel(m: ManagerView, all: StartAllView)
    requires
        all.waiting matches Some((config, waits)) ==> waits <= START_WAIT_MAX,
    ensures
        ({
            let (after, rest, r) = next_start(m, all);
            &&& rest.waiting matches Some((config, waits)) ==> waits <= START_WAIT_MAX
            &&& r is Done <==> all.waiting is None && all.left.len() == 0
            &&& !(r is Done) ==> 0 <= steps_left(rest) < steps_left(all)
            &&& rest.left == if all.waiting is None && all.left.len() > 0 {
                all.left.skip(1)
            } else {
                all.left
            }
        }),
{
}

/// Whether the tunnel `id` can be started.
pub open spec fn startable(m: ManagerView, id: Seq<char>) -> bool {
    first_with_id(m.config.tunnels, id) matches Some(t) && t.forwards.len() > 0
}

/// Whether the runtime of `id` is being torn down.
pub open spec fn torn_down(running: Running, id: Seq<char>) -> bool {
    running.contains_key(id) && running[id].stopped
}

/// Whether a start of all tunnels was walked through, from `walk[0]` to its end:
/// each place holds the registry and what was left to be started, and the next one
/// follows by one step. Between two steps anything may happen to the registry but
/// for the configuration and the entry of `id`.
pub open spec fn walked(walk: Seq<(ManagerView, StartAllView)>, id: Seq<char>) -> bool {
    &&& walk.len() > 0
    &&& walk[0].1 == all_to_start(walk[0].0.config.tunnels)
    &&& walk.last().1.waiting is None
    &&& walk.last().1.left.len() == 0
    &&& forall|i: int|
        0 <= i < walk.len() - 1 ==> follows(#[trigger] walk[i], walk[i + 1], id)
}

/// Whether `next` follows `place` by one step of a start of all tunnels.
pub open spec fn follows(
    place: (ManagerView, StartAllView),
    next: (ManagerView, StartAllView),
    id: Seq<char>,
) -> bool {
    let (after, rest, r) = next_start(place.0, place.1);
    &&& next.1 == rest
    &&& next.0.config == after.config
    &&& next.0.running.get(id) == after.running.get(id)
}

/// Whether a walk has started `id`, or is still to come to it.
spec fn on_the_way(place: (ManagerView, StartAllView), id: Seq<char>) -> bool {
    &&& startable(place.0, id)
    &&& !torn_down(place.0.running, id)
    &&& place.1.waiting matches Some((config, waits)) ==> config.id != id
    &&& runs(place.0.running, id) || place.1.left.contains(id)
}

proof fn lemma_on_the_way(walk: Seq<(ManagerView, StartAllView)>, id: Seq<char>, n: int)
    requires
        0 <= n < walk.len(),
        on_the_way(walk[0], id),
        forall|i: int|
            0 <= i < walk.len() - 1 ==> follows(#[trigger] walk[i], walk[i + 1], id),
    ensures
        on_the_way(walk[n], id),
    decreases n,
{
    if n > 0 {
        lemma_on_the_way(walk, id, n - 1);
        let (m, all) = walk[n - 1];
        assert(follows(walk[n - 1], walk[n - 1 + 1], id));
        let (after, rest, r) = next_start(m, all);
        assert(walk[n].0.running.get(id) == after.running.get(id));
        assert(walk[n].0.running.contains_key(id) == after.running.contains_key(id));
        if all.waiting is None && all.left.len() > 0 {
            lemma_found_id(m.config.tunnels, all.left[0]);
            if all.left.contains(id) && all.left[0] != id {
                let i = all.left.index_of(id);
                assert(all.left.skip(1)[i - 1] == id);
            }
        }
    }
}

/// Once a start of all tunnels is through, a tunnel of the list that has a rule
/// runs, unless its own last runtime was being torn down: whatever state the
/// others are in, whatever becomes of them, and whatever happens to them in
/// between.
pub proof fn start_all_starts_every_tunnel(
    walk: Seq<(ManagerView, StartAllView)>,
    id: Seq<char>,
)
    requires
        walked(walk, id),
        startable(walk[0].0, id),
        !torn_down(walk[0].0.running, id),
    ensures
        runs(walk.last().0.running, id),
{
    lemma_listed_is_found(walk[0].0.config.tunnels, id);
    lemma_on_the_way(walk, id, walk.len() - 1);
}

/// A tunnel is found under an id exactly where the list has the id.
pub proof fn lemma_listed_is_found(tunnels: Seq<TunnelConfigView>, id: Seq<char>)
    ensures
        first_with_id(tunnels, id) is Some <==> ids(tunnels).contains(id),
    decreases tunnels.len(),
{
    if tunnels.len() > 0 {
        let rest = tunnels.drop_first();
        lemma_listed_is_found(rest, id);
        if ids(rest).contains(id) {
            let i = ids(rest).index_of(id);
            assert(ids(tunnels)[i + 1] == id);
        }
        if ids(tunnels).contains(id) && tunnels[0].id != id {
            let i = ids(tunnels).index_of(id);
            assert(ids(rest)[i - 1] == id);
        }
        if tunnels[0].id == id {
            assert(ids(tunnels)[0] == id);
        }
    }
}

/// Tunnels do not affect each other: what is done to one leaves the entry of
/// every other as it was.
pub proof fn tunnels_are_independent(
    m: ManagerView,
    id: Seq<char>,
    other: Seq<char>,
    token: u64,
    metric: TunnelMetricView,
    config: TunnelConfigView,
    waits: nat,
)
    requires
        id != other,
        metric.id == id,
        config.id == id,
    ensures
        start(m, id).0.running.get(other) == m.running.get(other),
        attempt(m, config, waits).0.running.get(other) == m.running.get(other),
        with_stop(m.running, id).get(other) == m.running.get(other),
        published(m.running, metric).get(other) == m.running.get(other),
        unregistered(m.running, id, token).get(other) == m.running.get(other),
{
    lemma_found_id(m.config.tunnels, id);
}

/// Tokens are handed out in turn, and so no two runtimes share one unless 2^64
/// were started from the first to the second: the one that is handed out after
/// `n` others differs from it.
pub proof fn tokens_are_new(token: u64, n: nat)
    requires
        0 < n < 0x1_0000_0000_0000_0000,
    ensures
        counted(token, n) != token,
        counted(token, n) == token_after(counted(token, (n - 1) as nat)),
{
    lemma_counted_twice(token, (n - 1) as nat, 1);
}

/// A runtime that was replaced does not take out its successor: `earlier` is the
/// token of a runtime, and the tunnel's new one is the `n`-th that was started
/// after it.
pub proof fn successor_stays_registered(
    m: ManagerView,
    config: TunnelConfigView,
    waits: nat,
    earlier: u64,
    n: nat,
)
    requires
        attempt(m, config, waits).1 is Started,
        0 < n < 0x1_0000_0000_0000_0000,
        m.next_token == counted(earlier, n),
    ensures
        unregistered(attempt(m, config, waits).0.running, config.id, earlier) == attempt(
            m,
            config,
            waits,
        ).0.running,
{
    tokens_are_new(earlier, n);
}

/// Starting a tunnel, stopping it and letting its runtime leave restores the
/// registry, whatever was published in between.
pub proof fn stopped_tunnel_leaves_no_trace(
    m: ManagerView,
    id: Seq<char>,
    metric: TunnelMetricView,
)
    requires
        start(m, id).1 is Started,
        metric.id == id,
    ensures
        unregistered(
            with_stop(published(start(m, id).0.running, metric), id),
            id,
            m.next_token,
        ) == m.running,
{
    lemma_found_id(m.config.tunnels, id);
    assert(unregistered(
        with_stop(published(start(m, id).0.running, metric), id),
        id,
        m.next_token,
    ) =~= m.running);
}

/// What was asked to stop no longer counts as running, and a status that its
/// runtime still publishes does not bring it back.
pub proof fn stop_is_final(running: Running, id: Seq<char>, metric: TunnelMetricView)
    requires
        metric.id == id,
    ensures
        !runs(with_stop(running, id), id),
        !runs(published(with_stop(running, id), metric), id),
{
}

/// After a stop of everything nothing counts as running.
pub proof fn stop_all_stops_everything(running: Running)
    ensures
        active(with_all_stopped(running)) == Map::<Seq<char>, TunnelStatusView>::empty(),
        active_metrics(with_all_stopped(running)) == Map::<Seq<char>, TunnelMetricView>::empty(),
{
    assert(active(with_all_stopped(running)) =~= Map::<Seq<char>, TunnelStatusView>::empty());
    assert(active_metrics(with_all_stopped(running)) =~= Map::<
        Seq<char>,
        TunnelMetricView,
    >::empty());
}

/// What is shown of a running tunnel is what was last published for it.
pub proof fn published_status_is_shown(running: Running, metric: TunnelMetricView)
    requires
        runs(running, metric.id),
    ensures
        active(published(running, metric)) == active(running).insert(metric.id, metric.status),
        active_metrics(published(running, metric))[metric.id].status == metric.status,
        active_metrics(published(running, metric))[metric.id].name == metric.name,
{
    assert(active(published(running, metric)) =~= active(running).insert(
        metric.id,
        metric.status,
    ));
}

/// The tunnel that is found under an id is the first of the list that has it, and
/// none is found only where none has it.
pub proof fn first_is_found(tunnels: Seq<TunnelConfigView>, id: Seq<char>)
    ensures
        first_with_id(tunnels, id) matches Some(t) ==> exists|i: int|
            0 <= i < tunnels.len() && #[trigger] tunnels[i] == t && t.id == id && forall|j: int|
                0 <= j < i ==> (#[trigger] tunnels[j]).id != id,
        first_with_id(tunnels, id) is None ==> forall|i: int|
            0 <= i < tunnels.len() ==> (#[trigger] tunnels[i]).id != id,
    decreases tunnels.len(),
{
    if tunnels.len() > 0 && tunnels[0].id != id {
        let rest = tunnels.drop_first();
        first_is_found(rest, id);
        if let Some(t) = first_with_id(rest, id) {
            let i = choose|i: int|
                0 <= i < rest.len() && #[trigger] rest[i] == t && t.id == id && forall|j: int|
                    0 <= j < i ==> (#[trigger] rest[j]).id != id;
            assert(tunnels[i + 1] == t);
            assert forall|j: int| 0 <= j < i + 1 implies (#[trigger] tunnels[j]).id != id by {
                if j > 0 {
                    assert(rest[j - 1] == tunnels[j]);
                }
            }
        } else {
            assert forall|i: int| 0 <= i < tunnels.len() implies (#[trigger] tunnels[i]).id
                != id by {
                if i > 0 {
                    assert(rest[i - 1] == tunnels[i]);
                }
            }
        }
    } else if tunnels.len() > 0 {
        assert(tunnels[0] == first_with_id(tunnels, id)->0);
    }
}

/// A start of an id that no tunnel has fails, and says so.
pub proof fn unknown_tunnel_is_refused(m: ManagerView, id: Seq<char>)
    requires
        forall|i: int|
            0 <= i < m.config.tunnels.len() ==> (#[trigger] m.config.tunnels[i]).id != id,
    ensures
        start(m, id) == (m, StartView::Failed("未找到隧道: "@ + id)),
{
    first_is_found(m.config.tunnels, id);
}

/// What a start of a tunnel comes to, by its rules and by what is registered under
/// its id: it is refused where it has no rule or runs; it waits where its last
/// runtime is being torn down, whatever that one published last; else it is
/// registered as connecting, under its own name and the next token, and is to be
/// run with the configuration that was found. Nothing else changes.
pub proof fn start_depends_on_rules_and_registration(m: ManagerView, id: Seq<char>, i: int)
    requires
        0 <= i < m.config.tunnels.len(),
        m.config.tunnels[i].id == id,
        forall|j: int| 0 <= j < i ==> (#[trigger] m.config.tunnels[j]).id != id,
    ensures
        ({
            let t = m.config.tunnels[i];
            let (after, r) = start(m, id);
            &&& t.forwards.len() == 0 ==> after == m && r == StartView::Failed(
                "隧道 '"@ + t.name + "' 没有转发规则"@,
            )
            &&& t.forwards.len() > 0 && m.running.contains_key(id) && !m.running[id].stopped
                ==> after == m && r == StartView::Failed("隧道 '"@ + t.name + "' 已在运行"@)
            &&& t.forwards.len() > 0 && m.running.contains_key(id) && m.running[id].stopped
                ==> after == m && r == StartView::Wait(t, 1)
            &&& t.forwards.len() > 0 && !m.running.contains_key(id) ==> {
                &&& r == StartView::Started(t, m.next_token)
                &&& is_registered(m, after, t)
            }
        }),
{
    lemma_first_with_id(m.config.tunnels, id, i);
}

/// Whether a runtime of `t` was added to the registry, as connecting, under the
/// tunnel's name and the next token, and nothing else changed.
pub open spec fn is_registered(m: ManagerView, after: ManagerView, t: TunnelConfigView) -> bool {
    &&& after.running.contains_key(t.id)
    &&& !after.running[t.id].stopped
    &&& after.running[t.id].status is Connecting
    &&& after.running[t.id].name == t.name
    &&& after.running[t.id].token == m.next_token
    &&& after.config == m.config
    &&& after.next_token as int == if m.next_token == u64::MAX {
        0
    } else {
        m.next_token + 1
    }
    &&& forall|other: Seq<char>|
        other != t.id ==> #[trigger] after.running.get(other) == m.running.get(other)
}

/// What a start that has waited comes to. While its last runtime is still being
/// torn down it waits on, whatever that one published last, until it has waited
/// sixty times; then it is refused. Once the runtime has left, it is registered.
pub proof fn waiting_start_goes_on(m: ManagerView, t: TunnelConfigView, waits: nat)
    ensures
        ({
            let (after, r) = attempt(m, t, waits);
            &&& m.running.contains_key(t.id) && m.running[t.id].stopped && waits < 60 ==> after == m
                && r == StartView::Wait(t, waits + 1)
            &&& m.running.contains_key(t.id) && m.running[t.id].stopped && waits >= 60 ==> after
                == m && r == StartView::Failed("隧道 '"@ + t.name + "' 仍在停止中,请稍后重试"@)
            &&& m.running.contains_key(t.id) && !m.running[t.id].stopped ==> after == m && r
                == StartView::Failed("隧道 '"@ + t.name + "' 已在运行"@)
            &&& !m.running.contains_key(t.id) ==> r == StartView::Started(t, m.next_token)
                && is_registered(m, after, t)
        }),
{
}

/// A tunnel that was stopped can be started again at once: the start waits, and
/// goes on waiting until the runtime that is being torn down has left; if that is
/// by the time it has waited sixty times, it then starts the tunnel. It does not
/// matter what that runtime published last, nor what it publishes while it leaves.
pub proof fn stopped_tunnel_starts_again(
    m: ManagerView,
    id: Seq<char>,
    i: int,
    waits: nat,
    metric: TunnelMetricView,
)
    requires
        0 <= i < m.config.tunnels.len(),
        m.config.tunnels[i].id == id,
        forall|j: int| 0 <= j < i ==> (#[trigger] m.config.tunnels[j]).id != id,
        m.config.tunnels[i].forwards.len() > 0,
        m.running.contains_key(id),
        1 <= waits <= 60,
        metric.id == id,
    ensures
        ({
            let t = m.config.tunnels[i];
            let stopped = ManagerView { running: with_stop(m.running, id), ..m };
            let leaving = ManagerView { running: published(stopped.running, metric), ..m };
            let left = ManagerView {
                running: unregistered(leaving.running, id, m.running[id].token),
                ..m
            };
            &&& start(stopped, id) == (stopped, StartView::Wait(t, 1))
            &&& waits < 60 ==> attempt(leaving, t, waits) == (
                leaving,
                StartView::Wait(t, waits + 1),
            )
            &&& attempt(left, t, waits).1 == StartView::Started(t, m.next_token)
            &&& attempt(left, t, waits).0.running.contains_key(id)
            &&& !attempt(left, t, waits).0.running[id].stopped
        }),
{
    lemma_first_with_id(m.config.tunnels, id, i);
}

/// A tunnel counts as running where it is registered and no stop was asked for; its
/// runtime has to stop where it does not, or where another one is registered.
pub proof fn running_means_registered_and_not_stopped(
    running: Running,
    id: Seq<char>,
    token: u64,
)
    ensures
        runs(running, id) <==> running.contains_key(id) && !running[id].stopped,
        must_stop(running, id, token) <==> !running.contains_key(id) || running[id].stopped
            || running[id].token != token,
        torn_down(running, id) <==> running.contains_key(id) && running[id].stopped,
{
}

/// Whether one entry is another of which at most the stop flag was set.
pub open spec fn only_stopped(after: RunningView, before: RunningView) -> bool {
    &&& after.stopped
    &&& after.token == before.token
    &&& after.status == before.status
    &&& after.name == before.name
}

/// A stop sets the flag of the tunnel that it is asked for, and of no other, and
/// changes nothing else; a stop of everything sets all of them; and pruning sets
/// those of the tunnels that are not kept.
pub proof fn stops_set_flags_only(
    running: Running,
    id: Seq<char>,
    other: Seq<char>,
    keep: Seq<Seq<char>>,
)
    ensures
        with_stop(running, id).contains_key(other) <==> running.contains_key(other),
        with_all_stopped(running).contains_key(other) <==> running.contains_key(other),
        pruned(running, keep).contains_key(other) <==> running.contains_key(other),
        running.contains_key(id) ==> only_stopped(with_stop(running, id)[id], running[id]),
        running.contains_key(other) && other != id ==> with_stop(running, id)[other]
            == running[other],
        running.contains_key(other) ==> only_stopped(
            with_all_stopped(running)[other],
            running[other],
        ),
        running.contains_key(other) && keep.contains(other) ==> pruned(running, keep)[other]
            == running[other],
        running.contains_key(other) && !keep.contains(other) ==> only_stopped(
            pruned(running, keep)[other],
            running[other],
        ),
{
}

/// Names follow the list: a registered tunnel takes over the name that the first
/// tunnel with its id has there, and keeps its own where there is none; nothing
/// else changes.
pub proof fn names_follow_the_list(
    running: Running,
    tunnels: Seq<TunnelConfigView>,
    id: Seq<char>,
    i: int,
)
    ensures
        renamed(running, tunnels).contains_key(id) <==> running.contains_key(id),
        running.contains_key(id) ==> {
            let (after, before) = (renamed(running, tunnels)[id], running[id]);
            &&& after.token == before.token
            &&& after.stopped == before.stopped
            &&& after.status == before.status
            &&& 0 <= i < tunnels.len() && tunnels[i].id == id && (forall|j: int|
                0 <= j < i ==> (#[trigger] tunnels[j]).id != id) ==> after.name == tunnels[i].name
            &&& (forall|j: int| 0 <= j < tunnels.len() ==> (#[trigger] tunnels[j]).id != id)
                ==> after.name == before.name
        },
{
    first_is_found(tunnels, id);
    if 0 <= i < tunnels.len() && tunnels[i].id == id && (forall|j: int|
        0 <= j < i ==> (#[trigger] tunnels[j]).id != id) {
        lemma_first_with_id(tunnels, id, i);
    }
}

/// What is published sets the status and the name of the tunnel that it is said of,
/// if that is registered; nothing else changes.
pub proof fn publishing_sets_status_and_name(
    running: Running,
    metric: TunnelMetricView,
    other: Seq<char>,
)
    ensures
        published(running, metric).contains_key(other) <==> running.contains_key(other),
        running.contains_key(other) && other != metric.id ==> published(running, metric)[other]
            == running[other],
        running.contains_key(metric.id) ==> {
            let (after, before) = (published(running, metric)[metric.id], running[metric.id]);
            &&& after.status == metric.status
            &&& after.name == metric.name
            &&& after.token == before.token
            &&& after.stopped == before.stopped
        },
{
}

/// A runtime that leaves takes out the entry of its tunnel if that is its own, and
/// no other.
pub proof fn leaving_takes_out_ones_own_entry(
    running: Running,
    id: Seq<char>,
    token: u64,
    other: Seq<char>,
)
    ensures
        unregistered(running, id, token).contains_key(other) <==> running.contains_key(other) && !(
        other == id && running[id].token == token),
        unregistered(running, id, token).contains_key(other) ==> unregistered(
            running,
            id,
            token,
        )[other] == running[other],
{
}

/// What is told of running tunnels is told of each that is registered and was not
/// asked to stop, and of no other: its status and its name as they are registered.
pub proof fn running_tunnels_are_shown_as_registered(running: Running, id: Seq<char>)
    ensures
        active(running).contains_key(id) <==> running.contains_key(id) && !running[id].stopped,
        active_metrics(running).contains_key(id) <==> running.contains_key(id)
            && !running[id].stopped,
        active(running).contains_key(id) ==> active(running)[id] == running[id].status,
        active_metrics(running).contains_key(id) ==> {
            let m = active_metrics(running)[id];
            &&& m.id == id
            &&& m.name == running[id].name
            &&& m.status == running[id].status
            &&& m.rx_bytes_per_sec == 0
            &&& m.tx_bytes_per_sec == 0
        },
{
}

/// A start of all tunnels has all of them before it, in the order of the list, and
/// waits for none.
pub proof fn every_tunnel_is_to_be_started(tunnels: Seq<TunnelConfigView>, i: int)
    ensures
        all_to_start(tunnels).waiting is None,
        all_to_start(tunnels).left.len() == tunnels.len(),
        0 <= i < tunnels.len() ==> all_to_start(tunnels).left[i] == tunnels[i].id,
{
}

/// What is told of running tunnels is told in the pairs that are listed, and each
/// pair is told as it stands.
pub proof fn nothing_is_lost_in_a_list(
    statuses: Seq<(String, TunnelStatus)>,
    metrics: Seq<TunnelMetric>,
    i: int,
)
    ensures
        status_pairs(statuses).len() == statuses.len(),
        0 <= i < statuses.len() ==> status_pairs(statuses)[i].0 == statuses[i].0@ && status_pairs(
            statuses,
        )[i].1 == statuses[i].1@,
        metric_pairs(metrics).len() == metrics.len(),
        0 <= i < metrics.len() ==> metric_pairs(metrics)[i].0 == metrics[i].id@ && metric_pairs(
            metrics,
        )[i].1 == metrics[i]@,
{
}

/// One step of a start of all tunnels is a start of the next tunnel, or of the one
/// that waits: what it comes to is what that start comes to, and only a start that
/// has to wait is not settled by it.
pub proof fn each_step_starts_one_tunnel(m: ManagerView, all: StartAllView)
    ensures
        ({
            let (after, rest, r) = next_start(m, all);
            let outcome = match all.waiting {
                Some((config, waits)) => attempt(m, config, waits),
                None => start(m, all.left[0]),
            };
            if all.waiting is None && all.left.len() == 0 {
                after == m && rest == all && r is Done
            } else {
                &&& after == outcome.0
                &&& rest.left == if all.waiting is None {
                    all.left.skip(1)
                } else {
                    all.left
                }
                &&& match outcome.1 {
                    StartView::Started(config, token) => r == StartNextView::Started(config, token)
                        && rest.waiting is None,
                    StartView::Wait(config, waits) => r is Wait && rest.waiting == Some(
                        (config, waits),
                    ),
                    StartView::Failed(message) => r == StartNextView::Failed(message)
                        && rest.waiting is None,
                }
            }
        }),
{
}

/// A start waits for the last runtime in steps of a twentieth of a second, and three
/// seconds in all.
pub proof fn start_waits_three_seconds()
    ensures
        20 * START_WAIT_MS == 1000,
        START_WAIT_MAX * START_WAIT_MS == 3000,
{
}

/// What stands for a step of a start holds all that it says.
pub proof fn nothing_is_lost_in_a_start(r: Result<StartStep, String>, next: StartNext)
    ensures
        match r {
            Ok(StartStep::Started(config, token)) => start_view(r) == StartView::Started(
                config@,
                token,
            ),
            Ok(StartStep::Wait(pending)) => start_view(r) == StartView::Wait(
                pending.tunnel(),
                pending.waits(),
            ),
            Err(message) => start_view(r) == StartView::Failed(message@),
        },
        match next {
            StartNext::Started(config, token) => next@ == StartNextView::Started(config@, token),
            StartNext::Wait => next@ is Wait,
            StartNext::Failed(message) => next@ == StartNextView::Failed(message@),
            StartNext::Done => next@ is Done,
        },
{
}

} // verus!
