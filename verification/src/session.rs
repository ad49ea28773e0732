//! How a session with the SSH server is established: connect, then log in with
//! a password or a key, all within one time limit.
use crate::config::{clone_optional, optional_text, AuthMethod, AuthMethodView};
use crate::config::TunnelConfigView;
use crate::runtime::TunnelRuntime;
use vstd::prelude::*;

verus! {

/// How long one attempt may take in all, connection and login together. When it
/// has passed, the attempt is told so by [`SessionEvent::TimedOut`].
pub const ATTEMPT_TIMEOUT_SECS: u64 = 15;

/// How often a quiet session is probed.
pub const KEEPALIVE_INTERVAL_SECS: u64 = 15;

/// How many probes may go unanswered.
pub const KEEPALIVE_MAX: usize = 3;

/// Where an attempt at a session stands: what it waits for.
#[derive(Debug, Clone, Copy, PartialEq, Eq, Structural)]
pub enum SessionPhase {
    /// The connection.
    Connecting,
    /// The private key.
    LoadingKey,
    /// The server's answer to the login.
    LoggingIn,
    /// Nothing: the attempt has succeeded or failed.
    Over,
}

/// What happened on the way to a session. Failures carry their cause.
#[derive(Debug)]
pub enum SessionEvent {
    /// The time for the whole attempt has passed.
    TimedOut(String),
    ConnectFailed(String),
    Connected,
    KeyFailed(String),
    KeyLoaded,
    AuthFailed(String),
    AuthAnswered(bool),
}

#[verifier::ext_equal]
pub enum SessionEventView {
    TimedOut(Seq<char>),
    ConnectFailed(Seq<char>),
    Connected,
    KeyFailed(Seq<char>),
    KeyLoaded,
    AuthFailed(Seq<char>),
    AuthAnswered(bool),
}

impl View for SessionEvent {
    type V = SessionEventView;

    open spec fn view(&self) -> SessionEventView {
        match *self {
            SessionEvent::TimedOut(cause) => SessionEventView::TimedOut(cause@),
            SessionEvent::ConnectFailed(cause) => SessionEventView::ConnectFailed(cause@),
            SessionEvent::Connected => SessionEventView::Connected,
            SessionEvent::KeyFailed(cause) => SessionEventView::KeyFailed(cause@),
            SessionEvent::KeyLoaded => SessionEventView::KeyLoaded,
            SessionEvent::AuthFailed(cause) => SessionEventView::AuthFailed(cause@),
            SessionEvent::AuthAnswered(accepted) => SessionEventView::AuthAnswered(accepted),
        }
    }
}

/// What to do next on the way to a session.
#[derive(Debug, PartialEq, Eq)]
pub enum SessionAction {
    SendPassword { user: String, password: String },
    LoadKey { path: String, passphrase: Option<String> },
    SendKey { user: String },
    Ready,
    Fail(String),
    /// Wait for what was waited for before.
    Again,
}

#[verifier::ext_equal]
pub enum SessionActionView {
    SendPassword { user: Seq<char>, password: Seq<char> },
    LoadKey { path: Seq<char>, passphrase: Option<Seq<char>> },
    SendKey { user: Seq<char> },
    Ready,
    Fail(Seq<char>),
    Again,
}

impl View for SessionAction {
    type V = SessionActionView;

    open spec fn view(&self) -> SessionActionView {
        match *self {
            SessionAction::SendPassword { user, password } => SessionActionView::SendPassword {
                user: user@,
                password: password@,
            },
            SessionAction::LoadKey { path, passphrase } => SessionActionView::LoadKey {
                path: path@,
                passphrase: optional_text(passphrase),
            },
            SessionAction::SendKey { user } => SessionActionView::SendKey { user: user@ },
            SessionAction::Ready => SessionActionView::Ready,
            SessionAction::Fail(message) => SessionActionView::Fail(message@),
            SessionAction::Again => SessionActionView::Again,
        }
    }
}

/// A failure with its cause.
pub open spec fn caused(what: Seq<char>, cause: Seq<char>) -> Seq<char> {
    what + ": "@ + cause
}

/// The end of an attempt that failed.
pub open spec fn failed(what: Seq<char>, cause: Seq<char>) -> (SessionPhase, SessionActionView) {
    (SessionPhase::Over, SessionActionView::Fail(caused(what, cause)))
}

/// What follows an event in an attempt at a session of `config` that stands in
/// `phase`. What the attempt does not wait for changes nothing.
pub open spec fn session_step(
    config: TunnelConfigView,
    phase: SessionPhase,
    event: SessionEventView,
) -> (SessionPhase, SessionActionView) {
    match (phase, event) {
        (SessionPhase::Over, _) => (phase, SessionActionView::Again),
        (_, SessionEventView::TimedOut(cause)) => failed("SSH connection timed out"@, cause),
        (SessionPhase::Connecting, SessionEventView::ConnectFailed(cause)) => failed(
            "SSH connection failed"@,
            cause,
        ),
        (SessionPhase::Connecting, SessionEventView::Connected) => match config.auth_method {
            AuthMethodView::Password { password } => (
                SessionPhase::LoggingIn,
                SessionActionView::SendPassword { user: config.ssh_user, password },
            ),
            AuthMethodView::Key { private_key_path, passphrase } => (
                SessionPhase::LoadingKey,
                SessionActionView::LoadKey { path: private_key_path, passphrase },
            ),
        },
        (SessionPhase::LoadingKey, SessionEventView::KeyFailed(cause)) => failed(
            "Failed to load private key"@,
            cause,
        ),
        (SessionPhase::LoadingKey, SessionEventView::KeyLoaded) => (
            SessionPhase::LoggingIn,
            SessionActionView::SendKey { user: config.ssh_user },
        ),
        (SessionPhase::LoggingIn, SessionEventView::AuthFailed(cause)) => failed(
            match config.auth_method {
                AuthMethodView::Password { .. } => "Password authentication failed"@,
                AuthMethodView::Key { .. } => "Public key authentication failed"@,
            },
            cause,
        ),
        (SessionPhase::LoggingIn, SessionEventView::AuthAnswered(accepted)) => (
            SessionPhase::Over,
            if accepted {
                SessionActionView::Ready
            } else {
                SessionActionView::Fail("SSH authentication rejected"@)
            },
        ),
        _ => (phase, SessionActionView::Again),
    }
}

fn fail(what: &str, cause: &String) -> (a: SessionAction)
    ensures
        a@ == SessionActionView::Fail(caused(what@, cause@)),
{
    SessionAction::Fail(what.to_owned().concat(": ").concat(cause.as_str()))
}

impl TunnelRuntime {
    /// What follows an event in an attempt at a session. An attempt begins in
    /// [`SessionPhase::Connecting`].
    pub fn build_session(&self, phase: &mut SessionPhase, event: SessionEvent) -> (a: SessionAction)
        ensures
            (*final(phase), a@) == session_step(self.tunnel(), *old(phase), event@),
    {
        let config = self.config();
        match (*phase, event) {
            (SessionPhase::Over, _) => SessionAction::Again,
            (_, SessionEvent::TimedOut(cause)) => {
                *phase = SessionPhase::Over;
                fail("SSH connection timed out", &cause)
            },
            (SessionPhase::Connecting, SessionEvent::ConnectFailed(cause)) => {
                *phase = SessionPhase::Over;
                fail("SSH connection failed", &cause)
            },
            (SessionPhase::Connecting, SessionEvent::Connected) => match &config.auth_method {
                AuthMethod::Password { password } => {
                    *phase = SessionPhase::LoggingIn;
                    SessionAction::SendPassword {
                        user: config.ssh_user.clone(),
                        password: password.clone(),
                    }
                },
                AuthMethod::Key { private_key_path, passphrase } => {
                    *phase = SessionPhase::LoadingKey;
                    SessionAction::LoadKey {
                        path: private_key_path.clone(),
                        passphrase: clone_optional(passphrase),
                    }
                },
            },
            (SessionPhase::LoadingKey, SessionEvent::KeyFailed(cause)) => {
                *phase = SessionPhase::Over;
                fail("Failed to load private key", &cause)
            },
            (SessionPhase::LoadingKey, SessionEvent::KeyLoaded) => {
                *phase = SessionPhase::LoggingIn;
                SessionAction::SendKey { user: config.ssh_user.clone() }
            },
            (SessionPhase::LoggingIn, SessionEvent::AuthFailed(cause)) => {
                *phase = SessionPhase::Over;
                match &config.auth_method {
                    AuthMethod::Password { .. } => fail("Password authentication failed", &cause),
                    AuthMethod::Key { .. } => fail("Public key authentication failed", &cause),
                }
            },
            (SessionPhase::LoggingIn, SessionEvent::AuthAnswered(accepted)) => {
                *phase = SessionPhase::Over;
                if accepted {
                    SessionAction::Ready
                } else {
                    SessionAction::Fail("SSH authentication rejected".to_owned())
                }
            },
            _ => SessionAction::Again,
        }
    }
}

/// Where an attempt stands after a series of events.
pub open spec fn phase_after(
    config: TunnelConfigView,
    events: Seq<SessionEventView>,
) -> SessionPhase
    decreases events.len(),
{
    if events.len() == 0 {
        SessionPhase::Connecting
    } else {
        session_step(config, phase_after(config, events.drop_last()), events.last()).0
    }
}

/// What an attempt does at the `i`-th of a series of events.
pub open spec fn action_at(
    config: TunnelConfigView,
    events: Seq<SessionEventView>,
    i: int,
) -> SessionActionView {
    session_step(config, phase_after(config, events.take(i)), events[i]).1
}

/// What a tunnel logs in with, as its own user and by its own method.
pub open spec fn login(config: TunnelConfigView) -> SessionActionView {
    match config.auth_method {
        AuthMethodView::Password { password } => SessionActionView::SendPassword {
            user: config.ssh_user,
            password,
        },
        AuthMethodView::Key { .. } => SessionActionView::SendKey { user: config.ssh_user },
    }
}

/// What an attempt has done by the time it stands where it stands.
proof fn lemma_way_so_far(config: TunnelConfigView, events: Seq<SessionEventView>)
    ensures
        match phase_after(config, events) {
            SessionPhase::Connecting => true,
            SessionPhase::LoadingKey => config.auth_method is Key && exists|i: int|
                0 <= i < events.len() && #[trigger] action_at(config, events, i) is LoadKey,
            SessionPhase::LoggingIn => exists|i: int|
                0 <= i < events.len() && #[trigger] action_at(config, events, i) == login(config),
            SessionPhase::Over => true,
        },
    decreases events.len(),
{
    if events.len() > 0 {
        let n = events.len() - 1;
        let before = events.drop_last();
        lemma_way_so_far(config, before);
        assert(events.take(n) =~= before);
        assert(action_at(config, events, n) == session_step(
            config,
            phase_after(config, before),
            events.last(),
        ).1);
        assert forall|i: int| 0 <= i < n implies #[trigger] action_at(config, before, i)
            == action_at(config, events, i) by {
            assert(before.take(i) =~= events.take(i));
        }
    }
}

/// The order of a login, over every series of events. A session is ready only
/// where the server has just accepted a login that was sent before; a tunnel logs
/// in as its own user and by its own method alone; and a key is sent only once it
/// was loaded.
pub proof fn session_needs_the_servers_consent(
    config: TunnelConfigView,
    events: Seq<SessionEventView>,
    n: int,
)
    requires
        0 <= n < events.len(),
    ensures
        action_at(config, events, n) is Ready ==> {
            &&& events[n] == SessionEventView::AuthAnswered(true)
            &&& exists|i: int|
                0 <= i < n && #[trigger] action_at(config, events, i) == login(config)
        },
        action_at(config, events, n) is SendPassword || action_at(config, events, n) is SendKey
            ==> action_at(config, events, n) == login(config),
        action_at(config, events, n) is SendKey ==> {
            &&& config.auth_method is Key
            &&& events[n] is KeyLoaded
            &&& exists|i: int| 0 <= i < n && #[trigger] action_at(config, events, i) is LoadKey
        },
        action_at(config, events, n) matches SessionActionView::LoadKey { path, passphrase }
            ==> config.auth_method == (AuthMethodView::Key { private_key_path: path, passphrase }),
{
    let before = events.take(n);
    lemma_way_so_far(config, before);
    assert forall|i: int| 0 <= i < n implies #[trigger] action_at(config, before, i) == action_at(
        config,
        events,
        i,
    ) by {
        assert(before.take(i) =~= events.take(i));
    }
}

/// The time limit holds for the whole attempt: once it has passed, the attempt
/// has failed, whether it was connecting, loading the key or logging in.
pub proof fn time_limit_covers_the_whole_attempt(
    config: TunnelConfigView,
    phase: SessionPhase,
    cause: Seq<char>,
)
    requires
        phase != SessionPhase::Over,
    ensures
        session_step(config, phase, SessionEventView::TimedOut(cause)) == (
            SessionPhase::Over,
            SessionActionView::Fail(caused("SSH connection timed out"@, cause)),
        ),
{
}

/// An attempt is over exactly where it has become ready or failed, and then
/// nothing more is done.
pub proof fn attempt_is_decided_once(
    config: TunnelConfigView,
    phase: SessionPhase,
    event: SessionEventView,
)
    ensures
        ({
            let (next, action) = session_step(config, phase, event);
            &&& phase == SessionPhase::Over ==> next == SessionPhase::Over && action is Again
            &&& phase != SessionPhase::Over ==> (next == SessionPhase::Over <==> action is Ready
                || action is Fail)
        }),
{
}

/// How an attempt goes on once it is connected: by the tunnel's own method, with
/// the tunnel's own user, password, key and passphrase.
pub proof fn login_is_the_tunnels_own(config: TunnelConfigView)
    ensures
        ({
            let (next, action) = session_step(
                config,
                SessionPhase::Connecting,
                SessionEventView::Connected,
            );
            match config.auth_method {
                AuthMethodView::Password { password } => {
                    &&& next == SessionPhase::LoggingIn
                    &&& action is SendPassword
                    &&& action->SendPassword_user == config.ssh_user
                    &&& action->SendPassword_password == password
                },
                AuthMethodView::Key { private_key_path, passphrase } => {
                    &&& next == SessionPhase::LoadingKey
                    &&& action is LoadKey
                    &&& action->LoadKey_path == private_key_path
                    &&& action->LoadKey_passphrase == passphrase
                },
            }
        }),
        ({
            let (next, action) = session_step(
                config,
                SessionPhase::LoadingKey,
                SessionEventView::KeyLoaded,
            );
            &&& next == SessionPhase::LoggingIn
            &&& action is SendKey
            &&& action->SendKey_user == config.ssh_user
        }),
        session_step(config, SessionPhase::LoggingIn, SessionEventView::AuthAnswered(true)) == (
            SessionPhase::Over,
            SessionActionView::Ready,
        ),
{
}

/// Each failure ends the attempt, and says what failed and why.
pub proof fn failures_name_their_cause(config: TunnelConfigView, cause: Seq<char>)
    ensures
        session_step(config, SessionPhase::Connecting, SessionEventView::ConnectFailed(cause)) == (
            SessionPhase::Over,
            SessionActionView::Fail("SSH connection failed"@ + ": "@ + cause),
        ),
        session_step(config, SessionPhase::LoadingKey, SessionEventView::KeyFailed(cause)) == (
            SessionPhase::Over,
            SessionActionView::Fail("Failed to load private key"@ + ": "@ + cause),
        ),
        config.auth_method is Password ==> session_step(
            config,
            SessionPhase::LoggingIn,
            SessionEventView::AuthFailed(cause),
        ) == (
            SessionPhase::Over,
            SessionActionView::Fail("Password authentication failed"@ + ": "@ + cause),
        ),
        config.auth_method is Key ==> session_step(
            config,
            SessionPhase::LoggingIn,
            SessionEventView::AuthFailed(cause),
        ) == (
            SessionPhase::Over,
            SessionActionView::Fail("Public key authentication failed"@ + ": "@ + cause),
        ),
        session_step(config, SessionPhase::LoggingIn, SessionEventView::AuthAnswered(false)) == (
            SessionPhase::Over,
            SessionActionView::Fail("SSH authentication rejected"@),
        ),
        forall|phase: SessionPhase|
            phase != SessionPhase::Over ==> #[trigger] session_step(
                config,
                phase,
                SessionEventView::TimedOut(cause),
            ) == (
                SessionPhase::Over,
                SessionActionView::Fail("SSH connection timed out"@ + ": "@ + cause),
            ),
{
}

/// What an attempt does not wait for changes nothing.
pub proof fn attempt_ignores_the_rest(
    config: TunnelConfigView,
    phase: SessionPhase,
    event: SessionEventView,
)
    requires
        match phase {
            SessionPhase::Connecting => !(event is TimedOut) && !(event is ConnectFailed) && !(
            event is Connected),
            SessionPhase::LoadingKey => !(event is TimedOut) && !(event is KeyFailed) && !(
            event is KeyLoaded),
            SessionPhase::LoggingIn => !(event is TimedOut) && !(event is AuthFailed) && !(
            event is AuthAnswered),
            SessionPhase::Over => true,
        },
    ensures
        session_step(config, phase, event) == (phase, SessionActionView::Again),
{
}

/// An attempt depends on nothing of its tunnel but the user and the method.
pub proof fn only_user_and_method_matter(
    a: TunnelConfigView,
    b: TunnelConfigView,
    phase: SessionPhase,
    event: SessionEventView,
)
    requires
        a.ssh_user == b.ssh_user,
        a.auth_method == b.auth_method,
    ensures
        session_step(a, phase, event) == session_step(b, phase, event),
{
}

/// What stands for an event or an action holds all that it says.
pub proof fn nothing_is_lost_in_an_attempt(event: SessionEvent, action: SessionAction)
    ensures
        match event {
            SessionEvent::TimedOut(cause) => event@ == SessionEventView::TimedOut(cause@),
            SessionEvent::ConnectFailed(cause) => event@ == SessionEventView::ConnectFailed(cause@),
            SessionEvent::KeyFailed(cause) => event@ == SessionEventView::KeyFailed(cause@),
            SessionEvent::AuthFailed(cause) => event@ == SessionEventView::AuthFailed(cause@),
            SessionEvent::AuthAnswered(b) => event@ == SessionEventView::AuthAnswered(b),
            SessionEvent::Connected => event@ is Connected,
            SessionEvent::KeyLoaded => event@ is KeyLoaded,
        },
        match action {
            SessionAction::SendPassword { user, password } => action@ is SendPassword
                && action@->SendPassword_user == user@ && action@->SendPassword_password
                == password@,
            SessionAction::LoadKey { path, passphrase } => {
                &&& action@ is LoadKey
                &&& action@->LoadKey_path == path@
                &&& passphrase is None <==> action@->LoadKey_passphrase is None
                &&& passphrase matches Some(words) ==> action@->LoadKey_passphrase == Some(words@)
            },
            SessionAction::SendKey { user } => action@ is SendKey && action@->SendKey_user == user@,
            SessionAction::Fail(message) => action@ == SessionActionView::Fail(message@),
            SessionAction::Ready => action@ is Ready,
            SessionAction::Again => action@ is Again,
        },
{
}

/// An attempt may take as long as a quiet session is left alone, a quarter of a
/// minute, and unanswered probes are borne for three times as long.
pub proof fn patience_is_a_quarter_of_a_minute()
    ensures
        4 * ATTEMPT_TIMEOUT_SECS == 60,
        KEEPALIVE_INTERVAL_SECS == ATTEMPT_TIMEOUT_SECS,
        KEEPALIVE_MAX * KEEPALIVE_INTERVAL_SECS == 45,
{
}

} // verus!
