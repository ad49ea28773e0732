//! The data model: tunnels, their forward rules, and the saved configuration.
use crate::secret::{can_be_sealed, is_sealed, seal, unseal, unsealed_text};
use vstd::prelude::*;

verus! {

/// One forward rule: a local port and the address that the SSH server reaches
/// for it.
#[derive(Debug)]
pub struct ForwardRule {
    pub local_port: u16,
    pub target_host: String,
    pub target_port: u16,
}

#[verifier::ext_equal]
pub struct ForwardRuleView {
    pub local_port: u16,
    pub target_host: Seq<char>,
    pub target_port: u16,
}

impl View for ForwardRule {
    type V = ForwardRuleView;

    open spec fn view(&self) -> ForwardRuleView {
        ForwardRuleView {
            local_port: self.local_port,
            target_host: self.target_host@,
            target_port: self.target_port,
        }
    }
}

impl Clone for ForwardRule {
    fn clone(&self) -> (r: ForwardRule)
        ensures
            r@ == self@,
    {
        ForwardRule {
            local_port: self.local_port,
            target_host: self.target_host.clone(),
            target_port: self.target_port,
        }
    }
}

/// The rules as values.
pub open spec fn rules(s: Seq<ForwardRule>) -> Seq<ForwardRuleView> {
    s.map_values(|r: ForwardRule| r@)
}

/// How a tunnel logs in.
#[derive(Debug)]
pub enum AuthMethod {
    Password { password: String },
    Key { private_key_path: String, passphrase: Option<String> },
}

#[verifier::ext_equal]
pub enum AuthMethodView {
    Password { password: Seq<char> },
    Key { private_key_path: Seq<char>, passphrase: Option<Seq<char>> },
}

/// The text in an optional string.
pub open spec fn optional_text(s: Option<String>) -> Option<Seq<char>> {
    match s {
        Some(text) => Some(text@),
        None => None,
    }
}

impl View for AuthMethod {
    type V = AuthMethodView;

    open spec fn view(&self) -> AuthMethodView {
        match *self {
            AuthMethod::Password { password } => AuthMethodView::Password { password: password@ },
            AuthMethod::Key { private_key_path, passphrase } => AuthMethodView::Key {
                private_key_path: private_key_path@,
                passphrase: optional_text(passphrase),
            },
        }
    }
}

/// A copy of an optional string.
pub fn clone_optional(s: &Option<String>) -> (r: Option<String>)
    ensures
        optional_text(r) == optional_text(*s),
{
    match s {
        Some(text) => Some(text.clone()),
        None => None,
    }
}

impl Clone for AuthMethod {
    fn clone(&self) -> (r: AuthMethod)
        ensures
            r@ == self@,
    {
        match self {
            AuthMethod::Password { password } => AuthMethod::Password {
                password: password.clone(),
            },
            AuthMethod::Key { private_key_path, passphrase } => AuthMethod::Key {
                private_key_path: private_key_path.clone(),
                passphrase: clone_optional(passphrase),
            },
        }
    }
}

/// One tunnel: an SSH host and the rules that it forwards.
///
/// `local_port`, `target_host` and `target_port` are the rule of a tunnel that
/// was saved with one rule only; `forwards` are the rules that are served.
#[derive(Debug)]
pub struct TunnelConfig {
    pub id: String,
    pub name: String,
    pub ssh_host: String,
    pub ssh_port: u16,
    pub ssh_user: String,
    pub auth_method: AuthMethod,
    pub local_port: u16,
    pub target_host: String,
    pub target_port: u16,
    pub enabled: bool,
    pub forwards: Vec<ForwardRule>,
}

#[verifier::ext_equal]
pub struct TunnelConfigView {
    pub id: Seq<char>,
    pub name: Seq<char>,
    pub ssh_host: Seq<char>,
    pub ssh_port: u16,
    pub ssh_user: Seq<char>,
    pub auth_method: AuthMethodView,
    pub local_port: u16,
    pub target_host: Seq<char>,
    pub target_port: u16,
    pub enabled: bool,
    pub forwards: Seq<ForwardRuleView>,
}

impl View for TunnelConfig {
    type V = TunnelConfigView;

    open spec fn view(&self) -> TunnelConfigView {
        TunnelConfigView {
            id: self.id@,
            name: self.name@,
            ssh_host: self.ssh_host@,
            ssh_port: self.ssh_port,
            ssh_user: self.ssh_user@,
            auth_method: self.auth_method@,
            local_port: self.local_port,
            target_host: self.target_host@,
            target_port: self.target_port,
            enabled: self.enabled,
            forwards: rules(self.forwards@),
        }
    }
}

impl Clone for TunnelConfig {
    fn clone(&self) -> (r: TunnelConfig)
        ensures
            r@ == self@,
    {
        let forwards = self.forwards.clone();
        assert(rules(forwards@) =~= rules(self.forwards@));
        TunnelConfig {
            id: self.id.clone(),
            name: self.name.clone(),
            ssh_host: self.ssh_host.clone(),
            ssh_port: self.ssh_port,
            ssh_user: self.ssh_user.clone(),
            auth_method: self.auth_method.clone(),
            local_port: self.local_port,
            target_host: self.target_host.clone(),
            target_port: self.target_port,
            enabled: self.enabled,
            forwards,
        }
    }
}

/// What a tunnel is doing.
#[derive(Debug, PartialEq, Eq)]
pub enum TunnelStatus {
    Disconnected,
    Connecting,
    Connected,
    Error(String),
}

#[verifier::ext_equal]
pub enum TunnelStatusView {
    Disconnected,
    Connecting,
    Connected,
    Error(Seq<char>),
}

impl View for TunnelStatus {
    type V = TunnelStatusView;

    open spec fn view(&self) -> TunnelStatusView {
        match *self {
            TunnelStatus::Disconnected => TunnelStatusView::Disconnected,
            TunnelStatus::Connecting => TunnelStatusView::Connecting,
            TunnelStatus::Connected => TunnelStatusView::Connected,
            TunnelStatus::Error(reason) => TunnelStatusView::Error(reason@),
        }
    }
}

impl Clone for TunnelStatus {
    fn clone(&self) -> (r: TunnelStatus)
        ensures
            r@ == self@,
    {
        match self {
            TunnelStatus::Disconnected => TunnelStatus::Disconnected,
            TunnelStatus::Connecting => TunnelStatus::Connecting,
            TunnelStatus::Connected => TunnelStatus::Connected,
            TunnelStatus::Error(reason) => TunnelStatus::Error(reason.clone()),
        }
    }
}

/// What a window is told of a tunnel: its status and, while it is connected,
/// the bytes that went each way in the last second.
#[derive(Debug)]
pub struct TunnelMetric {
    pub id: String,
    pub name: String,
    pub status: TunnelStatus,
    pub rx_bytes_per_sec: u64,
    pub tx_bytes_per_sec: u64,
}

#[verifier::ext_equal]
pub struct TunnelMetricView {
    pub id: Seq<char>,
    pub name: Seq<char>,
    pub status: TunnelStatusView,
    pub rx_bytes_per_sec: u64,
    pub tx_bytes_per_sec: u64,
}

impl View for TunnelMetric {
    type V = TunnelMetricView;

    open spec fn view(&self) -> TunnelMetricView {
        TunnelMetricView {
            id: self.id@,
            name: self.name@,
            status: self.status@,
            rx_bytes_per_sec: self.rx_bytes_per_sec,
            tx_bytes_per_sec: self.tx_bytes_per_sec,
        }
    }
}

impl Clone for TunnelMetric {
    fn clone(&self) -> (r: TunnelMetric)
        ensures
            r@ == self@,
    {
        TunnelMetric {
            id: self.id.clone(),
            name: self.name.clone(),
            status: self.status.clone(),
            rx_bytes_per_sec: self.rx_bytes_per_sec,
            tx_bytes_per_sec: self.tx_bytes_per_sec,
        }
    }
}

/// The texts of strings.
pub open spec fn texts(s: Seq<String>) -> Seq<Seq<char>> {
    s.map_values(|x: String| x@)
}

/// The ids of tunnels.
pub open spec fn ids(tunnels: Seq<TunnelConfigView>) -> Seq<Seq<char>> {
    tunnels.map_values(|t: TunnelConfigView| t.id)
}

/// The tunnels as values.
pub open spec fn tunnel_views(s: Seq<TunnelConfig>) -> Seq<TunnelConfigView> {
    s.map_values(|t: TunnelConfig| t@)
}

/// A copy of a list of tunnels.
pub fn clone_tunnels(tunnels: &Vec<TunnelConfig>) -> (r: Vec<TunnelConfig>)
    ensures
        tunnel_views(r@) == tunnel_views(tunnels@),
{
    let r = tunnels.clone();
    assert(tunnel_views(r@) =~= tunnel_views(tunnels@));
    r
}

/// Whether `c` is a digit or a letter from `a` to `f`.
pub open spec fn is_hex_digit(c: char) -> bool {
    '0' <= c <= '9' || 'a' <= c <= 'f'
}

/// Whether `s` is a random UUID in its hyphenated form.
pub open spec fn is_uuid_v4(s: Seq<char>) -> bool {
    &&& s.len() == 36
    &&& forall|i: int|
        0 <= i < 36 ==> if i == 8 || i == 13 || i == 18 || i == 23 {
            #[trigger] s[i] == '-'
        } else {
            is_hex_digit(s[i])
        }
    &&& s[14] == '4'
    &&& s[19] == '8' || s[19] == '9' || s[19] == 'a' || s[19] == 'b'
}

/// Calls `uuid`'s `Uuid::new_v4` and writes the result with `Display`.
///
/// Trusted: 36 characters, lower-case hexadecimal digits but for four hyphens,
/// with the version and the variant of a random UUID. The other digits are left
/// to chance.
#[verifier::external_body]
fn new_id() -> (id: String)
    ensures
        is_uuid_v4(id@),
{
    uuid::Uuid::new_v4().to_string()
}

/// A new tunnel under the id `id`.
pub open spec fn new_tunnel(id: Seq<char>) -> TunnelConfigView {
    TunnelConfigView {
        id,
        name: "New Tunnel"@,
        ssh_host: "127.0.0.1"@,
        ssh_port: 22,
        ssh_user: "root"@,
        auth_method: AuthMethodView::Password { password: Seq::empty() },
        local_port: 15432,
        target_host: "127.0.0.1"@,
        target_port: 5432,
        enabled: false,
        forwards: seq![
            ForwardRuleView { local_port: 15432, target_host: "127.0.0.1"@, target_port: 5432 },
        ],
    }
}

/// The tunnel of a configuration that nothing was saved in, under the id `id`.
pub open spec fn first_tunnel(id: Seq<char>) -> TunnelConfigView {
    TunnelConfigView {
        name: "新建隧道"@,
        local_port: 5432,
        forwards: seq![
            ForwardRuleView { local_port: 5432, target_host: "127.0.0.1"@, target_port: 5432 },
        ],
        ..new_tunnel(id)
    }
}

impl TunnelConfigView {
    /// The rule that the tunnel has of its own.
    pub open spec fn own_rule(self) -> ForwardRuleView {
        ForwardRuleView {
            local_port: self.local_port,
            target_host: self.target_host,
            target_port: self.target_port,
        }
    }

    /// The tunnel with the rules that were listed, or else with the one of its own.
    pub open spec fn ruled(self, listed: Option<Seq<ForwardRuleView>>) -> TunnelConfigView {
        TunnelConfigView {
            forwards: match listed {
                Some(list) => list,
                None => seq![self.own_rule()],
            },
            ..self
        }
    }

    /// The tunnel with another rule of its own.
    pub open spec fn with_parts(
        self,
        local_port: u16,
        target_host: Seq<char>,
        target_port: u16,
    ) -> TunnelConfigView {
        TunnelConfigView { local_port, target_host, target_port, ..self }
    }

    /// The tunnel with an id, where it had none.
    pub open spec fn identified(self, fresh: Seq<char>) -> TunnelConfigView {
        if self.id.len() == 0 {
            TunnelConfigView { id: fresh, ..self }
        } else {
            self
        }
    }

    /// The tunnel with its password decrypted.
    pub open spec fn unsealed(self) -> TunnelConfigView {
        TunnelConfigView { auth_method: self.auth_method.unsealed(), ..self }
    }

    /// Whether this is `plain` with its password encrypted and nothing else
    /// changed.
    pub open spec fn seals(self, plain: TunnelConfigView) -> bool {
        &&& self == (TunnelConfigView { auth_method: self.auth_method, ..plain })
        &&& self.auth_method.seals(plain.auth_method)
    }
}

impl AuthMethodView {
    /// The method with its password decrypted.
    pub open spec fn unsealed(self) -> AuthMethodView {
        match self {
            AuthMethodView::Password { password } => AuthMethodView::Password {
                password: unsealed_text(password),
            },
            AuthMethodView::Key { .. } => self,
        }
    }

    /// Whether the cipher takes the password, if there is one.
    pub open spec fn can_be_sealed(self) -> bool {
        match self {
            AuthMethodView::Password { password } => can_be_sealed(password),
            AuthMethodView::Key { .. } => true,
        }
    }

    /// Whether this is `plain` with its password encrypted, and so not the
    /// password itself.
    pub open spec fn seals(self, plain: AuthMethodView) -> bool {
        match (self, plain) {
            (
                AuthMethodView::Password { password: stored },
                AuthMethodView::Password { password },
            ) => is_sealed(stored, password) && stored != password,
            (AuthMethodView::Key { .. }, AuthMethodView::Key { .. }) => self == plain,
            _ => false,
        }
    }
}

impl AuthMethod {
    /// A copy with the password encrypted; `None` where the cipher does not take
    /// it.
    fn sealed(&self) -> (r: Option<AuthMethod>)
        ensures
            r is Some <==> self@.can_be_sealed(),
            r is Some ==> r->0@.seals(self@),
    {
        match self {
            AuthMethod::Password { password } => match seal(password.as_str()) {
                Some(stored) => Some(AuthMethod::Password { password: stored }),
                None => None,
            },
            AuthMethod::Key { .. } => Some(self.clone()),
        }
    }

    /// A copy with the password decrypted.
    fn unsealed(&self) -> (r: AuthMethod)
        ensures
            r@ == self@.unsealed(),
            forall|plain: AuthMethodView| #[trigger] self@.seals(plain) ==> r@ == plain,
    {
        match self {
            AuthMethod::Password { password } => AuthMethod::Password {
                password: unseal(password.as_str()),
            },
            AuthMethod::Key { .. } => self.clone(),
        }
    }
}

/// The first part that is missing of a tunnel's own rule, where it is needed.
pub open spec fn missing_part(
    listed: bool,
    local_port: Option<u16>,
    target_host: Option<String>,
    target_port: Option<u16>,
) -> Option<Seq<char>> {
    if listed {
        None
    } else if local_port is None {
        Some("local_port"@)
    } else if target_host is None {
        Some("target_host"@)
    } else if target_port is None {
        Some("target_port"@)
    } else {
        None
    }
}

fn missing(part: &str) -> (r: String)
    ensures
        r@ == "missing field `"@ + part@ + "`"@,
{
    "missing field `".to_owned().concat(part).concat("`")
}

impl TunnelConfig {
    /// A new tunnel under the id `id`.
    pub fn with_id(id: String) -> (r: TunnelConfig)
        ensures
            r@ == new_tunnel(id@),
    {
        let mut forwards: Vec<ForwardRule> = Vec::new();
        forwards.push(
            ForwardRule {
                local_port: 15432,
                target_host: "127.0.0.1".to_owned(),
                target_port: 5432,
            },
        );
        let r = TunnelConfig {
            id,
            name: "New Tunnel".to_owned(),
            ssh_host: "127.0.0.1".to_owned(),
            ssh_port: 22,
            ssh_user: "root".to_owned(),
            auth_method: AuthMethod::Password { password: String::new() },
            local_port: 15432,
            target_host: "127.0.0.1".to_owned(),
            target_port: 5432,
            enabled: false,
            forwards,
        };
        assert(r@.forwards =~= new_tunnel(id@).forwards);
        r
    }

    /// The tunnel as it was saved: with the rules that were listed, or, where
    /// the file lists none, with the one rule of its own.
    pub fn with_rules(self, listed: Option<Vec<ForwardRule>>) -> (r: TunnelConfig)
        ensures
            r@ == self@.ruled(
                match listed {
                    Some(list) => Some(rules(list@)),
                    None => None,
                },
            ),
    {
        let own = ForwardRule {
            local_port: self.local_port,
            target_host: self.target_host.clone(),
            target_port: self.target_port,
        };
        let forwards = match listed {
            Some(list) => list,
            None => {
                let mut list: Vec<ForwardRule> = Vec::new();
                list.push(own);
                assert(rules(list@) =~= seq![self@.own_rule()]);
                list
            },
        };
        TunnelConfig { forwards, ..self }
    }

    /// The tunnel with what a file holds of its rules: a list, or the three parts of
    /// one rule, or both. Without a list no part may be missing; the error names the
    /// first that is.
    pub fn restore_rules(
        self,
        listed: Option<Vec<ForwardRule>>,
        local_port: Option<u16>,
        target_host: Option<String>,
        target_port: Option<u16>,
    ) -> (r: Result<TunnelConfig, String>)
        ensures
            match (r, missing_part(listed is Some, local_port, target_host, target_port)) {
                (Err(message), Some(part)) => message@ == "missing field `"@ + part + "`"@,
                (Ok(tunnel), None) => tunnel@ == self@.with_parts(
                    local_port.unwrap_or(0),
                    match target_host {
                        Some(host) => host@,
                        None => Seq::empty(),
                    },
                    target_port.unwrap_or(0),
                ).ruled(
                    match listed {
                        Some(list) => Some(rules(list@)),
                        None => None,
                    },
                ),
                _ => false,
            },
    {
        if listed.is_none() {
            if local_port.is_none() {
                return Err(missing("local_port"));
            }
            if target_host.is_none() {
                return Err(missing("target_host"));
            }
            if target_port.is_none() {
                return Err(missing("target_port"));
            }
        }
        let tunnel = TunnelConfig {
            local_port: match local_port {
                Some(port) => port,
                None => 0,
            },
            target_host: match target_host {
                Some(host) => host,
                None => String::new(),
            },
            target_port: match target_port {
                Some(port) => port,
                None => 0,
            },
            ..self
        };
        Ok(tunnel.with_rules(listed))
    }

    /// Gives the tunnel the id `fresh` if it has none.
    pub fn fill_id(&mut self, fresh: String)
        ensures
            final(self)@ == old(self)@.identified(fresh@),
    {
        if self.id.as_str().is_empty() {
            self.id = fresh;
        }
    }

    fn sealed(&self) -> (r: Option<TunnelConfig>)
        ensures
            r is Some <==> self@.auth_method.can_be_sealed(),
            r is Some ==> r->0@.seals(self@),
    {
        match self.auth_method.sealed() {
            Some(auth_method) => Some(TunnelConfig { auth_method, ..self.clone() }),
            None => None,
        }
    }

    fn unsealed(&self) -> (r: TunnelConfig)
        ensures
            r@ == self@.unsealed(),
            forall|plain: TunnelConfigView| #[trigger] self@.seals(plain) ==> r@ == plain,
    {
        let auth_method = self.auth_method.unsealed();
        TunnelConfig { auth_method, ..self.clone() }
    }
}

impl Default for TunnelConfig {
    /// A new tunnel under a fresh id.
    fn default() -> (r: TunnelConfig)
        ensures
            is_uuid_v4(r@.id),
            r@ == new_tunnel(r@.id),
    {
        TunnelConfig::with_id(new_id())
    }
}

/// What is saved: the tunnels, and the one tunnel of a file that holds no list.
#[derive(Debug)]
pub struct AppConfig {
    pub tunnels: Vec<TunnelConfig>,
    pub tunnel: Option<TunnelConfig>,
}

#[verifier::ext_equal]
pub struct AppConfigView {
    pub tunnels: Seq<TunnelConfigView>,
    pub tunnel: Option<TunnelConfigView>,
}

pub open spec fn optional_tunnel(t: Option<TunnelConfig>) -> Option<TunnelConfigView> {
    match t {
        Some(tunnel) => Some(tunnel@),
        None => None,
    }
}

impl View for AppConfig {
    type V = AppConfigView;

    open spec fn view(&self) -> AppConfigView {
        AppConfigView {
            tunnels: tunnel_views(self.tunnels@),
            tunnel: optional_tunnel(self.tunnel),
        }
    }
}

impl Clone for AppConfig {
    fn clone(&self) -> (r: AppConfig)
        ensures
            r@ == self@,
    {
        AppConfig {
            tunnels: clone_tunnels(&self.tunnels),
            tunnel: match &self.tunnel {
                Some(tunnel) => Some(tunnel.clone()),
                None => None,
            },
        }
    }
}

/// Whether `after` is `before` with a fresh id for each tunnel that had none,
/// and nothing else changed.
pub open spec fn ids_ensured(
    after: Seq<TunnelConfigView>,
    before: Seq<TunnelConfigView>,
) -> bool {
    &&& after.len() == before.len()
    &&& forall|i: int|
        0 <= i < before.len() ==> #[trigger] after[i] == before[i].identified(after[i].id)
            && (before[i].id.len() == 0 ==> is_uuid_v4(after[i].id))
}

impl AppConfigView {
    /// The list with the tunnel of a file that holds no list at its end.
    pub open spec fn merged(self) -> Seq<TunnelConfigView> {
        match self.tunnel {
            Some(tunnel) => self.tunnels.push(tunnel),
            None => self.tunnels,
        }
    }

    /// Whether the cipher takes every password.
    pub open spec fn can_be_sealed(self) -> bool {
        &&& forall|i: int|
            0 <= i < self.tunnels.len() ==> (#[trigger] self.tunnels[i]).auth_method.can_be_sealed()
        &&& self.tunnel matches Some(tunnel) ==> tunnel.auth_method.can_be_sealed()
    }

    /// Whether this is `plain` with every password encrypted and nothing else
    /// changed.
    pub open spec fn seals(self, plain: AppConfigView) -> bool {
        &&& self.tunnels.len() == plain.tunnels.len()
        &&& forall|i: int|
            0 <= i < plain.tunnels.len() ==> (#[trigger] self.tunnels[i]).seals(plain.tunnels[i])
        &&& match (self.tunnel, plain.tunnel) {
            (Some(stored), Some(tunnel)) => stored.seals(tunnel),
            (None, None) => true,
            _ => false,
        }
    }

    /// The configuration with every password decrypted.
    pub open spec fn unsealed(self) -> AppConfigView {
        AppConfigView {
            tunnels: self.tunnels.map_values(|t: TunnelConfigView| t.unsealed()),
            tunnel: match self.tunnel {
                Some(tunnel) => Some(tunnel.unsealed()),
                None => None,
            },
        }
    }
}

impl AppConfig {
    /// The configuration of a first start under the id `id`: one tunnel.
    pub fn with_id(id: String) -> (r: AppConfig)
        ensures
            r@.tunnels == seq![first_tunnel(id@)],
            r@.tunnel is None,
    {
        let tunnel = TunnelConfig {
            name: "新建隧道".to_owned(),
            local_port: 5432,
            ..TunnelConfig::with_id(id)
        }.with_rules(None);
        assert(tunnel@ =~= first_tunnel(id@));
        let mut tunnels: Vec<TunnelConfig> = Vec::new();
        tunnels.push(tunnel);
        assert(tunnel_views(tunnels@) =~= seq![first_tunnel(id@)]);
        AppConfig { tunnels, tunnel: None }
    }

    /// The configuration of a first start: one tunnel under a fresh id.
    pub fn defaults() -> (r: AppConfig)
        ensures
            r@.tunnels.len() == 1,
            is_uuid_v4(r@.tunnels[0].id),
            r@.tunnels[0] == first_tunnel(r@.tunnels[0].id),
            r@.tunnel is None,
    {
        AppConfig::with_id(new_id())
    }

    /// The ids of all tunnels, in the order of the list.
    pub fn ids(&self) -> (r: Vec<String>)
        ensures
            texts(r@) == ids(self@.tunnels),
    {
        let mut r: Vec<String> = Vec::new();
        let mut i: usize = 0;
        while i < self.tunnels.len()
            invariant
                i <= self.tunnels.len(),
                r.len() == i,
                forall|j: int| 0 <= j < i ==> (#[trigger] r[j])@ == self@.tunnels[j].id,
            decreases self.tunnels.len() - i,
        {
            r.push(self.tunnels[i].id.clone());
            i = i + 1;
        }
        assert(texts(r@) =~= ids(self@.tunnels));
        r
    }

    /// Gives each tunnel that has no id a fresh one.
    pub fn ensure_ids(&mut self)
        ensures
            ids_ensured(final(self)@.tunnels, old(self)@.tunnels),
            final(self)@.tunnel == old(self)@.tunnel,
    {
        let ghost before = self@.tunnels;
        let n: usize = self.tunnels.len();
        let mut i: usize = 0;
        while i < n
            invariant
                i <= n,
                n == self.tunnels@.len(),
                n == before.len(),
                self@.tunnel == old(self)@.tunnel,
                forall|j: int| i <= j < n ==> #[trigger] self@.tunnels[j] == before[j],
                forall|j: int|
                    0 <= j < i ==> #[trigger] self@.tunnels[j] == before[j].identified(
                        self@.tunnels[j].id,
                    ) && (before[j].id.len() == 0 ==> is_uuid_v4(self@.tunnels[j].id)),
            decreases n - i,
        {
            let ghost earlier = self@.tunnels;
            let missing = self.tunnels[i].id.as_str().is_empty();
            assert(self@.tunnels[i as int] == before[i as int]);
            if missing {
                let fresh = new_id();
                self.tunnels[i].fill_id(fresh);
            }
            assert forall|j: int| 0 <= j < n && j != i implies #[trigger] self@.tunnels[j]
                == earlier[j] by {}
            i = i + 1;
        }
    }

    /// Moves the tunnel of a file that holds no list to the end of the list, and
    /// gives each tunnel that has no id a fresh one.
    pub fn migrate_and_ensure_ids(&mut self)
        ensures
            ids_ensured(final(self)@.tunnels, old(self)@.merged()),
            final(self)@.tunnel is None,
    {
        let single = self.tunnel.take();
        if let Some(tunnel) = single {
            self.tunnels.push(tunnel);
        }
        assert(self@.tunnels =~= old(self)@.merged());
        self.ensure_ids();
    }

    /// Encrypts every password. Where one exceeds what the cipher takes, nothing
    /// changes and the result is `false`.
    pub fn encrypt_passwords(&mut self) -> (done: bool)
        ensures
            done == old(self)@.can_be_sealed(),
            done ==> final(self)@.seals(old(self)@),
            !done ==> *final(self) == *old(self),
    {
        let mut tunnels: Vec<TunnelConfig> = Vec::new();
        let mut i: usize = 0;
        while i < self.tunnels.len()
            invariant
                *self == *old(self),
                i <= self.tunnels.len(),
                tunnels.len() == i,
                forall|j: int| 0 <= j < i ==> (#[trigger] tunnels[j])@.seals(self@.tunnels[j]),
                forall|j: int|
                    0 <= j < i ==> (#[trigger] self@.tunnels[j]).auth_method.can_be_sealed(),
            decreases self.tunnels.len() - i,
        {
            assert(self@.tunnels[i as int] == self.tunnels[i as int]@);
            match self.tunnels[i].sealed() {
                Some(tunnel) => tunnels.push(tunnel),
                None => return false,
            }
            i = i + 1;
        }
        let tunnel = match &self.tunnel {
            Some(tunnel) => match tunnel.sealed() {
                Some(stored) => Some(stored),
                None => return false,
            },
            None => None,
        };
        *self = AppConfig { tunnels, tunnel };
        assert forall|j: int| 0 <= j < old(self)@.tunnels.len() implies (
        #[trigger] self@.tunnels[j]).seals(old(self)@.tunnels[j]) by {
            assert(self@.tunnels[j] == tunnels[j]@);
        }
        true
    }

    /// Decrypts every password: what [`AppConfig::encrypt_passwords`] made of a
    /// configuration becomes that configuration again.
    pub fn decrypt_passwords(&mut self)
        ensures
            final(self)@ == old(self)@.unsealed(),
            forall|plain: AppConfigView| #[trigger]
                old(self)@.seals(plain) ==> final(self)@ == plain,
    {
        let mut tunnels: Vec<TunnelConfig> = Vec::new();
        let mut i: usize = 0;
        while i < self.tunnels.len()
            invariant
                *self == *old(self),
                i <= self.tunnels.len(),
                tunnels.len() == i,
                forall|j: int|
                    0 <= j < i ==> (#[trigger] tunnels[j])@ == self@.tunnels[j].unsealed(),
                forall|j: int, plain: TunnelConfigView|
                    0 <= j < i && #[trigger] self@.tunnels[j].seals(plain) ==> tunnels[j]@ == plain,
            decreases self.tunnels.len() - i,
        {
            assert(self@.tunnels[i as int] == self.tunnels[i as int]@);
            let tunnel = self.tunnels[i].unsealed();
            tunnels.push(tunnel);
            i = i + 1;
        }
        let tunnel = match &self.tunnel {
            Some(tunnel) => Some(tunnel.unsealed()),
            None => None,
        };
        let r = AppConfig { tunnels, tunnel };
        proof {
            assert(r@ =~= self@.unsealed());
            assert forall|plain: AppConfigView| #[trigger] self@.seals(plain) implies r@
                == plain by {
                assert forall|j: int| 0 <= j < plain.tunnels.len() implies r@.tunnels[j]
                    == plain.tunnels[j] by {
                    assert(self@.tunnels[j].seals(plain.tunnels[j]));
                    assert(r@.tunnels[j] == tunnels[j]@);
                }
                assert(r@.tunnels =~= plain.tunnels);
                assert(r@ =~= plain);
            }
        }
        *self = r;
    }
}

/// Whether two tunnels agree on everything but their ids.
pub open spec fn same_but_id(a: TunnelConfigView, b: TunnelConfigView) -> bool {
    &&& a.name == b.name
    &&& a.ssh_host == b.ssh_host
    &&& a.ssh_port == b.ssh_port
    &&& a.ssh_user == b.ssh_user
    &&& a.auth_method == b.auth_method
    &&& a.local_port == b.local_port
    &&& a.target_host == b.target_host
    &&& a.target_port == b.target_port
    &&& a.enabled == b.enabled
    &&& a.forwards == b.forwards
}

/// Filling in an id changes nothing else, and an id that is there stays.
pub proof fn filling_in_an_id_keeps_the_rest(t: TunnelConfigView, fresh: Seq<char>)
    ensures
        same_but_id(t.identified(fresh), t),
        t.id.len() == 0 ==> t.identified(fresh).id == fresh,
        t.id.len() > 0 ==> t.identified(fresh).id == t.id,
{
}

/// Where missing ids were filled in, the list has as many tunnels as before, in the
/// same order, each with every field that it had, whether or not it had an id; an
/// id that was there is kept, and one that was missing is new.
pub proof fn filling_in_ids_keeps_every_tunnel(
    after: Seq<TunnelConfigView>,
    before: Seq<TunnelConfigView>,
    i: int,
)
    requires
        ids_ensured(after, before),
    ensures
        after.len() == before.len(),
        0 <= i < before.len() ==> {
            &&& same_but_id(after[i], before[i])
            &&& before[i].id.len() > 0 ==> after[i].id == before[i].id
            &&& before[i].id.len() == 0 ==> after[i].id.len() == 36 && after[i].id[14] == '4'
        },
{
    if 0 <= i < before.len() {
        filling_in_an_id_keeps_the_rest(before[i], after[i].id);
    }
}

/// The tunnel of a file that holds no list comes last, and the list before it is
/// unchanged.
pub proof fn merging_keeps_every_tunnel(c: AppConfigView)
    ensures
        c.tunnel is None ==> c.merged() == c.tunnels,
        c.tunnel matches Some(t) ==> c.merged().len() == c.tunnels.len() + 1 && c.merged().last()
            == t && c.merged().drop_last() == c.tunnels,
{
    if c.tunnel is Some {
        assert(c.merged().drop_last() =~= c.tunnels);
    }
}

/// A new tunnel differs from another in its id alone, and so does that of a first
/// start; both have one rule, which is the tunnel's own.
pub proof fn new_tunnels_are_alike(a: Seq<char>, b: Seq<char>)
    ensures
        new_tunnel(a).id == a,
        first_tunnel(a).id == a,
        same_but_id(new_tunnel(a), new_tunnel(b)),
        same_but_id(first_tunnel(a), first_tunnel(b)),
        new_tunnel(a).forwards.len() == 1,
        first_tunnel(a).forwards.len() == 1,
        new_tunnel(a).forwards[0].local_port == new_tunnel(a).local_port == 15432,
        first_tunnel(a).forwards[0].local_port == first_tunnel(a).local_port == 5432,
        new_tunnel(a).forwards[0].target_port == new_tunnel(a).target_port == 5432,
        first_tunnel(a).forwards[0].target_port == first_tunnel(a).target_port == 5432,
        new_tunnel(a).forwards[0].target_host == new_tunnel(a).target_host,
        first_tunnel(a).forwards[0].target_host == first_tunnel(a).target_host,
        new_tunnel(a).target_host == "127.0.0.1"@,
        first_tunnel(a).target_host == "127.0.0.1"@,
        new_tunnel(a).ssh_host == "127.0.0.1"@ && first_tunnel(a).ssh_host == "127.0.0.1"@,
        new_tunnel(a).ssh_port == 22 && first_tunnel(a).ssh_port == 22,
        new_tunnel(a).ssh_user == "root"@ && first_tunnel(a).ssh_user == "root"@,
        new_tunnel(a).name == "New Tunnel"@,
        first_tunnel(a).name == "新建隧道"@,
        !new_tunnel(a).enabled && !first_tunnel(a).enabled,
        new_tunnel(a).auth_method == (AuthMethodView::Password { password: seq![] }),
        first_tunnel(a).auth_method == (AuthMethodView::Password { password: seq![] }),
{
}

/// The rule that a tunnel has of its own is made of its own three fields. It is the
/// one rule where no list was saved; a list that was saved stands as it is, be it
/// empty; and nothing else changes.
pub proof fn rules_are_those_that_were_saved(t: TunnelConfigView, list: Seq<ForwardRuleView>)
    ensures
        t.ruled(Some(list)).forwards == list,
        t.ruled(None).forwards.len() == 1,
        t.ruled(None).forwards[0].local_port == t.local_port,
        t.ruled(None).forwards[0].target_host == t.target_host,
        t.ruled(None).forwards[0].target_port == t.target_port,
        t.ruled(Some(list)).id == t.id && t.ruled(None).id == t.id,
        same_but_id(TunnelConfigView { forwards: t.forwards, ..t.ruled(Some(list)) }, t),
        same_but_id(TunnelConfigView { forwards: t.forwards, ..t.ruled(None) }, t),
        t.own_rule().local_port == t.local_port,
        t.own_rule().target_host == t.target_host,
        t.own_rule().target_port == t.target_port,
{
}

/// Another rule of its own changes its three fields, and nothing else of a tunnel.
pub proof fn own_rule_is_put_in_place(
    t: TunnelConfigView,
    local_port: u16,
    target_host: Seq<char>,
    target_port: u16,
)
    ensures
        ({
            let r = t.with_parts(local_port, target_host, target_port);
            &&& r.local_port == local_port
            &&& r.target_host == target_host
            &&& r.target_port == target_port
            &&& r.id == t.id
            &&& r.name == t.name
            &&& r.ssh_host == t.ssh_host
            &&& r.ssh_port == t.ssh_port
            &&& r.ssh_user == t.ssh_user
            &&& r.auth_method == t.auth_method
            &&& r.enabled == t.enabled
            &&& r.forwards == t.forwards
        }),
{
}

/// Encrypting changes nothing but passwords, and leaves none as it was: the tunnels
/// are as many and in the same order, each keeps its id and every other field, and
/// one that logs in with a key is unchanged.
pub proof fn encrypting_changes_passwords_only(stored: AppConfigView, plain: AppConfigView, i: int)
    requires
        stored.seals(plain),
    ensures
        stored.tunnels.len() == plain.tunnels.len(),
        stored.tunnel is Some <==> plain.tunnel is Some,
        0 <= i < plain.tunnels.len() ==> encrypted(stored.tunnels[i], plain.tunnels[i]),
        plain.tunnel is Some ==> encrypted(stored.tunnel->0, plain.tunnel->0),
{
}

/// Whether one tunnel is another with its password changed and nothing else.
pub open spec fn encrypted(stored: TunnelConfigView, plain: TunnelConfigView) -> bool {
    &&& stored.id == plain.id
    &&& stored.name == plain.name
    &&& stored.ssh_host == plain.ssh_host
    &&& stored.ssh_port == plain.ssh_port
    &&& stored.ssh_user == plain.ssh_user
    &&& stored.local_port == plain.local_port
    &&& stored.target_host == plain.target_host
    &&& stored.target_port == plain.target_port
    &&& stored.enabled == plain.enabled
    &&& stored.forwards == plain.forwards
    &&& plain.auth_method is Key ==> stored.auth_method == plain.auth_method
    &&& plain.auth_method is Password ==> stored.auth_method is Password
        && stored.auth_method->password != plain.auth_method->password
}

/// Decrypting changes nothing but passwords: each is what lies behind the stored
/// text, and a tunnel that logs in with a key is unchanged.
pub proof fn decrypting_changes_passwords_only(stored: AppConfigView, i: int)
    ensures
        stored.unsealed().tunnels.len() == stored.tunnels.len(),
        stored.unsealed().tunnel is Some <==> stored.tunnel is Some,
        0 <= i < stored.tunnels.len() ==> decrypted(
            stored.unsealed().tunnels[i],
            stored.tunnels[i],
        ),
        stored.tunnel is Some ==> decrypted(stored.unsealed().tunnel->0, stored.tunnel->0),
{
}

/// Whether one tunnel is another with its password decrypted and nothing else.
pub open spec fn decrypted(t: TunnelConfigView, stored: TunnelConfigView) -> bool {
    &&& t.id == stored.id
    &&& t.name == stored.name
    &&& t.ssh_host == stored.ssh_host
    &&& t.ssh_port == stored.ssh_port
    &&& t.ssh_user == stored.ssh_user
    &&& t.local_port == stored.local_port
    &&& t.target_host == stored.target_host
    &&& t.target_port == stored.target_port
    &&& t.enabled == stored.enabled
    &&& t.forwards == stored.forwards
    &&& stored.auth_method is Key ==> t.auth_method == stored.auth_method
    &&& stored.auth_method is Password ==> t.auth_method is Password && t.auth_method->password
        == unsealed_text(stored.auth_method->password)
}

/// A configuration can be encrypted exactly where each password can, and a key
/// never stands in the way.
pub proof fn every_password_counts(c: AppConfigView)
    ensures
        c.can_be_sealed() <==> {
            &&& forall|i: int|
                0 <= i < c.tunnels.len() && (#[trigger] c.tunnels[i]).auth_method is Password
                    ==> can_be_sealed(c.tunnels[i].auth_method->password)
            &&& c.tunnel is Some && c.tunnel->0.auth_method is Password ==> can_be_sealed(
                c.tunnel->0.auth_method->password,
            )
        },
{
    if c.can_be_sealed() {
        assert forall|i: int|
            0 <= i < c.tunnels.len() && (
            #[trigger] c.tunnels[i]).auth_method is Password implies can_be_sealed(
            c.tunnels[i].auth_method->password,
        ) by {
            assert(c.tunnels[i].auth_method.can_be_sealed());
        }
    } else {
        if forall|i: int|
            0 <= i < c.tunnels.len() ==> (#[trigger] c.tunnels[i]).auth_method.can_be_sealed() {
        } else {
            let i = choose|i: int|
                0 <= i < c.tunnels.len() && !(
                #[trigger] c.tunnels[i]).auth_method.can_be_sealed();
            assert(c.tunnels[i].auth_method is Password);
        }
    }
}

/// Of a rule in parts, each part is asked for where there is no list, in order, and
/// none where there is one.
pub proof fn missing_parts_are_named(
    listed: bool,
    local_port: Option<u16>,
    target_host: Option<String>,
    target_port: Option<u16>,
)
    ensures
        ({
            let part = missing_part(listed, local_port, target_host, target_port);
            &&& part is None <==> listed || (local_port is Some && target_host is Some
                && target_port is Some)
            &&& !listed && local_port is None ==> part == Some("local_port"@)
            &&& !listed && local_port is Some && target_host is None ==> part == Some(
                "target_host"@,
            )
            &&& !listed && local_port is Some && target_host is Some && target_port is None ==> part
                == Some("target_port"@)
        }),
{
}

/// The ids of a list are those of its tunnels, in order.
pub proof fn ids_are_those_of_the_tunnels(tunnels: Seq<TunnelConfigView>, i: int)
    ensures
        ids(tunnels).len() == tunnels.len(),
        0 <= i < tunnels.len() ==> ids(tunnels)[i] == tunnels[i].id,
{
}

/// What stands for a value holds all that it says.
pub proof fn nothing_is_lost_in_the_model(
    c: AppConfig,
    t: TunnelConfig,
    m: TunnelMetric,
    names: Seq<String>,
    i: int,
)
    ensures
        t@.id == t.id@,
        t@.name == t.name@,
        t@.ssh_host == t.ssh_host@,
        t@.ssh_port == t.ssh_port,
        t@.ssh_user == t.ssh_user@,
        t@.local_port == t.local_port,
        t@.target_host == t.target_host@,
        t@.target_port == t.target_port,
        t@.enabled == t.enabled,
        t@.forwards.len() == t.forwards@.len(),
        0 <= i < t.forwards@.len() ==> {
            &&& t@.forwards[i].local_port == t.forwards@[i].local_port
            &&& t@.forwards[i].target_host == t.forwards@[i].target_host@
            &&& t@.forwards[i].target_port == t.forwards@[i].target_port
        },
        match t.auth_method {
            AuthMethod::Password { password } => t@.auth_method == (AuthMethodView::Password {
                password: password@,
            }),
            AuthMethod::Key { private_key_path, passphrase } => {
                &&& t@.auth_method is Key
                &&& t@.auth_method->private_key_path == private_key_path@
                &&& t@.auth_method->passphrase is None <==> passphrase is None
                &&& passphrase matches Some(words) ==> t@.auth_method->passphrase == Some(words@)
            },
        },
        c@.tunnels.len() == c.tunnels@.len(),
        0 <= i < c.tunnels@.len() ==> c@.tunnels[i] == c.tunnels@[i]@,
        c@.tunnel is None <==> c.tunnel is None,
        c.tunnel matches Some(single) ==> c@.tunnel == Some(single@),
        m@.id == m.id@,
        m@.name == m.name@,
        m@.rx_bytes_per_sec == m.rx_bytes_per_sec,
        m@.tx_bytes_per_sec == m.tx_bytes_per_sec,
        match m.status {
            TunnelStatus::Error(reason) => m@.status == TunnelStatusView::Error(reason@),
            TunnelStatus::Disconnected => m@.status is Disconnected,
            TunnelStatus::Connecting => m@.status is Connecting,
            TunnelStatus::Connected => m@.status is Connected,
        },
        texts(names).len() == names.len(),
        0 <= i < names.len() ==> texts(names)[i] == names[i]@,
{
}

} // verus!
