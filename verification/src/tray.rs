//! The tray: an icon for all tunnels together and a menu with a row for each.
use crate::config::{TunnelConfig, TunnelConfigView, TunnelStatus, TunnelStatusView};
use crate::icon::{icon_spec, make_tray_icon_pixels};
use crate::keyed::{distinct, has_key, keyed, lemma_keyed_at};
use crate::manager::{active, status_pairs, ManagerView, TunnelManager};
use crate::text::{prefix_and_rest, starts_with, strip_prefix};
use vstd::prelude::*;

verus! {

/// The sign before a tunnel's name.
pub open spec fn marker(status: TunnelStatusView) -> Seq<char> {
    match status {
        TunnelStatusView::Connected => "●"@,
        TunnelStatusView::Connecting => "◐"@,
        TunnelStatusView::Error(_) => "●"@,
        TunnelStatusView::Disconnected => "○"@,
    }
}

/// The words after a tunnel's name.
pub open spec fn wording(status: TunnelStatusView) -> Seq<char> {
    match status {
        TunnelStatusView::Connected => "已连接"@,
        TunnelStatusView::Connecting => "连接中"@,
        TunnelStatusView::Error(_) => "错误"@,
        TunnelStatusView::Disconnected => "未连接"@,
    }
}

/// The sign before a tunnel's name.
pub fn status_marker(status: &TunnelStatus) -> (s: &'static str)
    ensures
        s@ == marker(status@),
{
    match status {
        TunnelStatus::Connected => "●",
        TunnelStatus::Connecting => "◐",
        TunnelStatus::Error(_) => "●",
        TunnelStatus::Disconnected => "○",
    }
}

/// The words after a tunnel's name.
pub fn status_text(status: &TunnelStatus) -> (s: &'static str)
    ensures
        s@ == wording(status@),
{
    match status {
        TunnelStatus::Connected => "已连接",
        TunnelStatus::Connecting => "连接中",
        TunnelStatus::Error(_) => "错误",
        TunnelStatus::Disconnected => "未连接",
    }
}

/// The statuses of running tunnels by id.
pub type Statuses = Map<Seq<char>, TunnelStatusView>;

/// The status that is shown of a tunnel: one that does not run is disconnected.
pub open spec fn shown(statuses: Statuses, id: Seq<char>) -> TunnelStatusView {
    if statuses.contains_key(id) {
        statuses[id]
    } else {
        TunnelStatusView::Disconnected
    }
}

/// The status of all tunnels together: any error, else any that connects, else
/// all connected, else disconnected.
pub open spec fn aggregate(
    tunnels: Seq<TunnelConfigView>,
    statuses: Statuses,
) -> TunnelStatusView {
    if exists|i: int|
        0 <= i < tunnels.len() && shown(statuses, (#[trigger] tunnels[i]).id) is Error {
        TunnelStatusView::Error(Seq::empty())
    } else if exists|i: int|
        0 <= i < tunnels.len() && shown(statuses, (#[trigger] tunnels[i]).id) is Connecting {
        TunnelStatusView::Connecting
    } else if tunnels.len() > 0 && forall|i: int|
        0 <= i < tunnels.len() ==> shown(statuses, (#[trigger] tunnels[i]).id) is Connected {
        TunnelStatusView::Connected
    } else {
        TunnelStatusView::Disconnected
    }
}

/// A line of the menu.
#[derive(Debug, PartialEq, Eq)]
pub enum MenuEntry {
    Item { id: String, label: String },
    Separator,
}

#[verifier::ext_equal]
pub enum MenuEntryView {
    Item { id: Seq<char>, label: Seq<char> },
    Separator,
}

impl View for MenuEntry {
    type V = MenuEntryView;

    open spec fn view(&self) -> MenuEntryView {
        match *self {
            MenuEntry::Item { id, label } => MenuEntryView::Item { id: id@, label: label@ },
            MenuEntry::Separator => MenuEntryView::Separator,
        }
    }
}

/// The menu as values.
pub open spec fn menu_views(s: Seq<MenuEntry>) -> Seq<MenuEntryView> {
    s.map_values(|e: MenuEntry| e@)
}

/// The menu id of a tunnel's row.
pub open spec fn row_id(id: Seq<char>) -> Seq<char> {
    "tunnel_"@ + id
}

/// A tunnel's row: its sign, its name and its status in words.
pub open spec fn row(t: TunnelConfigView, statuses: Statuses) -> MenuEntryView {
    let status = shown(statuses, t.id);
    MenuEntryView::Item {
        id: row_id(t.id),
        label: marker(status) + " "@ + t.name + "  "@ + wording(status),
    }
}

/// The rows of all tunnels, in the order of the configuration.
pub open spec fn rows(tunnels: Seq<TunnelConfigView>, statuses: Statuses) -> Seq<MenuEntryView> {
    tunnels.map_values(|t: TunnelConfigView| row(t, statuses))
}

/// What stands below the rows.
pub open spec fn commands() -> Seq<MenuEntryView> {
    seq![
        MenuEntryView::Item { id: "all_start"@, label: "全部连接"@ },
        MenuEntryView::Item { id: "all_stop"@, label: "全部断开"@ },
        MenuEntryView::Separator,
        MenuEntryView::Item { id: "open_config"@, label: "配置"@ },
        MenuEntryView::Item { id: "quit"@, label: "退出"@ },
    ]
}

/// The whole menu: the rows, set off from the commands where there are any.
pub open spec fn menu(tunnels: Seq<TunnelConfigView>, statuses: Statuses) -> Seq<MenuEntryView> {
    if tunnels.len() == 0 {
        commands()
    } else {
        rows(tunnels, statuses).push(MenuEntryView::Separator) + commands()
    }
}

/// What the tray shows.
#[derive(Debug)]
pub struct Tray {
    /// The status of all tunnels together.
    pub status: TunnelStatus,
    /// The icon in that status: 24 by 24 pixels of four bytes.
    pub icon: Vec<u8>,
    pub menu: Vec<MenuEntry>,
}

/// The status of a tunnel in a list of statuses.
fn status_of(statuses: &Vec<(String, TunnelStatus)>, id: &String) -> (s: TunnelStatus)
    requires
        distinct(status_pairs(statuses@)),
    ensures
        s@ == shown(keyed(status_pairs(statuses@)), id@),
{
    let ghost pairs = status_pairs(statuses@);
    let mut i: usize = 0;
    while i < statuses.len()
        invariant
            i <= statuses.len(),
            pairs == status_pairs(statuses@),
            distinct(pairs),
            forall|j: int| 0 <= j < i ==> (#[trigger] pairs[j]).0 != id@,
        decreases statuses.len() - i,
    {
        assert(pairs[i as int] == (statuses@[i as int].0@, statuses@[i as int].1@));
        if statuses[i].0 == *id {
            proof {
                lemma_keyed_at(pairs, i as int);
            }
            return statuses[i].1.clone();
        }
        i = i + 1;
    }
    assert(!has_key(pairs, id@));
    TunnelStatus::Disconnected
}

/// The status of all tunnels together.
pub fn aggregate_status(
    tunnels: &Vec<TunnelConfig>,
    statuses: &Vec<(String, TunnelStatus)>,
) -> (s: TunnelStatus)
    requires
        distinct(status_pairs(statuses@)),
    ensures
        s@ == aggregate(
            crate::config::tunnel_views(tunnels@),
            keyed(status_pairs(statuses@)),
        ),
{
    let ghost views = crate::config::tunnel_views(tunnels@);
    let ghost map = keyed(status_pairs(statuses@));
    let mut any_error = false;
    let mut any_connecting = false;
    let mut all_connected = true;
    let mut i: usize = 0;
    while i < tunnels.len()
        invariant
            i <= tunnels.len(),
            views == crate::config::tunnel_views(tunnels@),
            map == keyed(status_pairs(statuses@)),
            distinct(status_pairs(statuses@)),
            any_error <==> exists|j: int|
                0 <= j < i && shown(map, (#[trigger] views[j]).id) is Error,
            any_connecting <==> exists|j: int|
                0 <= j < i && shown(map, (#[trigger] views[j]).id) is Connecting,
            any_error || any_connecting || (all_connected <==> forall|j: int|
                0 <= j < i ==> shown(map, (#[trigger] views[j]).id) is Connected),
        decreases tunnels.len() - i,
    {
        assert(views[i as int] == tunnels@[i as int]@);
        match status_of(statuses, &tunnels[i].id) {
            TunnelStatus::Error(_) => any_error = true,
            TunnelStatus::Connecting => any_connecting = true,
            TunnelStatus::Connected => {},
            TunnelStatus::Disconnected => all_connected = false,
        }
        i = i + 1;
    }
    if any_error {
        TunnelStatus::Error(String::new())
    } else if any_connecting {
        TunnelStatus::Connecting
    } else if tunnels.len() > 0 && all_connected {
        TunnelStatus::Connected
    } else {
        TunnelStatus::Disconnected
    }
}

fn item(id: &str, label: &str) -> (e: MenuEntry)
    ensures
        e@ == (MenuEntryView::Item { id: id@, label: label@ }),
{
    MenuEntry::Item { id: id.to_owned(), label: label.to_owned() }
}

/// The menu for a list of tunnels and the statuses of those that run.
pub fn build_menu(
    tunnels: &Vec<TunnelConfig>,
    statuses: &Vec<(String, TunnelStatus)>,
) -> (entries: Vec<MenuEntry>)
    requires
        distinct(status_pairs(statuses@)),
    ensures
        menu_views(entries@) == menu(
            crate::config::tunnel_views(tunnels@),
            keyed(status_pairs(statuses@)),
        ),
{
    let ghost views = crate::config::tunnel_views(tunnels@);
    let ghost map = keyed(status_pairs(statuses@));
    let mut entries: Vec<MenuEntry> = Vec::new();
    let mut i: usize = 0;
    while i < tunnels.len()
        invariant
            i <= tunnels.len(),
            views == crate::config::tunnel_views(tunnels@),
            map == keyed(status_pairs(statuses@)),
            distinct(status_pairs(statuses@)),
            entries.len() == i,
            forall|j: int| 0 <= j < i ==> (#[trigger] entries[j])@ == row(views[j], map),
        decreases tunnels.len() - i,
    {
        assert(views[i as int] == tunnels@[i as int]@);
        let status = status_of(statuses, &tunnels[i].id);
        let label = status_marker(&status).to_owned().concat(" ").concat(
            tunnels[i].name.as_str(),
        ).concat("  ").concat(status_text(&status));
        let id = "tunnel_".to_owned().concat(tunnels[i].id.as_str());
        entries.push(MenuEntry::Item { id, label });
        i = i + 1;
    }
    let ghost shown_rows = menu_views(entries@);
    assert(shown_rows =~= rows(views, map));
    if tunnels.len() > 0 {
        entries.push(MenuEntry::Separator);
    }
    entries.push(item("all_start", "全部连接"));
    entries.push(item("all_stop", "全部断开"));
    entries.push(MenuEntry::Separator);
    entries.push(item("open_config", "配置"));
    entries.push(item("quit", "退出"));
    assert(menu_views(entries@) =~= menu(views, map));
    entries
}

/// Whether the tray shows the tunnels that are configured and those of them that
/// run.
pub open spec fn tray_shows(t: Tray, m: ManagerView) -> bool {
    &&& t.status@ == aggregate(m.config.tunnels, active(m.running))
    &&& t.icon@ == icon_spec(t.status@)
    &&& menu_views(t.menu@) == menu(m.config.tunnels, active(m.running))
}

/// What the tray has to show: the icon of all tunnels together, and the menu.
pub fn refresh_tray(manager: &TunnelManager) -> (t: Tray)
    requires
        manager.wf(),
    ensures
        tray_shows(t, manager@),
{
    let tunnels = manager.config().tunnels;
    let statuses = manager.active_statuses();
    let status = aggregate_status(&tunnels, &statuses);
    let icon = make_tray_icon_pixels(&status);
    let menu = build_menu(&tunnels, &statuses);
    Tray { status, icon, menu }
}

/// What a click in the menu asks for.
#[derive(Debug, PartialEq, Eq)]
pub enum MenuAction {
    StartAll,
    StopAll,
    /// Stop the tunnel if it runs, else start it.
    Toggle(String),
    OpenConfig,
    Quit,
    Nothing,
}

#[verifier::ext_equal]
pub enum MenuActionView {
    StartAll,
    StopAll,
    Toggle(Seq<char>),
    OpenConfig,
    Quit,
    Nothing,
}

impl View for MenuAction {
    type V = MenuActionView;

    open spec fn view(&self) -> MenuActionView {
        match *self {
            MenuAction::StartAll => MenuActionView::StartAll,
            MenuAction::StopAll => MenuActionView::StopAll,
            MenuAction::Toggle(id) => MenuActionView::Toggle(id@),
            MenuAction::OpenConfig => MenuActionView::OpenConfig,
            MenuAction::Quit => MenuActionView::Quit,
            MenuAction::Nothing => MenuActionView::Nothing,
        }
    }
}

/// What a click on the line with the id `id` asks for.
pub open spec fn menu_action(id: Seq<char>) -> MenuActionView {
    if id == "all_start"@ {
        MenuActionView::StartAll
    } else if id == "all_stop"@ {
        MenuActionView::StopAll
    } else if starts_with(id, "tunnel_"@) {
        MenuActionView::Toggle(id.skip("tunnel_"@.len() as int))
    } else if id == "open_config"@ {
        MenuActionView::OpenConfig
    } else if id == "quit"@ {
        MenuActionView::Quit
    } else {
        MenuActionView::Nothing
    }
}

fn is_text(s: &String, other: &str) -> (b: bool)
    ensures
        b == (s@ == other@),
{
    *s == other.to_owned()
}

/// What a click on the line with the id `id` asks for.
pub fn on_menu_event(id: &str) -> (a: MenuAction)
    ensures
        a@ == menu_action(id@),
{
    let line = id.to_owned();
    if is_text(&line, "all_start") {
        MenuAction::StartAll
    } else if is_text(&line, "all_stop") {
        MenuAction::StopAll
    } else {
        match strip_prefix(id, "tunnel_") {
            Some(tunnel) => MenuAction::Toggle(tunnel),
            None => if is_text(&line, "open_config") {
                MenuAction::OpenConfig
            } else if is_text(&line, "quit") {
                MenuAction::Quit
            } else {
                MenuAction::Nothing
            },
        }
    }
}

/// A click on a tunnel's row toggles that tunnel, whatever its id is.
pub proof fn row_toggles_its_tunnel(id: Seq<char>)
    ensures
        menu_action(row_id(id)) == MenuActionView::Toggle(id),
{
    reveal_strlit("tunnel_");
    reveal_strlit("all_start");
    reveal_strlit("all_stop");
    let line = row_id(id);
    assert(line[0] == 't');
    assert("all_start"@[0] == 'a');
    assert("all_stop"@[0] == 'a');
    assert(line.take("tunnel_"@.len() as int) =~= "tunnel_"@);
    assert(line.skip("tunnel_"@.len() as int) =~= id);
}

/// Where nothing runs the icon is that of a disconnected tunnel, and every row
/// says that its tunnel is not connected.
pub proof fn nothing_running_shows_disconnected(tunnels: Seq<TunnelConfigView>, i: int)
    requires
        0 <= i < tunnels.len(),
    ensures
        aggregate(tunnels, Map::empty()) is Disconnected,
        menu(tunnels, Map::empty())[i] == (MenuEntryView::Item {
            id: row_id(tunnels[i].id),
            label: "○"@ + " "@ + tunnels[i].name + "  "@ + "未连接"@,
        }),
{
    assert(shown(Map::empty(), tunnels[i].id) is Disconnected);
}

/// The tray shows the configured tunnels alone: statuses that agree on those give
/// the same icon and the same menu.
pub proof fn tray_shows_configured_tunnels_only(
    tunnels: Seq<TunnelConfigView>,
    a: Statuses,
    b: Statuses,
)
    requires
        forall|i: int|
            0 <= i < tunnels.len() ==> shown(a, (#[trigger] tunnels[i]).id) == shown(
                b,
                tunnels[i].id,
            ),
    ensures
        aggregate(tunnels, a) == aggregate(tunnels, b),
        menu(tunnels, a) == menu(tunnels, b),
{
    assert(rows(tunnels, a) =~= rows(tunnels, b));
}

/// The status of all tunnels together, by those that are configured: an error where
/// any of them is in error; else connecting where any of them connects, whatever
/// the others do; connected exactly where there is one and every one is connected;
/// and else disconnected. A tunnel that does not run is none of these.
pub proof fn worst_status_is_shown(tunnels: Seq<TunnelConfigView>, statuses: Statuses)
    ensures
        ({
            let all = aggregate(tunnels, statuses);
            let any_error = exists|i: int|
                0 <= i < tunnels.len() && statuses.contains_key((#[trigger] tunnels[i]).id)
                    && statuses[tunnels[i].id] is Error;
            let any_connecting = exists|i: int|
                0 <= i < tunnels.len() && statuses.contains_key((#[trigger] tunnels[i]).id)
                    && statuses[tunnels[i].id] is Connecting;
            let every_connected = forall|i: int|
                0 <= i < tunnels.len() ==> statuses.contains_key((#[trigger] tunnels[i]).id)
                    && statuses[tunnels[i].id] is Connected;
            &&& all is Error <==> any_error
            &&& all is Connecting <==> !any_error && any_connecting
            &&& all is Connected <==> tunnels.len() > 0 && every_connected
            &&& all matches TunnelStatusView::Error(reason) ==> reason.len() == 0
        }),
{
}

/// One tunnel that connects shows, unless one is in error; where all together are
/// connected, each is.
pub proof fn each_tunnel_counts(tunnels: Seq<TunnelConfigView>, statuses: Statuses, i: int)
    requires
        0 <= i < tunnels.len(),
    ensures
        ({
            let all = aggregate(tunnels, statuses);
            let runs = statuses.contains_key(tunnels[i].id);
            let status = statuses[tunnels[i].id];
            &&& runs && status is Error ==> all is Error
            &&& runs && status is Connecting ==> all is Error || all is Connecting
            &&& all is Connected ==> runs && status is Connected
            &&& !runs || status is Disconnected ==> !(all is Connected)
        }),
{
    worst_status_is_shown(tunnels, statuses);
}

/// The sign and the words of each status, whatever the reason of an error.
pub proof fn each_status_has_its_words(reason: Seq<char>)
    ensures
        marker(TunnelStatusView::Connected) == "●"@,
        marker(TunnelStatusView::Connecting) == "◐"@,
        marker(TunnelStatusView::Error(reason)) == "●"@,
        marker(TunnelStatusView::Disconnected) == "○"@,
        wording(TunnelStatusView::Connected) == "已连接"@,
        wording(TunnelStatusView::Connecting) == "连接中"@,
        wording(TunnelStatusView::Error(reason)) == "错误"@,
        wording(TunnelStatusView::Disconnected) == "未连接"@,
{
}

/// The menu has a row for each tunnel, in the order of the configuration, with the
/// tunnel's name and its own status; below a line, if there are rows, stand the
/// four commands.
pub proof fn menu_has_a_row_for_each_tunnel(
    tunnels: Seq<TunnelConfigView>,
    statuses: Statuses,
    i: int,
)
    ensures
        ({
            let lines = menu(tunnels, statuses);
            let n = tunnels.len() as int;
            let first = if n == 0 {
                0
            } else {
                n + 1
            };
            &&& lines.len() == first + 5
            &&& n > 0 ==> lines[n] is Separator
            &&& lines[first] == (MenuEntryView::Item { id: "all_start"@, label: "全部连接"@ })
            &&& lines[first + 1] == (MenuEntryView::Item { id: "all_stop"@, label: "全部断开"@ })
            &&& lines[first + 2] is Separator
            &&& lines[first + 3] == (MenuEntryView::Item { id: "open_config"@, label: "配置"@ })
            &&& lines[first + 4] == (MenuEntryView::Item { id: "quit"@, label: "退出"@ })
            &&& 0 <= i < n ==> {
                let t = tunnels[i];
                let (sign, words) = if !statuses.contains_key(t.id) {
                    ("○"@, "未连接"@)
                } else {
                    match statuses[t.id] {
                        TunnelStatusView::Connected => ("●"@, "已连接"@),
                        TunnelStatusView::Connecting => ("◐"@, "连接中"@),
                        TunnelStatusView::Error(_) => ("●"@, "错误"@),
                        TunnelStatusView::Disconnected => ("○"@, "未连接"@),
                    }
                };
                &&& lines[i] is Item
                &&& lines[i]->id == "tunnel_"@ + t.id
                &&& lines[i]->label == sign + " "@ + t.name + "  "@ + words
            }
        }),
{
}

/// Two tunnels with different ids have rows with different ids.
pub proof fn rows_are_told_apart(a: Seq<char>, b: Seq<char>)
    ensures
        row_id(a) == "tunnel_"@ + a,
        row_id(a) == row_id(b) ==> a == b,
{
    prefix_and_rest(row_id(a), "tunnel_"@, a);
    prefix_and_rest(row_id(b), "tunnel_"@, b);
}

/// What a click asks for: each command's own line asks for that command and no
/// other line does, a tunnel's row toggles that tunnel, and anything else asks for
/// nothing.
pub proof fn each_line_asks_for_one_thing(id: Seq<char>, tunnel: Seq<char>)
    ensures
        menu_action(id) is StartAll <==> id == "all_start"@,
        menu_action(id) is StopAll <==> id == "all_stop"@,
        menu_action(id) is OpenConfig <==> id == "open_config"@,
        menu_action(id) is Quit <==> id == "quit"@,
        menu_action(id) == MenuActionView::Toggle(tunnel) <==> id == "tunnel_"@ + tunnel,
{
    reveal_strlit("tunnel_");
    reveal_strlit("all_start");
    reveal_strlit("all_stop");
    reveal_strlit("open_config");
    reveal_strlit("quit");
    assert("tunnel_"@[0] == 't');
    assert("all_start"@[0] == 'a' && "all_start"@[4] == 's' && "all_start"@[6] == 'a');
    assert("all_stop"@[0] == 'a' && "all_stop"@[6] == 'o');
    assert("open_config"@[0] == 'o');
    assert("quit"@[0] == 'q');
    prefix_and_rest(id, "tunnel_"@, tunnel);
    if starts_with(id, "tunnel_"@) {
        assert(id[0] == id.take(7)[0]);
    }
    row_toggles_its_tunnel(tunnel);
    assert(id == "tunnel_"@ + tunnel ==> menu_action(id) == MenuActionView::Toggle(tunnel));
}

/// What the tray shows of a configured tunnel is what is registered: one that is
/// registered and was not asked to stop is shown in its status, and any other as
/// disconnected.
pub proof fn tray_tells_what_is_registered(t: Tray, m: ManagerView, i: int)
    requires
        tray_shows(t, m),
        0 <= i < m.config.tunnels.len(),
    ensures
        ({
            let tunnel = m.config.tunnels[i];
            let runs = m.running.contains_key(tunnel.id) && !m.running[tunnel.id].stopped;
            let status = m.running[tunnel.id].status;
            &&& t.icon@ == icon_spec(t.status@)
            &&& t.menu@.len() == m.config.tunnels.len() + 6
            &&& t.menu@[i] matches MenuEntry::Item { id, label } && id@ == "tunnel_"@ + tunnel.id
                && label@ == if runs {
                marker(status) + " "@ + tunnel.name + "  "@ + wording(status)
            } else {
                "○"@ + " "@ + tunnel.name + "  "@ + "未连接"@
            }
            &&& runs && status is Error ==> t.status@ is Error
            &&& runs && status is Connecting ==> t.status@ is Error || t.status@ is Connecting
            &&& t.status@ is Connected ==> runs && status is Connected
        }),
{
    each_tunnel_counts(m.config.tunnels, active(m.running), i);
    menu_has_a_row_for_each_tunnel(m.config.tunnels, active(m.running), i);
    assert(menu_views(t.menu@)[i] == t.menu@[i]@);
}

/// What stands for a menu or for a click holds all that it says.
pub proof fn nothing_is_lost_in_the_menu(entries: Seq<MenuEntry>, i: int, a: MenuAction)
    ensures
        menu_views(entries).len() == entries.len(),
        0 <= i < entries.len() ==> match entries[i] {
            MenuEntry::Item { id, label } => menu_views(entries)[i] == (MenuEntryView::Item {
                id: id@,
                label: label@,
            }),
            MenuEntry::Separator => menu_views(entries)[i] is Separator,
        },
        match a {
            MenuAction::StartAll => a@ is StartAll,
            MenuAction::StopAll => a@ is StopAll,
            MenuAction::Toggle(id) => a@ == MenuActionView::Toggle(id@),
            MenuAction::OpenConfig => a@ is OpenConfig,
            MenuAction::Quit => a@ is Quit,
            MenuAction::Nothing => a@ is Nothing,
        },
{
}

} // verus!
