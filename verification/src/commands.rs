//! What windows and the tray ask for, and what is read and written at rest.
use crate::config::{ids_ensured, tunnel_views, AppConfig, AppConfigView, TunnelConfig};
use crate::config::{decrypted, encrypted, encrypting_changes_passwords_only, every_password_counts};
use crate::config::{filling_in_ids_keeps_every_tunnel, merging_keeps_every_tunnel};
use crate::config::{first_tunnel, ids, is_uuid_v4, same_but_id, AuthMethodView, TunnelConfigView};
use crate::manager::{first_is_found, first_with_id, halted, lemma_listed_is_found, only_stopped};
use crate::manager::{names_follow_the_list, pruned, renamed, runs, stops_set_flags_only};
use crate::manager::{start, start_view, with_stop, ManagerView, Running, StartStep, StartView};
use crate::manager::TunnelManager;
use crate::secret::can_be_sealed;
use vstd::prelude::*;
use vstd::utf8::*;

verus! {

/// Whether every tunnel has an id, and the list holds them all.
pub open spec fn is_settled(c: AppConfigView) -> bool {
    &&& c.tunnel is None
    &&& forall|i: int| 0 <= i < c.tunnels.len() ==> (#[trigger] c.tunnels[i]).id.len() > 0
}

/// The registry after a new list of tunnels was saved: what is no longer in the
/// list is asked to stop, and the rest takes over its name.
pub open spec fn saved(running: Running, tunnels: Seq<TunnelConfigView>) -> Running {
    renamed(pruned(running, ids(tunnels)), tunnels)
}

/// Whether saving the list `tunnels` turned the registry `before` into `after`, with
/// the configuration `c`.
pub open spec fn config_saved(
    before: ManagerView,
    tunnels: Seq<TunnelConfigView>,
    after: ManagerView,
    c: AppConfigView,
) -> bool {
    &&& ids_ensured(c.tunnels, tunnels)
    &&& is_settled(c)
    &&& after == (ManagerView { running: saved(before.running, c.tunnels), config: c, ..before })
}

/// Where missing ids were filled in, none is missing.
proof fn lemma_ids_are_there(after: Seq<TunnelConfigView>, before: Seq<TunnelConfigView>)
    requires
        ids_ensured(after, before),
    ensures
        forall|i: int| 0 <= i < after.len() ==> (#[trigger] after[i]).id.len() > 0,
{
}

/// Replaces the whole list of tunnels, gives each that has no id a fresh one,
/// and returns the configuration that results. What runs and is no longer in the
/// list is asked to stop.
pub fn save_config(manager: &mut TunnelManager, tunnels: Vec<TunnelConfig>) -> (c: AppConfig)
    requires
        old(manager).wf(),
    ensures
        final(manager).wf(),
        config_saved(old(manager)@, tunnel_views(tunnels@), final(manager)@, c@),
{
    let mut config = AppConfig { tunnels, tunnel: None };
    config.ensure_ids();
    proof {
        lemma_ids_are_there(config@.tunnels, tunnel_views(tunnels@));
    }
    manager.set_config(config.clone());
    let keep = config.ids();
    manager.prune(keep.as_slice());
    manager.refresh_names(config.tunnels.as_slice());
    config
}

/// What was found where the configuration is saved.
#[derive(Debug)]
pub enum SavedFile {
    /// No file that can be read.
    Missing,
    /// A file that holds no configuration.
    Damaged,
    Found(AppConfig),
}

/// Whether `c` is the configuration of a first start.
pub open spec fn is_first_start(c: AppConfigView) -> bool {
    &&& c.tunnels.len() == 1
    &&& is_uuid_v4(c.tunnels[0].id)
    &&& c.tunnels[0] == first_tunnel(c.tunnels[0].id)
    &&& c.tunnel is None
}

/// The tunnels with their passwords decrypted.
pub open spec fn unsealed_tunnels(tunnels: Seq<TunnelConfigView>) -> Seq<TunnelConfigView> {
    tunnels.map_values(|t: TunnelConfigView| t.unsealed())
}

/// The configuration that was found, if any.
pub open spec fn found_config(file: SavedFile) -> Option<AppConfigView> {
    match file {
        SavedFile::Missing | SavedFile::Damaged => None,
        SavedFile::Found(found) => Some(found@),
    }
}

/// Whether `c` is the configuration to begin with where `found` was found.
pub open spec fn config_loaded(found: Option<AppConfigView>, c: AppConfigView) -> bool {
    &&& is_settled(c)
    &&& match found {
        None => is_first_start(c),
        Some(f) => ids_ensured(c.tunnels, unsealed_tunnels(f.merged())),
    }
}

/// The configuration to begin with. A file that holds one tunnel and no list is
/// taken over into the list, missing ids are filled in and passwords decrypted;
/// without a file that can be used there is one new tunnel. A configuration that
/// was saved by [`save_config_to_file`] comes back as it was.
pub fn load_config(file: SavedFile) -> (c: AppConfig)
    ensures
        config_loaded(found_config(file), c@),
        forall|plain: AppConfigView|
            file is Found && is_settled(plain) && #[trigger] file->Found_0@.seals(plain) ==> c@
                == plain,
{
    let found = match file {
        SavedFile::Missing | SavedFile::Damaged => return AppConfig::defaults(),
        SavedFile::Found(found) => found,
    };
    let mut config = found;
    let ghost before = config@;
    config.migrate_and_ensure_ids();
    let ghost identified = config@;
    config.decrypt_passwords();
    proof {
        let plain_tunnels = unsealed_tunnels(before.merged());
        assert forall|i: int| 0 <= i < plain_tunnels.len() implies #[trigger] config@.tunnels[i]
            == plain_tunnels[i].identified(config@.tunnels[i].id) && (plain_tunnels[i].id.len()
            == 0 ==> is_uuid_v4(config@.tunnels[i].id)) by {
            assert(identified.tunnels[i] == before.merged()[i].identified(
                identified.tunnels[i].id,
            ));
        }
        lemma_ids_are_there(config@.tunnels, plain_tunnels);
        assert forall|plain: AppConfigView|
            is_settled(plain) && #[trigger] before.seals(plain) implies config@ == plain by {
            assert(identified.tunnels =~= before.tunnels) by {
                assert forall|i: int| 0 <= i < before.tunnels.len() implies
                    identified.tunnels[i] == before.tunnels[i] by {
                    assert(before.tunnels[i].seals(plain.tunnels[i]));
                    assert(plain.tunnels[i].id.len() > 0);
                    assert(identified.tunnels[i] == before.merged()[i].identified(
                        identified.tunnels[i].id,
                    ));
                }
            }
            assert(identified =~= before);
        }
    }
    config
}

/// Whether `r` is what is written of the configuration `c`, if anything is.
pub open spec fn config_written(c: AppConfigView, r: Option<AppConfigView>) -> bool {
    &&& r is Some <==> c.can_be_sealed()
    &&& r matches Some(stored) ==> stored.seals(c)
}

/// A configuration that may be there, as a value.
pub open spec fn optional_config(c: Option<AppConfig>) -> Option<AppConfigView> {
    match c {
        Some(config) => Some(config@),
        None => None,
    }
}

/// What is written of a configuration: every password encrypted, and all else as
/// it is. `None` where a password exceeds what the cipher takes.
pub fn save_config_to_file(config: &AppConfig) -> (r: Option<AppConfig>)
    ensures
        config_written(config@, optional_config(r)),
{
    let mut to_save = config.clone();
    if to_save.encrypt_passwords() {
        Some(to_save)
    } else {
        None
    }
}

/// What a click on a tunnel comes to.
#[derive(Debug)]
pub enum Toggle {
    Stopping,
    Starting(Result<StartStep, String>),
}

/// What a click on a tunnel comes to, as a value.
#[verifier::ext_equal]
pub enum ToggleView {
    Stopping,
    Starting(StartView),
}

impl View for Toggle {
    type V = ToggleView;

    open spec fn view(&self) -> ToggleView {
        match *self {
            Toggle::Stopping => ToggleView::Stopping,
            Toggle::Starting(r) => ToggleView::Starting(start_view(r)),
        }
    }
}

/// What a click on the tunnel `id` comes to.
pub open spec fn toggled(m: ManagerView, id: Seq<char>) -> (ManagerView, ToggleView) {
    if runs(m.running, id) {
        (ManagerView { running: with_stop(m.running, id), ..m }, ToggleView::Stopping)
    } else {
        let (after, r) = start(m, id);
        (after, ToggleView::Starting(r))
    }
}

/// Asks for a stop of a tunnel that runs; starts one that does not.
pub fn toggle_tunnel(manager: &mut TunnelManager, id: &str) -> (t: Toggle)
    requires
        old(manager).wf(),
    ensures
        final(manager).wf(),
        (final(manager)@, t@) == toggled(old(manager)@, id@),
{
    if manager.is_running(id) {
        manager.stop_tunnel(id);
        Toggle::Stopping
    } else {
        Toggle::Starting(manager.start_tunnel(id))
    }
}

/// Saving does not touch what stays in the list: it goes on running as it was
/// started, whatever was edited, and only its name follows.
pub proof fn saving_keeps_what_stays(
    running: Running,
    tunnels: Seq<TunnelConfigView>,
    id: Seq<char>,
)
    requires
        running.contains_key(id),
        ids(tunnels).contains(id),
    ensures
        saved(running, tunnels).contains_key(id),
        saved(running, tunnels)[id].token == running[id].token,
        saved(running, tunnels)[id].stopped == running[id].stopped,
        saved(running, tunnels)[id].status == running[id].status,
        first_with_id(tunnels, id) is Some,
        saved(running, tunnels)[id].name == first_with_id(tunnels, id)->0.name,
{
    lemma_listed_is_found(tunnels, id);
}

/// Saving asks everything to stop that is no longer in the list, and registers
/// and takes out nothing.
pub proof fn saving_stops_what_was_deleted(
    running: Running,
    tunnels: Seq<TunnelConfigView>,
    id: Seq<char>,
)
    ensures
        saved(running, tunnels).dom() == running.dom(),
        running.contains_key(id) && !ids(tunnels).contains(id) ==> saved(running, tunnels)[id]
            == halted(running[id]),
        runs(saved(running, tunnels), id) <==> runs(running, id) && ids(tunnels).contains(id),
{
    lemma_listed_is_found(tunnels, id);
    assert(saved(running, tunnels).dom() =~= running.dom());
}

/// What saving does to the registry, by the list: a tunnel that is in it goes on as
/// it was, under the name that it has there; one that is not is asked to stop; and
/// none comes or goes.
pub proof fn saving_goes_by_the_list(
    running: Running,
    tunnels: Seq<TunnelConfigView>,
    id: Seq<char>,
    i: int,
)
    ensures
        saved(running, tunnels).contains_key(id) <==> running.contains_key(id),
        running.contains_key(id) && 0 <= i < tunnels.len() && tunnels[i].id == id && (forall|j: int|
            0 <= j < i ==> (#[trigger] tunnels[j]).id != id) ==> {
            &&& saved(running, tunnels)[id].token == running[id].token
            &&& saved(running, tunnels)[id].stopped == running[id].stopped
            &&& saved(running, tunnels)[id].status == running[id].status
            &&& saved(running, tunnels)[id].name == tunnels[i].name
        },
        running.contains_key(id) && (forall|j: int|
            0 <= j < tunnels.len() ==> (#[trigger] tunnels[j]).id != id) ==> only_stopped(
            saved(running, tunnels)[id],
            running[id],
        ),
{
    lemma_listed_is_found(tunnels, id);
    first_is_found(tunnels, id);
    stops_set_flags_only(running, id, id, ids(tunnels));
    names_follow_the_list(pruned(running, ids(tunnels)), tunnels, id, i);
    if 0 <= i < tunnels.len() && tunnels[i].id == id {
        assert(ids(tunnels)[i] == id);
    }
}

/// Saving keeps every tunnel, in order, with every field that it was given, whether
/// or not it had an id: an id that was there stays, and a missing one is filled in.
/// What was saved is what tunnels are started from, and no token is used up.
pub proof fn saving_keeps_every_field(
    before: ManagerView,
    tunnels: Seq<TunnelConfigView>,
    after: ManagerView,
    c: AppConfigView,
    i: int,
)
    requires
        config_saved(before, tunnels, after, c),
    ensures
        after.config == c,
        after.next_token == before.next_token,
        after.running == saved(before.running, c.tunnels),
        c.tunnel is None,
        c.tunnels.len() == tunnels.len(),
        0 <= i < tunnels.len() ==> {
            &&& same_but_id(c.tunnels[i], tunnels[i])
            &&& c.tunnels[i].id.len() > 0
            &&& tunnels[i].id.len() > 0 ==> c.tunnels[i].id == tunnels[i].id
        },
{
    filling_in_ids_keeps_every_tunnel(c.tunnels, tunnels, i);
}

/// Whether `t` is `stored` as it is loaded: with an id, with its password decrypted,
/// and otherwise as it was.
pub open spec fn restored(t: TunnelConfigView, stored: TunnelConfigView) -> bool {
    &&& t.id.len() > 0
    &&& stored.id.len() > 0 ==> t.id == stored.id
    &&& decrypted(TunnelConfigView { id: stored.id, ..t }, stored)
}

/// Loading keeps every tunnel of the file, the one of a file without a list after
/// those of the list, each with every field but for a missing id and the password,
/// which is decrypted.
pub proof fn loading_keeps_every_field(found: AppConfigView, c: AppConfigView, i: int)
    requires
        config_loaded(Some(found), c),
    ensures
        c.tunnel is None,
        c.tunnels.len() == found.tunnels.len() + if found.tunnel is Some {
            1int
        } else {
            0
        },
        0 <= i < found.tunnels.len() ==> restored(c.tunnels[i], found.tunnels[i]),
        found.tunnel is Some ==> restored(c.tunnels.last(), found.tunnel->0),
{
    let plain = unsealed_tunnels(found.merged());
    merging_keeps_every_tunnel(found);
    if 0 <= i < found.tunnels.len() {
        filling_in_ids_keeps_every_tunnel(c.tunnels, plain, i);
        assert(found.merged()[i] == found.tunnels[i]);
        assert(plain[i] == found.tunnels[i].unsealed());
    }
    if found.tunnel is Some {
        let last = found.tunnels.len() as int;
        filling_in_ids_keeps_every_tunnel(c.tunnels, plain, last);
        assert(plain[last] == found.tunnel->0.unsealed());
    }
}

/// Whether a tunnel's password, if it has one, has no more than 2^36 bytes.
pub open spec fn password_fits(t: TunnelConfigView) -> bool {
    t.auth_method matches AuthMethodView::Password { password } ==> encode_utf8(password).len()
        <= 68719476736
}

/// A configuration is written unless a password has more than 2^36 bytes; what is
/// written has every tunnel in its place, with every field as it was but for the
/// password, which is not written as it is.
pub proof fn writing_keeps_every_field(
    c: AppConfigView,
    r: Option<AppConfigView>,
    i: int,
)
    requires
        config_written(c, r),
    ensures
        r is None <==> {
            ||| exists|k: int| 0 <= k < c.tunnels.len() && !password_fits(#[trigger] c.tunnels[k])
            ||| c.tunnel is Some && !password_fits(c.tunnel->0)
        },
        r matches Some(stored) ==> {
            &&& stored.tunnels.len() == c.tunnels.len()
            &&& 0 <= i < c.tunnels.len() ==> encrypted(stored.tunnels[i], c.tunnels[i])
            &&& stored.tunnel is Some <==> c.tunnel is Some
            &&& c.tunnel is Some ==> encrypted(stored.tunnel->0, c.tunnel->0)
        },
{
    every_password_counts(c);
    if let Some(stored) = r {
        encrypting_changes_passwords_only(stored, c, i);
    }
    assert forall|k: int| 0 <= k < c.tunnels.len() implies (password_fits(#[trigger] c.tunnels[k])
        <==> (c.tunnels[k].auth_method is Password ==> can_be_sealed(
        c.tunnels[k].auth_method->password,
    ))) by {}
}

/// A tunnel that was written comes back in its place, with its id and every other
/// field but the password; that the password comes back too, [`load_config`] says
/// itself.
pub proof fn written_tunnel_comes_back(
    c: AppConfigView,
    stored: AppConfigView,
    loaded: AppConfigView,
    i: int,
)
    requires
        config_written(c, Some(stored)),
        config_loaded(Some(stored), loaded),
        c.tunnel is None,
        0 <= i < c.tunnels.len(),
        c.tunnels[i].id.len() > 0,
    ensures
        loaded.tunnels.len() == c.tunnels.len(),
        same_but_id(
            TunnelConfigView { auth_method: c.tunnels[i].auth_method, ..loaded.tunnels[i] },
            c.tunnels[i],
        ),
        loaded.tunnels[i].id == c.tunnels[i].id,
        c.tunnels[i].auth_method is Key ==> loaded.tunnels[i].auth_method
            == c.tunnels[i].auth_method,
{
    encrypting_changes_passwords_only(stored, c, i);
    loading_keeps_every_field(stored, loaded, i);
}

/// Where no configuration was found there is one tunnel to begin with: to this
/// machine, as root, without a password, not enabled, with one rule from the port
/// 5432 to the same port there, and under a fresh id.
pub proof fn first_start_has_one_tunnel(c: AppConfigView)
    requires
        config_loaded(None, c),
    ensures
        c.tunnel is None,
        c.tunnels.len() == 1,
        ({
            let t = c.tunnels[0];
            &&& t.id.len() == 36 && t.id[14] == '4'
            &&& t.name == "新建隧道"@
            &&& t.ssh_host == "127.0.0.1"@
            &&& t.ssh_port == 22
            &&& t.ssh_user == "root"@
            &&& t.auth_method == (AuthMethodView::Password { password: seq![] })
            &&& t.local_port == 5432
            &&& t.target_host == "127.0.0.1"@
            &&& t.target_port == 5432
            &&& !t.enabled
            &&& t.forwards.len() == 1
            &&& t.forwards[0].local_port == 5432
            &&& t.forwards[0].target_host == "127.0.0.1"@
            &&& t.forwards[0].target_port == 5432
        }),
{
}

/// A click stops a tunnel that is registered and was not asked to stop, and leaves
/// all others as they are; on any other tunnel it is a start.
pub proof fn click_stops_or_starts(m: ManagerView, id: Seq<char>, other: Seq<char>)
    ensures
        m.running.contains_key(id) && !m.running[id].stopped ==> {
            let (after, r) = toggled(m, id);
            &&& r is Stopping
            &&& after.config == m.config
            &&& after.next_token == m.next_token
            &&& after.running.contains_key(id)
            &&& only_stopped(after.running[id], m.running[id])
            &&& other != id ==> after.running.get(other) == m.running.get(other)
        },
        !(m.running.contains_key(id) && !m.running[id].stopped) ==> {
            let (after, r) = toggled(m, id);
            &&& after == start(m, id).0
            &&& r is Starting
            &&& r->Starting_0 == start(m, id).1
        },
{
}

/// What stands for a file or for a click holds all that it says.
pub proof fn nothing_is_lost_in_a_command(file: SavedFile, t: Toggle)
    ensures
        match file {
            SavedFile::Missing | SavedFile::Damaged => found_config(file) is None,
            SavedFile::Found(found) => found_config(file) == Some(found@),
        },
        match t {
            Toggle::Stopping => t@ is Stopping,
            Toggle::Starting(r) => t@ == ToggleView::Starting(start_view(r)),
        },
{
}

} // verus!
