//! What AutoStart keeps in memory: the profiles, the settings and the session history, with
//! the rules every change follows. Saving them to disk is up to the caller.
use vstd::prelude::*;

use crate::error::AppError;
use crate::models::{
    clone_profiles, Profile, ProfileView, ProfilesUpdate, SessionLog, SessionLogView, Settings,
};
use crate::monitor::session::{learn_item_process_name, learned_profile};
use crate::processes::normalized;
use crate::session_history::{record, recorded};
use crate::text::same_text;
use crate::trigger_conflicts::{
    conflicting_ids, disable, enabled_with_id, kept_flags, lemma_enabled_with_id_bounds,
    lemma_shares_symmetric, profiles_to_disable, resolve_conflicts, settle_order, shares,
    shares_trigger, to_disable,
};
use crate::validation::{
    is_validation_error, profile_problem, reports, settings_problem, validate_profile,
    validate_settings,
};

verus! {

/// The profiles, the settings and the past sessions.
pub struct AppState {
    pub profiles: Vec<Profile>,
    pub settings: Settings,
    pub session_history: Vec<SessionLog>,
}

pub struct AppStateView {
    pub profiles: Seq<ProfileView>,
    pub settings: Settings,
    pub session_history: Seq<SessionLogView>,
}

impl View for AppState {
    type V = AppStateView;

    open spec fn view(&self) -> AppStateView {
        AppStateView {
            profiles: self.profiles.deep_view(),
            settings: self.settings,
            session_history: self.session_history.deep_view(),
        }
    }
}

/// The position of the first profile with that id.
pub open spec fn index_of_id(profiles: Seq<ProfileView>, id: Seq<char>) -> Option<int>
    decreases profiles.len(),
{
    if profiles.len() == 0 {
        None
    } else {
        match index_of_id(profiles.drop_last(), id) {
            Some(i) => Some(i),
            None => if profiles.last().id == id {
                Some(profiles.len() - 1)
            } else {
                None
            },
        }
    }
}

/// Whether an enabled profile already watches one of the triggers of `profile`.
pub open spec fn watched_by_enabled(profiles: Seq<ProfileView>, profile: ProfileView) -> bool {
    exists|j: int|
        0 <= j < profiles.len() && (#[trigger] profiles[j]).enabled && shares(profiles[j], profile)
}

/// The profiles once `profile` is stored: it replaces the profile with its id, or comes last,
/// switched off when an enabled profile already watches one of its triggers.
pub open spec fn placed(profiles: Seq<ProfileView>, profile: ProfileView) -> Seq<ProfileView> {
    match index_of_id(profiles, profile.id) {
        Some(i) => profiles.update(i, profile),
        None => profiles.push(
            ProfileView { enabled: profile.enabled && !watched_by_enabled(profiles, profile), ..profile },
        ),
    }
}

/// The profiles with every profile whose id is listed switched off.
pub open spec fn without_ids(profiles: Seq<ProfileView>, ids: Seq<Seq<char>>) -> Seq<ProfileView> {
    Seq::new(
        profiles.len(),
        |i: int| ProfileView { enabled: profiles[i].enabled && !ids.contains(profiles[i].id), ..profiles[i] },
    )
}

/// The profiles after the profile `winner_id` won its triggers: the other enabled profiles
/// that watch one of them are switched off.
pub open spec fn with_winner(profiles: Seq<ProfileView>, winner_id: Seq<char>) -> Seq<ProfileView> {
    without_ids(profiles, to_disable(profiles, winner_id))
}

/// The profiles whose id differs from `id`, in order.
pub open spec fn without_profile(profiles: Seq<ProfileView>, id: Seq<char>) -> Seq<ProfileView> {
    profiles.filter(|p: ProfileView| p.id != id)
}

/// No two profiles have the same id.
pub open spec fn unique_ids(profiles: Seq<ProfileView>) -> bool {
    forall|a: int, b: int|
        0 <= a < profiles.len() && 0 <= b < profiles.len() && a != b ==> (#[trigger] profiles[a]).id
            != (#[trigger] profiles[b]).id
}

/// No two enabled profiles watch a common simulator.
pub open spec fn one_watcher_per_simulator(profiles: Seq<ProfileView>) -> bool {
    forall|a: int, b: int|
        0 <= a < profiles.len() && 0 <= b < profiles.len() && a != b && profiles[a].enabled
            && profiles[b].enabled ==> !shares(#[trigger] profiles[a], #[trigger] profiles[b])
}

proof fn lemma_index_of_id_bounds(profiles: Seq<ProfileView>, id: Seq<char>)
    ensures
        match index_of_id(profiles, id) {
            Some(i) => 0 <= i < profiles.len() && profiles[i].id == id && forall|j: int|
                0 <= j < i ==> (#[trigger] profiles[j]).id != id,
            None => forall|j: int| 0 <= j < profiles.len() ==> (#[trigger] profiles[j]).id != id,
        },
    decreases profiles.len(),
{
    if profiles.len() > 0 {
        let prefix = profiles.drop_last();
        lemma_index_of_id_bounds(prefix, id);
        assert forall|j: int| 0 <= j < prefix.len() implies prefix[j] == profiles[j] by {}
    }
}

proof fn lemma_index_of_id_prefix(profiles: Seq<ProfileView>, id: Seq<char>, i: int)
    requires
        0 <= i < profiles.len(),
        index_of_id(profiles.take(i + 1), id) == Some(i),
    ensures
        index_of_id(profiles, id) == Some(i),
    decreases profiles.len(),
{
    if profiles.len() > i + 1 {
        assert(profiles.drop_last().take(i + 1) =~= profiles.take(i + 1));
        lemma_index_of_id_prefix(profiles.drop_last(), id, i);
    } else {
        assert(profiles.take(i + 1) =~= profiles);
    }
}

/// The index of the first profile with that id.
fn position_of(profiles: &[Profile], id: &str) -> (found: Option<usize>)
    ensures
        match found {
            Some(i) => i < profiles@.len() && index_of_id(profiles.deep_view(), id@) == Some(i as int),
            None => index_of_id(profiles.deep_view(), id@) is None,
        },
{
    let ghost all = profiles.deep_view();
    proof {
        lemma_index_of_id_bounds(all, id@);
    }
    let mut i: usize = 0;
    while i < profiles.len()
        invariant
            all == profiles.deep_view(),
            i <= all.len(),
            index_of_id(all.take(i as int), id@) is None,
        decreases all.len() - i,
    {
        assert(all.take(i + 1).drop_last() =~= all.take(i as int));
        assert(all[i as int] == profiles@[i as int]@);
        if same_text(profiles[i].id.as_str(), id) {
            proof {
                lemma_index_of_id_prefix(all, id@, i as int);
            }
            return Some(i);
        }
        i = i + 1;
    }
    assert(all.take(i as int) =~= all);
    None
}

/// Whether an enabled profile shares a trigger with `profile`.
fn any_enabled_sharing(profiles: &[Profile], profile: &Profile) -> (found: bool)
    ensures
        found == watched_by_enabled(profiles.deep_view(), profile@),
{
    let ghost all = profiles.deep_view();
    let mut j: usize = 0;
    while j < profiles.len()
        invariant
            all == profiles.deep_view(),
            j <= all.len(),
            forall|k: int| 0 <= k < j ==> !((#[trigger] all[k]).enabled && shares(all[k], profile@)),
        decreases all.len() - j,
    {
        assert(all[j as int] == profiles@[j as int]@);
        if profiles[j].enabled && shares_trigger(&profiles[j], profile) {
            assert(all[j as int].enabled && shares(all[j as int], profile@));
            return true;
        }
        j = j + 1;
    }
    false
}

/// Copies of the stored sessions.
fn clone_history(history: &Vec<SessionLog>) -> (copy: Vec<SessionLog>)
    ensures
        copy.deep_view() == history.deep_view(),
{
    let mut copy: Vec<SessionLog> = Vec::new();
    let mut i: usize = 0;
    while i < history.len()
        invariant
            i <= history@.len(),
            copy.deep_view() == history.deep_view().take(i as int),
        decreases history@.len() - i,
    {
        let ghost before = copy.deep_view();
        copy.push(history[i].clone());
        assert(copy.deep_view() =~= before.push(history@[i as int]@));
        i = i + 1;
        assert(copy.deep_view() =~= history.deep_view().take(i as int));
    }
    assert(history.deep_view().take(i as int) =~= history.deep_view());
    copy
}

impl AppState {
    /// The state as loaded: conflicts between enabled profiles are settled, the previously
    /// active profile (`legacy_active_id`) winning first, then the sidebar order.
    pub fn load(
        profiles: Vec<Profile>,
        settings: Settings,
        legacy_active_id: Option<String>,
        session_history: Vec<SessionLog>,
    ) -> (state: AppState)
        ensures
            state@.profiles.len() == profiles@.len(),
            ({
                let order = settle_order(profiles.deep_view(), legacy_active_id.deep_view());
                let flags = kept_flags(profiles.deep_view(), order, order.len() as int);
                forall|m: int|
                    0 <= m < order.len() ==> #[trigger] state@.profiles[order[m]] == (ProfileView {
                        enabled: flags[m],
                        ..profiles.deep_view()[order[m]]
                    })
            }),
            state@.settings == settings,
            state@.session_history == session_history.deep_view(),
    {
        let mut profiles = profiles;
        let preferred = match &legacy_active_id {
            Some(id) => Some(id.as_str()),
            None => None,
        };
        assert(preferred.deep_view() == legacy_active_id.deep_view());
        resolve_conflicts(&mut profiles, preferred);
        AppState { profiles, settings, session_history }
    }

    /// Copies of the profiles.
    pub fn profiles(&self) -> (copy: Vec<Profile>)
        ensures
            copy.deep_view() == self@.profiles,
    {
        clone_profiles(self.profiles.as_slice())
    }

    /// The first profile with that id.
    pub fn profile(&self, id: &str) -> (result: Result<Profile, AppError>)
        ensures
            match index_of_id(self@.profiles, id@) {
                Some(i) => result matches Ok(profile) && profile@ == self@.profiles[i],
                None => result matches Err(AppError::ProfileNotFound(missing)) && missing@ == id@,
            },
    {
        match position_of(self.profiles.as_slice(), id) {
            Some(i) => {
                assert(self@.profiles[i as int] == self.profiles@[i as int]@);
                Ok(self.profiles[i].clone())
            },
            None => Err(AppError::ProfileNotFound(crate::text::owned(id))),
        }
    }

    /// Switches off the other enabled profiles that watch a trigger of the enabled profile
    /// `winner_id`.
    fn save_with_winner(&mut self, winner_id: &str) -> (update: ProfilesUpdate)
        ensures
            final(self)@ == (AppStateView {
                profiles: with_winner(old(self)@.profiles, winner_id@),
                ..old(self)@
            }),
            update.profiles.deep_view() == with_winner(old(self)@.profiles, winner_id@),
            update.disabled_profile_ids.deep_view() == to_disable(old(self)@.profiles, winner_id@),
    {
        let ghost before = self@.profiles;
        let disabled_profile_ids = profiles_to_disable(self.profiles.as_slice(), winner_id);
        disable(&mut self.profiles, disabled_profile_ids.as_slice());
        assert(self@.profiles =~= without_ids(before, disabled_profile_ids.deep_view()));
        ProfilesUpdate { profiles: clone_profiles(self.profiles.as_slice()), disabled_profile_ids }
    }

    /// A new profile never switches off an existing one; saving an existing enabled profile
    /// switches off the other enabled profiles that watch one of its triggers.
    pub fn save_profile(&mut self, profile: Profile) -> (result: Result<ProfilesUpdate, AppError>)
        ensures
            match profile_problem(profile@) {
                Some(problem) => result matches Err(error) && is_validation_error(error, problem)
                    && final(self)@ == old(self)@,
                None => result matches Ok(update) && ({
                    let stored = placed(old(self)@.profiles, profile@);
                    &&& final(self)@ == (AppStateView {
                        profiles: with_winner(stored, profile@.id),
                        ..old(self)@
                    })
                    &&& update.profiles.deep_view() == with_winner(stored, profile@.id)
                    &&& update.disabled_profile_ids.deep_view() == to_disable(stored, profile@.id)
                }),
            },
    {
        if let Err(error) = validate_profile(&profile) {
            return Err(error);
        }
        let ghost before = self@.profiles;
        let ghost given = profile@;
        let profile_id = profile.id.clone();
        let mut profile = profile;
        match position_of(self.profiles.as_slice(), profile.id.as_str()) {
            Some(i) => {
                self.profiles.set(i, profile);
                assert(self@.profiles =~= before.update(i as int, given));
            },
            None => {
                let watched = any_enabled_sharing(self.profiles.as_slice(), &profile);
                profile.enabled = profile.enabled && !watched;
                let ghost stored = profile@;
                self.profiles.push(profile);
                assert(self@.profiles =~= before.push(stored));
            },
        }
        Ok(self.save_with_winner(profile_id.as_str()))
    }

    /// Switches a profile on or off; switching one on switches off the other enabled profiles
    /// that watch one of its triggers.
    pub fn set_profile_enabled(&mut self, id: &str, enabled: bool) -> (result: Result<
        ProfilesUpdate,
        AppError,
    >)
        ensures
            match index_of_id(old(self)@.profiles, id@) {
                None => result matches Err(AppError::ProfileNotFound(missing)) && missing@ == id@
                    && final(self)@ == old(self)@,
                Some(i) => result matches Ok(update) && ({
                    let toggled = old(self)@.profiles.update(
                        i,
                        ProfileView { enabled, ..old(self)@.profiles[i] },
                    );
                    &&& final(self)@ == (AppStateView { profiles: with_winner(toggled, id@), ..old(self)@ })
                    &&& update.profiles.deep_view() == with_winner(toggled, id@)
                    &&& update.disabled_profile_ids.deep_view() == to_disable(toggled, id@)
                }),
            },
    {
        let Some(i) = position_of(self.profiles.as_slice(), id) else {
            return Err(AppError::ProfileNotFound(crate::text::owned(id)));
        };
        let ghost before = self@.profiles;
        assert(before[i as int] == self.profiles@[i as int]@);
        let mut profile = self.profiles[i].clone();
        profile.enabled = enabled;
        assert(profile@ == ProfileView { enabled, ..before[i as int] });
        self.profiles.set(i, profile);
        assert(self@.profiles =~= before.update(i as int, ProfileView { enabled, ..before[i as int] }));
        Ok(self.save_with_winner(id))
    }

    /// Returns the updated profile, or `None` when the item was removed, switched to manual
    /// mode or already had that name while the app was being observed.
    pub fn learn_process_name(&mut self, profile_id: &str, item_id: &str, process_name: &str) -> (updated:
        Option<Profile>)
        ensures
            match index_of_id(old(self)@.profiles, profile_id@) {
                Some(i) => match learned_profile(old(self)@.profiles[i], item_id@, process_name@) {
                    Some(learned) => updated matches Some(profile) && profile@ == learned
                        && final(self)@ == (AppStateView {
                        profiles: old(self)@.profiles.update(i, learned),
                        ..old(self)@
                    }),
                    None => updated is None && final(self)@ == old(self)@,
                },
                None => updated is None && final(self)@ == old(self)@,
            },
    {
        let Some(i) = position_of(self.profiles.as_slice(), profile_id) else {
            return None;
        };
        let ghost before = self@.profiles;
        assert(before[i as int] == self.profiles@[i as int]@);
        let mut profile = self.profiles[i].clone();
        if !learn_item_process_name(&mut profile, item_id, process_name) {
            return None;
        }
        let copy = profile.clone();
        let ghost learned = profile@;
        self.profiles.set(i, profile);
        assert(self@.profiles =~= before.update(i as int, learned));
        Some(copy)
    }

    /// Removes a profile; the last one cannot go.
    pub fn delete_profile(&mut self, id: &str) -> (result: Result<Vec<Profile>, AppError>)
        ensures
            match index_of_id(old(self)@.profiles, id@) {
                None => result matches Err(AppError::ProfileNotFound(missing)) && missing@ == id@
                    && final(self)@ == old(self)@,
                Some(_) => if old(self)@.profiles.len() == 1 {
                    result matches Err(AppError::LastProfile) && final(self)@ == old(self)@
                } else {
                    result matches Ok(rest) && rest.deep_view() == without_profile(
                        old(self)@.profiles,
                        id@,
                    ) && final(self)@ == (AppStateView {
                        profiles: without_profile(old(self)@.profiles, id@),
                        ..old(self)@
                    })
                },
            },
    {
        if position_of(self.profiles.as_slice(), id).is_none() {
            return Err(AppError::ProfileNotFound(crate::text::owned(id)));
        }
        if self.profiles.len() == 1 {
            return Err(AppError::LastProfile);
        }
        let ghost all = self@.profiles;
        let ghost keep = |p: ProfileView| p.id != id@;
        let mut kept: Vec<Profile> = Vec::new();
        let mut i: usize = 0;
        while i < self.profiles.len()
            invariant
                all == self@.profiles,
                keep == (|p: ProfileView| p.id != id@),
                i <= all.len(),
                kept.deep_view() == all.take(i as int).filter(keep),
            decreases all.len() - i,
        {
            proof {
                reveal(Seq::filter);
                assert(all.take(i + 1).drop_last() =~= all.take(i as int));
            }
            assert(all[i as int] == self.profiles@[i as int]@);
            if !same_text(self.profiles[i].id.as_str(), id) {
                let ghost before = kept.deep_view();
                kept.push(self.profiles[i].clone());
                assert(kept.deep_view() =~= before.push(all[i as int]));
            }
            i = i + 1;
        }
        assert(all.take(i as int) =~= all);
        self.profiles = kept;
        Ok(clone_profiles(self.profiles.as_slice()))
    }

    pub fn settings(&self) -> (settings: Settings)
        ensures
            settings == self@.settings,
    {
        self.settings
    }

    /// Replaces the settings once they pass validation.
    pub fn save_settings(&mut self, settings: Settings) -> (result: Result<Settings, AppError>)
        ensures
            match settings_problem(settings) {
                Some(problem) => result matches Err(error) && is_validation_error(error, problem)
                    && final(self)@ == old(self)@,
                None => result == Ok::<Settings, AppError>(settings) && final(self)@ == (
                AppStateView { settings, ..old(self)@ }),
            },
    {
        if let Err(error) = validate_settings(&settings) {
            return Err(error);
        }
        self.settings = settings;
        Ok(settings)
    }

    /// The startup entry can be removed outside AutoStart, so what the system reports wins.
    pub fn sync_start_with_windows(&mut self, registered: bool) -> (result: Result<Settings, AppError>)
        ensures
            old(self)@.settings.start_with_windows == registered ==> result == Ok::<
                Settings,
                AppError,
            >(old(self)@.settings) && final(self)@ == old(self)@,
            old(self)@.settings.start_with_windows != registered ==> ({
                let wanted = Settings { start_with_windows: registered, ..old(self)@.settings };
                match settings_problem(wanted) {
                    Some(problem) => result matches Err(error) && is_validation_error(error, problem)
                        && final(self)@ == old(self)@,
                    None => result == Ok::<Settings, AppError>(wanted) && final(self)@ == (
                    AppStateView { settings: wanted, ..old(self)@ }),
                }
            }),
    {
        let settings = self.settings;
        if settings.start_with_windows == registered {
            return Ok(settings);
        }
        self.save_settings(Settings { start_with_windows: registered, ..settings })
    }

    /// Copies of the past sessions, newest first.
    pub fn session_history(&self) -> (history: Vec<SessionLog>)
        ensures
            history.deep_view() == self@.session_history,
    {
        clone_history(&self.session_history)
    }

    pub fn record_session(&mut self, log: SessionLog)
        ensures
            final(self)@ == (AppStateView {
                session_history: recorded(old(self)@.session_history, log@),
                ..old(self)@
            }),
    {
        record(&mut self.session_history, log);
    }

    pub fn clear_session_history(&mut self)
        ensures
            final(self)@ == (AppStateView { session_history: Seq::empty(), ..old(self)@ }),
    {
        self.session_history = Vec::new();
        assert(self@.session_history =~= Seq::<SessionLogView>::empty());
    }
}

proof fn lemma_shares_by_triggers(x: ProfileView, y: ProfileView, x2: ProfileView, y2: ProfileView)
    requires
        x.triggers == x2.triggers,
        y.triggers == y2.triggers,
    ensures
        shares(x, y) == shares(x2, y2),
{
    if shares(x, y) {
        let (i, j) = choose|i: int, j: int|
            0 <= i < x.triggers.len() && 0 <= j < y.triggers.len() && normalized(
                #[trigger] x.triggers[i].process_name,
            ) == normalized(#[trigger] y.triggers[j].process_name);
        assert(normalized(x2.triggers[i].process_name) == normalized(y2.triggers[j].process_name));
    }
    if shares(x2, y2) {
        let (i, j) = choose|i: int, j: int|
            0 <= i < x2.triggers.len() && 0 <= j < y2.triggers.len() && normalized(
                #[trigger] x2.triggers[i].process_name,
            ) == normalized(#[trigger] y2.triggers[j].process_name);
        assert(normalized(x.triggers[i].process_name) == normalized(y.triggers[j].process_name));
    }
}

proof fn lemma_enabled_with_id_found(profiles: Seq<ProfileView>, id: Seq<char>, w: int)
    requires
        0 <= w < profiles.len(),
        profiles[w].id == id,
        profiles[w].enabled,
    ensures
        enabled_with_id(profiles, id) is Some,
    decreases profiles.len(),
{
    if w < profiles.len() - 1 {
        lemma_enabled_with_id_found(profiles.drop_last(), id, w);
    }
}

proof fn lemma_conflict_listed(profiles: Seq<ProfileView>, winner: ProfileView, winner_id: Seq<char>, k: int)
    requires
        0 <= k < profiles.len(),
        profiles[k].id != winner_id,
        profiles[k].enabled,
        shares(winner, profiles[k]),
    ensures
        conflicting_ids(profiles, winner, winner_id).contains(profiles[k].id),
    decreases profiles.len(),
{
    let all = conflicting_ids(profiles, winner, winner_id);
    let rest = conflicting_ids(profiles.drop_last(), winner, winner_id);
    if k < profiles.len() - 1 {
        lemma_conflict_listed(profiles.drop_last(), winner, winner_id, k);
        let j = choose|j: int| 0 <= j < rest.len() && rest[j] == profiles[k].id;
        assert(all[j] == rest[j]);
    } else {
        assert(all == rest.push(profiles[k].id));
        assert(all[rest.len() as int] == profiles[k].id);
    }
}

/// Once one profile wins its triggers, no two enabled profiles watch a common simulator,
/// provided the others did not before.
proof fn lemma_winner_settles(profiles: Seq<ProfileView>, w: int)
    requires
        0 <= w < profiles.len(),
        unique_ids(profiles),
        forall|a: int, b: int|
            0 <= a < profiles.len() && 0 <= b < profiles.len() && a != b && a != w && b != w
                && profiles[a].enabled && profiles[b].enabled ==> !shares(
                #[trigger] profiles[a],
                #[trigger] profiles[b],
            ),
    ensures
        one_watcher_per_simulator(with_winner(profiles, profiles[w].id)),
        unique_ids(with_winner(profiles, profiles[w].id)),
{
    let id = profiles[w].id;
    let after = with_winner(profiles, id);
    let disabled = to_disable(profiles, id);
    lemma_enabled_with_id_bounds(profiles, id);
    if profiles[w].enabled {
        lemma_enabled_with_id_found(profiles, id, w);
    }
    assert forall|a: int, b: int|
        0 <= a < after.len() && 0 <= b < after.len() && a != b && after[a].enabled
            && after[b].enabled implies !shares(#[trigger] after[a], #[trigger] after[b]) by {
        lemma_shares_by_triggers(after[a], after[b], profiles[a], profiles[b]);
        if a == w {
            assert(enabled_with_id(profiles, id) == Some(w));
            if shares(profiles[w], profiles[b]) {
                assert(profiles[b].id != id);
                lemma_conflict_listed(profiles, profiles[w], id, b);
            }
        } else if b == w {
            assert(enabled_with_id(profiles, id) == Some(w));
            lemma_shares_symmetric(profiles[a], profiles[w]);
            if shares(profiles[w], profiles[a]) {
                assert(profiles[a].id != id);
                lemma_conflict_listed(profiles, profiles[w], id, a);
            }
        }
    }
    assert forall|a: int, b: int|
        0 <= a < after.len() && 0 <= b < after.len() && a != b implies (#[trigger] after[a]).id
        != (#[trigger] after[b]).id by {
        assert(profiles[a].id != profiles[b].id);
    }
}

/// Saving a profile keeps at most one enabled profile per simulator: the saved profile wins
/// its triggers when it is enabled, and a new one starts switched off when an enabled profile
/// already watches one of them. Ids stay unique.
pub proof fn lemma_save_keeps_one_watcher(profiles: Seq<ProfileView>, profile: ProfileView)
    requires
        unique_ids(profiles),
        one_watcher_per_simulator(profiles),
    ensures
        one_watcher_per_simulator(with_winner(placed(profiles, profile), profile.id)),
        unique_ids(with_winner(placed(profiles, profile), profile.id)),
{
    lemma_index_of_id_bounds(profiles, profile.id);
    let stored = placed(profiles, profile);
    let w = match index_of_id(profiles, profile.id) {
        Some(i) => i,
        None => profiles.len() as int,
    };
    assert(stored[w].id == profile.id);
    assert forall|a: int, b: int|
        0 <= a < stored.len() && 0 <= b < stored.len() && a != b implies (#[trigger] stored[a]).id
        != (#[trigger] stored[b]).id by {
        if a != w && b != w {
            assert(stored[a] == profiles[a] && stored[b] == profiles[b]);
        }
    }
    assert forall|a: int, b: int|
        0 <= a < stored.len() && 0 <= b < stored.len() && a != b && a != w && b != w
            && stored[a].enabled && stored[b].enabled implies !shares(
        #[trigger] stored[a],
        #[trigger] stored[b],
    ) by {
        assert(stored[a] == profiles[a] && stored[b] == profiles[b]);
    }
    lemma_winner_settles(stored, w);
}

/// Switching a profile on or off keeps at most one enabled profile per simulator: a profile
/// switched on wins its triggers.
pub proof fn lemma_enable_keeps_one_watcher(profiles: Seq<ProfileView>, i: int, enabled: bool)
    requires
        unique_ids(profiles),
        one_watcher_per_simulator(profiles),
        0 <= i < profiles.len(),
    ensures
        ({
            let toggled = profiles.update(i, ProfileView { enabled, ..profiles[i] });
            &&& one_watcher_per_simulator(with_winner(toggled, profiles[i].id))
            &&& unique_ids(with_winner(toggled, profiles[i].id))
        }),
{
    let toggled = profiles.update(i, ProfileView { enabled, ..profiles[i] });
    assert forall|a: int, b: int|
        0 <= a < toggled.len() && 0 <= b < toggled.len() && a != b implies (#[trigger] toggled[a]).id
        != (#[trigger] toggled[b]).id by {
        assert(profiles[a].id != profiles[b].id);
    }
    assert forall|a: int, b: int|
        0 <= a < toggled.len() && 0 <= b < toggled.len() && a != b && a != i && b != i
            && toggled[a].enabled && toggled[b].enabled implies !shares(
        #[trigger] toggled[a],
        #[trigger] toggled[b],
    ) by {
        assert(toggled[a] == profiles[a] && toggled[b] == profiles[b]);
    }
    lemma_winner_settles(toggled, i);
}

/// A new profile whose simulator an enabled profile already watches is stored switched off,
/// and saving it switches nothing else off.
pub proof fn lemma_new_watched_profile_starts_off(profiles: Seq<ProfileView>, profile: ProfileView)
    requires
        index_of_id(profiles, profile.id) is None,
        watched_by_enabled(profiles, profile),
    ensures
        ({
            let stored = placed(profiles, profile);
            &&& !with_winner(stored, profile.id).last().enabled
            &&& to_disable(stored, profile.id) == Seq::<Seq<char>>::empty()
        }),
{
    let stored = placed(profiles, profile);
    lemma_index_of_id_bounds(profiles, profile.id);
    lemma_enabled_with_id_bounds(stored, profile.id);
    match enabled_with_id(stored, profile.id) {
        Some(k) => {
            if k < profiles.len() {
                assert(stored[k] == profiles[k]);
            }
        },
        None => {},
    }
}

/// Deleting a profile leaves the others as they were, in order.
pub proof fn lemma_delete_keeps_the_others(profiles: Seq<ProfileView>, id: Seq<char>)
    ensures
        forall|k: int|
            0 <= k < profiles.len() && profiles[k].id != id ==> without_profile(profiles, id).contains(
                #[trigger] profiles[k],
            ),
        forall|k: int|
            0 <= k < without_profile(profiles, id).len() ==> (#[trigger] without_profile(profiles, id)[k]).id
                != id,
{
    broadcast use vstd::seq_lib::group_filter_ensures;
}

} // verus!
