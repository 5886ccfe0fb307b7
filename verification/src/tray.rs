//! What the tray shows: icon, tooltip and menu, and what its menu entries ask for.
use vstd::prelude::*;
use vstd::string::*;

use crate::models::{
    Language, MonitorSnapshot, MonitorState, Profile, ProfileView, TriggerView,
};
use crate::text::{decimal, decimal_text};

verus! {

pub const PROFILE_ID_PREFIX: &'static str = "profile:";
pub const FLIGHT_ID_PREFIX: &'static str = "flight:";

/// The tray menu exists before the window loads, so its few strings live here.
pub struct TrayLabels {
    pub start_flight: &'static str,
    pub cancel_start: &'static str,
    pub profiles: &'static str,
    pub pause: &'static str,
    pub resume: &'static str,
    pub close_now: &'static str,
    pub keep_apps: &'static str,
    pub open: &'static str,
    pub quit: &'static str,
    pub watching_one: &'static str,
    /// The text around the number of watched profiles when it is not one.
    pub watching_many_before: &'static str,
    pub watching_many_after: &'static str,
    pub idle: &'static str,
    pub sim_starting: &'static str,
    pub sim_running: &'static str,
    pub close_pending: &'static str,
    pub closing: &'static str,
    pub paused: &'static str,
}

/// The Brazilian Portuguese labels.
pub open spec fn pt_br_labels() -> TrayLabels {
    TrayLabels {
        start_flight: "Iniciar voo",
        cancel_start: "Cancelar início do simulador",
        profiles: "Perfis",
        pause: "Pausar monitoramento",
        resume: "Retomar monitoramento",
        close_now: "Fechar apps agora",
        keep_apps: "Manter apps abertos",
        open: "Abrir AutoStart",
        quit: "Sair",
        watching_one: "1 perfil monitorado",
        watching_many_before: "",
        watching_many_after: " perfis monitorados",
        idle: "Aguardando simulador",
        sim_starting: "Iniciando simulador",
        sim_running: "Simulador em execução",
        close_pending: "Fechando apps em breve",
        closing: "Fechando apps",
        paused: "Pausado",
    }
}

/// The English labels.
pub open spec fn en_labels() -> TrayLabels {
    TrayLabels {
        start_flight: "Start flight",
        cancel_start: "Cancel simulator start",
        profiles: "Profiles",
        pause: "Pause monitoring",
        resume: "Resume monitoring",
        close_now: "Close apps now",
        keep_apps: "Keep apps open",
        open: "Open AutoStart",
        quit: "Quit",
        watching_one: "Watching 1 profile",
        watching_many_before: "Watching ",
        watching_many_after: " profiles",
        idle: "Waiting for simulator",
        sim_starting: "Starting simulator",
        sim_running: "Simulator running",
        close_pending: "Closing apps soon",
        closing: "Closing apps",
        paused: "Paused",
    }
}

/// The labels of a language.
pub fn labels(language: Language) -> (labels: TrayLabels)
    ensures
        labels == match language {
            Language::PtBr => pt_br_labels(),
            Language::En => en_labels(),
        },
{
    match language {
        Language::PtBr => TrayLabels {
            start_flight: "Iniciar voo",
            cancel_start: "Cancelar início do simulador",
            profiles: "Perfis",
            pause: "Pausar monitoramento",
            resume: "Retomar monitoramento",
            close_now: "Fechar apps agora",
            keep_apps: "Manter apps abertos",
            open: "Abrir AutoStart",
            quit: "Sair",
            watching_one: "1 perfil monitorado",
            watching_many_before: "",
            watching_many_after: " perfis monitorados",
            idle: "Aguardando simulador",
            sim_starting: "Iniciando simulador",
            sim_running: "Simulador em execução",
            close_pending: "Fechando apps em breve",
            closing: "Fechando apps",
            paused: "Pausado",
        },
        Language::En => TrayLabels {
            start_flight: "Start flight",
            cancel_start: "Cancel simulator start",
            profiles: "Profiles",
            pause: "Pause monitoring",
            resume: "Resume monitoring",
            close_now: "Close apps now",
            keep_apps: "Keep apps open",
            open: "Open AutoStart",
            quit: "Quit",
            watching_one: "Watching 1 profile",
            watching_many_before: "Watching ",
            watching_many_after: " profiles",
            idle: "Waiting for simulator",
            sim_starting: "Starting simulator",
            sim_running: "Simulator running",
            close_pending: "Closing apps soon",
            closing: "Closing apps",
            paused: "Paused",
        },
    }
}

pub open spec fn state_has_session(state: MonitorState) -> bool {
    match state {
        MonitorState::SimStarting | MonitorState::SimRunning | MonitorState::ClosePending
        | MonitorState::Closing => true,
        _ => false,
    }
}

pub fn has_session(state: MonitorState) -> (active: bool)
    ensures
        active == state_has_session(state),
{
    match state {
        MonitorState::SimStarting | MonitorState::SimRunning | MonitorState::ClosePending
        | MonitorState::Closing => true,
        _ => false,
    }
}

/// "1 profile" in the singular, otherwise the number inside the plural text.
pub open spec fn watching_spec(labels: TrayLabels, count: nat) -> Seq<char> {
    if count == 1 {
        labels.watching_one@
    } else {
        labels.watching_many_before@ + decimal(count) + labels.watching_many_after@
    }
}

pub fn watching_text(labels: &TrayLabels, count: usize) -> (text: String)
    ensures
        text@ == watching_spec(*labels, count as nat),
{
    if count == 1 {
        return String::from_str(labels.watching_one);
    }
    let number = decimal_text(count as u64);
    String::from_str(labels.watching_many_before).concat(number.as_str()).concat(
        labels.watching_many_after,
    )
}

pub open spec fn state_label(labels: TrayLabels, state: MonitorState) -> Seq<char> {
    match state {
        MonitorState::Idle => labels.idle@,
        MonitorState::SimStarting => labels.sim_starting@,
        MonitorState::SimRunning => labels.sim_running@,
        MonitorState::ClosePending => labels.close_pending@,
        MonitorState::Closing => labels.closing@,
        MonitorState::Paused => labels.paused@,
    }
}

pub open spec fn tooltip_spec(labels: TrayLabels, subject: Seq<char>, state: MonitorState) -> Seq<
    char,
> {
    "AutoStart · "@ + subject + " · "@ + state_label(labels, state)
}

/// "AutoStart · subject · state".
pub fn tooltip_text(labels: &TrayLabels, subject: &str, state: MonitorState) -> (text: String)
    ensures
        text@ == tooltip_spec(*labels, subject@, state),
{
    let state_label = match state {
        MonitorState::Idle => labels.idle,
        MonitorState::SimStarting => labels.sim_starting,
        MonitorState::SimRunning => labels.sim_running,
        MonitorState::ClosePending => labels.close_pending,
        MonitorState::Closing => labels.closing,
        MonitorState::Paused => labels.paused,
    };
    String::from_str("AutoStart · ").concat(subject).concat(" · ").concat(state_label)
}

/// One entry of the "Start flight" submenu.
#[derive(Debug, PartialEq, Eq)]
pub struct FlightStart {
    pub menu_id: String,
    pub label: String,
}

pub open spec fn flight_entry(profile: ProfileView, trigger: TriggerView) -> (Seq<char>, Seq<char>) {
    (
        "flight:"@ + profile.id + ":"@ + trigger.process_name,
        profile.name + " — "@ + trigger.label,
    )
}

/// The entries of one profile's triggers that have a start target, in order.
pub open spec fn trigger_entries(profile: ProfileView, triggers: Seq<TriggerView>) -> Seq<
    (Seq<char>, Seq<char>),
>
    decreases triggers.len(),
{
    if triggers.len() == 0 {
        Seq::empty()
    } else {
        let rest = trigger_entries(profile, triggers.drop_last());
        if triggers.last().launch_target is Some {
            rest.push(flight_entry(profile, triggers.last()))
        } else {
            rest
        }
    }
}

/// One entry per simulator that AutoStart knows how to start, in sidebar order.
pub open spec fn flight_entries(profiles: Seq<ProfileView>) -> Seq<(Seq<char>, Seq<char>)>
    decreases profiles.len(),
{
    if profiles.len() == 0 {
        Seq::empty()
    } else {
        flight_entries(profiles.drop_last()) + trigger_entries(
            profiles.last(),
            profiles.last().triggers,
        )
    }
}

pub open spec fn flight_start_view(start: FlightStart) -> (Seq<char>, Seq<char>) {
    (start.menu_id@, start.label@)
}

/// One entry per simulator that AutoStart knows how to start, in sidebar order.
pub fn flight_starts(profiles: &[Profile]) -> (starts: Vec<FlightStart>)
    ensures
        starts@.map_values(|start: FlightStart| flight_start_view(start)) == flight_entries(
            profiles.deep_view(),
        ),
{
    let mut starts: Vec<FlightStart> = Vec::new();
    let mut i: usize = 0;
    while i < profiles.len()
        invariant
            i <= profiles@.len(),
            starts@.map_values(|start: FlightStart| flight_start_view(start)) == flight_entries(
                profiles.deep_view().take(i as int),
            ),
        decreases profiles@.len() - i,
    {
        let profile = &profiles[i];
        let ghost before = starts@.map_values(|start: FlightStart| flight_start_view(start));
        let mut j: usize = 0;
        while j < profile.triggers.len()
            invariant
                i < profiles@.len(),
                profile == profiles@[i as int],
                j <= profile.triggers@.len(),
                starts@.map_values(|start: FlightStart| flight_start_view(start)) == before
                    + trigger_entries(profile@, profile@.triggers.take(j as int)),
            decreases profile.triggers@.len() - j,
        {
            let trigger = &profile.triggers[j];
            assert(profile@.triggers.take(j + 1).drop_last() =~= profile@.triggers.take(j as int));
            assert(profile@.triggers[j as int] == trigger@);
            if trigger.launch_target.is_some() {
                let menu_id = String::from_str("flight:").concat(profile.id.as_str()).concat(
                    ":",
                ).concat(trigger.process_name.as_str());
                let label = profile.name.clone().concat(" — ").concat(trigger.label.as_str());
                let ghost mid = starts@;
                starts.push(FlightStart { menu_id, label });
                assert(starts@.map_values(|start: FlightStart| flight_start_view(start))
                    =~= mid.map_values(|start: FlightStart| flight_start_view(start)).push(
                    flight_entry(profile@, trigger@),
                ));
            }
            j = j + 1;
        }
        assert(profile@.triggers.take(j as int) =~= profile@.triggers);
        assert(profiles.deep_view().take(i + 1).drop_last() =~= profiles.deep_view().take(
            i as int,
        ));
        assert(profiles.deep_view()[i as int] == profile@);
        i = i + 1;
    }
    assert(profiles.deep_view().take(i as int) =~= profiles.deep_view());
    starts
}

/// The number of enabled profiles.
pub open spec fn enabled_count(profiles: Seq<ProfileView>) -> nat
    decreases profiles.len(),
{
    if profiles.len() == 0 {
        0
    } else {
        enabled_count(profiles.drop_last()) + if profiles.last().enabled {
            1nat
        } else {
            0nat
        }
    }
}

/// The first profile with the given id.
pub open spec fn profile_with_id(profiles: Seq<ProfileView>, id: Seq<char>) -> Option<ProfileView>
    decreases profiles.len(),
{
    if profiles.len() == 0 {
        None
    } else if profiles[0].id == id {
        Some(profiles[0])
    } else {
        profile_with_id(profiles.drop_first(), id)
    }
}

/// What the tray shows, read from the settings, the profiles and the monitor.
pub struct TrayView {
    pub labels: TrayLabels,
    pub snapshot: MonitorSnapshot,
    pub profiles: Vec<Profile>,
}

/// The tooltip names the profile of a real session, or counts the watched profiles.
pub open spec fn tooltip_subject(
    labels: TrayLabels,
    state: MonitorState,
    is_test: bool,
    session_profile_id: Option<Seq<char>>,
    profiles: Seq<ProfileView>,
) -> Seq<char> {
    let session_profile = match session_profile_id {
        Some(id) => if state_has_session(state) && !is_test {
            profile_with_id(profiles, id)
        } else {
            None
        },
        None => None,
    };
    match session_profile {
        Some(profile) => profile.name,
        None => watching_spec(labels, enabled_count(profiles)),
    }
}

fn enabled_profiles(profiles: &[Profile]) -> (count: usize)
    ensures
        count == enabled_count(profiles.deep_view()),
{
    let mut count: usize = 0;
    let mut i: usize = 0;
    while i < profiles.len()
        invariant
            i <= profiles@.len(),
            count == enabled_count(profiles.deep_view().take(i as int)),
            count <= i,
        decreases profiles@.len() - i,
    {
        assert(profiles.deep_view().take(i + 1).drop_last() =~= profiles.deep_view().take(
            i as int,
        ));
        if profiles[i].enabled {
            count = count + 1;
        }
        i = i + 1;
    }
    assert(profiles.deep_view().take(i as int) =~= profiles.deep_view());
    count
}

fn find_profile(profiles: &[Profile], id: &str) -> (found: Option<usize>)
    ensures
        match found {
            Some(i) => i < profiles@.len() && profile_with_id(profiles.deep_view(), id@) == Some(
                profiles.deep_view()[i as int],
            ),
            None => profile_with_id(profiles.deep_view(), id@) is None,
        },
{
    let mut i: usize = 0;
    assert(profiles.deep_view().skip(0) =~= profiles.deep_view());
    while i < profiles.len()
        invariant
            i <= profiles@.len(),
            profile_with_id(profiles.deep_view(), id@) == profile_with_id(
                profiles.deep_view().skip(i as int),
                id@,
            ),
        decreases profiles@.len() - i,
    {
        assert(profiles.deep_view().skip(i as int)[0] == profiles@[i as int]@);
        if crate::text::same_text(profiles[i].id.as_str(), id) {
            return Some(i);
        }
        assert(profiles.deep_view().skip(i as int).drop_first() =~= profiles.deep_view().skip(
            i + 1,
        ));
        i = i + 1;
    }
    None
}

impl TrayView {
    pub fn tooltip(&self) -> (text: String)
        ensures
            text@ == tooltip_spec(
                self.labels,
                tooltip_subject(
                    self.labels,
                    self.snapshot.state,
                    self.snapshot.is_test_session,
                    self.snapshot.session_profile_id.deep_view(),
                    self.profiles.deep_view(),
                ),
                self.snapshot.state,
            ),
    {
        let mut session_profile: Option<usize> = None;
        if let Some(id) = &self.snapshot.session_profile_id {
            if has_session(self.snapshot.state) && !self.snapshot.is_test_session {
                session_profile = find_profile(self.profiles.as_slice(), id.as_str());
            }
        }
        match session_profile {
            Some(i) => {
                assert(self.profiles.deep_view()[i as int] == self.profiles@[i as int]@);
                tooltip_text(&self.labels, self.profiles[i].name.as_str(), self.snapshot.state)
            },
            None => {
                let subject = watching_text(
                    &self.labels,
                    enabled_profiles(self.profiles.as_slice()),
                );
                tooltip_text(&self.labels, subject.as_str(), self.snapshot.state)
            },
        }
    }
}

/// Which of the three tray pictures is shown.
#[derive(Debug, Clone, Copy, PartialEq, Eq, Structural)]
pub enum TrayIcon {
    Idle,
    Running,
    Paused,
}

pub fn icon_for(state: MonitorState) -> (icon: TrayIcon)
    ensures
        icon == (if state == MonitorState::Idle {
            TrayIcon::Idle
        } else if state == MonitorState::Paused {
            TrayIcon::Paused
        } else {
            TrayIcon::Running
        }),
{
    match state {
        MonitorState::Idle => TrayIcon::Idle,
        MonitorState::Paused => TrayIcon::Paused,
        _ => TrayIcon::Running,
    }
}

/// One line of the tray menu, top to bottom.
#[derive(Debug, Clone, Copy, PartialEq, Eq, Structural)]
pub enum MenuEntry {
    /// The "Start flight" submenu, usable only while idle.
    StartFlight { enabled: bool },
    Profiles,
    Separator,
    CancelStart,
    CloseNow,
    KeepApps,
    /// "Pause" or, while paused, "Resume".
    TogglePause { resume: bool },
    Open,
    Quit,
}

/// The menu: flight starts when there are any, the profiles, the commands of the current
/// state, then pause, open and quit.
pub open spec fn menu_spec(state: MonitorState, any_flight_start: bool) -> Seq<MenuEntry> {
    let head = if any_flight_start {
        seq![MenuEntry::StartFlight { enabled: state == MonitorState::Idle }]
    } else {
        Seq::empty()
    };
    let starting = if state == MonitorState::SimStarting {
        seq![MenuEntry::CancelStart, MenuEntry::Separator]
    } else {
        Seq::empty()
    };
    let pending = if state == MonitorState::ClosePending {
        seq![MenuEntry::CloseNow, MenuEntry::KeepApps, MenuEntry::Separator]
    } else {
        Seq::empty()
    };
    head + seq![MenuEntry::Profiles, MenuEntry::Separator] + starting + pending + seq![
        MenuEntry::TogglePause { resume: state == MonitorState::Paused },
        MenuEntry::Open,
        MenuEntry::Separator,
        MenuEntry::Quit,
    ]
}

/// The menu offers what the state allows: Close now and Keep apps open only during the closing
/// countdown, Cancel only while a started simulator is awaited, Resume only while paused and
/// Pause otherwise, a usable Start flight only while idle; the profiles, Open and Quit always.
pub proof fn lemma_menu_follows_the_state(state: MonitorState, any_flight_start: bool)
    ensures
        menu_spec(state, any_flight_start).contains(MenuEntry::CloseNow) == (state == MonitorState::ClosePending),
        menu_spec(state, any_flight_start).contains(MenuEntry::KeepApps) == (state == MonitorState::ClosePending),
        menu_spec(state, any_flight_start).contains(MenuEntry::CancelStart) == (state == MonitorState::SimStarting),
        menu_spec(state, any_flight_start).contains(MenuEntry::TogglePause { resume: true }) == (state
            == MonitorState::Paused),
        menu_spec(state, any_flight_start).contains(MenuEntry::TogglePause { resume: false }) == (state
            != MonitorState::Paused),
        menu_spec(state, any_flight_start).contains(MenuEntry::StartFlight { enabled: true }) == (
        any_flight_start && state == MonitorState::Idle),
        menu_spec(state, any_flight_start).contains(MenuEntry::StartFlight { enabled: false }) == (
        any_flight_start && state != MonitorState::Idle),
        menu_spec(state, any_flight_start).contains(MenuEntry::Profiles),
        menu_spec(state, any_flight_start).contains(MenuEntry::Open),
        menu_spec(state, any_flight_start).contains(MenuEntry::Quit),
{
    let menu = menu_spec(state, any_flight_start);
    let head: Seq<MenuEntry> = if any_flight_start {
        seq![MenuEntry::StartFlight { enabled: state == MonitorState::Idle }]
    } else {
        Seq::empty()
    };
    let starting: Seq<MenuEntry> = if state == MonitorState::SimStarting {
        seq![MenuEntry::CancelStart, MenuEntry::Separator]
    } else {
        Seq::empty()
    };
    let pending: Seq<MenuEntry> = if state == MonitorState::ClosePending {
        seq![MenuEntry::CloseNow, MenuEntry::KeepApps, MenuEntry::Separator]
    } else {
        Seq::empty()
    };
    let middle: Seq<MenuEntry> = seq![MenuEntry::Profiles, MenuEntry::Separator];
    let tail: Seq<MenuEntry> = seq![
        MenuEntry::TogglePause { resume: state == MonitorState::Paused },
        MenuEntry::Open,
        MenuEntry::Separator,
        MenuEntry::Quit,
    ];
    assert(menu =~= head + middle + starting + pending + tail);
    let h = head.len() as int;
    let st = starting.len() as int;
    let pe = pending.len() as int;
    // Where each part starts.
    let at_starting = h + 2;
    let at_pending = at_starting + st;
    let at_tail = at_pending + pe;
    assert(menu.len() == at_tail + 4);
    assert forall|i: int| 0 <= i < menu.len() implies #[trigger] menu[i] == if i < h {
        head[i]
    } else if i < at_starting {
        middle[i - h]
    } else if i < at_pending {
        starting[i - at_starting]
    } else if i < at_tail {
        pending[i - at_pending]
    } else {
        tail[i - at_tail]
    } by {}
    assert(menu[h] == MenuEntry::Profiles);
    assert(menu[at_tail + 1] == MenuEntry::Open);
    assert(menu[at_tail + 3] == MenuEntry::Quit);
    assert(menu[at_tail] == MenuEntry::TogglePause { resume: state == MonitorState::Paused });
    if any_flight_start {
        assert(menu[0] == MenuEntry::StartFlight { enabled: state == MonitorState::Idle });
    }
    if state == MonitorState::SimStarting {
        assert(menu[at_starting] == MenuEntry::CancelStart);
    }
    if state == MonitorState::ClosePending {
        assert(menu[at_pending] == MenuEntry::CloseNow);
        assert(menu[at_pending + 1] == MenuEntry::KeepApps);
    }
}

pub fn menu_entries(state: MonitorState, any_flight_start: bool) -> (entries: Vec<MenuEntry>)
    ensures
        entries@ == menu_spec(state, any_flight_start),
        entries@.contains(MenuEntry::CloseNow) == (state == MonitorState::ClosePending),
        entries@.contains(MenuEntry::KeepApps) == (state == MonitorState::ClosePending),
        entries@.contains(MenuEntry::CancelStart) == (state == MonitorState::SimStarting),
        entries@.contains(MenuEntry::TogglePause { resume: true }) == (state == MonitorState::Paused),
{
    proof {
        lemma_menu_follows_the_state(state, any_flight_start);
    }
    let mut entries: Vec<MenuEntry> = Vec::new();
    if any_flight_start {
        entries.push(MenuEntry::StartFlight { enabled: state == MonitorState::Idle });
    }
    entries.push(MenuEntry::Profiles);
    entries.push(MenuEntry::Separator);
    if state == MonitorState::SimStarting {
        entries.push(MenuEntry::CancelStart);
        entries.push(MenuEntry::Separator);
    }
    if state == MonitorState::ClosePending {
        entries.push(MenuEntry::CloseNow);
        entries.push(MenuEntry::KeepApps);
        entries.push(MenuEntry::Separator);
    }
    entries.push(MenuEntry::TogglePause { resume: state == MonitorState::Paused });
    entries.push(MenuEntry::Open);
    entries.push(MenuEntry::Separator);
    entries.push(MenuEntry::Quit);
    assert(entries@ =~= menu_spec(state, any_flight_start));
    entries
}

impl TrayView {
    /// The lines of the tray menu for the current state.
    pub fn menu(&self) -> (entries: Vec<MenuEntry>)
        ensures
            entries@ == menu_spec(
                self.snapshot.state,
                flight_entries(self.profiles.deep_view()).len() > 0,
            ),
    {
        let starts = flight_starts(self.profiles.as_slice());
        assert(starts@.len() == starts@.map_values(|start: FlightStart| flight_start_view(start)).len());
        menu_entries(self.snapshot.state, starts.len() > 0)
    }

    pub fn icon(&self) -> (icon: TrayIcon)
        ensures
            icon == (if self.snapshot.state == MonitorState::Idle {
                TrayIcon::Idle
            } else if self.snapshot.state == MonitorState::Paused {
                TrayIcon::Paused
            } else {
                TrayIcon::Running
            }),
    {
        icon_for(self.snapshot.state)
    }
}

/// One line of the "Profiles" submenu: a check item that switches a profile on or off.
#[derive(Debug, PartialEq, Eq)]
pub struct ProfileToggle {
    pub menu_id: String,
    pub name: String,
    pub checked: bool,
}

/// The "Profiles" submenu: every profile in sidebar order, checked when enabled, with its id
/// behind the profile prefix.
pub fn profile_toggles(profiles: &[Profile]) -> (toggles: Vec<ProfileToggle>)
    ensures
        toggles@.len() == profiles@.len(),
        forall|i: int|
            0 <= i < profiles@.len() ==> (#[trigger] toggles@[i]).menu_id@ == PROFILE_ID_PREFIX@
                + profiles@[i].id@ && toggles@[i].name@ == profiles@[i].name@ && toggles@[i].checked
                == profiles@[i].enabled,
{
    let mut toggles: Vec<ProfileToggle> = Vec::new();
    let mut i: usize = 0;
    while i < profiles.len()
        invariant
            i <= profiles@.len(),
            toggles@.len() == i,
            forall|j: int|
                0 <= j < i ==> (#[trigger] toggles@[j]).menu_id@ == PROFILE_ID_PREFIX@ + profiles@[j].id@
                    && toggles@[j].name@ == profiles@[j].name@ && toggles@[j].checked == profiles@[j].enabled,
        decreases profiles@.len() - i,
    {
        let profile = &profiles[i];
        let menu_id = String::from_str(PROFILE_ID_PREFIX).concat(profile.id.as_str());
        toggles.push(ProfileToggle { menu_id, name: profile.name.clone(), checked: profile.enabled });
        i = i + 1;
    }
    toggles
}

impl TrayView {
    /// The lines of the "Profiles" submenu.
    pub fn profile_menu(&self) -> (toggles: Vec<ProfileToggle>)
        ensures
            toggles@.len() == self.profiles@.len(),
            forall|i: int|
                0 <= i < self.profiles@.len() ==> (#[trigger] toggles@[i]).menu_id@ == PROFILE_ID_PREFIX@
                    + self.profiles@[i].id@ && toggles@[i].name@ == self.profiles@[i].name@
                    && toggles@[i].checked == self.profiles@[i].enabled,
    {
        profile_toggles(self.profiles.as_slice())
    }
}

} // verus!
