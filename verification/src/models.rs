//! The data the pilot edits (profiles, items, settings) and what the monitor reports.
use vstd::prelude::*;

use crate::error::{ErrorPayload, ErrorPayloadView};
use crate::processes::{normalize_process_name, normalized};

verus! {

pub const DEFAULT_DELAY_MS: u32 = 800;
pub const MAX_DELAY_MS: u32 = 60_000;
pub const DEFAULT_GRACEFUL_TIMEOUT_MS: u32 = 5_000;
pub const MIN_GRACEFUL_TIMEOUT_MS: u32 = 1_000;
pub const MAX_GRACEFUL_TIMEOUT_MS: u32 = 60_000;
pub const DEFAULT_CLOSE_DELAY_MS: u32 = 60_000;
pub const MAX_CLOSE_DELAY_MS: u32 = 600_000;
pub const MAX_TRIGGERS: usize = 5;

/// A simulator process that starts a session; `launch_target` is how AutoStart starts it.
#[derive(Debug, PartialEq, Eq)]
pub struct Trigger {
    pub process_name: String,
    pub label: String,
    pub launch_target: Option<String>,
}

pub struct TriggerView {
    pub process_name: Seq<char>,
    pub label: Seq<char>,
    pub launch_target: Option<Seq<char>>,
}

impl View for Trigger {
    type V = TriggerView;

    open spec fn view(&self) -> TriggerView {
        TriggerView {
            process_name: self.process_name@,
            label: self.label@,
            launch_target: self.launch_target.deep_view(),
        }
    }
}

impl DeepView for Trigger {
    type V = TriggerView;

    open spec fn deep_view(&self) -> TriggerView {
        self@
    }
}

impl Clone for Trigger {
    fn clone(&self) -> (copy: Self)
        ensures
            copy@ == self@,
    {
        Trigger {
            process_name: self.process_name.clone(),
            label: self.label.clone(),
            launch_target: clone_opt_string(&self.launch_target),
        }
    }
}

pub fn clone_opt_string(value: &Option<String>) -> (copy: Option<String>)
    ensures
        copy.deep_view() == value.deep_view(),
{
    match value {
        Some(text) => Some(text.clone()),
        None => None,
    }
}

pub fn clone_strings(values: &Vec<String>) -> (copy: Vec<String>)
    ensures
        copy.deep_view() == values.deep_view(),
{
    let copy = values.clone();
    assert(copy.deep_view() =~= values.deep_view());
    copy
}

#[derive(Debug, Clone, Copy, PartialEq, Eq, Structural)]
pub enum OnClose {
    Graceful,
    Force,
    Keep,
}

impl Default for OnClose {
    fn default() -> (mode: Self)
        ensures
            mode == OnClose::Graceful,
    {
        OnClose::Graceful
    }
}

#[derive(Debug, Clone, Copy, PartialEq, Eq, Structural)]
pub enum ProcessNameMode {
    Auto,
    Manual,
}

impl Default for ProcessNameMode {
    fn default() -> (mode: Self)
        ensures
            mode == ProcessNameMode::Auto,
    {
        ProcessNameMode::Auto
    }
}

#[derive(Debug, PartialEq, Eq)]
pub struct AppItem {
    pub id: String,
    pub name: String,
    pub exe_path: String,
    pub args: Option<String>,
    pub working_dir: Option<String>,
    pub process_name: String,
    pub process_name_mode: ProcessNameMode,
    pub icon_base64: Option<String>,
    pub delay_ms: u32,
    pub run_as_admin: bool,
    pub start_minimized: bool,
    pub wait_for_sim_connect: bool,
    pub restart_on_crash: bool,
    pub launch_before_simulator: bool,
    pub only_for_triggers: Vec<String>,
    pub on_close: OnClose,
    pub enabled: bool,
}

pub struct AppItemView {
    pub id: Seq<char>,
    pub name: Seq<char>,
    pub exe_path: Seq<char>,
    pub args: Option<Seq<char>>,
    pub working_dir: Option<Seq<char>>,
    pub process_name: Seq<char>,
    pub process_name_mode: ProcessNameMode,
    pub icon_base64: Option<Seq<char>>,
    pub delay_ms: u32,
    pub run_as_admin: bool,
    pub start_minimized: bool,
    pub wait_for_sim_connect: bool,
    pub restart_on_crash: bool,
    pub launch_before_simulator: bool,
    pub only_for_triggers: Seq<Seq<char>>,
    pub on_close: OnClose,
    pub enabled: bool,
}

impl View for AppItem {
    type V = AppItemView;

    open spec fn view(&self) -> AppItemView {
        AppItemView {
            id: self.id@,
            name: self.name@,
            exe_path: self.exe_path@,
            args: self.args.deep_view(),
            working_dir: self.working_dir.deep_view(),
            process_name: self.process_name@,
            process_name_mode: self.process_name_mode,
            icon_base64: self.icon_base64.deep_view(),
            delay_ms: self.delay_ms,
            run_as_admin: self.run_as_admin,
            start_minimized: self.start_minimized,
            wait_for_sim_connect: self.wait_for_sim_connect,
            restart_on_crash: self.restart_on_crash,
            launch_before_simulator: self.launch_before_simulator,
            only_for_triggers: self.only_for_triggers.deep_view(),
            on_close: self.on_close,
            enabled: self.enabled,
        }
    }
}

impl DeepView for AppItem {
    type V = AppItemView;

    open spec fn deep_view(&self) -> AppItemView {
        self@
    }
}

impl Clone for AppItem {
    fn clone(&self) -> (copy: Self)
        ensures
            copy@ == self@,
    {
        AppItem {
            id: self.id.clone(),
            name: self.name.clone(),
            exe_path: self.exe_path.clone(),
            args: clone_opt_string(&self.args),
            working_dir: clone_opt_string(&self.working_dir),
            process_name: self.process_name.clone(),
            process_name_mode: self.process_name_mode,
            icon_base64: clone_opt_string(&self.icon_base64),
            delay_ms: self.delay_ms,
            run_as_admin: self.run_as_admin,
            start_minimized: self.start_minimized,
            wait_for_sim_connect: self.wait_for_sim_connect,
            restart_on_crash: self.restart_on_crash,
            launch_before_simulator: self.launch_before_simulator,
            only_for_triggers: clone_strings(&self.only_for_triggers),
            on_close: self.on_close,
            enabled: self.enabled,
        }
    }
}

#[derive(Debug, PartialEq, Eq)]
pub struct UrlItem {
    pub id: String,
    pub name: String,
    pub url: String,
    pub delay_ms: u32,
    pub only_for_triggers: Vec<String>,
    pub enabled: bool,
}

pub struct UrlItemView {
    pub id: Seq<char>,
    pub name: Seq<char>,
    pub url: Seq<char>,
    pub delay_ms: u32,
    pub only_for_triggers: Seq<Seq<char>>,
    pub enabled: bool,
}

impl View for UrlItem {
    type V = UrlItemView;

    open spec fn view(&self) -> UrlItemView {
        UrlItemView {
            id: self.id@,
            name: self.name@,
            url: self.url@,
            delay_ms: self.delay_ms,
            only_for_triggers: self.only_for_triggers.deep_view(),
            enabled: self.enabled,
        }
    }
}

impl Clone for UrlItem {
    fn clone(&self) -> (copy: Self)
        ensures
            copy@ == self@,
    {
        UrlItem {
            id: self.id.clone(),
            name: self.name.clone(),
            url: self.url.clone(),
            delay_ms: self.delay_ms,
            only_for_triggers: clone_strings(&self.only_for_triggers),
            enabled: self.enabled,
        }
    }
}

/// One thing a profile opens: a program or a link.
#[derive(Debug, PartialEq, Eq)]
pub enum LaunchItem {
    App(AppItem),
    Url(UrlItem),
}

pub enum LaunchItemView {
    App(AppItemView),
    Url(UrlItemView),
}

impl LaunchItemView {
    pub open spec fn id(self) -> Seq<char> {
        match self {
            LaunchItemView::App(item) => item.id,
            LaunchItemView::Url(item) => item.id,
        }
    }

    pub open spec fn name(self) -> Seq<char> {
        match self {
            LaunchItemView::App(item) => item.name,
            LaunchItemView::Url(item) => item.name,
        }
    }

    pub open spec fn delay_ms(self) -> u32 {
        match self {
            LaunchItemView::App(item) => item.delay_ms,
            LaunchItemView::Url(item) => item.delay_ms,
        }
    }

    pub open spec fn enabled(self) -> bool {
        match self {
            LaunchItemView::App(item) => item.enabled,
            LaunchItemView::Url(item) => item.enabled,
        }
    }

    pub open spec fn only_for_triggers(self) -> Seq<Seq<char>> {
        match self {
            LaunchItemView::App(item) => item.only_for_triggers,
            LaunchItemView::Url(item) => item.only_for_triggers,
        }
    }

    /// An item without restrictions applies to every trigger; otherwise one of its listed
    /// triggers has the same normalized name.
    pub open spec fn applies_to(self, trigger_process_name: Seq<char>) -> bool {
        self.only_for_triggers().len() == 0 || exists|i: int|
            0 <= i < self.only_for_triggers().len() && normalized(
                #[trigger] self.only_for_triggers()[i],
            ) == normalized(trigger_process_name)
    }

    pub open spec fn waits_for_sim_connect(self) -> bool {
        match self {
            LaunchItemView::App(item) => item.wait_for_sim_connect,
            LaunchItemView::Url(_) => false,
        }
    }

    pub open spec fn opens_before_simulator(self) -> bool {
        match self {
            LaunchItemView::App(item) => item.launch_before_simulator,
            LaunchItemView::Url(_) => false,
        }
    }
}

impl View for LaunchItem {
    type V = LaunchItemView;

    open spec fn view(&self) -> LaunchItemView {
        match self {
            LaunchItem::App(item) => LaunchItemView::App(item@),
            LaunchItem::Url(item) => LaunchItemView::Url(item@),
        }
    }
}

impl DeepView for LaunchItem {
    type V = LaunchItemView;

    open spec fn deep_view(&self) -> LaunchItemView {
        self@
    }
}

impl Clone for LaunchItem {
    fn clone(&self) -> (copy: Self)
        ensures
            copy@ == self@,
    {
        match self {
            LaunchItem::App(item) => LaunchItem::App(item.clone()),
            LaunchItem::Url(item) => LaunchItem::Url(item.clone()),
        }
    }
}

impl LaunchItem {
    pub fn id(&self) -> (id: &str)
        ensures
            id@ == self@.id(),
    {
        match self {
            LaunchItem::App(item) => item.id.as_str(),
            LaunchItem::Url(item) => item.id.as_str(),
        }
    }

    pub fn name(&self) -> (name: &str)
        ensures
            name@ == self@.name(),
    {
        match self {
            LaunchItem::App(item) => item.name.as_str(),
            LaunchItem::Url(item) => item.name.as_str(),
        }
    }

    pub fn delay_ms(&self) -> (delay: u32)
        ensures
            delay == self@.delay_ms(),
    {
        match self {
            LaunchItem::App(item) => item.delay_ms,
            LaunchItem::Url(item) => item.delay_ms,
        }
    }

    pub fn is_enabled(&self) -> (enabled: bool)
        ensures
            enabled == self@.enabled(),
    {
        match self {
            LaunchItem::App(item) => item.enabled,
            LaunchItem::Url(item) => item.enabled,
        }
    }

    pub fn only_for_triggers(&self) -> (names: &[String])
        ensures
            names.deep_view() == self@.only_for_triggers(),
    {
        match self {
            LaunchItem::App(item) => item.only_for_triggers.as_slice(),
            LaunchItem::Url(item) => item.only_for_triggers.as_slice(),
        }
    }

    /// An item without restrictions applies to every trigger of its profile.
    pub fn applies_to(&self, trigger_process_name: &str) -> (applies: bool)
        ensures
            applies == self@.applies_to(trigger_process_name@),
    {
        let wanted = normalize_process_name(trigger_process_name);
        let only_for = self.only_for_triggers();
        if only_for.len() == 0 {
            return true;
        }
        let mut i: usize = 0;
        while i < only_for.len()
            invariant
                only_for.deep_view() == self@.only_for_triggers(),
                wanted@ == normalized(trigger_process_name@),
                i <= only_for@.len(),
                forall|j: int|
                    0 <= j < i ==> normalized(#[trigger] self@.only_for_triggers()[j]) != wanted@,
            decreases only_for@.len() - i,
        {
            let name = normalize_process_name(only_for[i].as_str());
            assert(only_for.deep_view()[i as int] == only_for@[i as int]@);
            if crate::text::same_text(name.as_str(), wanted.as_str()) {
                return true;
            }
            i = i + 1;
        }
        false
    }
}

/// A named set of triggers and the items opened while one of them runs.
#[derive(Debug, PartialEq, Eq)]
pub struct Profile {
    pub id: String,
    pub name: String,
    pub triggers: Vec<Trigger>,
    pub items: Vec<LaunchItem>,
    pub enabled: bool,
}

pub struct ProfileView {
    pub id: Seq<char>,
    pub name: Seq<char>,
    pub triggers: Seq<TriggerView>,
    pub items: Seq<LaunchItemView>,
    pub enabled: bool,
}

impl View for Profile {
    type V = ProfileView;

    open spec fn view(&self) -> ProfileView {
        ProfileView {
            id: self.id@,
            name: self.name@,
            triggers: self.triggers.deep_view(),
            items: self.items.deep_view(),
            enabled: self.enabled,
        }
    }
}

impl DeepView for Profile {
    type V = ProfileView;

    open spec fn deep_view(&self) -> ProfileView {
        self@
    }
}

impl Clone for Profile {
    fn clone(&self) -> (copy: Self)
        ensures
            copy@ == self@,
    {
        let triggers = self.triggers.clone();
        assert(triggers.deep_view() =~= self.triggers.deep_view());
        let items = self.items.clone();
        assert(items.deep_view() =~= self.items.deep_view());
        Profile {
            id: self.id.clone(),
            name: self.name.clone(),
            triggers,
            items,
            enabled: self.enabled,
        }
    }
}

/// Copies of a list of profiles, element by element.
pub fn clone_profiles(profiles: &[Profile]) -> (copy: Vec<Profile>)
    ensures
        copy.deep_view() == profiles.deep_view(),
{
    let mut copy: Vec<Profile> = Vec::new();
    let mut i: usize = 0;
    while i < profiles.len()
        invariant
            i <= profiles@.len(),
            copy.deep_view() == profiles.deep_view().take(i as int),
        decreases profiles@.len() - i,
    {
        let ghost before = copy.deep_view();
        let one = profiles[i].clone();
        copy.push(one);
        assert(copy.deep_view() =~= before.push(profiles@[i as int].deep_view()));
        i = i + 1;
        assert(copy.deep_view() =~= profiles.deep_view().take(i as int));
    }
    assert(profiles.deep_view().take(i as int) =~= profiles.deep_view());
    copy
}

/// The saved profiles together with the ids that a save switched off.
#[derive(Debug, PartialEq, Eq)]
pub struct ProfilesUpdate {
    pub profiles: Vec<Profile>,
    pub disabled_profile_ids: Vec<String>,
}

#[derive(Debug, Clone, Copy, PartialEq, Eq, Structural)]
pub enum Theme {
    System,
    Light,
    Dark,
}

impl Default for Theme {
    fn default() -> (theme: Self)
        ensures
            theme == Theme::Dark,
    {
        Theme::Dark
    }
}

#[derive(Debug, Clone, Copy, PartialEq, Eq, Structural)]
pub enum Language {
    PtBr,
    En,
}

impl Default for Language {
    fn default() -> (language: Self)
        ensures
            language == Language::PtBr,
    {
        Language::PtBr
    }
}

#[derive(Debug, Clone, Copy, PartialEq, Eq, Structural)]
pub struct Settings {
    pub start_with_windows: bool,
    pub start_minimized: bool,
    pub graceful_timeout_ms: u32,
    pub close_delay_ms: u32,
    pub close_only_if_launched_by_app: bool,
    pub show_notifications: bool,
    pub theme: Theme,
    pub language: Language,
    pub onboarding_completed: bool,
    pub check_updates_on_startup: bool,
}

pub open spec fn default_settings() -> Settings {
    Settings {
        start_with_windows: false,
        start_minimized: true,
        graceful_timeout_ms: DEFAULT_GRACEFUL_TIMEOUT_MS,
        close_delay_ms: DEFAULT_CLOSE_DELAY_MS,
        close_only_if_launched_by_app: true,
        show_notifications: true,
        theme: Theme::Dark,
        language: Language::PtBr,
        onboarding_completed: false,
        check_updates_on_startup: true,
    }
}

impl Default for Settings {
    fn default() -> (settings: Self)
        ensures
            settings == default_settings(),
    {
        Settings {
            start_with_windows: false,
            start_minimized: true,
            graceful_timeout_ms: DEFAULT_GRACEFUL_TIMEOUT_MS,
            close_delay_ms: DEFAULT_CLOSE_DELAY_MS,
            close_only_if_launched_by_app: true,
            show_notifications: true,
            theme: Theme::Dark,
            language: Language::PtBr,
            onboarding_completed: false,
            check_updates_on_startup: true,
        }
    }
}

#[derive(Debug, Clone, Copy, PartialEq, Eq, Structural)]
pub enum ItemStatus {
    Pending,
    WaitingSimConnect,
    Launching,
    Running,
    Restarting,
    Skipped,
    Closing,
    Closed,
    Error,
}

/// What the monitor knows about one item of the running session.
#[derive(Debug, PartialEq, Eq)]
pub struct ItemRuntime {
    pub item_id: String,
    pub status: ItemStatus,
    pub launched_by_app: bool,
    pub error: Option<ErrorPayload>,
}

pub struct ItemRuntimeView {
    pub item_id: Seq<char>,
    pub status: ItemStatus,
    pub launched_by_app: bool,
    pub error: Option<ErrorPayloadView>,
}

impl View for ItemRuntime {
    type V = ItemRuntimeView;

    open spec fn view(&self) -> ItemRuntimeView {
        ItemRuntimeView {
            item_id: self.item_id@,
            status: self.status,
            launched_by_app: self.launched_by_app,
            error: self.error.deep_view(),
        }
    }
}

impl DeepView for ItemRuntime {
    type V = ItemRuntimeView;

    open spec fn deep_view(&self) -> ItemRuntimeView {
        self@
    }
}

impl Clone for ItemRuntime {
    fn clone(&self) -> (copy: Self)
        ensures
            copy@ == self@,
    {
        ItemRuntime {
            item_id: self.item_id.clone(),
            status: self.status,
            launched_by_app: self.launched_by_app,
            error: match &self.error {
                Some(error) => Some(error.clone()),
                None => None,
            },
        }
    }
}

#[derive(Debug, Clone, Copy, PartialEq, Eq, Structural)]
pub enum MonitorState {
    Idle,
    SimStarting,
    SimRunning,
    ClosePending,
    Closing,
    Paused,
}

impl Default for MonitorState {
    fn default() -> (state: Self)
        ensures
            state == MonitorState::Idle,
    {
        MonitorState::Idle
    }
}

/// What the window and the tray show of the monitor.
#[derive(Debug, PartialEq, Eq)]
pub struct MonitorSnapshot {
    pub state: MonitorState,
    pub session_profile_id: Option<String>,
    pub is_test_session: bool,
    pub items: Vec<ItemRuntime>,
    pub closes_at_ms: Option<u64>,
    /// Label of the simulator being started while the state is `simStarting`.
    pub starting_simulator: Option<String>,
}

pub struct MonitorSnapshotView {
    pub state: MonitorState,
    pub session_profile_id: Option<Seq<char>>,
    pub is_test_session: bool,
    pub items: Seq<ItemRuntimeView>,
    pub closes_at_ms: Option<u64>,
    pub starting_simulator: Option<Seq<char>>,
}

impl View for MonitorSnapshot {
    type V = MonitorSnapshotView;

    open spec fn view(&self) -> MonitorSnapshotView {
        MonitorSnapshotView {
            state: self.state,
            session_profile_id: self.session_profile_id.deep_view(),
            is_test_session: self.is_test_session,
            items: self.items.deep_view(),
            closes_at_ms: self.closes_at_ms,
            starting_simulator: self.starting_simulator.deep_view(),
        }
    }
}

/// Copies of item runtimes, element by element.
pub fn clone_runtimes(items: &[ItemRuntime]) -> (copy: Vec<ItemRuntime>)
    ensures
        copy.deep_view() == items.deep_view(),
{
    let mut copy: Vec<ItemRuntime> = Vec::new();
    let mut i: usize = 0;
    while i < items.len()
        invariant
            i <= items@.len(),
            copy.deep_view() == items.deep_view().take(i as int),
        decreases items@.len() - i,
    {
        let ghost before = copy.deep_view();
        copy.push(items[i].clone());
        assert(copy.deep_view() =~= before.push(items@[i as int]@));
        i = i + 1;
        assert(copy.deep_view() =~= items.deep_view().take(i as int));
    }
    assert(items.deep_view().take(i as int) =~= items.deep_view());
    copy
}

impl Clone for MonitorSnapshot {
    fn clone(&self) -> (copy: Self)
        ensures
            copy@ == self@,
    {
        MonitorSnapshot {
            state: self.state,
            session_profile_id: clone_opt_string(&self.session_profile_id),
            is_test_session: self.is_test_session,
            items: clone_runtimes(self.items.as_slice()),
            closes_at_ms: self.closes_at_ms,
            starting_simulator: clone_opt_string(&self.starting_simulator),
        }
    }
}

impl Default for MonitorSnapshot {
    fn default() -> (snapshot: Self)
        ensures
            snapshot.state == MonitorState::Idle,
            snapshot.session_profile_id is None,
            !snapshot.is_test_session,
            snapshot.items@.len() == 0,
            snapshot.closes_at_ms is None,
            snapshot.starting_simulator is None,
    {
        MonitorSnapshot {
            state: MonitorState::Idle,
            session_profile_id: None,
            is_test_session: false,
            items: Vec::new(),
            closes_at_ms: None,
            starting_simulator: None,
        }
    }
}

#[derive(Debug, Clone, Copy, PartialEq, Eq, Structural)]
pub enum TimelineKind {
    SessionStarted,
    Launched,
    Skipped,
    NotRunning,
    ClosedGracefully,
    ForceClosed,
    Kept,
    ProcessNameLearned,
    SimConnectReady,
    SimConnectWaitSkipped,
    CloseDelayed,
    SimulatorReturned,
    SimulatorStarted,
    SimulatorNotStarted,
    KeptByUser,
    Crashed,
    Relaunched,
    Error,
    SessionEnded,
}

/// One line of a session's timeline.
#[derive(Debug, PartialEq, Eq)]
pub struct TimelineEntry {
    pub timestamp_ms: u64,
    pub kind: TimelineKind,
    pub item_id: Option<String>,
    pub item_name: Option<String>,
    pub error: Option<ErrorPayload>,
    pub detail: Option<String>,
}

pub struct TimelineEntryView {
    pub timestamp_ms: u64,
    pub kind: TimelineKind,
    pub item_id: Option<Seq<char>>,
    pub item_name: Option<Seq<char>>,
    pub error: Option<ErrorPayloadView>,
    pub detail: Option<Seq<char>>,
}

impl View for TimelineEntry {
    type V = TimelineEntryView;

    open spec fn view(&self) -> TimelineEntryView {
        TimelineEntryView {
            timestamp_ms: self.timestamp_ms,
            kind: self.kind,
            item_id: self.item_id.deep_view(),
            item_name: self.item_name.deep_view(),
            error: self.error.deep_view(),
            detail: self.detail.deep_view(),
        }
    }
}

impl DeepView for TimelineEntry {
    type V = TimelineEntryView;

    open spec fn deep_view(&self) -> TimelineEntryView {
        self@
    }
}

impl Clone for TimelineEntry {
    fn clone(&self) -> (copy: Self)
        ensures
            copy@ == self@,
    {
        TimelineEntry {
            timestamp_ms: self.timestamp_ms,
            kind: self.kind,
            item_id: clone_opt_string(&self.item_id),
            item_name: clone_opt_string(&self.item_name),
            error: match &self.error {
                Some(error) => Some(error.clone()),
                None => None,
            },
            detail: clone_opt_string(&self.detail),
        }
    }
}

/// The timeline of one session, real or test.
#[derive(Debug, PartialEq, Eq)]
pub struct SessionLog {
    pub profile_id: String,
    pub profile_name: String,
    pub is_test: bool,
    pub started_at_ms: u64,
    pub ended_at_ms: Option<u64>,
    pub entries: Vec<TimelineEntry>,
}

pub struct SessionLogView {
    pub profile_id: Seq<char>,
    pub profile_name: Seq<char>,
    pub is_test: bool,
    pub started_at_ms: u64,
    pub ended_at_ms: Option<u64>,
    pub entries: Seq<TimelineEntryView>,
}

impl View for SessionLog {
    type V = SessionLogView;

    open spec fn view(&self) -> SessionLogView {
        SessionLogView {
            profile_id: self.profile_id@,
            profile_name: self.profile_name@,
            is_test: self.is_test,
            started_at_ms: self.started_at_ms,
            ended_at_ms: self.ended_at_ms,
            entries: self.entries.deep_view(),
        }
    }
}

impl DeepView for SessionLog {
    type V = SessionLogView;

    open spec fn deep_view(&self) -> SessionLogView {
        self@
    }
}

impl Clone for SessionLog {
    fn clone(&self) -> (copy: Self)
        ensures
            copy@ == self@,
    {
        let entries = self.entries.clone();
        assert(entries.deep_view() =~= self.entries.deep_view());
        SessionLog {
            profile_id: self.profile_id.clone(),
            profile_name: self.profile_name.clone(),
            is_test: self.is_test,
            started_at_ms: self.started_at_ms,
            ended_at_ms: self.ended_at_ms,
            entries,
        }
    }
}

#[derive(Debug, PartialEq, Eq)]
pub struct ExeInfo {
    pub process_name: String,
    pub product_name: String,
    pub icon_base64: Option<String>,
}

pub struct ExeInfoView {
    pub process_name: Seq<char>,
    pub product_name: Seq<char>,
    pub icon_base64: Option<Seq<char>>,
}

impl Clone for ExeInfo {
    fn clone(&self) -> (copy: Self)
        ensures
            copy@ == self@,
    {
        ExeInfo {
            process_name: self.process_name.clone(),
            product_name: self.product_name.clone(),
            icon_base64: clone_opt_string(&self.icon_base64),
        }
    }
}

impl View for ExeInfo {
    type V = ExeInfoView;

    open spec fn view(&self) -> ExeInfoView {
        ExeInfoView {
            process_name: self.process_name@,
            product_name: self.product_name@,
            icon_base64: self.icon_base64.deep_view(),
        }
    }
}

#[derive(Debug, PartialEq, Eq)]
pub struct ProcessInfo {
    pub name: String,
    pub exe_path: Option<String>,
}

pub struct ProcessInfoView {
    pub name: Seq<char>,
    pub exe_path: Option<Seq<char>>,
}

impl View for ProcessInfo {
    type V = ProcessInfoView;

    open spec fn view(&self) -> ProcessInfoView {
        ProcessInfoView { name: self.name@, exe_path: self.exe_path.deep_view() }
    }
}

impl DeepView for ProcessInfo {
    type V = ProcessInfoView;

    open spec fn deep_view(&self) -> ProcessInfoView {
        self@
    }
}

impl Clone for ProcessInfo {
    fn clone(&self) -> (copy: Self)
        ensures
            copy@ == self@,
    {
        ProcessInfo { name: self.name.clone(), exe_path: clone_opt_string(&self.exe_path) }
    }
}

#[derive(Debug, Clone, Copy, PartialEq, Eq, Structural)]
pub enum CandidateSource {
    Installed,
    Open,
    Dropped,
}

/// A program offered to the pilot when adding an item.
#[derive(Debug, PartialEq, Eq)]
pub struct AppCandidate {
    pub name: String,
    pub exe_path: String,
    pub args: Option<String>,
    pub working_dir: Option<String>,
    pub process_name: String,
    pub icon_base64: Option<String>,
    pub source: CandidateSource,
    pub suggested: bool,
}

pub struct AppCandidateView {
    pub name: Seq<char>,
    pub exe_path: Seq<char>,
    pub args: Option<Seq<char>>,
    pub working_dir: Option<Seq<char>>,
    pub process_name: Seq<char>,
    pub icon_base64: Option<Seq<char>>,
    pub source: CandidateSource,
    pub suggested: bool,
}

impl View for AppCandidate {
    type V = AppCandidateView;

    open spec fn view(&self) -> AppCandidateView {
        AppCandidateView {
            name: self.name@,
            exe_path: self.exe_path@,
            args: self.args.deep_view(),
            working_dir: self.working_dir.deep_view(),
            process_name: self.process_name@,
            icon_base64: self.icon_base64.deep_view(),
            source: self.source,
            suggested: self.suggested,
        }
    }
}

impl DeepView for AppCandidate {
    type V = AppCandidateView;

    open spec fn deep_view(&self) -> AppCandidateView {
        self@
    }
}

impl Clone for AppCandidate {
    fn clone(&self) -> (copy: Self)
        ensures
            copy@ == self@,
    {
        AppCandidate {
            name: self.name.clone(),
            exe_path: self.exe_path.clone(),
            args: clone_opt_string(&self.args),
            working_dir: clone_opt_string(&self.working_dir),
            process_name: self.process_name.clone(),
            icon_base64: clone_opt_string(&self.icon_base64),
            source: self.source,
            suggested: self.suggested,
        }
    }
}

#[derive(Debug, Clone, PartialEq, Eq)]
pub struct UrlCandidate {
    pub name: String,
    pub url: String,
}

pub struct UrlCandidateView {
    pub name: Seq<char>,
    pub url: Seq<char>,
}

impl View for UrlCandidate {
    type V = UrlCandidateView;

    open spec fn view(&self) -> UrlCandidateView {
        UrlCandidateView { name: self.name@, url: self.url@ }
    }
}

#[derive(Debug, Clone, PartialEq, Eq)]
pub enum DroppedCandidate {
    App(AppCandidate),
    Url(UrlCandidate),
}

pub enum DroppedCandidateView {
    App(AppCandidateView),
    Url(UrlCandidateView),
}

impl View for DroppedCandidate {
    type V = DroppedCandidateView;

    open spec fn view(&self) -> DroppedCandidateView {
        match self {
            DroppedCandidate::App(app) => DroppedCandidateView::App(app@),
            DroppedCandidate::Url(url) => DroppedCandidateView::Url(url@),
        }
    }
}

#[derive(Debug, Clone, Copy, PartialEq, Eq, Structural)]
pub enum DropRejection {
    UnsupportedFile,
    ExecutableNotFound,
    UnsupportedUrl,
    UnsupportedShortcut,
}

#[derive(Debug, Clone, PartialEq, Eq)]
pub struct RejectedDrop {
    pub path: String,
    pub reason: DropRejection,
}

#[derive(Debug, Clone, PartialEq, Eq)]
pub struct DropResolution {
    pub candidates: Vec<DroppedCandidate>,
    pub rejected: Vec<RejectedDrop>,
}

impl Default for DropResolution {
    fn default() -> (resolution: Self)
        ensures
            resolution.candidates@.len() == 0,
            resolution.rejected@.len() == 0,
    {
        DropResolution { candidates: Vec::new(), rejected: Vec::new() }
    }
}

/// The delay before an item that the saved profile does not give one.
pub fn default_delay_ms() -> (delay: u32)
    ensures
        delay == DEFAULT_DELAY_MS,
{
    DEFAULT_DELAY_MS
}

/// The value of a switch that the saved profile does not give.
pub fn default_true() -> (value: bool)
    ensures
        value,
{
    true
}

} // verus!
