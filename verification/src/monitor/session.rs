//! One run of a profile, real or test: a frozen copy of the profile, per-item runtime and
//! timeline.
use vstd::prelude::*;

use crate::closer::{target_of, CloseTarget, CloseTargetView};
use crate::error::{error_kind, error_message, AppError, ErrorPayloadView};
use crate::models::{
    AppItem, AppItemView, ItemRuntime, ItemRuntimeView, ItemStatus, LaunchItem, LaunchItemView,
    ProcessNameMode, Profile, ProfileView, SessionLog, SessionLogView, TimelineEntry,
    TimelineKind, Trigger, TriggerView,
};
use crate::monitor::detection::as_millis;
use crate::simconnect::{supports_simconnect, supports_simconnect_spec};
use crate::text::same_text;

verus! {

#[derive(Debug, PartialEq, Eq)]
pub enum StartMode {
    /// The simulator was seen running.
    Detected(Trigger),
    /// The pilot started the flight from AutoStart, which starts the simulator itself.
    Flight(Trigger),
    Test,
}

pub enum StartModeView {
    Detected(TriggerView),
    Flight(TriggerView),
    Test,
}

impl View for StartMode {
    type V = StartModeView;

    open spec fn view(&self) -> StartModeView {
        match self {
            StartMode::Detected(trigger) => StartModeView::Detected(trigger@),
            StartMode::Flight(trigger) => StartModeView::Flight(trigger@),
            StartMode::Test => StartModeView::Test,
        }
    }
}

impl Clone for StartMode {
    fn clone(&self) -> (copy: Self)
        ensures
            copy@ == self@,
    {
        match self {
            StartMode::Detected(trigger) => StartMode::Detected(trigger.clone()),
            StartMode::Flight(trigger) => StartMode::Flight(trigger.clone()),
            StartMode::Test => StartMode::Test,
        }
    }
}

impl StartModeView {
    pub open spec fn trigger(self) -> Option<TriggerView> {
        match self {
            StartModeView::Detected(trigger) => Some(trigger),
            StartModeView::Flight(trigger) => Some(trigger),
            StartModeView::Test => None,
        }
    }
}

impl StartMode {
    /// The simulator of a real session; test sessions have none.
    pub fn trigger(&self) -> (trigger: Option<&Trigger>)
        ensures
            match trigger {
                Some(t) => self@.trigger() == Some(t@),
                None => self@.trigger() is None,
            },
    {
        match self {
            StartMode::Detected(trigger) => Some(trigger),
            StartMode::Flight(trigger) => Some(trigger),
            StartMode::Test => None,
        }
    }

    pub fn is_test(&self) -> (test: bool)
        ensures
            test == (self@ is Test),
    {
        match self {
            StartMode::Test => true,
            _ => false,
        }
    }
}

#[verifier::external_type_specification]
#[verifier::external_body]
pub struct ExSystemTime(std::time::SystemTime);

/// Calls `SystemTime::now`: the machine's clock, of which nothing is promised.
#[verifier::external_body]
fn system_now() -> std::time::SystemTime {
    std::time::SystemTime::now()
}

/// Calls `SystemTime::duration_since` with the Unix epoch: the time since 1970, or `None` for
/// a time before it. Nothing is promised of the value.
#[verifier::external_body]
fn since_epoch(time: std::time::SystemTime) -> Option<std::time::Duration> {
    time.duration_since(std::time::UNIX_EPOCH).ok()
}

/// A clock reading in milliseconds as the session log stores it: saturated to `u64`, and 0 for
/// a clock set before 1970.
pub fn saturated_millis(elapsed: Option<u128>) -> (ms: u64)
    ensures
        ms == match elapsed {
            Some(m) => if m > u64::MAX {
                u64::MAX as int
            } else {
                m as int
            },
            None => 0,
        },
{
    match elapsed {
        Some(m) => if m > u64::MAX as u128 {
            u64::MAX
        } else {
            m as u64
        },
        None => 0,
    }
}

/// Milliseconds since the epoch, saturated to `u64`; 0 for a clock before 1970. The reading
/// itself is the machine's clock, of which nothing is stated.
pub fn now_ms() -> u64 {
    let elapsed = match since_epoch(system_now()) {
        Some(duration) => Some(as_millis(duration)),
        None => None,
    };
    saturated_millis(elapsed)
}

/// The items that take part in a session for this simulator, in profile order.
pub open spec fn items_for(items: Seq<LaunchItemView>, trigger: Option<TriggerView>) -> Seq<
    LaunchItemView,
>
    decreases items.len(),
{
    match trigger {
        None => items,
        Some(t) => if items.len() == 0 {
            Seq::empty()
        } else {
            let rest = items_for(items.drop_last(), trigger);
            if items.last().applies_to(t.process_name) {
                rest.push(items.last())
            } else {
                rest
            }
        },
    }
}

/// The enabled items, in order.
pub open spec fn enabled_of(items: Seq<LaunchItemView>) -> Seq<LaunchItemView>
    decreases items.len(),
{
    if items.len() == 0 {
        Seq::empty()
    } else {
        let rest = enabled_of(items.drop_last());
        if items.last().enabled() {
            rest.push(items.last())
        } else {
            rest
        }
    }
}

pub open spec fn pending_runtime(item: LaunchItemView) -> ItemRuntimeView {
    ItemRuntimeView {
        item_id: item.id(),
        status: ItemStatus::Pending,
        launched_by_app: false,
        error: None,
    }
}

/// The runtime of each enabled item, all pending.
pub open spec fn pending_runtimes(items: Seq<LaunchItemView>) -> Seq<ItemRuntimeView> {
    enabled_of(items).map_values(|item: LaunchItemView| pending_runtime(item))
}

/// The position of the first runtime of an item.
pub open spec fn runtime_index(runtimes: Seq<ItemRuntimeView>, item_id: Seq<char>) -> Option<int>
    decreases runtimes.len(),
{
    if runtimes.len() == 0 {
        None
    } else {
        match runtime_index(runtimes.drop_last(), item_id) {
            Some(i) => Some(i),
            None => if runtimes.last().item_id == item_id {
                Some(runtimes.len() - 1)
            } else {
                None
            },
        }
    }
}

/// The position of the first app item with that id.
pub open spec fn app_index(items: Seq<LaunchItemView>, item_id: Seq<char>) -> Option<int>
    decreases items.len(),
{
    if items.len() == 0 {
        None
    } else {
        match app_index(items.drop_last(), item_id) {
            Some(i) => Some(i),
            None => match items.last() {
                LaunchItemView::App(app) => if app.id == item_id {
                    Some(items.len() - 1)
                } else {
                    None
                },
                LaunchItemView::Url(_) => None,
            },
        }
    }
}

/// The name of the first item with that id.
pub open spec fn item_name_of(items: Seq<LaunchItemView>, item_id: Seq<char>) -> Option<Seq<char>>
    decreases items.len(),
{
    if items.len() == 0 {
        None
    } else {
        match item_name_of(items.drop_last(), item_id) {
            Some(name) => Some(name),
            None => if items.last().id() == item_id {
                Some(items.last().name())
            } else {
                None
            },
        }
    }
}

/// The apps to close, in profile order: every app item with a runtime, restricted to those
/// AutoStart launched when `close_only_if_launched_by_app` holds.
pub open spec fn close_targets_of(
    items: Seq<LaunchItemView>,
    runtimes: Seq<ItemRuntimeView>,
    close_only_if_launched_by_app: bool,
) -> Seq<CloseTargetView>
    decreases items.len(),
{
    if items.len() == 0 {
        Seq::empty()
    } else {
        let rest = close_targets_of(items.drop_last(), runtimes, close_only_if_launched_by_app);
        match items.last() {
            LaunchItemView::App(app) => match runtime_index(runtimes, app.id) {
                Some(r) => if runtimes[r].launched_by_app || !close_only_if_launched_by_app {
                    rest.push(target_of(app))
                } else {
                    rest
                },
                None => rest,
            },
            LaunchItemView::Url(_) => rest,
        }
    }
}

pub open spec fn payload_of(error: Option<AppError>) -> Option<ErrorPayloadView> {
    match error {
        Some(e) => Some(ErrorPayloadView { kind: error_kind(e), message: error_message(e) }),
        None => None,
    }
}

/// A runtime merged into the one it replaces: the status and error are the new ones, and
/// an item once launched by AutoStart stays marked as launched.
pub open spec fn merged_runtime(existing: ItemRuntimeView, runtime: ItemRuntimeView) -> ItemRuntimeView {
    ItemRuntimeView {
        launched_by_app: existing.launched_by_app || runtime.launched_by_app,
        ..runtime
    }
}

pub open spec fn runtimes_after_update(runtimes: Seq<ItemRuntimeView>, runtime: ItemRuntimeView) -> Seq<
    ItemRuntimeView,
> {
    match runtime_index(runtimes, runtime.item_id) {
        Some(i) => runtimes.update(i, merged_runtime(runtimes[i], runtime)),
        None => runtimes,
    }
}

/// One run of a profile, real or test.
/// How a session was started, and whether it may reopen crashed apps: only a real one may.
struct RunMode {
    mode: StartMode,
    relaunch_allowed: bool,
}

impl RunMode {
    #[verifier::type_invariant]
    spec fn relaunch_only_when_real(self) -> bool {
        self.relaunch_allowed ==> !(self.mode@ is Test)
    }
}

pub struct Session {
    profile: Profile,
    run: RunMode,
    items: Vec<ItemRuntime>,
    log: SessionLog,
}

proof fn lemma_runtime_index_bounds(runtimes: Seq<ItemRuntimeView>, item_id: Seq<char>)
    ensures
        match runtime_index(runtimes, item_id) {
            Some(i) => 0 <= i < runtimes.len() && runtimes[i].item_id == item_id && forall|j: int|
                0 <= j < i ==> runtimes[j].item_id != item_id,
            None => forall|j: int| 0 <= j < runtimes.len() ==> runtimes[j].item_id != item_id,
        },
    decreases runtimes.len(),
{
    if runtimes.len() > 0 {
        let prefix = runtimes.drop_last();
        lemma_runtime_index_bounds(prefix, item_id);
        assert forall|j: int| 0 <= j < prefix.len() implies prefix[j] == runtimes[j] by {}
    }
}

pub open spec fn is_app_with_id(item: LaunchItemView, item_id: Seq<char>) -> bool {
    match item {
        LaunchItemView::App(app) => app.id == item_id,
        LaunchItemView::Url(_) => false,
    }
}

proof fn lemma_app_index_bounds(items: Seq<LaunchItemView>, item_id: Seq<char>)
    ensures
        match app_index(items, item_id) {
            Some(i) => 0 <= i < items.len() && is_app_with_id(items[i], item_id) && forall|j: int|
                0 <= j < i ==> !is_app_with_id(#[trigger] items[j], item_id),
            None => forall|j: int| 0 <= j < items.len() ==> !is_app_with_id(#[trigger] items[j], item_id),
        },
    decreases items.len(),
{
    if items.len() > 0 {
        let prefix = items.drop_last();
        lemma_app_index_bounds(prefix, item_id);
        assert forall|j: int| 0 <= j < prefix.len() implies prefix[j] == items[j] by {}
        match app_index(prefix, item_id) {
            Some(i) => {},
            None => {
                assert forall|j: int| 0 <= j < items.len() - 1 implies !is_app_with_id(
                    #[trigger] items[j],
                    item_id,
                ) by {
                    assert(prefix[j] == items[j]);
                }
            },
        }
    }
}

fn find_runtime(runtimes: &[ItemRuntime], item_id: &str) -> (found: Option<usize>)
    ensures
        match found {
            Some(i) => runtime_index(runtimes.deep_view(), item_id@) == Some(i as int),
            None => runtime_index(runtimes.deep_view(), item_id@) is None,
        },
{
    let mut i: usize = 0;
    while i < runtimes.len()
        invariant
            i <= runtimes@.len(),
            runtime_index(runtimes.deep_view().take(i as int), item_id@) is None,
        decreases runtimes@.len() - i,
    {
        assert(runtimes.deep_view().take(i + 1).drop_last() =~= runtimes.deep_view().take(i as int));
        assert(runtimes.deep_view()[i as int] == runtimes@[i as int]@);
        if same_text(runtimes[i].item_id.as_str(), item_id) {
            proof {
                lemma_prefix_index_runtime(runtimes.deep_view(), item_id@, i as int);
            }
            return Some(i);
        }
        i = i + 1;
    }
    assert(runtimes.deep_view().take(i as int) =~= runtimes.deep_view());
    None
}

proof fn lemma_prefix_index_runtime(runtimes: Seq<ItemRuntimeView>, item_id: Seq<char>, i: int)
    requires
        0 <= i < runtimes.len(),
        runtime_index(runtimes.take(i + 1), item_id) == Some(i),
    ensures
        runtime_index(runtimes, item_id) == Some(i),
    decreases runtimes.len(),
{
    if runtimes.len() > i + 1 {
        assert(runtimes.drop_last().take(i + 1) =~= runtimes.take(i + 1));
        lemma_prefix_index_runtime(runtimes.drop_last(), item_id, i);
    } else {
        assert(runtimes.take(i + 1) =~= runtimes);
    }
}

proof fn lemma_prefix_index_app(items: Seq<LaunchItemView>, item_id: Seq<char>, i: int)
    requires
        0 <= i < items.len(),
        app_index(items.take(i + 1), item_id) == Some(i),
    ensures
        app_index(items, item_id) == Some(i),
    decreases items.len(),
{
    if items.len() > i + 1 {
        assert(items.drop_last().take(i + 1) =~= items.take(i + 1));
        lemma_prefix_index_app(items.drop_last(), item_id, i);
    } else {
        assert(items.take(i + 1) =~= items);
    }
}

proof fn lemma_prefix_name(items: Seq<LaunchItemView>, item_id: Seq<char>, i: int)
    requires
        0 <= i < items.len(),
        item_name_of(items.take(i + 1), item_id) is Some,
    ensures
        item_name_of(items, item_id) == item_name_of(items.take(i + 1), item_id),
    decreases items.len(),
{
    if items.len() > i + 1 {
        assert(items.drop_last().take(i + 1) =~= items.take(i + 1));
        lemma_prefix_name(items.drop_last(), item_id, i);
    } else {
        assert(items.take(i + 1) =~= items);
    }
}

fn find_app(items: &[LaunchItem], item_id: &str) -> (found: Option<usize>)
    ensures
        match found {
            Some(i) => app_index(items.deep_view(), item_id@) == Some(i as int),
            None => app_index(items.deep_view(), item_id@) is None,
        },
{
    let mut i: usize = 0;
    while i < items.len()
        invariant
            i <= items@.len(),
            app_index(items.deep_view().take(i as int), item_id@) is None,
        decreases items@.len() - i,
    {
        assert(items.deep_view().take(i + 1).drop_last() =~= items.deep_view().take(i as int));
        assert(items.deep_view()[i as int] == items@[i as int]@);
        if let LaunchItem::App(app) = &items[i] {
            if same_text(app.id.as_str(), item_id) {
                proof {
                    lemma_prefix_index_app(items.deep_view(), item_id@, i as int);
                }
                return Some(i);
            }
        }
        i = i + 1;
    }
    assert(items.deep_view().take(i as int) =~= items.deep_view());
    None
}

/// The profile after the app item `item_id` learned `process_name`, or `None` when nothing
/// changes: the item is missing, in manual mode or already has that name.
pub open spec fn learned_profile(profile: ProfileView, item_id: Seq<char>, process_name: Seq<char>) -> Option<
    ProfileView,
> {
    match app_index(profile.items, item_id) {
        Some(i) => match profile.items[i] {
            LaunchItemView::App(app) => if app.process_name_mode == ProcessNameMode::Auto
                && app.process_name != process_name {
                Some(
                    ProfileView {
                        items: profile.items.update(
                            i,
                            LaunchItemView::App(AppItemView { process_name, ..app }),
                        ),
                        ..profile
                    },
                )
            } else {
                None
            },
            LaunchItemView::Url(_) => None,
        },
        None => None,
    }
}

/// Learning never touches an item in manual mode: the name the pilot typed stays.
pub proof fn lemma_manual_names_are_kept(profile: ProfileView, item_id: Seq<char>, process_name: Seq<char>)
    requires
        app_index(profile.items, item_id) matches Some(i) && profile.items[i] matches LaunchItemView::App(
            app,
        ) && app.process_name_mode == ProcessNameMode::Manual,
    ensures
        learned_profile(profile, item_id, process_name) is None,
{
}

/// Giving the first app with an id another app with that id leaves it the first.
proof fn lemma_app_index_after_update(items: Seq<LaunchItemView>, item_id: Seq<char>, i: int, item: LaunchItemView)
    requires
        app_index(items, item_id) == Some(i),
        is_app_with_id(item, item_id),
    ensures
        app_index(items.update(i, item), item_id) == Some(i),
{
    let updated = items.update(i, item);
    lemma_app_index_bounds(items, item_id);
    lemma_app_index_bounds(updated, item_id);
    match app_index(updated, item_id) {
        Some(k) => {
            if k < i {
                assert(updated[k] == items[k]);
            } else if k > i {
                assert(is_app_with_id(updated[i], item_id));
            }
        },
        None => {
            assert(is_app_with_id(updated[i], item_id));
        },
    }
}

/// After a name is learned, the item read back by its id (the first app with that id) has the
/// learned name.
pub proof fn lemma_learned_name_is_read_back(profile: ProfileView, item_id: Seq<char>, process_name: Seq<char>)
    requires
        learned_profile(profile, item_id, process_name) is Some,
    ensures
        ({
            let learned = learned_profile(profile, item_id, process_name)->0;
            app_index(learned.items, item_id) matches Some(i) && learned.items[i] matches LaunchItemView::App(
                app,
            ) && app.process_name == process_name
        }),
{
    lemma_app_index_bounds(profile.items, item_id);
    let i = app_index(profile.items, item_id)->0;
    let app = profile.items[i]->App_0;
    let item = LaunchItemView::App(AppItemView { process_name, ..app });
    lemma_app_index_after_update(profile.items, item_id, i, item);
}

/// Learning a name changes one item of the profile, the first app with that id, and of it only
/// the process name: its mode stays automatic and every other field and item stays as it was.
pub proof fn lemma_learning_changes_only_the_process_name(
    profile: ProfileView,
    item_id: Seq<char>,
    process_name: Seq<char>,
)
    requires
        learned_profile(profile, item_id, process_name) is Some,
    ensures
        ({
            let learned = learned_profile(profile, item_id, process_name)->0;
            &&& (ProfileView { items: profile.items, ..learned }) == profile
            &&& learned.items.len() == profile.items.len()
            &&& exists|i: int|
                0 <= i < profile.items.len() && app_index(profile.items, item_id) == Some(i)
                    && (forall|j: int|
                    0 <= j < profile.items.len() && j != i ==> #[trigger] learned.items[j]
                        == profile.items[j]) && (profile.items[i] matches LaunchItemView::App(before)
                    && learned.items[i] matches LaunchItemView::App(after) && after.process_name
                    == process_name && before.process_name != process_name
                    && before.process_name_mode == ProcessNameMode::Auto
                    && after.process_name_mode == ProcessNameMode::Auto && (AppItemView {
                    process_name: before.process_name,
                    ..after
                }) == before)
        }),
{
    lemma_app_index_bounds(profile.items, item_id);
    let i = app_index(profile.items, item_id)->0;
    let learned = learned_profile(profile, item_id, process_name)->0;
    assert(forall|j: int|
        0 <= j < profile.items.len() && j != i ==> #[trigger] learned.items[j] == profile.items[j]);
}

/// Gives the first app item with that id the process name observed for it, unless the item is
/// in manual mode or already has it; returns whether the profile changed.
pub fn learn_item_process_name(profile: &mut Profile, item_id: &str, process_name: &str) -> (changed:
    bool)
    ensures
        match learned_profile(old(profile)@, item_id@, process_name@) {
            Some(learned) => changed && final(profile)@ == learned,
            None => !changed && final(profile)@ == old(profile)@,
        },
{
    proof {
        lemma_app_index_bounds(profile.items.deep_view(), item_id@);
    }
    let Some(i) = find_app(profile.items.as_slice(), item_id) else {
        return false;
    };
    let ghost before = profile.items.deep_view();
    assert(before[i as int] == profile.items@[i as int]@);
    let updated = match &profile.items[i] {
        LaunchItem::App(app) => {
            if app.process_name_mode != ProcessNameMode::Auto || same_text(
                app.process_name.as_str(),
                process_name,
            ) {
                return false;
            }
            let mut copy = app.clone();
            copy.process_name = crate::text::owned(process_name);
            copy
        },
        LaunchItem::Url(_) => {
            return false;
        },
    };
    let ghost new_item = LaunchItemView::App(updated@);
    profile.items.set(i, LaunchItem::App(updated));
    assert(profile.items.deep_view() =~= before.update(i as int, new_item));
    true
}

fn find_item_name(items: &[LaunchItem], item_id: &str) -> (name: Option<String>)
    ensures
        name.deep_view() == item_name_of(items.deep_view(), item_id@),
{
    let mut i: usize = 0;
    while i < items.len()
        invariant
            i <= items@.len(),
            item_name_of(items.deep_view().take(i as int), item_id@) is None,
        decreases items@.len() - i,
    {
        assert(items.deep_view().take(i + 1).drop_last() =~= items.deep_view().take(i as int));
        assert(items.deep_view()[i as int] == items@[i as int]@);
        if same_text(items[i].id(), item_id) {
            proof {
                lemma_prefix_name(items.deep_view(), item_id@, i as int);
            }
            return Some(crate::text::owned(items[i].name()));
        }
        i = i + 1;
    }
    assert(items.deep_view().take(i as int) =~= items.deep_view());
    None
}

impl Session {
    /// The session's frozen copy of the profile.
    pub closed spec fn profile_view(&self) -> ProfileView {
        self.profile@
    }

    pub closed spec fn mode_view(&self) -> StartModeView {
        self.run.mode@
    }

    /// Whether crashed apps may be reopened, before the session ends.
    pub closed spec fn relaunch_flag(&self) -> bool {
        self.run.relaunch_allowed
    }

    /// The runtime of each item taking part, in profile order.
    pub closed spec fn runtimes(&self) -> Seq<ItemRuntimeView> {
        self.items.deep_view()
    }

    pub closed spec fn log_view(&self) -> SessionLogView {
        self.log@
    }

    /// Items meant for another simulator take no part in the session; the enabled ones start
    /// as pending, and the timeline opens with `SessionStarted`.
    pub fn start(profile: Profile, mode: StartMode) -> (session: Self)
        ensures
            session.profile_view() == (ProfileView {
                items: items_for(profile@.items, mode@.trigger()),
                ..profile@
            }),
            session.mode_view() == mode@,
            session.relaunch_flag() == !(mode@ is Test),
            session.runtimes() == pending_runtimes(items_for(profile@.items, mode@.trigger())),
            session.log_view().profile_id == profile@.id,
            session.log_view().profile_name == profile@.name,
            session.log_view().is_test == (mode@ is Test),
            session.log_view().ended_at_ms is None,
            session.log_view().entries.len() == 1,
            session.log_view().entries[0].kind == TimelineKind::SessionStarted,
            session.log_view().entries[0].item_id is None,
            session.log_view().entries[0].item_name is None,
            session.log_view().entries[0].error is None,
            session.log_view().entries[0].detail is None,
    {
        let Profile { id, name, triggers, items: all_items, enabled } = profile;
        let ghost all = all_items.deep_view();
        let mut kept: Vec<LaunchItem> = Vec::new();
        let mut i: usize = 0;
        while i < all_items.len()
            invariant
                all == all_items.deep_view(),
                i <= all.len(),
                kept.deep_view() == items_for(all.take(i as int), mode@.trigger()),
            decreases all.len() - i,
        {
            assert(all.take(i + 1).drop_last() =~= all.take(i as int));
            assert(all[i as int] == all_items@[i as int]@);
            let applies = match mode.trigger() {
                Some(trigger) => all_items[i].applies_to(trigger.process_name.as_str()),
                None => true,
            };
            if applies {
                let ghost before = kept.deep_view();
                kept.push(all_items[i].clone());
                assert(kept.deep_view() =~= before.push(all[i as int]));
            }
            proof {
                if mode@.trigger() is None {
                    assert(items_for(all.take(i + 1), mode@.trigger()) == all.take(i + 1));
                    assert(items_for(all.take(i as int), mode@.trigger()) == all.take(i as int));
                    assert(all.take(i + 1) =~= all.take(i as int).push(all[i as int]));
                }
            }
            i = i + 1;
        }
        assert(all.take(i as int) =~= all);
        let ghost kept_view = kept.deep_view();
        let mut runtimes: Vec<ItemRuntime> = Vec::new();
        let mut j: usize = 0;
        while j < kept.len()
            invariant
                kept_view == kept.deep_view(),
                j <= kept_view.len(),
                runtimes.deep_view() == pending_runtimes(kept_view.take(j as int)),
            decreases kept_view.len() - j,
        {
            assert(kept_view.take(j + 1).drop_last() =~= kept_view.take(j as int));
            assert(kept_view[j as int] == kept@[j as int]@);
            if kept[j].is_enabled() {
                let ghost before = runtimes.deep_view();
                runtimes.push(
                    ItemRuntime {
                        item_id: crate::text::owned(kept[j].id()),
                        status: ItemStatus::Pending,
                        launched_by_app: false,
                        error: None,
                    },
                );
                assert(runtimes.deep_view() =~= before.push(pending_runtime(kept_view[j as int])));
                assert(pending_runtimes(kept_view.take(j + 1)) =~= pending_runtimes(
                    kept_view.take(j as int),
                ).push(pending_runtime(kept_view[j as int])));
            } else {
                assert(pending_runtimes(kept_view.take(j + 1)) =~= pending_runtimes(
                    kept_view.take(j as int),
                ));
            }
            j = j + 1;
        }
        assert(kept_view.take(j as int) =~= kept_view);
        let is_test = mode.is_test();
        let log = SessionLog {
            profile_id: id.clone(),
            profile_name: name.clone(),
            is_test,
            started_at_ms: now_ms(),
            ended_at_ms: None,
            entries: Vec::new(),
        };
        let mut session = Session {
            profile: Profile { id, name, triggers, items: kept, enabled },
            run: RunMode { relaunch_allowed: !is_test, mode },
            items: runtimes,
            log,
        };
        session.record(TimelineKind::SessionStarted, None, None);
        assert(session.log@.entries.len() == 1);
        session
    }

    pub fn mode(&self) -> (mode: &StartMode)
        ensures
            mode@ == self.mode_view(),
    {
        &self.run.mode
    }

    pub fn profile(&self) -> (profile: &Profile)
        ensures
            profile@ == self.profile_view(),
    {
        &self.profile
    }

    pub fn is_test(&self) -> (test: bool)
        ensures
            test == self.log_view().is_test,
    {
        self.log.is_test
    }

    pub fn is_finished(&self) -> (finished: bool)
        ensures
            finished == (self.log_view().ended_at_ms is Some),
    {
        self.log.ended_at_ms.is_some()
    }

    /// Tests skip the wait anyway, so any MSFS trigger of the profile counts for them.
    pub fn supports_simconnect(&self) -> (supported: bool)
        ensures
            supported == match self.mode_view().trigger() {
                Some(trigger) => supports_simconnect_spec(trigger.process_name),
                None => exists|i: int|
                    0 <= i < self.profile_view().triggers.len() && supports_simconnect_spec(
                        #[trigger] self.profile_view().triggers[i].process_name,
                    ),
            },
    {
        match self.run.mode.trigger() {
            Some(trigger) => supports_simconnect(trigger.process_name.as_str()),
            None => {
                let mut i: usize = 0;
                while i < self.profile.triggers.len()
                    invariant
                        self.run.mode@.trigger() is None,
                        i <= self.profile.triggers@.len(),
                        forall|j: int|
                            0 <= j < i ==> !supports_simconnect_spec(
                                #[trigger] self.profile.triggers.deep_view()[j].process_name,
                            ),
                    decreases self.profile.triggers@.len() - i,
                {
                    assert(self.profile.triggers.deep_view()[i as int]
                        == self.profile.triggers@[i as int]@);
                    if supports_simconnect(self.profile.triggers[i].process_name.as_str()) {
                        assert(supports_simconnect_spec(
                            self.profile_view().triggers[i as int].process_name,
                        ));
                        return true;
                    }
                    i = i + 1;
                }
                false
            },
        }
    }

    /// Crashed apps are only reopened while the simulator is running in a real session.
    pub fn relaunch_allowed(&self) -> (allowed: bool)
        ensures
            allowed == (self.relaunch_flag() && self.log_view().ended_at_ms is None),
            allowed ==> !(self.mode_view() is Test),
    {
        proof {
            use_type_invariant(&self.run);
        }
        self.run.relaunch_allowed && !self.is_finished()
    }

    pub fn set_relaunch_allowed(&mut self, allowed: bool)
        ensures
            final(self).relaunch_flag() == (allowed && !(old(self).mode_view() is Test)),
            final(self).profile_view() == old(self).profile_view(),
            final(self).mode_view() == old(self).mode_view(),
            final(self).runtimes() == old(self).runtimes(),
            final(self).log_view() == old(self).log_view(),
    {
        self.run.relaunch_allowed = allowed && !self.run.mode.is_test();
    }

    /// The session's copy, which includes a process name learned during this session.
    pub fn app_item(&self, item_id: &str) -> (item: Option<AppItem>)
        ensures
            match app_index(self.profile_view().items, item_id@) {
                Some(i) => item matches Some(app) && self.profile_view().items[i] == LaunchItemView::App(app@),
                None => item is None,
            },
    {
        proof {
            lemma_app_index_bounds(self.profile@.items, item_id@);
        }
        match find_app(self.profile.items.as_slice(), item_id) {
            Some(i) => {
                assert(self.profile.items.deep_view()[i as int] == self.profile.items@[i as int]@);
                match &self.profile.items[i] {
                    LaunchItem::App(app) => Some(app.clone()),
                    LaunchItem::Url(_) => None,
                }
            },
            None => None,
        }
    }

    pub fn items(&self) -> (items: &[ItemRuntime])
        ensures
            items.deep_view() == self.runtimes(),
    {
        self.items.as_slice()
    }

    pub fn log(&self) -> (log: &SessionLog)
        ensures
            log@ == self.log_view(),
    {
        &self.log
    }

    pub fn enabled_items(&self) -> (items: Vec<LaunchItem>)
        ensures
            items.deep_view() == enabled_of(self.profile_view().items),
    {
        let ghost all = self.profile.items.deep_view();
        let mut items: Vec<LaunchItem> = Vec::new();
        let mut i: usize = 0;
        while i < self.profile.items.len()
            invariant
                all == self.profile.items.deep_view(),
                i <= all.len(),
                items.deep_view() == enabled_of(all.take(i as int)),
            decreases all.len() - i,
        {
            assert(all.take(i + 1).drop_last() =~= all.take(i as int));
            assert(all[i as int] == self.profile.items@[i as int]@);
            if self.profile.items[i].is_enabled() {
                let ghost before = items.deep_view();
                items.push(self.profile.items[i].clone());
                assert(items.deep_view() =~= before.push(all[i as int]));
            }
            i = i + 1;
        }
        assert(all.take(i as int) =~= all);
        items
    }

    /// Replaces the runtime of the same item; closing never forgets that AutoStart launched it.
    pub fn update(&mut self, runtime: ItemRuntime)
        ensures
            final(self).runtimes() == runtimes_after_update(old(self).runtimes(), runtime@),
            final(self).profile_view() == old(self).profile_view(),
            final(self).mode_view() == old(self).mode_view(),
            final(self).relaunch_flag() == old(self).relaunch_flag(),
            final(self).log_view() == old(self).log_view(),
    {
        proof {
            lemma_runtime_index_bounds(self.items.deep_view(), runtime@.item_id);
        }
        if let Some(i) = find_runtime(self.items.as_slice(), runtime.item_id.as_str()) {
            let launched_by_app = self.items[i].launched_by_app || runtime.launched_by_app;
            let ghost before = self.items.deep_view();
            let ghost new_view = runtime@;
            let merged = ItemRuntime { launched_by_app, ..runtime };
            assert(merged@ == merged_runtime(before[i as int], new_view));
            self.items.set(i, merged);
            assert(self.items.deep_view() =~= before.update(
                i as int,
                merged_runtime(before[i as int], new_view),
            ));
        }
    }

    pub fn record(
        &mut self,
        kind: TimelineKind,
        item_id: Option<&str>,
        error: Option<&AppError>,
    ) -> (entry: TimelineEntry)
        ensures
            entry@.kind == kind,
            entry@.item_id == item_id.deep_view(),
            entry@.item_name == match item_id {
                Some(id) => item_name_of(old(self).profile_view().items, id@),
                None => None,
            },
            entry@.error == payload_of(
                match error {
                    Some(e) => Some(*e),
                    None => None,
                },
            ),
            entry@.detail is None,
            final(self).log_view() == (SessionLogView {
                entries: old(self).log_view().entries.push(entry@),
                ..old(self).log_view()
            }),
            final(self).profile_view() == old(self).profile_view(),
            final(self).mode_view() == old(self).mode_view(),
            final(self).relaunch_flag() == old(self).relaunch_flag(),
            final(self).runtimes() == old(self).runtimes(),
    {
        self.push_entry(kind, item_id, error, None)
    }

    pub fn record_detail(
        &mut self,
        kind: TimelineKind,
        item_id: Option<&str>,
        detail: String,
    ) -> (entry: TimelineEntry)
        ensures
            entry@.kind == kind,
            entry@.item_id == item_id.deep_view(),
            entry@.item_name == match item_id {
                Some(id) => item_name_of(old(self).profile_view().items, id@),
                None => None,
            },
            entry@.error is None,
            entry@.detail == Some(detail@),
            final(self).log_view() == (SessionLogView {
                entries: old(self).log_view().entries.push(entry@),
                ..old(self).log_view()
            }),
            final(self).profile_view() == old(self).profile_view(),
            final(self).mode_view() == old(self).mode_view(),
            final(self).relaunch_flag() == old(self).relaunch_flag(),
            final(self).runtimes() == old(self).runtimes(),
    {
        self.push_entry(kind, item_id, None, Some(detail))
    }

    /// Returns whether the name changed; items in manual mode keep what the user typed.
    pub fn learn_process_name(&mut self, item_id: &str, process_name: &str) -> (changed: bool)
        ensures
            match learned_profile(old(self).profile_view(), item_id@, process_name@) {
                Some(profile) => changed && final(self).profile_view() == profile,
                None => !changed && final(self).profile_view() == old(self).profile_view(),
            },
            final(self).mode_view() == old(self).mode_view(),
            final(self).relaunch_flag() == old(self).relaunch_flag(),
            final(self).runtimes() == old(self).runtimes(),
            final(self).log_view() == old(self).log_view(),
    {
        learn_item_process_name(&mut self.profile, item_id, process_name)
    }

    pub fn push_entry(
        &mut self,
        kind: TimelineKind,
        item_id: Option<&str>,
        error: Option<&AppError>,
        detail: Option<String>,
    ) -> (entry: TimelineEntry)
        ensures
            entry@.kind == kind,
            entry@.item_id == item_id.deep_view(),
            entry@.item_name == match item_id {
                Some(id) => item_name_of(old(self).profile_view().items, id@),
                None => None,
            },
            entry@.error == payload_of(
                match error {
                    Some(e) => Some(*e),
                    None => None,
                },
            ),
            entry@.detail == detail.deep_view(),
            final(self).log_view() == (SessionLogView {
                entries: old(self).log_view().entries.push(entry@),
                ..old(self).log_view()
            }),
            final(self).profile_view() == old(self).profile_view(),
            final(self).mode_view() == old(self).mode_view(),
            final(self).relaunch_flag() == old(self).relaunch_flag(),
            final(self).runtimes() == old(self).runtimes(),
    {
        let item_name = match item_id {
            Some(id) => find_item_name(self.profile.items.as_slice(), id),
            None => None,
        };
        let entry = TimelineEntry {
            timestamp_ms: now_ms(),
            kind,
            item_id: match item_id {
                Some(id) => Some(crate::text::owned(id)),
                None => None,
            },
            item_name,
            error: match error {
                Some(e) => Some(e.payload()),
                None => None,
            },
            detail,
        };
        let ghost before = self.log.entries.deep_view();
        self.log.entries.push(entry.clone());
        assert(self.log.entries.deep_view() =~= before.push(entry@));
        entry
    }

    /// Ends the timeline with `SessionEnded` at the time the session ends.
    pub fn finish(&mut self) -> (entry: TimelineEntry)
        ensures
            entry@.kind == TimelineKind::SessionEnded,
            entry@.item_id is None,
            entry@.error is None,
            final(self).log_view() == (SessionLogView {
                entries: old(self).log_view().entries.push(entry@),
                ended_at_ms: Some(entry@.timestamp_ms),
                ..old(self).log_view()
            }),
            final(self).profile_view() == old(self).profile_view(),
            final(self).mode_view() == old(self).mode_view(),
            final(self).relaunch_flag() == old(self).relaunch_flag(),
            final(self).runtimes() == old(self).runtimes(),
    {
        let entry = self.record(TimelineKind::SessionEnded, None, None);
        self.log.ended_at_ms = Some(entry.timestamp_ms);
        entry
    }

    /// Used by "test close" without a previous "test launch": the user confirmed that every
    /// running app of the profile should be treated as launched by AutoStart.
    pub fn assume_all_launched(&mut self)
        ensures
            final(self).runtimes().len() == old(self).runtimes().len(),
            forall|i: int|
                0 <= i < old(self).runtimes().len() ==> #[trigger] final(self).runtimes()[i] == (
                ItemRuntimeView { launched_by_app: true, ..old(self).runtimes()[i] }),
            final(self).profile_view() == old(self).profile_view(),
            final(self).mode_view() == old(self).mode_view(),
            final(self).relaunch_flag() == old(self).relaunch_flag(),
            final(self).log_view() == old(self).log_view(),
    {
        let ghost before = self.items.deep_view();
        let ghost old_profile = self.profile@;
        let ghost old_mode = self.run.mode@;
        let ghost old_flag = self.run.relaunch_allowed;
        let ghost old_log = self.log@;
        let mut i: usize = 0;
        while i < self.items.len()
            invariant
                self.profile@ == old_profile,
                self.run.mode@ == old_mode,
                self.run.relaunch_allowed == old_flag,
                self.log@ == old_log,
                i <= self.items@.len(),
                self.items.deep_view().len() == before.len(),
                forall|j: int|
                    0 <= j < i ==> #[trigger] self.items.deep_view()[j] == (ItemRuntimeView {
                        launched_by_app: true,
                        ..before[j]
                    }),
                forall|j: int| i <= j < before.len() ==> #[trigger] self.items.deep_view()[j] == before[j],
            decreases self.items@.len() - i,
        {
            let ghost current = self.items.deep_view();
            assert(current[i as int] == before[i as int]);
            assert(current[i as int] == self.items@[i as int]@);
            let mut runtime = self.items[i].clone();
            runtime.launched_by_app = true;
            self.items.set(i, runtime);
            assert(self.items.deep_view() =~= current.update(
                i as int,
                ItemRuntimeView { launched_by_app: true, ..before[i as int] },
            ));
            i = i + 1;
        }
    }

    /// The apps to close, in profile order.
    pub fn close_targets(&self, close_only_if_launched_by_app: bool) -> (targets: Vec<CloseTarget>)
        ensures
            targets.deep_view() == close_targets_of(
                self.profile_view().items,
                self.runtimes(),
                close_only_if_launched_by_app,
            ),
    {
        let ghost all = self.profile.items.deep_view();
        let mut targets: Vec<CloseTarget> = Vec::new();
        let mut i: usize = 0;
        while i < self.profile.items.len()
            invariant
                all == self.profile.items.deep_view(),
                i <= all.len(),
                targets.deep_view() == close_targets_of(
                    all.take(i as int),
                    self.items.deep_view(),
                    close_only_if_launched_by_app,
                ),
            decreases all.len() - i,
        {
            assert(all.take(i + 1).drop_last() =~= all.take(i as int));
            assert(all[i as int] == self.profile.items@[i as int]@);
            if let LaunchItem::App(app) = &self.profile.items[i] {
                proof {
                    lemma_runtime_index_bounds(self.items.deep_view(), app.id@);
                }
                if let Some(r) = find_runtime(self.items.as_slice(), app.id.as_str()) {
                    assert(self.items.deep_view()[r as int] == self.items@[r as int]@);
                    if self.items[r].launched_by_app || !close_only_if_launched_by_app {
                        let ghost before = targets.deep_view();
                        targets.push(CloseTarget::from_app_item(app));
                        assert(targets.deep_view() =~= before.push(target_of(app@)));
                    }
                }
            }
            i = i + 1;
        }
        assert(all.take(i as int) =~= all);
        targets
    }

    /// The runtime of an item, if it takes part.
    pub fn runtime(&self, item_id: &str) -> (runtime: Option<&ItemRuntime>)
        ensures
            match runtime_index(self.runtimes(), item_id@) {
                Some(i) => runtime matches Some(r) && r@ == self.runtimes()[i],
                None => runtime is None,
            },
    {
        proof {
            lemma_runtime_index_bounds(self.items.deep_view(), item_id@);
        }
        match find_runtime(self.items.as_slice(), item_id) {
            Some(i) => {
                assert(self.items.deep_view()[i as int] == self.items@[i as int]@);
                Some(&self.items[i])
            },
            None => None,
        }
    }
}

} // verus!
