//! What a launch decides: whether an item or the simulator needs starting, from where, when
//! its process counts as started, and how the outcome is reported.
use std::collections::HashSet;

use vstd::prelude::*;
use vstd::std_specs::hash::*;

use crate::error::{error_kind, error_message, AppError};
use crate::models::{AppItem, ItemRuntime, ItemStatus, TimelineKind, Trigger};
use crate::paths::{folder_of, or_empty, path_parent};
use crate::process_tracker::{any_tracked_alive, closed_under_children, expand_tracked, ProcessSample};
use crate::processes::{is_running, normalized, pids_named};
use crate::text::{chars_of, has_suffix, lowercase, owned, seq_ends_with, to_lowercase};

verus! {

broadcast use vstd::std_specs::hash::group_hash_axioms;

pub const PROCESS_DETECTION_TIMEOUT_MS: u64 = 10_000;
pub const PROCESS_DETECTION_INTERVAL_MS: u64 = 500;

/// How a program is started: as administrator, and minimized.
#[derive(Debug, Clone, Copy, PartialEq, Eq, Structural)]
pub struct LaunchOptions {
    pub elevated: bool,
    pub minimized: bool,
}

impl Default for LaunchOptions {
    fn default() -> (options: Self)
        ensures
            options == (LaunchOptions { elevated: false, minimized: false }),
    {
        LaunchOptions { elevated: false, minimized: false }
    }
}

/// The options an app item asks for.
pub fn launch_options(item: &AppItem) -> (options: LaunchOptions)
    ensures
        options == (LaunchOptions { elevated: item.run_as_admin, minimized: item.start_minimized }),
{
    LaunchOptions { elevated: item.run_as_admin, minimized: item.start_minimized }
}

/// What became of one launch.
pub enum LaunchOutcome {
    Launched,
    /// Only app items report their processes, which the watcher keeps following.
    AppLaunched(LaunchedApp),
    AlreadyRunning,
    Failed(AppError),
}

/// The processes behind an app that was just started.
pub struct LaunchedApp {
    pub root_pid: Option<u32>,
    pub followed: HashSet<u32>,
    pub baseline: HashSet<u32>,
}

/// The status an outcome gives its item.
pub open spec fn launch_status(outcome: LaunchOutcome) -> ItemStatus {
    match outcome {
        LaunchOutcome::Launched | LaunchOutcome::AppLaunched(_) => ItemStatus::Running,
        LaunchOutcome::AlreadyRunning => ItemStatus::Skipped,
        LaunchOutcome::Failed(_) => ItemStatus::Error,
    }
}

/// An outcome that opened something marks its item running; only an app found running
/// already is skipped, and only a failure is an error.
pub proof fn lemma_launch_status_follows_the_outcome(outcome: LaunchOutcome)
    ensures
        (launch_status(outcome) == ItemStatus::Running) == (outcome is Launched || outcome is AppLaunched),
        (launch_status(outcome) == ItemStatus::Skipped) == (outcome is AlreadyRunning),
        (launch_status(outcome) == ItemStatus::Error) == (outcome is Failed),
        (launch_kind(outcome) == TimelineKind::Launched) == (outcome is Launched || outcome is AppLaunched),
        (launch_kind(outcome) == TimelineKind::Skipped) == (outcome is AlreadyRunning),
{
}

/// The timeline entry an outcome writes.
pub open spec fn launch_kind(outcome: LaunchOutcome) -> TimelineKind {
    match outcome {
        LaunchOutcome::Launched | LaunchOutcome::AppLaunched(_) => TimelineKind::Launched,
        LaunchOutcome::AlreadyRunning => TimelineKind::Skipped,
        LaunchOutcome::Failed(_) => TimelineKind::Error,
    }
}

impl LaunchOutcome {
    /// Launched items count as opened by AutoStart; running ones are skipped.
    pub fn into_runtime(self, item_id: &str) -> (runtime: ItemRuntime)
        ensures
            runtime@.item_id == item_id@,
            runtime@.status == launch_status(self),
            runtime@.launched_by_app == (self is Launched || self is AppLaunched),
            (runtime@.status == ItemStatus::Running) == (self is Launched || self is AppLaunched),
            (runtime@.status == ItemStatus::Skipped) == (self is AlreadyRunning),
            (runtime@.status == ItemStatus::Running) == runtime@.launched_by_app,
            match self {
                LaunchOutcome::Failed(error) => runtime@.error matches Some(payload) && payload.kind
                    == error_kind(error) && payload.message == error_message(error),
                _ => runtime@.error is None,
            },
    {
        let (status, launched_by_app, error) = match self {
            LaunchOutcome::Launched | LaunchOutcome::AppLaunched(_) => (ItemStatus::Running, true, None),
            LaunchOutcome::AlreadyRunning => (ItemStatus::Skipped, false, None),
            LaunchOutcome::Failed(error) => (ItemStatus::Error, false, Some(error.payload())),
        };
        ItemRuntime { item_id: owned(item_id), status, launched_by_app, error }
    }

    pub fn timeline_kind(&self) -> (kind: TimelineKind)
        ensures
            kind == launch_kind(*self),
    {
        match self {
            LaunchOutcome::Launched | LaunchOutcome::AppLaunched(_) => TimelineKind::Launched,
            LaunchOutcome::AlreadyRunning => TimelineKind::Skipped,
            LaunchOutcome::Failed(_) => TimelineKind::Error,
        }
    }
}

/// How many times the launcher looks for the started process before giving up.
pub fn detection_attempts() -> (attempts: u64)
    ensures
        attempts == PROCESS_DETECTION_TIMEOUT_MS / PROCESS_DETECTION_INTERVAL_MS,
        attempts == 20,
{
    PROCESS_DETECTION_TIMEOUT_MS / PROCESS_DETECTION_INTERVAL_MS
}

/// An app failed to start; `reason` says why.
pub fn launch_failed(name: &str, reason: String) -> (error: AppError)
    ensures
        error matches AppError::LaunchFailed { name: n, reason: r } && n@ == name@ && r@ == reason@,
{
    AppError::LaunchFailed { name: owned(name), reason }
}

/// A link that failed to open is reported under the item's name; other errors pass through.
pub fn rename_launch_failure(error: AppError, name: &str) -> (renamed: AppError)
    ensures
        match error {
            AppError::LaunchFailed { name: _, reason } => renamed matches AppError::LaunchFailed {
                name: n,
                reason: r,
            } && n@ == name@ && r@ == reason@,
            _ => renamed == error,
        },
{
    match error {
        AppError::LaunchFailed { name: _, reason } => AppError::LaunchFailed { name: owned(name), reason },
        other => other,
    }
}

/// The folder an app starts in: the one the item names, else the executable's folder.
pub fn resolve_working_dir(item: &AppItem) -> (dir: String)
    ensures
        dir@ == match item.working_dir {
            Some(dir) => dir@,
            None => or_empty(path_parent(item.exe_path@)),
        },
{
    match &item.working_dir {
        Some(dir) => dir.clone(),
        None => folder_of(item.exe_path.as_str()),
    }
}

/// Whether a listed process has the item's process name.
pub fn has_process_named(samples: &[ProcessSample], process_name: &str) -> (found: bool)
    ensures
        found == exists|i: int|
            0 <= i < samples@.len() && normalized(#[trigger] samples@[i].name@) == normalized(
                process_name@,
            ),
{
    let wanted = crate::processes::normalize_process_name(process_name);
    let mut i: usize = 0;
    while i < samples.len()
        invariant
            wanted@ == normalized(process_name@),
            i <= samples@.len(),
            forall|j: int| 0 <= j < i ==> normalized(#[trigger] samples@[j].name@) != wanted@,
        decreases samples@.len() - i,
    {
        let name = crate::processes::normalize_process_name(samples[i].name.as_str());
        if crate::text::same_text(name.as_str(), wanted.as_str()) {
            return true;
        }
        i = i + 1;
    }
    false
}

/// The processes followed from the start: the root process, when the launch reported one.
pub fn initial_followed(root_pid: Option<u32>) -> (followed: HashSet<u32>)
    ensures
        followed@ == match root_pid {
            Some(pid) => set![pid],
            None => Set::<u32>::empty(),
        },
{
    let mut followed: HashSet<u32> = HashSet::new();
    if let Some(pid) = root_pid {
        followed.insert(pid);
    }
    assert(followed@ =~= match root_pid {
        Some(pid) => set![pid],
        None => Set::<u32>::empty(),
    });
    followed
}

/// One look at the process list while a launch is confirmed: the followed processes grow by
/// the children of those already followed, and the launch counts as started once one of
/// them is alive or a process with the item's name runs. A launcher may exit right after
/// starting the real app, so any process it started counts.
pub fn follow_launch(followed: &HashSet<u32>, samples: &[ProcessSample], process_name: &str) -> (step: (
    HashSet<u32>,
    bool,
))
    ensures
        followed@.subset_of(step.0@),
        closed_under_children(step.0@, samples@),
        forall|set: Set<u32>|
            #![trigger closed_under_children(set, samples@)]
            followed@.subset_of(set) && closed_under_children(set, samples@) ==> step.0@.subset_of(set),
        step.1 == ((exists|i: int| 0 <= i < samples@.len() && step.0@.contains(#[trigger] samples@[i].pid))
            || exists|i: int|
            0 <= i < samples@.len() && normalized(#[trigger] samples@[i].name@) == normalized(
                process_name@,
            )),
{
    let expanded = expand_tracked(followed, samples);
    let started = any_tracked_alive(&expanded, samples) || has_process_named(samples, process_name);
    (expanded, started)
}

/// What happened when the simulator was asked to start.
#[derive(Debug, Clone, Copy, PartialEq, Eq, Structural)]
pub enum SimulatorStart {
    Started,
    AlreadyRunning,
}

/// How the simulator is started: its launch target, which a trigger without one lacks.
pub fn simulator_target(trigger: &Trigger) -> (target: Result<String, AppError>)
    ensures
        match trigger.launch_target {
            Some(t) => target matches Ok(text) && text@ == t@,
            None => target matches Err(AppError::Validation(message)) && message@ == trigger.label@
                + " has no launch target"@,
        },
{
    match &trigger.launch_target {
        Some(target) => Ok(target.clone()),
        None => Err(AppError::Validation(owned(trigger.label.as_str()).concat(" has no launch target"))),
    }
}

/// Targets ending in `.exe` (any case) are started as programs; others are opened as links.
pub open spec fn exe_target(target: Seq<char>) -> bool {
    has_suffix(lowercase(target), ".exe"@)
}

pub fn is_exe_target(target: &str) -> (is_exe: bool)
    ensures
        is_exe == exe_target(target@),
{
    let lower = chars_of(to_lowercase(target).as_str());
    let exe = chars_of(".exe");
    seq_ends_with(lower.as_slice(), exe.as_slice())
}

/// What starting the simulator asks for: nothing while a process of the trigger runs (`None`),
/// else opening its launch target, which a trigger without one lacks.
pub fn simulator_start(trigger: &Trigger, samples: &[ProcessSample]) -> (start: Result<Option<String>, AppError>)
    ensures
        pids_named(samples@, trigger.process_name@).len() > 0 ==> start matches Ok(None),
        pids_named(samples@, trigger.process_name@).len() == 0 ==> match trigger.launch_target {
            Some(t) => start matches Ok(Some(text)) && text@ == t@,
            None => start matches Err(AppError::Validation(message)) && message@ == trigger.label@
                + " has no launch target"@,
        },
{
    if is_running(samples, trigger.process_name.as_str()) {
        return Ok(None);
    }
    match simulator_target(trigger) {
        Ok(target) => Ok(Some(target)),
        Err(error) => Err(error),
    }
}

/// How a launch target is opened: a program from its folder, or a link handed to the system.
#[derive(Debug, Clone, PartialEq, Eq)]
pub enum TargetOpening {
    Link(String),
    Program { exe_path: String, working_dir: String },
}

/// Targets ending in `.exe` start that program from its folder, if the file exists; others are
/// links.
pub fn target_opening(target: &str, target_is_file: bool) -> (opening: Result<TargetOpening, AppError>)
    ensures
        match opening {
            Ok(TargetOpening::Link(link)) => !exe_target(target@) && link@ == target@,
            Ok(TargetOpening::Program { exe_path, working_dir }) => exe_target(target@) && target_is_file
                && exe_path@ == target@ && working_dir@ == or_empty(path_parent(target@)),
            Err(AppError::ExecutableNotFound(path)) => exe_target(target@) && !target_is_file && path@
                == target@,
            Err(_) => false,
        },
{
    if !is_exe_target(target) {
        return Ok(TargetOpening::Link(owned(target)));
    }
    if !target_is_file {
        return Err(AppError::ExecutableNotFound(owned(target)));
    }
    Ok(TargetOpening::Program { exe_path: owned(target), working_dir: folder_of(target) })
}

} // verus!
