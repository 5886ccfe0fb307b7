//! Following an app after it started: how long it is watched, which processes are its own,
//! and the folder it was installed in.
use std::collections::HashSet;

use vstd::prelude::*;
use vstd::std_specs::hash::*;

use crate::models::{AppItem, ProcessNameMode};
use crate::paths::{folder_of, or_empty, path_parent};
use crate::process_tracker::ProcessSample;
use crate::processes::{normalize_process_name, normalized};
use crate::text::same_text;

verus! {

broadcast use vstd::std_specs::hash::group_hash_axioms;

pub const PROFILE_CHANGED_EVENT: &'static str = "profiles://changed";
pub const WATCH_INTERVAL_MS: u64 = 500;
pub const LEARNING_WINDOW_MS: u64 = 30_000;
pub const MINIMIZE_WINDOW_MS: u64 = 10_000;

/// How long an app is watched after it started: long enough to learn its process name in
/// automatic mode, else long enough to minimize its first windows, else not at all.
pub open spec fn watch_window(item: AppItem) -> Option<u64> {
    if item.process_name_mode == ProcessNameMode::Auto {
        Some(LEARNING_WINDOW_MS)
    } else if item.start_minimized {
        Some(MINIMIZE_WINDOW_MS)
    } else {
        None
    }
}

pub fn observation_window(item: &AppItem) -> (window: Option<u64>)
    ensures
        window == watch_window(*item),
{
    if item.process_name_mode == ProcessNameMode::Auto {
        Some(LEARNING_WINDOW_MS)
    } else if item.start_minimized {
        Some(MINIMIZE_WINDOW_MS)
    } else {
        None
    }
}

/// New windows are minimized during the first seconds only.
pub fn minimizes_now(item: &AppItem, elapsed_ms: u64) -> (minimize: bool)
    ensures
        minimize == (item.start_minimized && elapsed_ms < MINIMIZE_WINDOW_MS),
{
    item.start_minimized && elapsed_ms < MINIMIZE_WINDOW_MS
}

/// The processes of the app: those followed since the launch and those with its name.
pub open spec fn is_app_sample(sample: ProcessSample, followed: Set<u32>, process_name: Seq<char>) -> bool {
    followed.contains(sample.pid) || normalized(sample.name@) == normalized(process_name)
}

pub fn app_pids(item: &AppItem, followed: &HashSet<u32>, samples: &[ProcessSample]) -> (pids: HashSet<u32>)
    ensures
        forall|pid: u32|
            #![trigger pids@.contains(pid)]
            pids@.contains(pid) <==> exists|i: int|
                0 <= i < samples@.len() && (#[trigger] samples@[i]).pid == pid && is_app_sample(
                    samples@[i],
                    followed@,
                    item.process_name@,
                ),
{
    let wanted = normalize_process_name(item.process_name.as_str());
    let mut pids: HashSet<u32> = HashSet::new();
    let mut i: usize = 0;
    while i < samples.len()
        invariant
            wanted@ == normalized(item.process_name@),
            i <= samples@.len(),
            forall|pid: u32|
                #![trigger pids@.contains(pid)]
                pids@.contains(pid) <==> exists|j: int|
                    0 <= j < i && (#[trigger] samples@[j]).pid == pid && is_app_sample(
                        samples@[j],
                        followed@,
                        item.process_name@,
                    ),
        decreases samples@.len() - i,
    {
        let sample = &samples[i];
        let name = normalize_process_name(sample.name.as_str());
        if followed.contains(&sample.pid) || same_text(name.as_str(), wanted.as_str()) {
            pids.insert(sample.pid);
        }
        proof {
            assert forall|pid: u32| #![trigger pids@.contains(pid)] pids@.contains(pid) <==> exists|j: int|
                0 <= j < i + 1 && (#[trigger] samples@[j]).pid == pid && is_app_sample(
                    samples@[j],
                    followed@,
                    item.process_name@,
                ) by {
                if pids@.contains(pid) && pid != samples@[i as int].pid {
                    let j = choose|j: int|
                        0 <= j < i && (#[trigger] samples@[j]).pid == pid && is_app_sample(
                            samples@[j],
                            followed@,
                            item.process_name@,
                        );
                    assert(0 <= j < i + 1);
                }
            }
        }
        i = i + 1;
    }
    pids
}

/// The folder the app was installed in: where the processes of the real app are looked for.
pub fn install_dir(item: &AppItem) -> (dir: String)
    ensures
        dir@ == or_empty(path_parent(item.exe_path@)),
{
    folder_of(item.exe_path.as_str())
}

} // verus!
