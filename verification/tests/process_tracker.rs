use std::collections::HashSet;

use autostart::process_tracker::{any_tracked_alive, choose_process_name, expand_tracked, LaunchTrace, ProcessSample};

const INSTALL_DIR: &str = "/apps/volanta";

fn sample(pid: u32, parent_pid: Option<u32>, name: &str, start_time: u64) -> ProcessSample {
    ProcessSample {
        pid,
        parent_pid,
        name: name.into(),
        exe_path: Some(format!("/elsewhere/{name}")),
        start_time,
    }
}

fn in_install_dir(mut sample: ProcessSample) -> ProcessSample {
    sample.exe_path = Some(format!("{INSTALL_DIR}/BIN/{}", sample.name));
    sample
}

fn pick(root_pid: u32, baseline: &[u32], history: &[&[ProcessSample]], now: &[ProcessSample]) -> Option<String> {
    let mut followed_pids = HashSet::from([root_pid]);
    for samples in history {
        followed_pids = expand_tracked(&followed_pids, samples);
    }
    let baseline = baseline.iter().copied().collect();
    let trace = LaunchTrace {
        root_pid: Some(root_pid),
        followed: &followed_pids,
        baseline: &baseline,
        install_dir: INSTALL_DIR,
    };
    choose_process_name(&trace, now)
}

#[test]
fn keeps_the_root_process_while_it_runs() {
    let now = [sample(10, Some(1), "Spad.exe", 5), sample(11, Some(10), "Helper.exe", 6)];
    assert_eq!(pick(10, &[], &[&now], &now), Some("Spad.exe".into()));
}

#[test]
fn learns_the_child_when_the_launcher_exits() {
    let during = [sample(10, Some(1), "Launcher.exe", 5), sample(11, Some(10), "Volanta.exe", 6)];
    let now = [sample(11, Some(10), "Volanta.exe", 6)];
    assert_eq!(pick(10, &[], &[&during], &now), Some("Volanta.exe".into()));
}

#[test]
fn keeps_tracking_a_grandchild_after_the_intermediate_process_exits() {
    let first = [sample(10, Some(1), "Launcher.exe", 5), sample(11, Some(10), "Updater.exe", 6)];
    let second = [sample(11, Some(10), "Updater.exe", 6), sample(12, Some(11), "App.exe", 7)];
    let now = [sample(12, Some(11), "App.exe", 7)];
    assert_eq!(pick(10, &[], &[&first, &second], &now), Some("App.exe".into()));
}

#[test]
fn falls_back_to_a_new_process_in_the_install_dir() {
    let now = [in_install_dir(sample(20, Some(2), "Volanta.exe", 8)), sample(21, Some(2), "Other.exe", 7)];
    assert_eq!(pick(10, &[], &[&now], &now), Some("Volanta.exe".into()));
}

#[test]
fn ignores_install_dir_processes_that_existed_before_launch() {
    let now = [in_install_dir(sample(20, Some(2), "Volanta.exe", 1))];
    assert_eq!(pick(10, &[20], &[&now], &now), None);
}

#[test]
fn prefers_the_oldest_descendant_and_breaks_ties_by_name() {
    let during = [
        sample(10, Some(1), "Launcher.exe", 5),
        sample(11, Some(10), "Zeta.exe", 6),
        sample(12, Some(10), "Alpha.exe", 6),
        sample(13, Some(10), "Early.exe", 3),
    ];
    let now = &during[1..];
    assert_eq!(pick(10, &[], &[&during], now), Some("Early.exe".into()));
    let tied = &during[1..3];
    assert_eq!(pick(10, &[], &[&during], tied), Some("Alpha.exe".into()));
}

#[test]
fn returns_none_without_candidates() {
    let now = [sample(30, Some(1), "Unrelated.exe", 9)];
    assert_eq!(pick(10, &[], &[&now], &now), None);
}

#[test]
fn detects_tracked_processes_still_alive() {
    let followed_pids = HashSet::from([10]);
    assert!(any_tracked_alive(&followed_pids, &[sample(10, None, "A.exe", 1)]));
    assert!(!any_tracked_alive(&followed_pids, &[sample(11, None, "B.exe", 1)]));
}

#[test]
fn expanding_follows_children_of_followed_processes_only() {
    let samples = [
        sample(10, Some(1), "Launcher.exe", 1),
        sample(11, Some(10), "Child.exe", 2),
        sample(12, Some(11), "Grandchild.exe", 3),
        sample(13, Some(2), "Stranger.exe", 4),
    ];
    let expanded = expand_tracked(&HashSet::from([10]), &samples);
    assert_eq!(expanded, HashSet::from([10, 11, 12]));
}
