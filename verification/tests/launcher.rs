use std::collections::HashSet;

use autostart::error::AppError;
use autostart::launcher::{
    detection_attempts, follow_launch, has_process_named, initial_followed, is_exe_target,
    launch_failed, rename_launch_failure, resolve_working_dir, simulator_start, simulator_target,
    target_opening, TargetOpening,
};
use autostart::models::{AppItem, OnClose, ProcessNameMode, Trigger};
use autostart::process_tracker::ProcessSample;

fn app(working_dir: Option<&str>) -> AppItem {
    AppItem {
        id: "1".into(),
        name: "Volanta".into(),
        exe_path: "/apps/Volanta/Volanta.exe".into(),
        args: None,
        working_dir: working_dir.map(str::to_owned),
        process_name: "Volanta.exe".into(),
        process_name_mode: ProcessNameMode::Auto,
        icon_base64: None,
        delay_ms: 0,
        run_as_admin: false,
        start_minimized: false,
        wait_for_sim_connect: false,
        restart_on_crash: false,
        launch_before_simulator: false,
        only_for_triggers: Vec::new(),
        on_close: OnClose::Graceful,
        enabled: true,
    }
}

fn sample(pid: u32, parent_pid: Option<u32>, name: &str) -> ProcessSample {
    ProcessSample { pid, parent_pid, name: name.into(), exe_path: None, start_time: 0 }
}

#[test]
fn apps_start_in_their_folder_unless_told_otherwise() {
    assert_eq!(resolve_working_dir(&app(None)), "/apps/Volanta");
    assert_eq!(resolve_working_dir(&app(Some("/data"))), "/data");
}

#[test]
fn a_launch_is_confirmed_by_a_followed_process_or_the_name() {
    assert_eq!(detection_attempts(), 20);
    let followed = initial_followed(Some(10));
    assert_eq!(followed, HashSet::from([10]));
    assert!(initial_followed(None).is_empty());

    let (grown, started) = follow_launch(&followed, &[sample(11, Some(10), "Child.exe")], "Volanta.exe");
    assert_eq!(grown, HashSet::from([10, 11]));
    assert!(started);

    let (_, started) = follow_launch(&HashSet::new(), &[sample(12, None, "volanta")], "Volanta.exe");
    assert!(started);
    let (_, started) = follow_launch(&HashSet::new(), &[sample(12, None, "Other.exe")], "Volanta.exe");
    assert!(!started);
    assert!(has_process_named(&[sample(1, None, "VOLANTA.EXE")], "volanta"));
}

#[test]
fn the_simulator_needs_a_launch_target() {
    let mut trigger = Trigger { process_name: "X-Plane.exe".into(), label: "X-Plane 12".into(), launch_target: None };
    assert!(matches!(simulator_target(&trigger), Err(AppError::Validation(message)) if message == "X-Plane 12 has no launch target"));
    trigger.launch_target = Some(r"D:\X-Plane 12\X-Plane.EXE".into());
    assert_eq!(simulator_target(&trigger).expect("target"), r"D:\X-Plane 12\X-Plane.EXE");
    assert!(is_exe_target(r"D:\X-Plane 12\X-Plane.EXE"));
    assert!(!is_exe_target("steam://rungameid/2537590"));
}

#[test]
fn failed_links_are_reported_under_the_item_name() {
    let error = rename_launch_failure(launch_failed("opener", "no handler".into()), "SimBrief");
    assert!(matches!(error, AppError::LaunchFailed { name, reason } if name == "SimBrief" && reason == "no handler"));
    let other = rename_launch_failure(AppError::ExecutableNotFound("x".into()), "SimBrief");
    assert!(matches!(other, AppError::ExecutableNotFound(path) if path == "x"));
}

fn trigger_for(process_name: &str, launch_target: &str) -> Trigger {
    Trigger { process_name: process_name.into(), label: "Sim".into(), launch_target: Some(launch_target.into()) }
}

#[test]
fn launcher_running_simulator_is_not_started_again() {
    let running = [sample(40, None, "FlightSimulator2024.exe")];
    let trigger = trigger_for("flightsimulator2024", "/missing/Sim.exe");
    assert_eq!(simulator_start(&trigger, &running).expect("skipped"), None);
}

#[test]
fn launcher_missing_simulator_executable_is_reported() {
    let trigger = trigger_for("NotRunningSim.exe", "/missing/Sim.exe");
    let target = simulator_start(&trigger, &[sample(1, None, "Other.exe")]).expect("a target").expect("not running");
    assert_eq!(target, "/missing/Sim.exe");
    assert!(matches!(target_opening(&target, false), Err(AppError::ExecutableNotFound(path)) if path == "/missing/Sim.exe"));
}

#[test]
fn a_simulator_without_a_target_cannot_start_unless_it_runs() {
    let trigger = Trigger { process_name: "X-Plane.exe".into(), label: "X-Plane 12".into(), launch_target: None };
    assert!(matches!(simulator_start(&trigger, &[]), Err(AppError::Validation(message)) if message == "X-Plane 12 has no launch target"));
    assert_eq!(simulator_start(&trigger, &[sample(3, None, "X-Plane.exe")]).expect("running"), None);
}

#[test]
fn launch_targets_open_as_programs_or_links() {
    assert_eq!(
        target_opening("/sims/X-Plane 12/X-Plane.EXE", true).expect("program"),
        TargetOpening::Program { exe_path: "/sims/X-Plane 12/X-Plane.EXE".into(), working_dir: "/sims/X-Plane 12".into() }
    );
    assert_eq!(
        target_opening("steam://rungameid/2537590", false).expect("link"),
        TargetOpening::Link("steam://rungameid/2537590".into())
    );
    assert_eq!(
        target_opening(r"shell:AppsFolder\Microsoft.Limitless_8wekyb3d8bbwe!App", true).expect("link"),
        TargetOpening::Link(r"shell:AppsFolder\Microsoft.Limitless_8wekyb3d8bbwe!App".into())
    );
}
