use autostart::error::{AppError, ErrorKind};
use autostart::launcher::LaunchOutcome;
use autostart::models::{AppItem, ItemStatus, LaunchItem, OnClose, ProcessNameMode, Profile, Trigger};
use autostart::monitor::crash_watch::{
    crash_verdict, crash_watch_step, exit_code_text, kept_crashing, may_relaunch, relaunch_result, relaunchable_item,
    CrashWatchStep, Verdict,
};
use autostart::monitor::session::{Session, StartMode};

#[test]
fn no_verdict_while_a_process_runs_or_none_was_seen() {
    assert_eq!(crash_verdict(&[]), None);
    assert_eq!(crash_verdict(&[None]), None);
    assert_eq!(crash_verdict(&[Some(0xC000_0005), None]), None);
}

#[test]
fn exit_code_zero_is_a_normal_close() {
    assert_eq!(crash_verdict(&[Some(0), Some(0)]), Some(Verdict::ClosedNormally));
}

#[test]
fn any_failing_exit_code_is_a_crash() {
    assert_eq!(crash_verdict(&[Some(0), Some(0xC000_0005)]), Some(Verdict::Crashed { exit_code: 0xC000_0005 }));
    assert_eq!(crash_verdict(&[Some(1)]), Some(Verdict::Crashed { exit_code: 1 }));
}

#[test]
fn relaunches_stop_after_the_third() {
    assert!(may_relaunch(0));
    assert!(may_relaunch(2));
    assert!(!may_relaunch(3));
}

#[test]
fn exit_codes_are_written_in_hexadecimal() {
    assert_eq!(exit_code_text(0xC000_0005), "0xc0000005");
    assert_eq!(exit_code_text(0), "0x0");
    assert_eq!(exit_code_text(255), "0xff");
}

fn profile() -> Profile {
    Profile {
        id: "profile".into(),
        name: "MSFS".into(),
        triggers: vec![Trigger { process_name: "FlightSimulator2024.exe".into(), label: "MSFS 2024".into(), launch_target: None }],
        items: vec![LaunchItem::App(AppItem {
            id: "volanta".into(),
            name: "Volanta".into(),
            exe_path: "C:\\Volanta\\Volanta.exe".into(),
            args: None,
            working_dir: None,
            process_name: "Volanta.exe".into(),
            process_name_mode: ProcessNameMode::Auto,
            icon_base64: None,
            delay_ms: 0,
            run_as_admin: false,
            start_minimized: false,
            wait_for_sim_connect: false,
            restart_on_crash: true,
            launch_before_simulator: false,
            only_for_triggers: Vec::new(),
            on_close: OnClose::Graceful,
            enabled: true,
        })],
        enabled: true,
    }
}

#[test]
fn only_real_unfinished_sessions_reopen_their_items() {
    let mut session = Session::start(profile(), StartMode::Detected(profile().triggers[0].clone()));
    assert_eq!(relaunchable_item(&session, "volanta").map(|item| item.name), Some("Volanta".into()));
    assert!(relaunchable_item(&session, "missing").is_none());
    session.set_relaunch_allowed(false);
    assert!(relaunchable_item(&session, "volanta").is_none());

    let test = Session::start(profile(), StartMode::Test);
    assert!(relaunchable_item(&test, "volanta").is_none());
}

#[test]
fn an_app_that_keeps_crashing_is_named_in_the_error() {
    let session = Session::start(profile(), StartMode::Test);
    assert!(matches!(kept_crashing(&session, "volanta"), AppError::KeptCrashing(name) if name == "Volanta"));
    assert!(matches!(kept_crashing(&session, "missing"), AppError::KeptCrashing(name) if name.is_empty()));
}

#[test]
fn a_relaunch_keeps_watching_unless_it_failed() {
    let (runtime, watching) = relaunch_result(&LaunchOutcome::Launched, "volanta");
    assert_eq!((runtime.status, runtime.launched_by_app, watching), (ItemStatus::Running, true, true));
    let (runtime, watching) = relaunch_result(&LaunchOutcome::AlreadyRunning, "volanta");
    assert_eq!((runtime.status, runtime.launched_by_app, watching), (ItemStatus::Running, false, true));
    let failed = LaunchOutcome::Failed(AppError::ExecutableNotFound("C:\\Volanta\\Volanta.exe".into()));
    let (runtime, watching) = relaunch_result(&failed, "volanta");
    assert_eq!((runtime.status, watching), (ItemStatus::Error, false));
    assert_eq!(runtime.error.map(|payload| payload.kind), Some(ErrorKind::ExecutableNotFound));
}

#[test]
fn a_crash_is_reopened_three_times_then_given_up() {
    let crash = Some(Verdict::Crashed { exit_code: 0xC000_0005 });
    assert_eq!(crash_watch_step(crash, true, 0), CrashWatchStep::Relaunch);
    assert_eq!(crash_watch_step(crash, true, 2), CrashWatchStep::Relaunch);
    assert_eq!(crash_watch_step(crash, true, 3), CrashWatchStep::GiveUp);
}

#[test]
fn the_watch_stops_after_a_normal_close_or_outside_a_running_session() {
    let crash = Some(Verdict::Crashed { exit_code: 1 });
    assert_eq!(crash_watch_step(crash, false, 0), CrashWatchStep::Stop);
    assert_eq!(crash_watch_step(crash, false, 3), CrashWatchStep::Stop);
    assert_eq!(crash_watch_step(Some(Verdict::ClosedNormally), true, 0), CrashWatchStep::Stop);
    assert_eq!(crash_watch_step(None, true, 0), CrashWatchStep::Stop);
}
