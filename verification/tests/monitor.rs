use std::collections::HashSet;

use autostart::error::AppError;
use autostart::models::{
    AppItem, ItemRuntime, ItemStatus, LaunchItem, MonitorState, OnClose, ProcessNameMode, Profile,
    Settings, TimelineKind, Trigger,
};
use autostart::monitor::app_watch::{app_pids, install_dir, minimizes_now, observation_window};
use autostart::monitor::control::{
    close_settings, command_step, ensure_no_session, flight_trigger, observe, plan_flight, CommandStep, MonitorCommand,
};
use autostart::monitor::reporter::Published;
use autostart::monitor::session::{Session, StartMode};
use autostart::monitor::state_machine::{Input, State};
use autostart::process_tracker::ProcessSample;
use autostart::state::AppState;
use autostart::storage::example_profile;

fn app_item(mode: ProcessNameMode, start_minimized: bool) -> AppItem {
    AppItem {
        id: "volanta".into(),
        name: "Volanta".into(),
        exe_path: "/apps/Volanta/Launcher.exe".into(),
        args: None,
        working_dir: None,
        process_name: "Volanta.exe".into(),
        process_name_mode: mode,
        icon_base64: None,
        delay_ms: 0,
        run_as_admin: false,
        start_minimized,
        wait_for_sim_connect: false,
        restart_on_crash: false,
        launch_before_simulator: false,
        only_for_triggers: Vec::new(),
        on_close: OnClose::Graceful,
        enabled: true,
    }
}

fn msfs_with_target() -> Profile {
    let mut profile = example_profile();
    profile.triggers.push(Trigger { process_name: "FlightSimulator.exe".into(), label: "MSFS 2020".into(), launch_target: None });
    profile.triggers[0].launch_target = Some("steam://rungameid/2537590".into());
    profile
}

#[test]
fn a_flight_starts_only_from_idle_with_a_startable_simulator() {
    let profile = msfs_with_target();
    let state = AppState::load(vec![profile.clone()], Settings::default(), None, Vec::new());

    let (planned, trigger) = plan_flight(State::Idle, &state, &profile.id, "flightsimulator2024.EXE").expect("planned");
    assert_eq!(planned.id, profile.id);
    assert_eq!(trigger.label, "MSFS 2024");

    assert!(matches!(plan_flight(State::Closing, &state, &profile.id, "FlightSimulator2024.exe"), Err(AppError::SessionInProgress)));
    assert!(matches!(plan_flight(State::Idle, &state, "missing", "FlightSimulator2024.exe"), Err(AppError::ProfileNotFound(_))));
    assert!(matches!(
        flight_trigger(&profile, "FlightSimulator.exe"),
        Err(AppError::Validation(message)) if message == "FlightSimulator.exe has no launch target"
    ));
    assert!(flight_trigger(&profile, "X-Plane.exe").is_err());
}

#[test]
fn tests_wait_for_real_sessions_and_close_with_the_settings() {
    assert!(ensure_no_session(State::Idle).is_ok());
    assert!(ensure_no_session(State::Paused).is_ok());
    assert!(matches!(ensure_no_session(State::Closing), Err(AppError::SessionInProgress)));
    assert_eq!(close_settings(&Settings::default()), (true, 5_000));
}

#[test]
fn a_poll_reports_the_simulator_of_the_watched_profile() {
    let profile = example_profile();
    let profiles = vec![profile.clone()];
    let msfs = |name: &str| name == "FlightSimulator2024.exe";
    let nothing = |_: &str| false;

    let seen = observe(State::Idle, None, &profiles, msfs);
    assert_eq!(seen.input, Some(Input::TriggerSeen));
    assert!(matches!(seen.pending, Some((p, StartMode::Detected(t))) if p.id == profile.id && t.process_name == "FlightSimulator2024.exe"));

    let missing = observe(State::Idle, None, &profiles, nothing);
    assert_eq!(missing.input, Some(Input::TriggerMissing));
    assert!(missing.pending.is_none());

    assert!(observe(State::Paused, None, &profiles, msfs).input.is_none());

    let session = Session::start(profile.clone(), StartMode::Flight(profile.triggers[0].clone()));
    let starting = State::SimStarting { remaining_ticks: 3 };
    assert_eq!(observe(starting, Some(&session), &profiles, msfs).input, Some(Input::TriggerSeen));
    assert_eq!(observe(starting, Some(&session), &profiles, nothing).input, Some(Input::TriggerMissing));
}

#[test]
fn apps_are_watched_to_learn_their_name_or_minimize_them() {
    assert_eq!(observation_window(&app_item(ProcessNameMode::Auto, false)), Some(30_000));
    assert_eq!(observation_window(&app_item(ProcessNameMode::Manual, true)), Some(10_000));
    assert_eq!(observation_window(&app_item(ProcessNameMode::Manual, false)), None);
    assert!(minimizes_now(&app_item(ProcessNameMode::Manual, true), 9_999));
    assert!(!minimizes_now(&app_item(ProcessNameMode::Manual, true), 10_000));
    assert_eq!(install_dir(&app_item(ProcessNameMode::Auto, false)), "/apps/Volanta");

    let samples = [
        ProcessSample { pid: 1, parent_pid: None, name: "Launcher.exe".into(), exe_path: None, start_time: 0 },
        ProcessSample { pid: 2, parent_pid: None, name: "volanta".into(), exe_path: None, start_time: 0 },
        ProcessSample { pid: 3, parent_pid: None, name: "Other.exe".into(), exe_path: None, start_time: 0 },
    ];
    let pids = app_pids(&app_item(ProcessNameMode::Auto, false), &HashSet::from([1]), &samples);
    assert_eq!(pids, HashSet::from([1, 2]));
}

#[test]
fn the_window_follows_the_attached_session() {
    let mut published = Published::new(None);
    assert_eq!(published.snapshot().state, MonitorState::Idle);
    assert_eq!(published.set_state(MonitorState::SimRunning).state, MonitorState::SimRunning);

    let mut profile = example_profile();
    profile.items = vec![LaunchItem::App(app_item(ProcessNameMode::Auto, false))];
    let mut session = Session::start(profile.clone(), StartMode::Test);
    let (snapshot, last) = published.attach(&session);
    assert_eq!(snapshot.session_profile_id.as_deref(), Some(profile.id.as_str()));
    assert!(snapshot.is_test_session);
    assert_eq!(snapshot.items.len(), 1);
    assert_eq!(last.map(|entry| entry.kind), Some(TimelineKind::SessionStarted));

    let runtime = ItemRuntime { item_id: "volanta".into(), status: ItemStatus::Running, launched_by_app: true, error: None };
    let snapshot = published.item(&mut session, runtime);
    assert_eq!(snapshot.items[0].status, ItemStatus::Running);

    let entry = published.timeline(&mut session, TimelineKind::Launched, Some("volanta"), None);
    assert_eq!(entry.item_name.as_deref(), Some("Volanta"));
    let (ended, log) = published.finish(&mut session);
    assert_eq!(ended.kind, TimelineKind::SessionEnded);
    assert!(log.ended_at_ms.is_some());
    assert_eq!(published.session_log().map(|log| log.entries.len()), Some(3));
}

#[test]
fn commands_map_to_what_the_monitor_does() {
    assert_eq!(command_step(MonitorCommand::CancelStart), CommandStep::Apply(Input::SimulatorFailed));
    assert_eq!(command_step(MonitorCommand::SimulatorFailed), CommandStep::Apply(Input::SimulatorFailed));
    assert_eq!(command_step(MonitorCommand::Pause), CommandStep::Apply(Input::Pause));
    assert_eq!(command_step(MonitorCommand::Resume), CommandStep::Apply(Input::Resume));
    assert_eq!(command_step(MonitorCommand::CloseNow), CommandStep::Apply(Input::CloseNow));
    assert_eq!(command_step(MonitorCommand::KeepApps), CommandStep::Apply(Input::KeepApps));
    assert_eq!(
        command_step(MonitorCommand::ClosingFinished),
        CommandStep::ClearSessionThenApply(Input::ClosingFinished)
    );
    assert_eq!(
        command_step(MonitorCommand::StartFlight { profile_id: "p".into(), trigger_process_name: "Sim.exe".into() }),
        CommandStep::PlanFlight { profile_id: "p".into(), trigger_process_name: "Sim.exe".into() }
    );
    assert_eq!(command_step(MonitorCommand::TestLaunch { profile_id: "p".into() }), CommandStep::TestLaunch { profile_id: "p".into() });
    assert_eq!(command_step(MonitorCommand::TestClose { profile_id: "p".into() }), CommandStep::TestClose { profile_id: "p".into() });
}

#[test]
fn timeline_lines_carry_the_item_name_error_and_detail() {
    let mut published = Published::new(None);
    let mut profile = example_profile();
    profile.items = vec![LaunchItem::App(app_item(ProcessNameMode::Auto, false))];
    let mut session = Session::start(profile, StartMode::Test);
    published.attach(&session);
    let error = AppError::SimConnectUnavailable;
    let entry = published.timeline(&mut session, TimelineKind::Error, Some("volanta"), Some(&error));
    assert_eq!(entry.item_name.as_deref(), Some("Volanta"));
    assert_eq!(entry.error.map(|payload| payload.message), Some(error.message()));
    assert_eq!(entry.detail, None);
    let delayed = published.timeline_detail(&mut session, TimelineKind::CloseDelayed, None, "60".into());
    assert_eq!(delayed.detail.as_deref(), Some("60"));
    assert_eq!(delayed.item_name, None);
    assert_eq!(published.session_log().map(|log| log.entries.len()), Some(3));
}
