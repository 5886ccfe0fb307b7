use autostart::closer::CloseOutcome;
use autostart::error::AppError;
use autostart::launcher::LaunchOutcome;
use autostart::models::{AppItem, ItemStatus, LaunchItem, OnClose, ProcessNameMode, TimelineKind, UrlItem};
use autostart::monitor::runner::{
    simconnect_wait, split_flight_phases, split_launch_phases, status, watches_crashes, SimConnectWait,
};

fn app(id: &str, wait_for_sim_connect: bool) -> LaunchItem {
    LaunchItem::App(AppItem {
        id: id.into(),
        name: id.into(),
        exe_path: format!("C:\\{id}.exe"),
        args: None,
        working_dir: None,
        process_name: format!("{id}.exe"),
        process_name_mode: ProcessNameMode::Auto,
        icon_base64: None,
        delay_ms: 0,
        run_as_admin: false,
        start_minimized: false,
        wait_for_sim_connect,
        restart_on_crash: false,
        launch_before_simulator: false,
        only_for_triggers: Vec::new(),
        on_close: OnClose::Graceful,
        enabled: true,
    })
}

fn url(id: &str) -> LaunchItem {
    LaunchItem::Url(UrlItem {
        id: id.into(),
        name: id.into(),
        url: "https://simbrief.com".into(),
        delay_ms: 0,
        enabled: true,
        only_for_triggers: Vec::new(),
    })
}

fn ids(items: &[LaunchItem]) -> Vec<&str> {
    items.iter().map(LaunchItem::id).collect()
}

#[test]
fn simconnect_items_go_last_keeping_their_order() {
    let (immediate, deferred) = split_launch_phases(vec![app("a", false), app("b", true), url("c"), app("d", true)]);

    assert_eq!(ids(&immediate), ["a", "c"]);
    assert_eq!(ids(&deferred), ["b", "d"]);
}

#[test]
fn without_simconnect_items_there_is_a_single_phase() {
    let (immediate, deferred) = split_launch_phases(vec![app("a", false), url("b")]);

    assert_eq!(ids(&immediate), ["a", "b"]);
    assert!(deferred.is_empty());
}

#[test]
fn crash_watching_needs_the_option_and_a_real_session() {
    let mut item = app("a", false);
    assert!(!watches_crashes(&item, false));
    if let LaunchItem::App(app) = &mut item {
        app.restart_on_crash = true;
    }
    assert!(watches_crashes(&item, false));
    assert!(!watches_crashes(&item, true));
    assert!(!watches_crashes(&url("b"), false));
}

#[test]
fn tests_skip_the_simconnect_wait() {
    assert_eq!(simconnect_wait(false, false), SimConnectWait::NotSupported);
    assert_eq!(simconnect_wait(true, true), SimConnectWait::SkippedForTest);
    assert_eq!(simconnect_wait(true, false), SimConnectWait::Wait);
}

#[test]
fn outcomes_become_runtimes_and_timeline_lines() {
    let waiting = status("a", ItemStatus::WaitingSimConnect);
    assert_eq!((waiting.item_id.as_str(), waiting.status, waiting.launched_by_app), ("a", ItemStatus::WaitingSimConnect, false));

    assert_eq!(LaunchOutcome::Launched.timeline_kind(), TimelineKind::Launched);
    assert_eq!(LaunchOutcome::AlreadyRunning.timeline_kind(), TimelineKind::Skipped);
    let launched = LaunchOutcome::Launched.into_runtime("a");
    assert_eq!((launched.status, launched.launched_by_app), (ItemStatus::Running, true));
    let skipped = LaunchOutcome::AlreadyRunning.into_runtime("a");
    assert_eq!((skipped.status, skipped.launched_by_app), (ItemStatus::Skipped, false));
    let failed = LaunchOutcome::Failed(AppError::ProcessNotDetected("a.exe".into()));
    assert_eq!(failed.timeline_kind(), TimelineKind::Error);
    assert_eq!(failed.into_runtime("a").status, ItemStatus::Error);

    assert_eq!(CloseOutcome::Kept.timeline_kind(), TimelineKind::Kept);
    assert_eq!(CloseOutcome::ForceClosed.timeline_kind(), TimelineKind::ForceClosed);
    assert_eq!(CloseOutcome::Kept.into_runtime("a").status, ItemStatus::Skipped);
    assert_eq!(CloseOutcome::NotRunning.into_runtime("a").status, ItemStatus::Closed);
}

fn before_simulator(id: &str) -> LaunchItem {
    match app(id, false) {
        LaunchItem::App(mut item) => {
            item.launch_before_simulator = true;
            LaunchItem::App(item)
        }
        other => other,
    }
}

#[test]
fn apps_opening_before_the_simulator_go_first_keeping_their_order() {
    let items = vec![app("a", false), before_simulator("tracker"), url("brief"), before_simulator("panel"), app("b", true)];
    let (before, after) = split_flight_phases(items);
    assert_eq!(ids(&before), vec!["tracker", "panel"]);
    assert_eq!(ids(&after), vec!["a", "brief", "b"]);
}
