use autostart::closer::CloseTarget;
use autostart::models::{
    AppItem, ItemRuntime, ItemStatus, LaunchItem, OnClose, ProcessNameMode, Profile, TimelineKind,
    Trigger, UrlItem,
};
use autostart::monitor::session::{saturated_millis, Session, StartMode};

fn app(name: &str, on_close: OnClose, enabled: bool) -> LaunchItem {
    LaunchItem::App(AppItem {
        id: name.into(),
        name: name.into(),
        exe_path: format!("C:\\{name}.exe"),
        args: None,
        working_dir: None,
        process_name: format!("{name}.exe"),
        process_name_mode: ProcessNameMode::Auto,
        icon_base64: None,
        delay_ms: 0,
        run_as_admin: false,
        start_minimized: false,
        wait_for_sim_connect: false,
        restart_on_crash: false,
        on_close,
        enabled,
        launch_before_simulator: false,
        only_for_triggers: Vec::new(),
    })
}

fn msfs() -> Trigger {
    Trigger {
        process_name: "FlightSimulator2024.exe".into(),
        label: "MSFS 2024".into(),
        launch_target: None,
    }
}

fn xplane() -> Trigger {
    Trigger { process_name: "X-Plane.exe".into(), label: "X-Plane 12".into(), launch_target: None }
}

fn profile() -> Profile {
    Profile {
        id: "profile".into(),
        name: "MSFS".into(),
        triggers: vec![msfs()],
        items: vec![
            app("launched", OnClose::Graceful, true),
            app("preexisting", OnClose::Graceful, true),
            app("kept", OnClose::Keep, true),
            app("disabled", OnClose::Force, false),
            LaunchItem::Url(UrlItem {
                id: "site".into(),
                name: "Site".into(),
                url: "https://example.com".into(),
                delay_ms: 0,
                enabled: true,
                only_for_triggers: Vec::new(),
            }),
        ],
        enabled: true,
    }
}

fn runtime(item_id: &str, status: ItemStatus, launched_by_app: bool) -> ItemRuntime {
    ItemRuntime { item_id: item_id.into(), status, launched_by_app, error: None }
}

fn session_after_launch() -> Session {
    let mut session = Session::start(profile(), StartMode::Detected(msfs()));
    session.update(runtime("launched", ItemStatus::Running, true));
    session.update(runtime("preexisting", ItemStatus::Skipped, false));
    session.update(runtime("kept", ItemStatus::Running, true));
    session.update(runtime("site", ItemStatus::Running, true));
    session
}

fn target_ids(targets: &[CloseTarget]) -> Vec<&str> {
    targets.iter().map(|target| target.item_id.as_str()).collect()
}

fn restricted_to(trigger: &Trigger) -> Profile {
    let mut profile = Profile { triggers: vec![msfs(), xplane()], ..profile() };
    if let Some(LaunchItem::App(app)) = profile.items.first_mut() {
        app.only_for_triggers = vec![trigger.process_name.clone()];
    }
    profile
}

#[test]
fn start_tracks_only_enabled_items_as_pending() {
    let session = Session::start(profile(), StartMode::Detected(msfs()));

    let ids: Vec<&str> = session.items().iter().map(|r| r.item_id.as_str()).collect();
    assert_eq!(ids, ["launched", "preexisting", "kept", "site"]);
    assert!(session.items().iter().all(|r| r.status == ItemStatus::Pending));
    assert_eq!(session.log().entries[0].kind, TimelineKind::SessionStarted);
}

#[test]
fn item_for_another_simulator_has_no_runtime_and_is_never_closed() {
    let mut session = Session::start(restricted_to(&xplane()), StartMode::Detected(msfs()));
    session.assume_all_launched();

    assert!(session.runtime("launched").is_none());
    assert!(!target_ids(&session.close_targets(false)).contains(&"launched"));
    assert!(session.enabled_items().iter().all(|item| item.id() != "launched"));
}

#[test]
fn item_for_the_running_simulator_takes_part() {
    let session = Session::start(restricted_to(&msfs()), StartMode::Detected(msfs()));

    assert!(session.runtime("launched").is_some());
}

#[test]
fn test_sessions_include_items_for_every_simulator() {
    let session = Session::start(restricted_to(&xplane()), StartMode::Test);

    assert!(session.runtime("launched").is_some());
}

#[test]
fn close_only_launched_skips_preexisting_urls_and_disabled_items() {
    let targets = session_after_launch().close_targets(true);

    assert_eq!(target_ids(&targets), ["launched", "kept"]);
}

#[test]
fn closing_everything_still_ignores_urls_and_disabled_items() {
    let targets = session_after_launch().close_targets(false);

    assert_eq!(target_ids(&targets), ["launched", "preexisting", "kept"]);
}

#[test]
fn closing_status_keeps_launched_flag() {
    let mut session = session_after_launch();
    session.update(runtime("launched", ItemStatus::Closing, false));

    assert_eq!(target_ids(&session.close_targets(true)), ["launched", "kept"]);
}

#[test]
fn assume_all_launched_targets_every_enabled_app() {
    let mut session = Session::start(profile(), StartMode::Test);
    session.assume_all_launched();

    assert_eq!(target_ids(&session.close_targets(true)), ["launched", "preexisting", "kept"]);
}

#[test]
fn timeline_resolves_item_names_and_finish_sets_end_time() {
    let mut session = Session::start(profile(), StartMode::Detected(msfs()));
    let entry = session.record(TimelineKind::Launched, Some("launched"), None);
    session.finish();

    assert_eq!(entry.item_name.as_deref(), Some("launched"));
    assert!(session.log().ended_at_ms.is_some());
    assert_eq!(session.log().entries.last().map(|e| e.kind), Some(TimelineKind::SessionEnded));
}

#[test]
fn learned_name_is_used_to_close_the_session() {
    let mut session = Session::start(profile(), StartMode::Detected(msfs()));
    session.assume_all_launched();

    assert!(session.learn_process_name("launched", "Volanta.exe"));
    let target = session
        .close_targets(true)
        .into_iter()
        .find(|target| target.item_id == "launched")
        .expect("launched item is a close target");
    assert_eq!(target.process_name, "Volanta.exe");
}

#[test]
fn learning_keeps_manual_names_and_ignores_unchanged_ones() {
    let mut manual = profile();
    if let Some(LaunchItem::App(app)) = manual.items.first_mut() {
        app.process_name_mode = ProcessNameMode::Manual;
    }
    let mut session = Session::start(manual, StartMode::Detected(msfs()));

    assert!(!session.learn_process_name("launched", "Volanta.exe"));
    assert!(!session.learn_process_name("preexisting", "preexisting.exe"));
    assert!(!session.learn_process_name("missing", "Volanta.exe"));
}

#[test]
fn simconnect_follows_the_trigger_that_started_the_session() {
    let mixed = Profile { triggers: vec![msfs(), xplane()], ..profile() };

    assert!(Session::start(mixed.clone(), StartMode::Detected(msfs())).supports_simconnect());
    assert!(!Session::start(mixed.clone(), StartMode::Detected(xplane())).supports_simconnect());
    assert!(Session::start(mixed, StartMode::Test).supports_simconnect());
}

#[test]
fn relaunch_is_allowed_only_in_real_unfinished_sessions() {
    let mut real = Session::start(profile(), StartMode::Detected(msfs()));
    let mut test = Session::start(profile(), StartMode::Test);
    test.set_relaunch_allowed(true);

    assert!(real.relaunch_allowed());
    assert!(!test.relaunch_allowed());

    real.set_relaunch_allowed(false);
    assert!(!real.relaunch_allowed());
    real.set_relaunch_allowed(true);
    real.finish();
    assert!(!real.relaunch_allowed());
}

#[test]
fn flight_sessions_allow_relaunch_while_the_simulator_starts() {
    let session = Session::start(profile(), StartMode::Flight(msfs()));

    assert!(session.relaunch_allowed());
    assert!(!session.is_test());
}

#[test]
fn relaunched_item_stays_marked_as_launched_by_autostart() {
    let mut session = session_after_launch();
    session.update(runtime("preexisting", ItemStatus::Restarting, false));
    session.update(runtime("preexisting", ItemStatus::Running, true));

    assert_eq!(target_ids(&session.close_targets(true)), ["launched", "preexisting", "kept"]);
    assert_eq!(
        session.runtime("preexisting").map(|runtime| runtime.status),
        Some(ItemStatus::Running)
    );
}

#[test]
fn clock_readings_saturate_and_a_clock_before_1970_reads_zero() {
    assert_eq!(saturated_millis(Some(1_700_000_000_123)), 1_700_000_000_123);
    assert_eq!(saturated_millis(Some(u64::MAX as u128 + 5)), u64::MAX);
    assert_eq!(saturated_millis(None), 0);
}
