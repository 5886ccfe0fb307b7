use autostart::error::AppError;
use autostart::models::{AppItem, LaunchItem, OnClose, ProcessNameMode, Profile, ProfilesUpdate, SessionLog, Settings, Trigger};
use autostart::state::AppState;
use autostart::storage::{example_profile, profiles_or_example};

fn state() -> AppState {
    AppState::load(profiles_or_example(Vec::new()), Settings::default(), None, Vec::new())
}

fn xplane_profile() -> Profile {
    Profile {
        name: "X-Plane".into(),
        triggers: vec![Trigger { process_name: "X-Plane.exe".into(), label: "X-Plane 12".into(), launch_target: None }],
        ..example_profile()
    }
}

fn enabled_names(update: &ProfilesUpdate) -> Vec<&str> {
    update.profiles.iter().filter(|profile| profile.enabled).map(|profile| profile.name.as_str()).collect()
}

#[test]
fn first_load_enables_example_profile() {
    let state = state();

    assert!(state.profiles()[0].enabled);
}

#[test]
fn new_profile_for_a_watched_simulator_is_created_disabled() {
    let mut state = state();
    let copy = Profile { name: "MSFS copy".into(), ..example_profile() };

    let update = state.save_profile(copy).expect("save");

    assert_eq!(enabled_names(&update), ["MSFS 2024"]);
    assert!(update.disabled_profile_ids.is_empty());
}

#[test]
fn new_profile_for_another_simulator_stays_enabled() {
    let mut state = state();

    let update = state.save_profile(xplane_profile()).expect("save");

    assert_eq!(enabled_names(&update), ["MSFS 2024", "X-Plane"]);
}

#[test]
fn enabling_a_profile_disables_the_one_sharing_its_trigger() {
    let mut state = state();
    let original = state.profiles()[0].clone();
    let offline = Profile { name: "MSFS Offline".into(), ..example_profile() };
    let offline_id = offline.id.clone();
    state.save_profile(offline).expect("save");

    let update = state.set_profile_enabled(&offline_id, true).expect("enable");

    assert_eq!(enabled_names(&update), ["MSFS Offline"]);
    assert_eq!(update.disabled_profile_ids, [original.id]);
}

#[test]
fn adding_a_trigger_to_an_enabled_profile_disables_the_conflicting_one() {
    let mut state = state();
    let msfs = state.profiles()[0].clone();
    let xplane = state.save_profile(xplane_profile()).expect("save").profiles[1].clone();

    let mut widened = msfs.clone();
    widened.triggers.push(xplane.triggers[0].clone());
    let update = state.save_profile(widened).expect("save");

    assert_eq!(enabled_names(&update), ["MSFS 2024"]);
    assert_eq!(update.disabled_profile_ids, [xplane.id]);
}

#[test]
fn deleting_a_profile_keeps_the_others_as_they_were() {
    let mut state = state();
    let original = state.profiles()[0].clone();
    state.save_profile(xplane_profile()).expect("save");

    let profiles = state.delete_profile(&original.id).expect("delete");

    assert_eq!(profiles.len(), 1);
    assert!(profiles[0].enabled);
}

#[test]
fn load_disables_profiles_sharing_a_trigger_with_the_legacy_active_one() {
    let online = Profile { name: "Online".into(), ..example_profile() };
    let offline = Profile { name: "Offline".into(), ..example_profile() };

    let state = AppState::load(vec![offline, online.clone()], Settings::default(), Some(online.id.clone()), Vec::new());

    let enabled: Vec<String> = state.profiles().into_iter().filter(|profile| profile.enabled).map(|profile| profile.name).collect();
    assert_eq!(enabled, ["Online"]);
}

fn finished_session(is_test: bool) -> SessionLog {
    SessionLog {
        profile_id: "profile".into(),
        profile_name: "MSFS".into(),
        is_test,
        started_at_ms: 1,
        ended_at_ms: Some(2),
        entries: Vec::new(),
    }
}

#[test]
fn recorded_sessions_survive_a_restart_until_cleared() {
    let mut state = state();
    state.record_session(finished_session(false));
    state.record_session(finished_session(true));

    let reload = |state: &AppState| AppState::load(state.profiles(), state.settings(), None, state.session_history());
    assert_eq!(reload(&state).session_history().len(), 2);

    state.clear_session_history();
    assert!(state.session_history().is_empty());
    assert!(reload(&state).session_history().is_empty());
}

#[test]
fn last_profile_cannot_be_deleted() {
    let mut state = state();
    let only = state.profiles()[0].id.clone();

    assert!(matches!(state.delete_profile(&only), Err(AppError::LastProfile)));
}

#[test]
fn unknown_profiles_are_reported() {
    let mut state = state();
    assert!(matches!(state.profile("missing"), Err(AppError::ProfileNotFound(id)) if id == "missing"));
    assert!(matches!(state.delete_profile("missing"), Err(AppError::ProfileNotFound(_))));
    assert!(matches!(state.set_profile_enabled("missing", true), Err(AppError::ProfileNotFound(_))));
    assert!(matches!(state.save_profile(Profile { name: String::new(), ..example_profile() }), Err(AppError::Validation(_))));
}

fn profile_with_app(mode: ProcessNameMode) -> Profile {
    let mut profile = example_profile();
    profile.items = vec![LaunchItem::App(AppItem {
        id: uuid::Uuid::new_v4().to_string(),
        name: "Volanta".into(),
        exe_path: "C:\\Apps\\Volanta\\Launcher.exe".into(),
        args: None,
        working_dir: None,
        process_name: "Launcher.exe".into(),
        process_name_mode: mode,
        icon_base64: None,
        delay_ms: 0,
        run_as_admin: false,
        start_minimized: false,
        wait_for_sim_connect: false,
        restart_on_crash: false,
        on_close: OnClose::Graceful,
        enabled: true,
        launch_before_simulator: false,
        only_for_triggers: Vec::new(),
    })];
    profile
}

fn saved(state: &mut AppState, profile: Profile) -> Profile {
    let id = profile.id.clone();
    state.save_profile(profile).expect("save");
    state.profile(&id).expect("profile")
}

fn first_process_name(profile: &Profile) -> &str {
    match profile.items.first() {
        Some(LaunchItem::App(app)) => &app.process_name,
        _ => "",
    }
}

#[test]
fn learned_name_is_persisted_for_auto_items() {
    let mut state = state();
    let profile = saved(&mut state, profile_with_app(ProcessNameMode::Auto));
    let item_id = profile.items[0].id().to_owned();

    let updated = state.learn_process_name(&profile.id, &item_id, "Volanta.exe").expect("profile changed");

    assert_eq!(first_process_name(&updated), "Volanta.exe");
    assert_eq!(first_process_name(&state.profile(&profile.id).expect("profile")), "Volanta.exe");
}

#[test]
fn learning_ignores_manual_items_and_unknown_ids() {
    let mut state = state();
    let profile = saved(&mut state, profile_with_app(ProcessNameMode::Manual));
    let item_id = profile.items[0].id().to_owned();

    assert!(state.learn_process_name(&profile.id, &item_id, "Volanta.exe").is_none());
    assert!(state.learn_process_name(&profile.id, "missing", "Volanta.exe").is_none());
    assert_eq!(first_process_name(&state.profile(&profile.id).expect("profile")), "Launcher.exe");
}

#[test]
fn settings_are_validated_and_the_system_startup_entry_wins() {
    let mut state = state();
    assert!(state.save_settings(Settings { graceful_timeout_ms: 10, ..Settings::default() }).is_err());
    assert_eq!(state.settings(), Settings::default());

    let synced = state.sync_start_with_windows(true).expect("synced");
    assert!(synced.start_with_windows);
    assert!(state.settings().start_with_windows);
    assert_eq!(state.sync_start_with_windows(true).expect("unchanged"), synced);
}
